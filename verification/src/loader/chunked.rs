//! Reading a file in chunks that grow.
//!
//! The first chunks are small, so that the user sees lines at once. Later ones are larger,
//! because each is merged with all lines before it.

use crate::config::DltTimestampSource;
use crate::filetype;
use crate::filetype::btsnoop::{BtsnoopFileType, BtsnoopLogLine};
use crate::filetype::dlt::file;
use crate::filetype::dlt::file::DltFileType;
use crate::filetype::dlt::line;
use crate::filetype::dlt::line::DltLogLine;
use crate::filetype::dlt::reader::{BatchView, DltRead};
use crate::filetype::dlt::state::{DltFileState, DltStateView};
use crate::filetype::pcap::line::{PcapFileState, PcapLogLine};
use crate::filetype::pcap::reader;
use crate::filetype::pcap::reader::PcapFileType;
use crate::filetype::{LineType, SimpleFileState};
use crate::store::source;
use crate::store::source::SourceData;
use crate::text;
use vstd::arithmetic::power2;
use vstd::prelude::*;

verus! {

/// How large the chunks are in which a file is read.
#[derive(Debug, Clone, Copy, PartialEq, Eq, Structural)]
pub struct ChunkedLoader {
    /// How many lines are asked for first.
    pub initial_chunk_size: usize,
    /// How many lines are asked for at most, once chunks have grown.
    pub max_chunk_size: usize,
    /// After how many chunks the size doubles.
    pub chunks_before_growth: usize,
}

/// How far a file was read.
#[derive(Debug, Clone, Copy, PartialEq, Eq, Structural)]
pub struct LoadState {
    pub chunk_size: usize,
    pub chunk_count: usize,
}

/// What happens while a file is read.
#[derive(Debug)]
pub enum LoadEvent<L> {
    /// The next chunk may be read, unless the user cancelled it.
    Ready { cancelled: bool },
    /// Lines were read; none at the end of the file.
    Lines(Vec<L>),
    /// The file could not be read.
    Failed(String),
}

/// What is to be done next.
#[derive(Debug)]
pub enum LoadAction {
    /// Read as many lines.
    Read(usize),
    /// Tell the user how far the file was read, and go on.
    Report { status: String },
    /// The file is read, or reading was cancelled; says whether there are lines.
    Done { loaded: bool },
    /// End with an error.
    Fail { error: String },
}

/// What the user is told while a file is read.
pub open spec fn loading_text(file_name: Seq<char>, lines: nat) -> Seq<char> {
    "Loading "@ + file_name + "\u{2026} ("@ + text::dec(lines) + " lines)"@
}

/// The smaller of two numbers.
pub open spec fn smaller(a: int, b: int) -> int {
    if a <= b {
        a
    } else {
        b
    }
}

impl ChunkedLoader {
    /// The chunks in which log files are read.
    pub fn standard() -> (r: Self)
        ensures
            r.initial_chunk_size == 8192,
            r.max_chunk_size == 262144,
            r.chunks_before_growth == 3,
    {
        ChunkedLoader {
            initial_chunk_size: 8192,
            max_chunk_size: 262144,
            chunks_before_growth: 3,
        }
    }

    /// How far a file was read once another chunk was.
    pub open spec fn grown(&self, state: LoadState) -> LoadState {
        let count = (state.chunk_count + 1) % (usize::MAX + 1);
        let doubles = if self.chunks_before_growth == 0 {
            count == 0
        } else {
            count % self.chunks_before_growth as int == 0
        };
        LoadState {
            chunk_count: count as usize,
            chunk_size: if doubles && state.chunk_size < self.max_chunk_size {
                smaller(
                    (state.chunk_size * 2) % (usize::MAX + 1),
                    self.max_chunk_size as int,
                ) as usize
            } else {
                state.chunk_size
            },
        }
    }

    /// Nothing was read yet.
    pub open spec fn first(&self) -> LoadState {
        LoadState { chunk_size: self.initial_chunk_size, chunk_count: 0 }
    }

    /// How far a file was read after as many chunks.
    pub open spec fn after(&self, chunks: nat) -> LoadState
        decreases chunks,
    {
        if chunks == 0 {
            self.first()
        } else {
            self.grown(self.after((chunks - 1) as nat))
        }
    }

    /// Begins to read a file.
    pub fn start(&self) -> (r: LoadState)
        ensures
            r == self.first(),
    {
        LoadState { chunk_size: self.initial_chunk_size, chunk_count: 0 }
    }

    fn grow(&self, state: &mut LoadState)
        ensures
            *final(state) == self.grown(*old(state)),
    {
        proof {
            if state.chunk_count < usize::MAX {
                vstd::arithmetic::div_mod::lemma_small_mod(
                    (state.chunk_count + 1) as nat,
                    (usize::MAX + 1) as nat,
                );
            } else {
                vstd::arithmetic::div_mod::lemma_mod_self_0(usize::MAX + 1);
            }
        }
        state.chunk_count = state.chunk_count.wrapping_add(1);
        let doubles = if self.chunks_before_growth == 0 {
            state.chunk_count == 0
        } else {
            state.chunk_count % self.chunks_before_growth == 0
        };
        if doubles && state.chunk_size < self.max_chunk_size {
            let twice: usize = state.chunk_size.wrapping_mul(2);
            state.chunk_size = if twice <= self.max_chunk_size {
                twice
            } else {
                self.max_chunk_size
            };
        }
    }

    /// Decides what an event leads to. A caller can do other work between the steps.
    pub fn step<L: LineType>(
        &self,
        state: &mut LoadState,
        source: &mut SourceData<L>,
        file_name: &str,
        event: LoadEvent<L>,
    ) -> (r: LoadAction)
        requires
            old(source).wf(),
            event matches LoadEvent::Lines(lines) ==> {
                &&& old(source).lines().len() + lines@.len() <= usize::MAX
                &&& source::times_defined(
                    old(source).lines() + lines@,
                    old(source).settings(),
                    old(source).state(),
                )
            },
        ensures
            final(source).wf(),
            old(source).in_time_order() ==> final(source).in_time_order(),
            match event {
                LoadEvent::Ready { cancelled } => {
                    &&& *final(source) == *old(source)
                    &&& *final(state) == *old(state)
                    &&& if cancelled || old(source).cancel_flag() {
                        r == (LoadAction::Done { loaded: old(source).lines().len() > 0 })
                    } else {
                        r == LoadAction::Read(old(state).chunk_size)
                    }
                },
                LoadEvent::Lines(lines) => if lines@.len() == 0 {
                    &&& *final(source) == *old(source)
                    &&& *final(state) == *old(state)
                    &&& r == (LoadAction::Done { loaded: old(source).lines().len() > 0 })
                } else {
                    &&& final(source).lines() == old(source).lines() + lines@
                    &&& final(source).same_file(old(source))
                    &&& final(source).settings() == old(source).settings()
                    &&& final(source).state() == old(source).state()
                    &&& final(source).marks() == old(source).marks()
                    &&& final(source).current_version() == source::bumped(
                        old(source).current_version(),
                    )
                    &&& *final(state) == self.grown(*old(state))
                    &&& r matches LoadAction::Report { status }
                    &&& status@ == loading_text(file_name@, final(source).lines().len())
                },
                LoadEvent::Failed(e) => {
                    &&& *final(source) == *old(source)
                    &&& *final(state) == *old(state)
                    &&& r matches LoadAction::Fail { error }
                    &&& error@ == "Read error: "@ + e@
                },
            },
    {
        match event {
            LoadEvent::Ready { cancelled } => {
                if cancelled || source.is_cancelled() {
                    LoadAction::Done { loaded: !source.is_empty() }
                } else {
                    LoadAction::Read(state.chunk_size)
                }
            },
            LoadEvent::Lines(lines) => {
                if lines.len() == 0 {
                    return LoadAction::Done { loaded: !source.is_empty() };
                }
                source.append_lines(lines);
                self.grow(state);
                let mut status = String::from_str("Loading ");
                status.append(file_name);
                status.append("\u{2026} (");
                text::push_dec(&mut status, source.len() as u64);
                status.append(" lines)");
                LoadAction::Report { status }
            },
            LoadEvent::Failed(e) => {
                let mut error = String::from_str("Read error: ");
                error.append(e.as_str());
                LoadAction::Fail { error }
            },
        }
    }
}

/// A log file that hands its lines out in chunks.
pub trait InputFileType: Sized {
    type Line: LineType;

    /// How much of the file is left.
    spec fn left(&self) -> nat;

    /// Whether as many lines can be asked for.
    spec fn can_read(&self, wanted: usize) -> bool;

    /// Whether asking for lines gives some, and leaves the file and what is kept for it so.
    spec fn reads_to(
        &self,
        wanted: usize,
        state: <Self::Line as LineType>::FileState,
        after: Self,
        state_after: <Self::Line as LineType>::FileState,
        lines: Seq<Self::Line>,
    ) -> bool;

    /// Whether all that the times of lines go by is known.
    spec fn settled(
        lines: Seq<Self::Line>,
        state: <Self::Line as LineType>::FileState,
    ) -> bool;

    /// Reading on moves no settled line, and the lines that are read are settled too.
    proof fn reading_moves_no_line(
        &self,
        wanted: usize,
        state: <Self::Line as LineType>::FileState,
        after: Self,
        state_after: <Self::Line as LineType>::FileState,
        read: Seq<Self::Line>,
        lines: Seq<Self::Line>,
        config: <Self::Line as LineType>::Config,
    )
        requires
            self.reads_to(wanted, state, after, state_after, read),
            Self::settled(lines, state),
        ensures
            Self::settled(lines, state_after),
            Self::settled(lines + read, state_after),
            source::line_times(lines, config, state_after) == source::line_times(
                lines,
                config,
                state,
            ),
    ;

    /// Decides whether as many lines can be asked for.
    fn check_read(&self, wanted: usize) -> (r: bool)
        ensures
            r == self.can_read(wanted),
    ;

    /// Hands the next lines out; none at the end of the file.
    fn read_lines(
        &mut self,
        wanted: usize,
        state: &mut <Self::Line as LineType>::FileState,
    ) -> (r: Vec<Self::Line>)
        requires
            old(self).can_read(wanted),
        ensures
            old(self).reads_to(wanted, *old(state), *final(self), *final(state), r@),
            r@.len() > 0 ==> final(self).left() < old(self).left(),
    ;
}

impl InputFileType for DltFileType {
    type Line = DltLogLine;

    open spec fn left(&self) -> nat {
        (self.bytes().len() - self.position()) as nat
    }

    open spec fn can_read(&self, wanted: usize) -> bool {
        wanted * 10 + 64 <= usize::MAX && self.next_line() + wanted <= usize::MAX
    }

    open spec fn reads_to(
        &self,
        wanted: usize,
        state: DltFileState,
        after: Self,
        state_after: DltFileState,
        lines: Seq<DltLogLine>,
    ) -> bool {
        DltFileType::reads_to(self, wanted, state@, after, state_after@, lines)
    }

    /// The start times of all senders that tell the time since then are known.
    open spec fn settled(lines: Seq<DltLogLine>, state: DltFileState) -> bool {
        line::are_seeded(lines, state@)
    }

    proof fn reading_moves_no_line(
        &self,
        wanted: usize,
        state: DltFileState,
        after: Self,
        state_after: DltFileState,
        read: Seq<DltLogLine>,
        lines: Seq<DltLogLine>,
        config: DltTimestampSource,
    ) {
        let (reads, places, batches, states) = choose|
            reads: Seq<DltRead>,
            places: Seq<int>,
            batches: Seq<BatchView>,
            states: Seq<DltStateView>,
        |
            {
                &&& #[trigger] file::is_run(self.bytes(), reads, places, batches, states)
                &&& places[0] == self.position()
                &&& places.last() == after.position()
                &&& batches[0] == crate::filetype::dlt::reader::empty_batch(
                    wanted,
                    self.next_line(),
                )
                &&& !batches.last().wants_more()
                &&& batches.last().lines == read
                &&& batches.last().line_number == after.next_line()
                &&& states[0] == state@
                &&& states.last() == state_after@
            };
        file::reading_only_seeds(self.bytes(), reads, places, batches, states);
        assert forall|i: int| 0 <= i < lines.len() implies (#[trigger] lines[i]).is_seeded(
            state_after@,
        ) && lines[i].time(config, state_after) == lines[i].time(config, state) by {
            line::seeding_moves_no_line(lines[i], config, state@, state_after@);
        }
        assert(source::line_times(lines, config, state_after) =~= source::line_times(
            lines,
            config,
            state,
        ));
        assert(line::are_seeded(lines + read, state_after@));
    }

    fn check_read(&self, wanted: usize) -> (r: bool) {
        wanted <= (usize::MAX - 64) / 10 && wanted <= usize::MAX - self.line_number()
    }

    fn read_lines(&mut self, wanted: usize, state: &mut DltFileState) -> (r: Vec<DltLogLine>) {
        self.read(wanted, state)
    }
}

impl InputFileType for BtsnoopFileType {
    type Line = BtsnoopLogLine;

    open spec fn left(&self) -> nat {
        (self.lines().len() - self.position()) as nat
    }

    open spec fn can_read(&self, wanted: usize) -> bool {
        self.position() + wanted <= usize::MAX
    }

    open spec fn reads_to(
        &self,
        wanted: usize,
        state: SimpleFileState,
        after: Self,
        state_after: SimpleFileState,
        lines: Seq<BtsnoopLogLine>,
    ) -> bool {
        &&& state_after == state
        &&& after.lines() == self.lines()
        &&& after.position() == filetype::next_position(
            self.position() as int,
            wanted,
            self.lines().len() as int,
        )
        &&& lines == self.lines().subrange(self.position() as int, after.position() as int)
    }

    /// Times go by nothing that the file tells.
    open spec fn settled(lines: Seq<BtsnoopLogLine>, state: SimpleFileState) -> bool {
        true
    }

    proof fn reading_moves_no_line(
        &self,
        wanted: usize,
        state: SimpleFileState,
        after: Self,
        state_after: SimpleFileState,
        read: Seq<BtsnoopLogLine>,
        lines: Seq<BtsnoopLogLine>,
        config: <BtsnoopLogLine as LineType>::Config,
    ) {
    }

    fn check_read(&self, wanted: usize) -> (r: bool) {
        wanted <= usize::MAX - self.progress().0
    }

    fn read_lines(&mut self, wanted: usize, state: &mut SimpleFileState) -> (r: Vec<
        BtsnoopLogLine,
    >) {
        self.read(wanted)
    }
}

impl InputFileType for PcapFileType {
    type Line = PcapLogLine;

    open spec fn left(&self) -> nat {
        (self.lines().len() - self.position()) as nat
    }

    open spec fn can_read(&self, wanted: usize) -> bool {
        self.position() + wanted <= usize::MAX
    }

    open spec fn reads_to(
        &self,
        wanted: usize,
        state: PcapFileState,
        after: Self,
        state_after: PcapFileState,
        lines: Seq<PcapLogLine>,
    ) -> bool {
        &&& state_after == state
        &&& after.lines() == self.lines()
        &&& after.position() == filetype::next_position(
            self.position() as int,
            wanted,
            self.lines().len() as int,
        )
        &&& reader::line_views(lines) == self.lines().subrange(
            self.position() as int,
            after.position() as int,
        )
    }

    /// Times go by nothing that the file tells.
    open spec fn settled(lines: Seq<PcapLogLine>, state: PcapFileState) -> bool {
        true
    }

    proof fn reading_moves_no_line(
        &self,
        wanted: usize,
        state: PcapFileState,
        after: Self,
        state_after: PcapFileState,
        read: Seq<PcapLogLine>,
        lines: Seq<PcapLogLine>,
        config: <PcapLogLine as LineType>::Config,
    ) {
    }

    fn check_read(&self, wanted: usize) -> (r: bool) {
        wanted <= usize::MAX - self.progress().0
    }

    fn read_lines(&mut self, wanted: usize, state: &mut PcapFileState) -> (r: Vec<PcapLogLine>) {
        let r = self.read(wanted);
        assert(reader::line_views(r@).len() == r@.len());
        r
    }
}

/// How the reading of a file ends.
#[derive(Debug, Clone, Copy, PartialEq, Eq, Structural)]
pub enum LoadEnd {
    /// The file is read, or reading was cancelled; says whether there are lines.
    Done { loaded: bool },
    /// The calendar has no date for the time of a line, or there are too many lines.
    OutOfRange,
}

/// Whether chunks were read one after the other, in the sizes that a loader asks for; only
/// the last can be empty.
pub open spec fn is_loading<F: InputFileType>(
    loader: ChunkedLoader,
    inputs: Seq<F>,
    states: Seq<<F::Line as LineType>::FileState>,
    chunks: Seq<Seq<F::Line>>,
) -> bool {
    &&& inputs.len() == chunks.len() + 1
    &&& states.len() == chunks.len() + 1
    &&& forall|i: int|
        0 <= i < chunks.len() ==> inputs[i].reads_to(
            loader.after(i as nat).chunk_size,
            states[i],
            inputs[i + 1],
            states[i + 1],
            #[trigger] chunks[i],
        )
    &&& forall|i: int| 0 <= i < chunks.len() - 1 ==> (#[trigger] chunks[i]).len() > 0
}

proof fn lemma_loading_step<F: InputFileType>(
    loader: ChunkedLoader,
    inputs: Seq<F>,
    states: Seq<<F::Line as LineType>::FileState>,
    chunks: Seq<Seq<F::Line>>,
    input: F,
    state: <F::Line as LineType>::FileState,
    chunk: Seq<F::Line>,
)
    requires
        is_loading(loader, inputs, states, chunks),
        forall|i: int| 0 <= i < chunks.len() ==> (#[trigger] chunks[i]).len() > 0,
        inputs.last().reads_to(
            loader.after(chunks.len()).chunk_size,
            states.last(),
            input,
            state,
            chunk,
        ),
    ensures
        is_loading(loader, inputs.push(input), states.push(state), chunks.push(chunk)),
        chunks.push(chunk).flatten() == chunks.flatten() + chunk,
{
    let (a, b, c) = (inputs.push(input), states.push(state), chunks.push(chunk));
    assert forall|i: int| 0 <= i < c.len() implies a[i].reads_to(
        loader.after(i as nat).chunk_size,
        b[i],
        a[i + 1],
        b[i + 1],
        #[trigger] c[i],
    ) by {
        if i < chunks.len() {
            assert(c[i] == chunks[i]);
        }
    }
    assert forall|i: int| 0 <= i < c.len() - 1 implies (#[trigger] c[i]).len() > 0 by {
        assert(c[i] == chunks[i]);
    }
    c.lemma_flatten_and_flatten_alt_are_equivalent();
    chunks.lemma_flatten_and_flatten_alt_are_equivalent();
    assert(c.drop_last() =~= chunks);
}

fn all_timed<L: LineType>(lines: &Vec<L>, config: &L::Config, state: &L::FileState) -> (r: bool)
    ensures
        r == source::times_defined(lines@, *config, *state),
{
    let mut i: usize = 0;
    while i < lines.len()
        invariant
            i <= lines@.len(),
            forall|k: int|
                0 <= k < i ==> (#[trigger] lines@[k]).time_defined(*config, *state),
        decreases lines.len() - i,
    {
        if !lines[i].has_time(config, state) {
            assert(!lines@[i as int].time_defined(*config, *state));
            return false;
        }
        i += 1;
    }
    true
}

impl ChunkedLoader {
    /// Reads a file in growing chunks into a source, and reports after each. Nothing is read
    /// once reading was cancelled. Lines that stand in the order of time, and of whose times
    /// nothing is left to be learnt, stay so; those of a new source do.
    pub fn run<F, C, R>(
        &self,
        input: &mut F,
        source: &mut SourceData<F::Line>,
        file_name: &str,
        is_cancelled: &C,
        report: &R,
    ) -> (r: LoadEnd) where F: InputFileType, C: Fn() -> bool, R: Fn(String)
        requires
            old(source).wf(),
            call_requires(*is_cancelled, ()),
            forall|s: String| #[trigger] call_requires(*report, (s,)),
        ensures
            final(source).wf(),
            final(source).same_file(old(source)),
            final(source).settings() == old(source).settings(),
            final(source).marks() == old(source).marks(),
            old(source).in_time_order() && F::settled(old(source).lines(), old(source).state())
                ==> final(source).in_time_order() && F::settled(
                final(source).lines(),
                final(source).state(),
            ),
            exists|
                inputs: Seq<F>,
                states: Seq<<F::Line as LineType>::FileState>,
                chunks: Seq<Seq<F::Line>>,
            |
                {
                    &&& #[trigger] is_loading(*self, inputs, states, chunks)
                    &&& inputs[0] == *old(input)
                    &&& inputs.last() == *final(input)
                    &&& states[0] == old(source).state()
                    &&& states.last() == final(source).state()
                    &&& chunks.len() > 0 || r is OutOfRange ==> !old(source).cancel_flag()
                        && call_ensures(*is_cancelled, (), false)
                    &&& match r {
                        LoadEnd::Done { loaded } => {
                            &&& loaded == (final(source).lines().len() > 0)
                            &&& final(source).lines() == old(source).lines() + chunks.flatten()
                            &&& {
                                ||| old(source).cancel_flag()
                                ||| call_ensures(*is_cancelled, (), true)
                                ||| chunks.len() > 0 && chunks.last().len() == 0
                            }
                        },
                        LoadEnd::OutOfRange => {
                            ||| {
                                &&& !(*final(input)).can_read(self.after(chunks.len()).chunk_size)
                                &&& final(source).lines() == old(source).lines()
                                    + chunks.flatten()
                            }
                            ||| {
                                &&& chunks.len() > 0
                                &&& !can_take(
                                    *final(source),
                                    final(source).lines() + chunks.last(),
                                )
                                &&& final(source).lines() == old(source).lines()
                                    + chunks.drop_last().flatten()
                            }
                        },
                    }
                },
    {
        let mut state = self.start();
        let ghost mut inputs: Seq<F> = seq![*input];
        let ghost mut states: Seq<<F::Line as LineType>::FileState> = seq![source.state()];
        let ghost mut chunks: Seq<Seq<F::Line>> = Seq::empty();
        proof {
            chunks.lemma_flatten_and_flatten_alt_are_equivalent();
            assert(source.lines() + chunks.flatten() =~= source.lines());
        }
        loop
            invariant
                call_requires(*is_cancelled, ()),
                forall|s: String| #[trigger] call_requires(*report, (s,)),
                source.wf(),
                source.same_file(old(source)),
                source.settings() == old(source).settings(),
                source.marks() == old(source).marks(),
                source.lines() == old(source).lines() + chunks.flatten(),
                state == self.after(chunks.len()),
                is_loading(*self, inputs, states, chunks),
                forall|i: int| 0 <= i < chunks.len() ==> (#[trigger] chunks[i]).len() > 0,
                inputs[0] == *old(input),
                inputs.last() == *input,
                states[0] == old(source).state(),
                states.last() == source.state(),
                chunks.len() > 0 ==> !old(source).cancel_flag() && call_ensures(
                    *is_cancelled,
                    (),
                    false,
                ),
                old(source).in_time_order() && F::settled(
                    old(source).lines(),
                    old(source).state(),
                ) ==> source.in_time_order() && F::settled(source.lines(), source.state()),
            decreases input.left(),
        {
            let cancelled = is_cancelled();
            let wanted: usize = match self.step(
                &mut state,
                source,
                file_name,
                LoadEvent::Ready { cancelled },
            ) {
                LoadAction::Read(n) => n,
                _ => {
                    assert(is_loading(*self, inputs, states, chunks));
                    return LoadEnd::Done { loaded: !source.is_empty() };
                },
            };
            if !input.check_read(wanted) {
                assert(is_loading(*self, inputs, states, chunks));
                return LoadEnd::OutOfRange;
            }
            let ghost before = (inputs, states, chunks);
            let ghost old_lines = source.lines();
            let lines = input.read_lines(wanted, source.file_state_mut());
            let ghost chunk = lines@;
            proof {
                lemma_loading_step(
                    *self,
                    before.0,
                    before.1,
                    before.2,
                    *input,
                    source.state(),
                    chunk,
                );
                inputs = inputs.push(*input);
                states = states.push(source.state());
                chunks = chunks.push(chunk);
                assert(chunks.last() == chunk);
                assert(chunks.drop_last() =~= before.2);
                if F::settled(old_lines, before.1.last()) {
                    before.0.last().reading_moves_no_line(
                        wanted,
                        before.1.last(),
                        *input,
                        source.state(),
                        chunk,
                        old_lines,
                        source.settings(),
                    );
                }
            }
            let fits = lines.len() <= usize::MAX - source.len();
            if !fits || !source.check_timed() || !all_timed(
                &lines,
                source.config(),
                source.file_state(),
            ) {
                proof {
                    let all = source.lines() + chunk;
                    if can_take(*source, all) {
                        assert(fits);
                        assert forall|i: int| 0 <= i < source.lines().len() implies (
                        #[trigger] source.lines()[i]).time_defined(
                            source.settings(),
                            source.state(),
                        ) by {
                            assert(all[i] == source.lines()[i]);
                        }
                        assert forall|i: int| 0 <= i < chunk.len() implies (
                        #[trigger] chunk[i]).time_defined(source.settings(), source.state()) by {
                            assert(all[source.lines().len() + i] == chunk[i]);
                        }
                    }
                    assert(is_loading(*self, inputs, states, chunks));
                }
                return LoadEnd::OutOfRange;
            }
            assert(source::times_defined(
                source.lines() + chunk,
                source.settings(),
                source.state(),
            ));
            match self.step(&mut state, source, file_name, LoadEvent::Lines(lines)) {
                LoadAction::Report { status } => {
                    report(status);
                    assert(source.lines() =~= old(source).lines() + chunks.flatten());
                },
                _ => {
                    assert(old_lines + chunk =~= old_lines);
                    assert(source.lines() =~= old(source).lines() + chunks.flatten());
                    assert(is_loading(*self, inputs, states, chunks));
                    return LoadEnd::Done { loaded: !source.is_empty() };
                },
            }
        }
    }
}

/// Whether a source can have lines: the calendar has dates for their times, and there are
/// not too many.
pub open spec fn can_take<L: LineType>(source: SourceData<L>, lines: Seq<L>) -> bool {
    &&& lines.len() <= usize::MAX
    &&& source::times_defined(lines, source.settings(), source.state())
}

/// The size of chunks starts at the initial size, doubles every time as many chunks were
/// read as the loader says, and grows no further than the largest size.
pub proof fn chunks_grow_to_the_maximum(loader: ChunkedLoader, chunks: nat)
    requires
        0 < loader.initial_chunk_size <= loader.max_chunk_size,
        loader.max_chunk_size <= usize::MAX / 2,
        loader.chunks_before_growth > 0,
        chunks <= usize::MAX,
    ensures
        loader.after(chunks).chunk_count == chunks,
        loader.after(chunks).chunk_size == smaller(
            loader.initial_chunk_size * power2::pow2(
                chunks / loader.chunks_before_growth as nat,
            ),
            loader.max_chunk_size as int,
        ),
    decreases chunks,
{
    let g = loader.chunks_before_growth as int;
    let first = loader.initial_chunk_size as int;
    let max = loader.max_chunk_size as int;
    if chunks == 0 {
        power2::lemma2_to64();
        assert(0int / g == 0) by (nonlinear_arith)
            requires
                g > 0,
        ;
    } else {
        let before = (chunks - 1) as nat;
        chunks_grow_to_the_maximum(loader, before);
        let state = loader.after(before);
        vstd::arithmetic::div_mod::lemma_small_mod(chunks, (usize::MAX + 1) as nat);
        vstd::arithmetic::div_mod::lemma_small_mod(
            (state.chunk_size * 2) as nat,
            (usize::MAX + 1) as nat,
        );
        let q = before as int / g;
        vstd::arithmetic::div_mod::lemma_fundamental_div_mod(before as int, g);
        vstd::arithmetic::div_mod::lemma_fundamental_div_mod(chunks as int, g);
        vstd::arithmetic::div_mod::lemma_mod_bound(before as int, g);
        vstd::arithmetic::div_mod::lemma_mod_bound(chunks as int, g);
        let p = power2::pow2(q as nat) as int;
        vstd::arithmetic::div_mod::lemma_div_pos_is_pos(before as int, g);
        power2::lemma_pow2_pos(q as nat);
        if chunks as int % g == 0 {
            let c = chunks as int / g;
            assert(c == q + 1) by (nonlinear_arith)
                requires
                    g > 0,
                    chunks as int == g * c,
                    before as int == g * q + before as int % g,
                    0 <= before as int % g < g,
                    chunks == before + 1,
            ;
            power2::lemma_pow2_unfold(c as nat);
            assert(first * (2 * p) == 2 * (first * p)) by (nonlinear_arith);
        } else {
            let c = chunks as int / g;
            assert(c == q) by (nonlinear_arith)
                requires
                    g > 0,
                    chunks as int == g * c + chunks as int % g,
                    0 < chunks as int % g < g,
                    before as int == g * q + before as int % g,
                    0 <= before as int % g < g,
                    chunks == before + 1,
            ;
        }
    }
}

/// A user who waits for a file sees its name and how many lines were read.
pub proof fn waiting_users_see_the_lines(file_name: Seq<char>, lines: nat)
    ensures
        loading_text(file_name, lines) == "Loading "@ + file_name + "\u{2026} ("@ + text::dec(lines)
            + " lines)"@,
{
}

/// Chunks begin at the first size and never shrink, each is at most twice as large as the
/// one before it, and none that grew is larger than the largest.
pub proof fn chunks_never_shrink(loader: ChunkedLoader, chunks: nat)
    requires
        loader.max_chunk_size <= usize::MAX / 2,
        chunks < usize::MAX,
    ensures
        loader.after(0).chunk_size == loader.initial_chunk_size,
        loader.after(chunks).chunk_count == chunks,
        loader.after(chunks).chunk_size <= loader.after(chunks + 1).chunk_size,
        loader.after(chunks + 1).chunk_size <= loader.after(chunks).chunk_size * 2,
        loader.after(chunks + 1).chunk_size != loader.after(chunks).chunk_size ==> {
            &&& loader.after(chunks + 1).chunk_size <= loader.max_chunk_size
            &&& loader.chunks_before_growth > 0
            &&& (chunks + 1) % (loader.chunks_before_growth as nat) == 0
        },
        loader.chunks_before_growth > 0 && (chunks + 1) % (loader.chunks_before_growth as nat) == 0
            && loader.after(chunks).chunk_size * 2 <= loader.max_chunk_size ==> loader.after(
            chunks + 1,
        ).chunk_size == loader.after(chunks).chunk_size * 2,
        loader.chunks_before_growth > 0 && (chunks + 1) % (loader.chunks_before_growth as nat) == 0
            && loader.after(chunks).chunk_size <= loader.max_chunk_size < loader.after(
            chunks,
        ).chunk_size * 2 ==> loader.after(chunks + 1).chunk_size == loader.max_chunk_size,
    decreases chunks,
{
    if chunks > 0 {
        chunks_never_shrink(loader, (chunks - 1) as nat);
    }
    let now = loader.after(chunks);
    assert(now.chunk_count == chunks) by {
        if chunks > 0 {
            let before = loader.after((chunks - 1) as nat);
            assert(before.chunk_count == chunks - 1);
            vstd::arithmetic::div_mod::lemma_small_mod(chunks, (usize::MAX + 1) as nat);
        }
    }
    let next = loader.after(chunks + 1);
    assert(next == loader.grown(now));
    vstd::arithmetic::div_mod::lemma_small_mod(chunks + 1, (usize::MAX + 1) as nat);
    if now.chunk_size < loader.max_chunk_size {
        vstd::arithmetic::div_mod::lemma_small_mod(
            (now.chunk_size * 2) as nat,
            (usize::MAX + 1) as nat,
        );
    }
}

proof fn lemma_bluetooth_chunks(
    loader: ChunkedLoader,
    inputs: Seq<BtsnoopFileType>,
    states: Seq<SimpleFileState>,
    chunks: Seq<Seq<BtsnoopLogLine>>,
    k: nat,
)
    requires
        is_loading(loader, inputs, states, chunks),
        inputs[0].position() == 0,
        k <= chunks.len(),
    ensures
        inputs[k as int].lines() == inputs[0].lines(),
        states[k as int] == states[0],
        inputs[k as int].position() <= inputs[0].lines().len(),
        chunks.take(k as int).flatten() == inputs[0].lines().take(
            inputs[k as int].position() as int,
        ),
    decreases k,
{
    let all = inputs[0].lines();
    chunks.take(k as int).lemma_flatten_and_flatten_alt_are_equivalent();
    if k == 0 {
        assert(chunks.take(0).flatten() =~= all.take(0));
    } else {
        lemma_bluetooth_chunks(loader, inputs, states, chunks, (k - 1) as nat);
        chunks.take(k - 1).lemma_flatten_and_flatten_alt_are_equivalent();
        assert(chunks.take(k as int).drop_last() =~= chunks.take(k - 1));
        let chunk = chunks[k - 1];
        assert(inputs[k - 1].reads_to(
            loader.after((k - 1) as nat).chunk_size,
            states[k - 1],
            inputs[k - 1 + 1],
            states[k - 1 + 1],
            chunk,
        ));
        let (from, to) = (inputs[k - 1].position() as int, inputs[k as int].position() as int);
        assert(chunk == all.subrange(from, to));
        assert(all.take(from) + all.subrange(from, to) =~= all.take(to));
        assert(chunks.take(k as int).last() == chunk);
    }
}

/// A Bluetooth log that is read in chunks until none is left is read whole: its lines come
/// out one after the other, none twice and none left out, and what is kept for it stays as
/// it was.
pub proof fn bluetooth_logs_are_read_whole(
    loader: ChunkedLoader,
    inputs: Seq<BtsnoopFileType>,
    states: Seq<SimpleFileState>,
    chunks: Seq<Seq<BtsnoopLogLine>>,
)
    requires
        is_loading(loader, inputs, states, chunks),
        inputs[0].position() == 0,
    ensures
        states.last() == states[0],
        forall|k: int|
            0 <= k < chunks.len() ==> (#[trigger] chunks[k]).len() <= loader.after(
                k as nat,
            ).chunk_size,
        inputs.last().position() <= inputs[0].lines().len(),
        chunks.flatten() == inputs[0].lines().take(inputs.last().position() as int),
        chunks.len() > 0 && chunks.last().len() == 0 && loader.after(
            (chunks.len() - 1) as nat,
        ).chunk_size > 0 ==> chunks.flatten() == inputs[0].lines(),
{
    let n = chunks.len();
    let all = inputs[0].lines();
    lemma_bluetooth_chunks(loader, inputs, states, chunks, n);
    assert(chunks.take(n as int) =~= chunks);
    assert forall|k: int| 0 <= k < chunks.len() implies (#[trigger] chunks[k]).len()
        <= loader.after(k as nat).chunk_size by {
        lemma_bluetooth_chunks(loader, inputs, states, chunks, k as nat);
    }
    if n > 0 && chunks.last().len() == 0 && loader.after((n - 1) as nat).chunk_size > 0 {
        lemma_bluetooth_chunks(loader, inputs, states, chunks, (n - 1) as nat);
        assert(inputs[n - 1].reads_to(
            loader.after((n - 1) as nat).chunk_size,
            states[n - 1],
            inputs[n - 1 + 1],
            states[n - 1 + 1],
            chunks[n - 1],
        ));
        assert(inputs[n as int].position() == all.len());
        assert(all.take(all.len() as int) =~= all);
    }
}

proof fn lemma_capture_chunks(
    loader: ChunkedLoader,
    inputs: Seq<PcapFileType>,
    states: Seq<PcapFileState>,
    chunks: Seq<Seq<PcapLogLine>>,
    k: nat,
)
    requires
        is_loading(loader, inputs, states, chunks),
        inputs[0].position() == 0,
        k <= chunks.len(),
    ensures
        inputs[k as int].lines() == inputs[0].lines(),
        states[k as int] == states[0],
        inputs[k as int].position() <= inputs[0].lines().len(),
        reader::line_views(chunks.take(k as int).flatten()) == inputs[0].lines().take(
            inputs[k as int].position() as int,
        ),
    decreases k,
{
    let all = inputs[0].lines();
    chunks.take(k as int).lemma_flatten_and_flatten_alt_are_equivalent();
    if k == 0 {
        assert(chunks.take(0).flatten() =~= Seq::empty());
        assert(reader::line_views(Seq::empty()) =~= all.take(0));
    } else {
        lemma_capture_chunks(loader, inputs, states, chunks, (k - 1) as nat);
        chunks.take(k - 1).lemma_flatten_and_flatten_alt_are_equivalent();
        assert(chunks.take(k as int).drop_last() =~= chunks.take(k - 1));
        let chunk = chunks[k - 1];
        assert(inputs[k - 1].reads_to(
            loader.after((k - 1) as nat).chunk_size,
            states[k - 1],
            inputs[k - 1 + 1],
            states[k - 1 + 1],
            chunk,
        ));
        let (from, to) = (inputs[k - 1].position() as int, inputs[k as int].position() as int);
        let before = chunks.take(k - 1).flatten();
        assert(chunks.take(k as int).last() == chunk);
        assert(chunks.take(k as int).flatten() == before + chunk);
        assert(reader::line_views(chunk) == all.subrange(from, to));
        assert(reader::line_views(before + chunk) =~= reader::line_views(before)
            + reader::line_views(chunk));
        assert(all.take(from) + all.subrange(from, to) =~= all.take(to));
    }
}

/// A capture that is read in chunks until none is left is read whole: its lines come out
/// one after the other, none twice and none left out.
pub proof fn captures_are_read_whole(
    loader: ChunkedLoader,
    inputs: Seq<PcapFileType>,
    states: Seq<PcapFileState>,
    chunks: Seq<Seq<PcapLogLine>>,
)
    requires
        is_loading(loader, inputs, states, chunks),
        inputs[0].position() == 0,
    ensures
        states.last() == states[0],
        inputs.last().position() <= inputs[0].lines().len(),
        reader::line_views(chunks.flatten()) == inputs[0].lines().take(
            inputs.last().position() as int,
        ),
        chunks.len() > 0 && chunks.last().len() == 0 && loader.after(
            (chunks.len() - 1) as nat,
        ).chunk_size > 0 ==> reader::line_views(chunks.flatten()) == inputs[0].lines(),
{
    let n = chunks.len();
    let all = inputs[0].lines();
    lemma_capture_chunks(loader, inputs, states, chunks, n);
    assert(chunks.take(n as int) =~= chunks);
    if n > 0 && chunks.last().len() == 0 && loader.after((n - 1) as nat).chunk_size > 0 {
        lemma_capture_chunks(loader, inputs, states, chunks, (n - 1) as nat);
        assert(inputs[n - 1].reads_to(
            loader.after((n - 1) as nat).chunk_size,
            states[n - 1],
            inputs[n - 1 + 1],
            states[n - 1 + 1],
            chunks[n - 1],
        ));
        assert(reader::line_views(chunks[n - 1]).len() == 0);
        assert(inputs[n as int].position() == all.len());
        assert(all.take(all.len() as int) =~= all);
    }
}

} // verus!
