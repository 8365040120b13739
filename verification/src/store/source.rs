//! One log file: its lines, their order of time and its bookmarks.

use super::ids::StoreID;
use super::order;
use super::scores::ScoreBits;
use crate::filetype;
use crate::filetype::LineType;
use crate::time::{TimeSpan, Timestamp};
use std::collections::HashMap;
use vstd::prelude::*;
use vstd::std_specs::iter::IteratorSpec;

verus! {

/// A line that the user marked with a name.
#[derive(Debug)]
pub struct Bookmark {
    /// The place of the line in its file.
    pub line_index: usize,
    pub name: String,
}

impl Clone for Bookmark {
    fn clone(&self) -> (r: Self)
        ensures
            r == *self,
    {
        Bookmark { line_index: self.line_index, name: self.name.clone() }
    }
}

/// The bookmarks of a list by their lines; of two for one line, the later one.
pub open spec fn bookmark_map(v: Seq<Bookmark>) -> Map<usize, Bookmark>
    decreases v.len(),
{
    if v.len() == 0 {
        Map::empty()
    } else {
        bookmark_map(v.drop_last()).insert(v.last().line_index, v.last())
    }
}

/// A line as it is shown.
#[derive(Debug)]
pub struct LogLine {
    pub timestamp: Timestamp,
    pub message: String,
    pub raw: String,
    /// The number of the line in its file, from 1.
    pub line_number: usize,
    /// How odd the line is.
    pub anomaly_score: ScoreBits,
    /// How odd the scoring service finds the line.
    pub sidecar_anomaly_score: ScoreBits,
    pub sidecar_score_is_unk: bool,
    pub sidecar_score_is_rare: bool,
    pub sidecar_scored: bool,
}

impl LogLine {
    /// The message without details in which messages of one kind differ, as `normalize`
    /// takes them out.
    pub fn template_key<N: Fn(&str) -> String>(&self, normalize: &N) -> (r: String)
        requires
            forall|m: &str| #[trigger] call_requires(*normalize, (m,)),
        ensures
            exists|m: &str| #[trigger]
                call_ensures(*normalize, (m,), r) && m@ == self.message@,
    {
        let m = self.message.as_str();
        let r = normalize(m);
        assert(call_ensures(*normalize, (m,), r));
        r
    }
}

/// One log file.
pub struct SourceData<L: LineType> {
    source_id: u64,
    file_path: String,
    file_name: String,
    lines: Vec<L>,
    by_timestamp: Vec<usize>,
    config: L::Config,
    file_state: L::FileState,
    bookmarks: HashMap<usize, Bookmark>,
    writable: bool,
    version: u64,
    cancel_requested: bool,
}

/// The bookmark of a line.
pub open spec fn mark_at(marks: Map<usize, Bookmark>, line_index: usize) -> Option<Bookmark> {
    if marks.contains_key(line_index) {
        Some(marks[line_index])
    } else {
        None
    }
}

/// Whether each bookmark stands under its line.
pub open spec fn marks_match(marks: Map<usize, Bookmark>) -> bool {
    forall|k: usize| #[trigger] marks.contains_key(k) ==> marks[k].line_index == k
}

/// The next version.
pub open spec fn bumped(version: u64) -> u64 {
    ((version + 1) % 0x1_0000_0000_0000_0000) as u64
}

/// The times of lines.
pub open spec fn line_times<L: LineType>(
    lines: Seq<L>,
    config: L::Config,
    state: L::FileState,
) -> Seq<Timestamp> {
    lines.map_values(|l: L| l.time(config, state))
}

/// Whether the times of lines lie in the range of the calendar.
pub open spec fn times_defined<L: LineType>(
    lines: Seq<L>,
    config: L::Config,
    state: L::FileState,
) -> bool {
    forall|i: int| 0 <= i < lines.len() ==> (#[trigger] lines[i]).time_defined(config, state)
}

/// Whether a line, shown and in full detail, can make a predicate answer `answer`.
pub open spec fn answers<L: LineType, P: Fn(&str, &str) -> bool>(
    line: L,
    config: L::Config,
    state: L::FileState,
    diff: filetype::SpanTexts,
    predicate: P,
    answer: bool,
) -> bool {
    exists|shown: &str, raw: &str|
        line.displays(config, state, diff, shown@) && line.is_raw(raw@) && #[trigger] call_ensures(
            predicate,
            (shown, raw),
            answer,
        )
}

/// The entries of a list for which the answer is yes.
pub open spec fn kept(order: Seq<usize>, answers: Seq<bool>) -> Seq<usize>
    decreases order.len(),
{
    if order.len() == 0 {
        Seq::empty()
    } else if answers[order.len() - 1] {
        kept(order.drop_last(), answers).push(order.last())
    } else {
        kept(order.drop_last(), answers)
    }
}

/// Whether the answers are those of a predicate for lines that are shown one after the
/// other; showing one may change the state for the next.
pub open spec fn is_search<L: LineType, P: Fn(&str, &str) -> bool>(
    lines: Seq<L>,
    order: Seq<usize>,
    config: L::Config,
    states: Seq<L::FileState>,
    diff: filetype::SpanTexts,
    predicate: P,
    results: Seq<bool>,
) -> bool {
    &&& states.len() == results.len() + 1
    &&& forall|i: int|
        0 <= i < results.len() ==> answers(
            lines[order[i] as int],
            config,
            states[i],
            diff,
            predicate,
            #[trigger] results[i],
        ) && lines[order[i] as int].state_after_display(config, states[i], states[i + 1])
}

impl<L: LineType> SourceData<L> {
    pub closed spec fn id(&self) -> u64 {
        self.source_id
    }

    pub closed spec fn path(&self) -> Seq<char> {
        self.file_path@
    }

    pub closed spec fn name(&self) -> Seq<char> {
        self.file_name@
    }

    /// The lines in the order of the file.
    pub closed spec fn lines(&self) -> Seq<L> {
        self.lines@
    }

    /// The places of the lines in the order of their times.
    pub closed spec fn order(&self) -> Seq<usize> {
        self.by_timestamp@
    }

    pub closed spec fn settings(&self) -> L::Config {
        self.config
    }

    pub closed spec fn state(&self) -> L::FileState {
        self.file_state
    }

    /// The bookmarks by the places of their lines.
    pub closed spec fn marks(&self) -> Map<usize, Bookmark> {
        self.bookmarks@
    }

    /// Whether the session file of the source may be written.
    pub closed spec fn is_writable(&self) -> bool {
        self.writable
    }

    pub closed spec fn current_version(&self) -> u64 {
        self.version
    }

    pub closed spec fn cancel_flag(&self) -> bool {
        self.cancel_requested
    }

    /// Each line stands once in the order of time, and each bookmark under its line.
    pub open spec fn wf(&self) -> bool {
        &&& order::is_permutation(self.order(), self.lines().len() as int)
        &&& marks_match(self.marks())
    }

    /// The times of the lines.
    pub open spec fn times(&self) -> Seq<Timestamp> {
        line_times(self.lines(), self.settings(), self.state())
    }

    /// Whether the times of all lines lie in the range of the calendar.
    pub open spec fn is_timed(&self) -> bool {
        times_defined(self.lines(), self.settings(), self.state())
    }

    /// Whether the order is that of the times that the lines have now.
    pub open spec fn in_time_order(&self) -> bool {
        order::is_order_of(self.order(), self.times(), 0, self.lines().len() as int)
    }

    /// Whether only the version and the order of time may differ.
    pub open spec fn same_but_order(&self, other: &Self) -> bool {
        &&& self.same_file(other)
        &&& self.lines() == other.lines()
        &&& self.settings() == other.settings()
        &&& self.state() == other.state()
        &&& self.marks() == other.marks()
    }

    /// Whether the file and the rights to its session are the same.
    pub open spec fn same_file(&self, other: &Self) -> bool {
        &&& self.id() == other.id()
        &&& self.path() == other.path()
        &&& self.name() == other.name()
        &&& self.is_writable() == other.is_writable()
        &&& self.cancel_flag() == other.cancel_flag()
    }

    /// A source without lines, with what its session file held.
    pub fn new(
        source_id: u64,
        file_path: String,
        file_name: String,
        config: L::Config,
        file_state: L::FileState,
        bookmarks: &Vec<Bookmark>,
        writable: bool,
    ) -> (r: Self)
        ensures
            r.wf(),
            r.id() == source_id,
            r.path() == file_path@,
            r.name() == file_name@,
            r.settings() == config,
            r.state() == file_state,
            r.marks() == bookmark_map(bookmarks@),
            r.is_writable() == writable,
            r.lines() == Seq::<L>::empty(),
            r.in_time_order(),
            r.current_version() == 1,
            !r.cancel_flag(),
    {
        broadcast use vstd::std_specs::hash::group_hash_axioms;

        let mut map: HashMap<usize, Bookmark> = HashMap::new();
        let mut i: usize = 0;
        assert(map@ =~= bookmark_map(bookmarks@.take(0)));
        while i < bookmarks.len()
            invariant
                i <= bookmarks@.len(),
                map@ == bookmark_map(bookmarks@.take(i as int)),
                forall|k: usize| #[trigger] map@.contains_key(k) ==> map@[k].line_index == k,
            decreases bookmarks.len() - i,
        {
            broadcast use vstd::std_specs::hash::group_hash_axioms;

            assert(bookmarks@.take(i + 1).drop_last() =~= bookmarks@.take(i as int));
            let b = bookmarks[i].clone();
            map.insert(b.line_index, b);
            i += 1;
        }
        assert(bookmarks@.take(i as int) =~= bookmarks@);
        let r = SourceData {
            source_id,
            file_path,
            file_name,
            lines: Vec::new(),
            by_timestamp: Vec::new(),
            config,
            file_state,
            bookmarks: map,
            writable,
            version: 1,
            cancel_requested: false,
        };
        assert(r.order() =~= order::numbers(0, 0));
        assert(r.lines() =~= Seq::<L>::empty());
        r
    }

    /// The number of the source.
    pub fn source_id(&self) -> (r: u64)
        ensures
            r == self.id(),
    {
        self.source_id
    }

    /// The version, which changes when lines come or their order changes.
    pub fn version(&self) -> (r: u64)
        ensures
            r == self.current_version(),
    {
        self.version
    }

    pub fn file_path(&self) -> (r: &String)
        ensures
            r@ == self.path(),
    {
        &self.file_path
    }

    pub fn file_name(&self) -> (r: &String)
        ensures
            r@ == self.name(),
    {
        &self.file_name
    }

    /// Whether loading or scoring was asked to stop.
    pub fn is_cancelled(&self) -> (r: bool)
        ensures
            r == self.cancel_flag(),
    {
        self.cancel_requested
    }

    /// Whether the session file of the source may be written.
    pub fn can_save(&self) -> (r: bool)
        ensures
            r == self.is_writable(),
    {
        self.writable
    }

    pub fn config(&self) -> (r: &L::Config)
        ensures
            *r == self.settings(),
    {
        &self.config
    }

    pub fn file_state(&self) -> (r: &L::FileState)
        ensures
            *r == self.state(),
    {
        &self.file_state
    }

    /// The state of the file, to be changed. Where times change, the order of time must
    /// be built anew.
    pub fn file_state_mut(&mut self) -> (r: &mut L::FileState)
        ensures
            *r == old(self).state(),
            final(self).state() == *final(r),
            final(self).lines() == old(self).lines(),
            final(self).order() == old(self).order(),
            final(self).settings() == old(self).settings(),
            final(self).marks() == old(self).marks(),
            final(self).current_version() == old(self).current_version(),
            final(self).same_file(old(self)),
    {
        &mut self.file_state
    }

    /// Changes the settings. Where times change, the order of time must be built anew.
    pub fn set_config(&mut self, config: L::Config)
        ensures
            final(self).settings() == config,
            final(self).state() == old(self).state(),
            final(self).lines() == old(self).lines(),
            final(self).order() == old(self).order(),
            final(self).marks() == old(self).marks(),
            final(self).current_version() == old(self).current_version(),
            final(self).same_file(old(self)),
    {
        self.config = config;
    }

    /// Marks a line, in place of an earlier mark.
    pub fn set_bookmark(&mut self, line_index: usize, name: String)
        requires
            old(self).wf(),
        ensures
            final(self).wf(),
            final(self).marks() == old(self).marks().insert(
                line_index,
                Bookmark { line_index, name },
            ),
            final(self).lines() == old(self).lines(),
            final(self).order() == old(self).order(),
            final(self).settings() == old(self).settings(),
            final(self).state() == old(self).state(),
            final(self).current_version() == old(self).current_version(),
            final(self).same_file(old(self)),
    {
        broadcast use vstd::std_specs::hash::group_hash_axioms;

        self.bookmarks.insert(line_index, Bookmark { line_index, name });
        assert forall|k: usize| #[trigger] self.marks().contains_key(k) implies self.marks()[k].line_index
            == k by {
            assert(k == line_index || old(self).marks().contains_key(k));
        }
    }

    /// Takes the mark of a line away, and gives it.
    pub fn remove_bookmark(&mut self, line_index: usize) -> (r: Option<Bookmark>)
        requires
            old(self).wf(),
        ensures
            final(self).wf(),
            r == mark_at(old(self).marks(), line_index),
            final(self).marks() == old(self).marks().remove(line_index),
            final(self).lines() == old(self).lines(),
            final(self).order() == old(self).order(),
            final(self).settings() == old(self).settings(),
            final(self).state() == old(self).state(),
            final(self).current_version() == old(self).current_version(),
            final(self).same_file(old(self)),
    {
        broadcast use vstd::std_specs::hash::group_hash_axioms;

        let r = self.bookmarks.remove(&line_index);
        assert forall|k: usize| #[trigger] self.marks().contains_key(k) implies self.marks()[k].line_index
            == k by {
            assert(old(self).marks().contains_key(k));
        }
        r
    }

    /// Decides whether a line is marked.
    pub fn has_bookmark(&self, line_index: usize) -> (r: bool)
        ensures
            r == self.marks().contains_key(line_index),
    {
        broadcast use vstd::std_specs::hash::group_hash_axioms;

        self.bookmarks.contains_key(&line_index)
    }

    /// The mark of a line.
    pub fn get_bookmark(&self, line_index: usize) -> (r: Option<Bookmark>)
        ensures
            r == mark_at(self.marks(), line_index),
    {
        broadcast use vstd::std_specs::hash::group_hash_axioms;

        match self.bookmarks.get(&line_index) {
            Some(b) => Some(b.clone()),
            None => None,
        }
    }

    /// All marks, each once and in no known order.
    pub fn get_bookmarks(&self) -> (r: Vec<Bookmark>)
        requires
            self.wf(),
        ensures
            is_bookmark_list(self.marks(), r@),
    {
        broadcast use vstd::std_specs::hash::group_hash_axioms;

        let mut out: Vec<Bookmark> = Vec::new();
        let entries = self.bookmarks.iter();
        let ghost v = entries.remaining();
        for entry in it: entries
            invariant
                it.seq() == v,
                out@.len() == it.index(),
                forall|i: int| 0 <= i < out@.len() ==> #[trigger] out@[i] == *v[i].1,
        {
            out.push(entry.1.clone());
        }
        proof {
            assert(out@.len() == v.len());
            assert forall|i: int| 0 <= i < out@.len() implies self.marks().contains_key(
                (#[trigger] out@[i]).line_index,
            ) && self.marks()[out@[i].line_index] == out@[i] by {
                assert(self.marks().contains_key(*v[i].0));
            }
            assert forall|k: usize| #[trigger] self.marks().contains_key(k) implies out@.contains(
                self.marks()[k],
            ) by {
                let i = choose|i: int| 0 <= i < v.len() && v[i] == (&k, &self.marks()[k]);
                assert(v.contains((&k, &self.marks()[k])));
                assert(out@[i] == self.marks()[k]);
            }
            assert forall|i: int, j: int|
                0 <= i < out@.len() && 0 <= j < out@.len() && i != j implies out@[i]
                != out@[j] by {
                assert(self.marks().contains_key(*v[i].0));
                assert(self.marks().contains_key(*v[j].0));
                if out@[i] == out@[j] {
                    assert(*v[i].0 == *v[j].0);
                    assert(v[i] == v[j]);
                }
            }
        }
        out
    }

    /// The number of lines.
    pub fn len(&self) -> (r: usize)
        ensures
            r == self.lines().len(),
    {
        self.lines.len()
    }

    /// Decides whether there are no lines.
    pub fn is_empty(&self) -> (r: bool)
        ensures
            r == (self.lines().len() == 0),
    {
        self.lines.len() == 0
    }

    /// The line at a place.
    pub fn line(&self, line_index: usize) -> (r: Option<&L>)
        ensures
            r == if line_index < self.lines().len() {
                Some(&self.lines()[line_index as int])
            } else {
                None
            },
    {
        if line_index < self.lines.len() {
            Some(&self.lines[line_index])
        } else {
            None
        }
    }

    /// The time of the line at a place.
    pub fn adjusted_timestamp(&self, line_index: usize) -> (r: Option<Timestamp>)
        requires
            self.is_timed(),
        ensures
            r == if line_index < self.lines().len() {
                Some(self.times()[line_index as int])
            } else {
                None
            },
            r matches Some(t) ==> t.valid(),
    {
        if line_index < self.lines.len() {
            assert(self.lines()[line_index as int].time_defined(self.settings(), self.state()));
            Some(self.lines[line_index].timestamp(&self.config, &self.file_state))
        } else {
            None
        }
    }

    /// Decides whether the times of all lines lie in the range of the calendar.
    pub fn check_timed(&self) -> (r: bool)
        ensures
            r == self.is_timed(),
    {
        self.check_timed_with(&self.config)
    }

    /// Decides whether the times of all lines would lie in the range of the calendar under
    /// other settings.
    pub fn check_timed_with(&self, config: &L::Config) -> (r: bool)
        ensures
            r == times_defined(self.lines(), *config, self.state()),
    {
        let mut i: usize = 0;
        while i < self.lines.len()
            invariant
                i <= self.lines().len(),
                forall|k: int|
                    0 <= k < i ==> (#[trigger] self.lines()[k]).time_defined(
                        *config,
                        self.state(),
                    ),
            decreases self.lines.len() - i,
        {
            if !self.lines[i].has_time(config, &self.file_state) {
                assert(!self.lines()[i as int].time_defined(*config, self.state()));
                return false;
            }
            i += 1;
        }
        true
    }

    fn all_times(&self) -> (r: Vec<Timestamp>)
        requires
            self.is_timed(),
        ensures
            r@ == self.times(),
    {
        let mut out: Vec<Timestamp> = Vec::new();
        let mut i: usize = 0;
        while i < self.lines.len()
            invariant
                i <= self.lines().len(),
                self.is_timed(),
                out@ == self.times().take(i as int),
            decreases self.lines.len() - i,
        {
            assert(self.lines()[i as int].time_defined(self.settings(), self.state()));
            out.push(self.lines[i].timestamp(&self.config, &self.file_state));
            assert(out@ =~= self.times().take(i + 1));
            i += 1;
        }
        assert(out@ =~= self.times());
        out
    }

    /// Puts all lines in the order of the times that they have now.
    ///
    /// This is due whenever the settings or the state of the file changed times.
    pub fn rebuild_time_index(&mut self)
        requires
            old(self).wf(),
            old(self).is_timed(),
        ensures
            final(self).wf(),
            final(self).in_time_order(),
            final(self).same_but_order(old(self)),
            final(self).current_version() == bumped(old(self).current_version()),
    {
        let times = self.all_times();
        self.by_timestamp = order::sort_from(&times, 0);
        self.version = self.version.wrapping_add(1);
        assert(self.marks() == old(self).marks());
    }

    /// Adds lines at the end of the file, and puts them among the others in the order of
    /// time.
    pub fn append_lines(&mut self, lines: Vec<L>)
        requires
            old(self).wf(),
            old(self).lines().len() + lines@.len() <= usize::MAX,
            times_defined(old(self).lines() + lines@, old(self).settings(), old(self).state()),
        ensures
            final(self).wf(),
            lines@.len() == 0 ==> *final(self) == *old(self),
            lines@.len() > 0 ==> {
                &&& final(self).lines() == old(self).lines() + lines@
                &&& final(self).current_version() == bumped(old(self).current_version())
                &&& exists|added: Seq<usize>|
                    order::is_order_of(
                        added,
                        final(self).times(),
                        old(self).lines().len() as int,
                        final(self).lines().len() as int,
                    ) && final(self).order() == #[trigger] order::merged(
                        final(self).times(),
                        old(self).order(),
                        added,
                    )
            },
            final(self).same_file(old(self)),
            final(self).settings() == old(self).settings(),
            final(self).state() == old(self).state(),
            final(self).marks() == old(self).marks(),
            old(self).in_time_order() ==> final(self).in_time_order(),
    {
        if lines.len() > 0 {
            let mut rest = lines;
            let from: usize = self.lines.len();
            self.lines.append(&mut rest);
            let times = self.all_times();
            let added = order::sort_from(&times, from);
            proof {
                order::lemma_in_range(self.by_timestamp@, 0, from as int);
                order::lemma_in_range(added@, from as int, times@.len() as int);
                order::adding_keeps_order(times@, self.by_timestamp@, added@, from as int);
                if old(self).in_time_order() {
                    assert forall|i: int, j: int|
                        0 <= i < j < self.by_timestamp@.len() implies order::comes_before(
                        times@,
                        #[trigger] self.by_timestamp@[i],
                        #[trigger] self.by_timestamp@[j],
                    ) by {
                        assert(order::comes_before(
                            old(self).times(),
                            self.by_timestamp@[i],
                            self.by_timestamp@[j],
                        ));
                    }
                }
            }
            self.by_timestamp = order::merge(&times, &self.by_timestamp, &added);
            self.version = self.version.wrapping_add(1);
            assert(self.order() == order::merged(self.times(), old(self).order(), added@));
            assert(self.marks() == old(self).marks());
        }
    }

    /// What the scoring service gets of the line at a place: its time in milliseconds
    /// since 1970, and its text without settings or state.
    pub fn get_sidecar_message(&self, line_index: usize) -> (r: Option<(u64, String)>)
        requires
            self.is_timed(),
        ensures
            r is Some == (line_index < self.lines().len()),
            r matches Some((ms, message)) ==> {
                &&& ms == self.times()[line_index as int].unix_ms()
                &&& message@ == self.lines()[line_index as int].message_text()
            },
    {
        if line_index < self.lines.len() {
            assert(self.lines()[line_index as int].time_defined(self.settings(), self.state()));
            let t = self.lines[line_index].timestamp(&self.config, &self.file_state);
            Some((t.unix_milliseconds(), self.lines[line_index].message()))
        } else {
            None
        }
    }

    /// Whether the line at a place, if there is one, can be shown.
    pub open spec fn shows(&self, line_index: usize) -> bool {
        line_index < self.lines().len() ==> {
            let line = self.lines()[line_index as int];
            &&& line.time_defined(self.settings(), self.state())
            &&& line.display_defined(self.settings(), self.state())
            &&& line.raw_defined()
        }
    }

    /// Whether a line is what the line at a place shows, without scores.
    pub open spec fn is_shown(
        &self,
        line_index: usize,
        diff: filetype::SpanTexts,
        shown: LogLine,
    ) -> bool {
        let line = self.lines()[line_index as int];
        &&& shown.timestamp == line.time(self.settings(), self.state())
        &&& line.displays(self.settings(), self.state(), diff, shown.message@)
        &&& line.is_raw(shown.raw@)
        &&& shown.line_number == line.number()
    }

    /// Whether only the state differs, as showing the line at a place leaves it.
    pub open spec fn after_showing(&self, before: &Self, line_index: usize) -> bool {
        &&& self.same_file(before)
        &&& self.lines() == before.lines()
        &&& self.order() == before.order()
        &&& self.settings() == before.settings()
        &&& self.marks() == before.marks()
        &&& self.current_version() == before.current_version()
        &&& if line_index < before.lines().len() {
            before.lines()[line_index as int].state_after_display(
                before.settings(),
                before.state(),
                self.state(),
            )
        } else {
            self.state() == before.state()
        }
    }

    /// Shows the line at a place. It has no scores yet.
    pub fn get_as_log_line<D: Fn(TimeSpan) -> String>(
        &mut self,
        line_index: usize,
        diff: &D,
    ) -> (r: Option<LogLine>)
        requires
            old(self).shows(line_index),
            forall|d: TimeSpan| #[trigger] call_requires(*diff, (d,)),
        ensures
            r is Some == (line_index < old(self).lines().len()),
            r matches Some(shown) ==> {
                &&& old(self).is_shown(line_index, filetype::span_texts(*diff), shown)
                &&& shown.anomaly_score == 0
                &&& shown.sidecar_anomaly_score == 0
                &&& !shown.sidecar_score_is_unk
                &&& !shown.sidecar_score_is_rare
                &&& !shown.sidecar_scored
            },
            final(self).after_showing(old(self), line_index),
    {
        if line_index < self.lines.len() {
            let timestamp = self.lines[line_index].timestamp(&self.config, &self.file_state);
            let message = self.lines[line_index].display_message(
                &self.config,
                &mut self.file_state,
                diff,
            );
            Some(
                LogLine {
                    timestamp,
                    message,
                    raw: self.lines[line_index].raw(),
                    line_number: self.lines[line_index].line_number(),
                    anomaly_score: 0,
                    sidecar_anomaly_score: 0,
                    sidecar_score_is_unk: false,
                    sidecar_score_is_rare: false,
                    sidecar_scored: false,
                },
            )
        } else {
            None
        }
    }

    /// Whether all lines can be shown.
    pub open spec fn is_searchable(&self) -> bool {
        forall|i: int|
            0 <= i < self.lines().len() ==> (#[trigger] self.lines()[i]).display_defined(
                self.settings(),
                self.state(),
            ) && self.lines()[i].raw_defined()
    }

    /// Decides whether all lines can be shown.
    pub fn check_searchable(&self) -> (r: bool)
        ensures
            r == self.is_searchable(),
    {
        let mut i: usize = 0;
        while i < self.lines.len()
            invariant
                i <= self.lines().len(),
                forall|k: int|
                    0 <= k < i ==> (#[trigger] self.lines()[k]).display_defined(
                        self.settings(),
                        self.state(),
                    ) && self.lines()[k].raw_defined(),
            decreases self.lines.len() - i,
        {
            if !self.lines[i].can_display(&self.config, &self.file_state)
                || !self.lines[i].has_raw() {
                assert(!(self.lines()[i as int].display_defined(self.settings(), self.state())
                    && self.lines()[i as int].raw_defined()));
                return false;
            }
            i += 1;
        }
        true
    }

    /// The places of the lines for which a predicate on what a line shows and on its full
    /// detail answers yes, in the order of time; `None` where the search was cancelled.
    pub fn filter_sorted_by_search<D, P, C>(
        &mut self,
        diff: &D,
        predicate: &P,
        should_cancel: &C,
    ) -> (r: Option<Vec<usize>>) where
        D: Fn(TimeSpan) -> String,
        P: Fn(&str, &str) -> bool,
        C: Fn() -> bool,

        requires
            old(self).wf(),
            old(self).is_searchable(),
            forall|d: TimeSpan| #[trigger] call_requires(*diff, (d,)),
            forall|a: &str, b: &str| #[trigger] call_requires(*predicate, (a, b)),
            call_requires(*should_cancel, ()),
        ensures
            r matches Some(found) ==> exists|states: Seq<L::FileState>, results: Seq<bool>|
                {
                    &&& #[trigger] is_search(
                        old(self).lines(),
                        old(self).order(),
                        old(self).settings(),
                        states,
                        filetype::span_texts(*diff),
                        *predicate,
                        results,
                    )
                    &&& results.len() == old(self).lines().len()
                    &&& states[0] == old(self).state()
                    &&& states.last() == final(self).state()
                    &&& found@ == kept(old(self).order(), results)
                },
            old(self).lines().len() == 0 ==> (r matches Some(found) && found@.len() == 0),
            r is None ==> call_ensures(*should_cancel, (), true),
            r is Some && old(self).lines().len() > 0 ==> call_ensures(*should_cancel, (), false),
            final(self).wf(),
            final(self).is_searchable(),
            final(self).times() == old(self).times(),
            final(self).is_timed() == old(self).is_timed(),
            final(self).lines() == old(self).lines(),
            final(self).order() == old(self).order(),
            final(self).settings() == old(self).settings(),
            final(self).marks() == old(self).marks(),
            final(self).current_version() == old(self).current_version(),
            final(self).same_file(old(self)),
    {
        let ghost order = self.order();
        let ghost lines = self.lines();
        let ghost config = self.settings();
        let ghost mut states: Seq<L::FileState> = seq![self.state()];
        let ghost mut results: Seq<bool> = Seq::empty();
        proof {
            assert(self.lines@.len() == self.lines.len());
            order::lemma_in_range(order, 0, lines.len() as int);
        }
        let mut found: Vec<usize> = Vec::new();
        let mut i: usize = 0;
        assert(found@ =~= kept(order.take(0), results));
        while i < self.by_timestamp.len()
            invariant
                i <= order.len(),
                order.len() == lines.len(),
                forall|k: int| 0 <= k < order.len() ==> 0 <= #[trigger] order[k] < lines.len(),
                self.order() == order,
                self.lines() == lines,
                self.settings() == config,
                self.marks() == old(self).marks(),
                self.current_version() == old(self).current_version(),
                self.same_file(old(self)),
                self.wf(),
                self.is_searchable(),
                old(self).lines() == lines,
                old(self).settings() == config,
                old(self).order() == order,
                self.times() == line_times(lines, config, old(self).state()),
                self.is_timed() == times_defined(lines, config, old(self).state()),
                states.len() == i + 1,
                results.len() == i,
                states[0] == old(self).state(),
                states.last() == self.state(),
                is_search(
                    lines,
                    order,
                    config,
                    states,
                    filetype::span_texts(*diff),
                    *predicate,
                    results,
                ),
                found@ == kept(order.take(i as int), results),
                i > 0 ==> call_ensures(*should_cancel, (), false),
                forall|d: TimeSpan| #[trigger] call_requires(*diff, (d,)),
                forall|a: &str, b: &str| #[trigger] call_requires(*predicate, (a, b)),
                call_requires(*should_cancel, ()),
            decreases order.len() - i,
        {
            if should_cancel() {
                return None;
            }
            let ghost before = self.state();
            let idx: usize = self.by_timestamp[i];
            assert(self.lines()[idx as int].display_defined(self.settings(), self.state()));
            let shown = self.lines[idx].display_message(&self.config, &mut self.file_state, diff);
            let raw = self.lines[idx].raw();
            let shown_text = shown.as_str();
            let raw_text = raw.as_str();
            let yes = predicate(shown_text, raw_text);
            proof {
                let old_states = states;
                let old_results = results;
                states = states.push(self.state());
                results = results.push(yes);
                assert(answers(
                    lines[idx as int],
                    config,
                    before,
                    filetype::span_texts(*diff),
                    *predicate,
                    yes,
                )) by {
                    assert(call_ensures(*predicate, (shown_text, raw_text), yes));
                }
                lemma_kept_prefix(order.take(i as int), old_results, results);
                assert(order.take(i + 1).drop_last() =~= order.take(i as int));
                showing_moves_no_time(lines, idx as int, config, before, self.state());
                assert(is_search(
                    lines,
                    order,
                    config,
                    states,
                    filetype::span_texts(*diff),
                    *predicate,
                    results,
                )) by {
                    assert forall|k: int| 0 <= k < results.len() implies answers(
                        lines[order[k] as int],
                        config,
                        states[k],
                        filetype::span_texts(*diff),
                        *predicate,
                        #[trigger] results[k],
                    ) && lines[order[k] as int].state_after_display(
                        config,
                        states[k],
                        states[k + 1],
                    ) by {
                        if k < i {
                            assert(results[k] == old_results[k]);
                            assert(states[k] == old_states[k]);
                            assert(states[k + 1] == old_states[k + 1]);
                        }
                    }
                }
            }
            if yes {
                found.push(idx);
            }
            i += 1;
        }
        assert(order.take(i as int) =~= order);
        Some(found)
    }

    /// Ends a frame in which the user may have moved times or asked for a line: where
    /// times changed, all lines are put in order anew. Gives the line to jump to.
    pub fn finish_frame(&mut self, changed: bool, jump_line: Option<usize>) -> (r: (
        bool,
        Option<StoreID>,
    ))
        requires
            old(self).wf(),
            changed ==> old(self).is_timed(),
        ensures
            r.0 == changed,
            r.1 is Some == jump_line is Some,
            r.1 matches Some(id) ==> id.source() == old(self).id() && jump_line == Some(
                id.index(),
            ),
            final(self).wf(),
            !changed ==> *final(self) == *old(self),
            changed ==> {
                &&& final(self).in_time_order()
                &&& final(self).same_but_order(old(self))
                &&& final(self).current_version() == bumped(old(self).current_version())
            },
    {
        if changed {
            self.rebuild_time_index();
        }
        let jump = match jump_line {
            Some(line) => Some(StoreID::make(self.source_id, line)),
            None => None,
        };
        (changed, jump)
    }
}

proof fn lemma_kept_prefix(order: Seq<usize>, a: Seq<bool>, b: Seq<bool>)
    requires
        order.len() <= a.len() <= b.len(),
        forall|i: int| 0 <= i < a.len() ==> a[i] == b[i],
    ensures
        kept(order, a) == kept(order, b),
    decreases order.len(),
{
    if order.len() > 0 {
        lemma_kept_prefix(order.drop_last(), a, b);
    }
}

/// Showing a line moves no time, and takes from no line that it can be shown.
pub proof fn showing_moves_no_time<L: LineType>(
    lines: Seq<L>,
    shown: int,
    config: L::Config,
    before: L::FileState,
    after: L::FileState,
)
    requires
        lines[shown].state_after_display(config, before, after),
    ensures
        line_times(lines, config, after) == line_times(lines, config, before),
        times_defined(lines, config, after) == times_defined(lines, config, before),
        forall|i: int|
            0 <= i < lines.len() ==> (#[trigger] lines[i]).display_defined(config, after)
                == lines[i].display_defined(config, before),
{
    assert forall|i: int| 0 <= i < lines.len() implies {
        let l: L = #[trigger] lines[i];
        &&& l.time(config, after) == l.time(config, before)
        &&& l.time_defined(config, after) == l.time_defined(config, before)
        &&& l.display_defined(config, after) == l.display_defined(config, before)
    } by {
        lines[shown].display_keeps_times(config, before, after, lines[i], config);
    }
    assert(line_times(lines, config, after) =~= line_times(lines, config, before));
}

/// Whether a list holds each bookmark of a map once.
pub open spec fn is_bookmark_list(marks: Map<usize, Bookmark>, list: Seq<Bookmark>) -> bool {
    &&& forall|i: int|
        0 <= i < list.len() ==> marks.contains_key((#[trigger] list[i]).line_index)
            && marks[list[i].line_index] == list[i]
    &&& forall|k: usize| #[trigger] marks.contains_key(k) ==> list.contains(marks[k])
    &&& list.no_duplicates()
}

/// A search finds every place of an order at which the answer is yes, and no other: none is
/// left out, none is found twice, and they come in the order in which they were looked at.
pub proof fn a_search_finds_every_match(order: Seq<usize>, answers: Seq<bool>)
    requires
        order.no_duplicates(),
        order.len() <= answers.len(),
    ensures
        forall|i: int|
            0 <= i < order.len() ==> (kept(order, answers).contains(#[trigger] order[i])
                == answers[i]),
        forall|k: int|
            0 <= k < kept(order, answers).len() ==> order.contains(
                #[trigger] kept(order, answers)[k],
            ),
        kept(order, answers).no_duplicates(),
        forall|i: int, j: int|
            0 <= i < j < order.len() && answers[i] && answers[j] ==> kept(order, answers).index_of(
                #[trigger] order[i],
            ) < kept(order, answers).index_of(#[trigger] order[j]),
    decreases order.len(),
{
    if order.len() > 0 {
        let front = order.drop_last();
        let n = order.len() - 1;
        let before = kept(front, answers);
        let all = kept(order, answers);
        assert(forall|i: int| 0 <= i < n ==> front[i] == order[i]);
        a_search_finds_every_match(front, answers);
        assert(!before.contains(order[n])) by {
            if before.contains(order[n]) {
                let k = choose|k: int| 0 <= k < before.len() && before[k] == order[n];
                assert(front.contains(before[k]));
                let i = choose|i: int| 0 <= i < front.len() && front[i] == before[k];
                assert(order[i] == order[n]);
            }
        }
        assert forall|i: int| 0 <= i < order.len() implies (all.contains(#[trigger] order[i])
            == answers[i]) by {
            if i < n {
                assert(before.contains(front[i]) == answers[i]);
                if answers[i] {
                    let k = choose|k: int| 0 <= k < before.len() && before[k] == front[i];
                    assert(all[k] == order[i]);
                } else if all.contains(order[i]) {
                    let k = choose|k: int| 0 <= k < all.len() && all[k] == order[i];
                    assert(order[i] != order[n]);
                    assert(before[k] == order[i]);
                }
            } else if answers[n] {
                assert(all[all.len() - 1] == order[n]);
            }
        }
        assert forall|k: int| 0 <= k < all.len() implies order.contains(#[trigger] all[k]) by {
            if k < before.len() {
                assert(all[k] == before[k]);
                let i = choose|i: int| 0 <= i < front.len() && front[i] == before[k];
                assert(order[i] == all[k]);
            } else {
                assert(order[n] == all[k]);
            }
        }
        assert(all.no_duplicates()) by {
            assert forall|a: int, b: int| 0 <= a < all.len() && 0 <= b < all.len() && a
                != b implies all[a] != all[b] by {
                if a < before.len() && b < before.len() {
                    assert(before[a] != before[b]);
                } else if a < before.len() {
                    assert(before.contains(before[a]));
                } else if b < before.len() {
                    assert(before.contains(before[b]));
                }
            }
        }
        assert forall|i: int, j: int|
            0 <= i < j < order.len() && answers[i] && answers[j] implies all.index_of(
            #[trigger] order[i],
        ) < all.index_of(#[trigger] order[j]) by {
            let a = all.index_of(order[i]);
            let b = all.index_of(order[j]);
            assert(all.contains(order[i]) && all.contains(order[j]));
            assert(before.contains(front[i]));
            let x = before.index_of(front[i]);
            assert(0 <= x < before.len() && before[x] == front[i]);
            assert(all[x] == order[i]);
            assert(a == x);
            if j < n {
                let y = before.index_of(front[j]);
                assert(before.contains(front[j]));
                assert(0 <= y < before.len() && before[y] == front[j]);
                assert(all[y] == order[j]);
                assert(b == y);
                assert(before.index_of(front[i]) < before.index_of(front[j]));
            } else {
                assert(all[all.len() - 1] == order[n]);
                assert(b == all.len() - 1);
            }
        }
    }
}

/// What a search asks of each line is what the line shows then and its full detail.
pub proof fn lines_are_asked_for_what_they_show<L: LineType, P: Fn(&str, &str) -> bool>(
    lines: Seq<L>,
    order: Seq<usize>,
    config: L::Config,
    states: Seq<L::FileState>,
    diff: filetype::SpanTexts,
    predicate: P,
    results: Seq<bool>,
    i: int,
)
    requires
        is_search(lines, order, config, states, diff, predicate, results),
        0 <= i < results.len(),
    ensures
        exists|shown: &str, raw: &str|
            lines[order[i] as int].displays(config, states[i], diff, shown@)
                && lines[order[i] as int].is_raw(raw@) && #[trigger] call_ensures(
                predicate,
                (shown, raw),
                results[i],
            ),
        lines[order[i] as int].state_after_display(config, states[i], states[i + 1]),
{
    assert(answers(lines[order[i] as int], config, states[i], diff, predicate, results[i]));
}

/// Of saved bookmarks each is there again by its line, and of two for one line the later one.
pub proof fn the_last_bookmark_of_a_line_counts(v: Seq<Bookmark>, i: int)
    requires
        0 <= i < v.len(),
        forall|k: int| i < k < v.len() ==> (#[trigger] v[k]).line_index != v[i].line_index,
    ensures
        bookmark_map(v).contains_key(v[i].line_index),
        bookmark_map(v)[v[i].line_index] == v[i],
    decreases v.len(),
{
    let front = v.drop_last();
    if i < v.len() - 1 {
        assert forall|k: int| i < k < front.len() implies (#[trigger] front[k]).line_index
            != front[i].line_index by {
            assert(front[k] == v[k]);
        }
        the_last_bookmark_of_a_line_counts(front, i);
        assert(v[v.len() - 1] == v.last());
    }
}

/// A line without a saved bookmark has none.
pub proof fn other_lines_have_no_bookmark(v: Seq<Bookmark>, line: usize)
    requires
        forall|k: int| 0 <= k < v.len() ==> (#[trigger] v[k]).line_index != line,
    ensures
        !bookmark_map(v).contains_key(line),
        mark_at(bookmark_map(v), line) is None,
    decreases v.len(),
{
    if v.len() > 0 {
        let front = v.drop_last();
        assert forall|k: int| 0 <= k < front.len() implies (#[trigger] front[k]).line_index
            != line by {
            assert(front[k] == v[k]);
        }
        other_lines_have_no_bookmark(front, line);
        assert(v[v.len() - 1] == v.last());
    }
}

/// A bookmark that was set is found under its line with its name, one that was removed is not,
/// and those of other lines stay.
pub proof fn bookmarks_are_found_by_their_line(
    marks: Map<usize, Bookmark>,
    line: usize,
    b: Bookmark,
    other: usize,
)
    ensures
        mark_at(marks.insert(line, b), line) == Some(b),
        mark_at(marks.remove(line), line) is None,
        other != line ==> mark_at(marks.insert(line, b), other) == mark_at(marks, other),
        other != line ==> mark_at(marks.remove(line), other) == mark_at(marks, other),
{
}

/// Each line has its own time in the list of times, and all of them must be in the range of the
/// calendar.
pub proof fn times_are_those_of_the_lines<L: LineType>(
    lines: Seq<L>,
    config: L::Config,
    state: L::FileState,
    i: int,
)
    requires
        0 <= i < lines.len(),
    ensures
        line_times(lines, config, state).len() == lines.len(),
        line_times(lines, config, state)[i] == lines[i].time(config, state),
        times_defined(lines, config, state) ==> lines[i].time_defined(config, state),
{
}

/// What is shown of a line is its time, what it shows, its full detail and its number, by the
/// settings and the state of its file.
pub proof fn lines_are_shown_as_they_are<L: LineType>(
    s: SourceData<L>,
    i: usize,
    diff: filetype::SpanTexts,
    shown: LogLine,
)
    requires
        i < s.lines().len(),
        s.is_shown(i, diff, shown),
    ensures
        shown.timestamp == s.lines()[i as int].time(s.settings(), s.state()),
        shown.timestamp == s.times()[i as int],
        s.lines()[i as int].displays(s.settings(), s.state(), diff, shown.message@),
        s.lines()[i as int].is_raw(shown.raw@),
        shown.line_number == s.lines()[i as int].number(),
{
}

/// A list of bookmarks holds each of them once.
pub proof fn lists_hold_each_bookmark_once(
    marks: Map<usize, Bookmark>,
    list: Seq<Bookmark>,
    line: usize,
)
    requires
        is_bookmark_list(marks, list),
        marks_match(marks),
    ensures
        marks.contains_key(line) == exists|i: int|
            0 <= i < list.len() && (#[trigger] list[i]).line_index == line && list[i]
                == marks[line],
        forall|i: int, j: int|
            0 <= i < list.len() && 0 <= j < list.len() && (#[trigger] list[i]).line_index == (
            #[trigger] list[j]).line_index ==> i == j,
{
    if marks.contains_key(line) {
        let i = choose|i: int| 0 <= i < list.len() && list[i] == marks[line];
        assert(list[i].line_index == line);
    }
    assert forall|i: int, j: int|
        0 <= i < list.len() && 0 <= j < list.len() && (#[trigger] list[i]).line_index == (
        #[trigger] list[j]).line_index implies i == j by {
        assert(marks[list[i].line_index] == list[i]);
        assert(marks[list[j].line_index] == list[j]);
    }
}

} // verus!
