//! The stream of lines to the scoring service and of scores back.

use super::explain::ExplanationMessage;
use super::model;
use super::model::{InputLine, WireLine};
use crate::store::scores::ScoreBits;
use std::collections::HashMap;
use vstd::prelude::*;

verus! {

/// How many lines go into one frame.
pub const LINES_PER_CHUNK: usize = 512;

/// What the client sends.
#[derive(Debug)]
pub enum ClientFrame {
    Start {
        api_version: String,
        model_id: String,
        filtering_mode: String,
        /// By the kind of the file, the version of the rules that made messages alike.
        normalization_versions: Vec<(String, u32)>,
    },
    Lines { chunk_index: u32, lines: Vec<WireLine> },
    End,
    Explain { target_line_number: u64 },
    Close,
}

/// A score as the service sends it.
#[derive(Debug, Clone, Copy, PartialEq, Eq)]
pub struct ScoredMessage {
    pub line_number: Option<u64>,
    pub score: ScoreBits,
    pub target_is_unk: bool,
    pub target_is_rare: bool,
}

/// What the service sends.
#[derive(Debug)]
pub enum ServerPayload {
    Accepted { run_id: String },
    Warning { code: String, message: String },
    Scores { chunk_index: u32, scored: Vec<ScoredMessage> },
    Complete,
    Error { code: String, message: String },
    Explanation(ExplanationMessage),
}

/// What the service says of a line.
#[derive(Debug, Clone, Copy, PartialEq, Eq, Structural)]
pub struct ScoreEntry {
    pub score: ScoreBits,
    pub target_is_unk: bool,
    pub target_is_rare: bool,
}

/// What the service said so far.
#[derive(Debug)]
pub struct ScoreStreamResult {
    /// By the places of the lines.
    pub scored: HashMap<usize, ScoreEntry>,
    pub warnings: Vec<String>,
}

/// Why lines could not be scored.
#[derive(Debug)]
pub enum ScoreError {
    Cancelled,
    /// The service ended the stream too early.
    Closed,
    /// The stream could not be read.
    Read,
    /// The stream could not be opened.
    Refused,
    Service { code: String, message: String },
}

impl ScoreError {
    /// What the user is told.
    pub open spec fn message_text(&self) -> Seq<char> {
        match self {
            ScoreError::Cancelled => "score stream cancelled"@,
            ScoreError::Closed => "sidecar stream closed before Complete frame"@,
            ScoreError::Read => "stream read error"@,
            ScoreError::Refused => "ScoreStream RPC failed"@,
            ScoreError::Service { code, message } => "sidecar error ["@ + code@ + "]: "@
                + message@,
        }
    }

    /// What the user is told.
    pub fn to_text(&self) -> (r: String)
        ensures
            r@ == self.message_text(),
    {
        match self {
            ScoreError::Cancelled => String::from_str("score stream cancelled"),
            ScoreError::Closed => String::from_str("sidecar stream closed before Complete frame"),
            ScoreError::Read => String::from_str("stream read error"),
            ScoreError::Refused => String::from_str("ScoreStream RPC failed"),
            ScoreError::Service { code, message } => {
                let mut r = String::from_str("sidecar error [");
                r.append(code.as_str());
                r.append("]: ");
                r.append(message.as_str());
                r
            },
        }
    }
}

/// How many frames as many lines take.
pub open spec fn chunk_count(n: nat) -> nat {
    (n + LINES_PER_CHUNK - 1) as nat / LINES_PER_CHUNK as nat
}

/// The lines of a frame.
pub open spec fn chunk<T>(lines: Seq<T>, i: int) -> Seq<T> {
    let from = i * LINES_PER_CHUNK;
    let to = if from + LINES_PER_CHUNK <= lines.len() {
        from + LINES_PER_CHUNK
    } else {
        lines.len() as int
    };
    lines.subrange(from, to)
}

/// Whether a frame holds lines, under a number.
pub open spec fn is_lines_frame(frame: ClientFrame, i: int, lines: Seq<WireLine>) -> bool {
    &&& frame matches ClientFrame::Lines { chunk_index, lines: sent }
    &&& chunk_index == (i % 0x1_0000_0000) as u32
    &&& sent@ == lines
}

/// Whether a frame opens a stream.
pub open spec fn is_start_frame(
    frame: ClientFrame,
    model_id: Seq<char>,
    versions: Vec<(String, u32)>,
) -> bool {
    &&& frame matches ClientFrame::Start {
        api_version,
        model_id: id,
        filtering_mode,
        normalization_versions,
    }
    &&& api_version@ == "2"@
    &&& id@ == model_id
    &&& filtering_mode@ == "backend_authoritative"@
    &&& normalization_versions == versions
}

/// Whether frames are those that ask for the scores of lines: the opening, the lines in
/// their order, and the end.
pub open spec fn are_score_frames(
    frames: Seq<ClientFrame>,
    model_id: Seq<char>,
    versions: Vec<(String, u32)>,
    lines: Seq<InputLine>,
) -> bool {
    let n = chunk_count(lines.len());
    &&& frames.len() == n + 2
    &&& is_start_frame(frames[0], model_id, versions)
    &&& forall|i: int|
        0 <= i < n ==> is_lines_frame(
            #[trigger] frames[i + 1],
            i,
            chunk(model::wire_lines(lines), i),
        )
    &&& frames.last() is End
}

fn wire_chunk(lines: &[InputLine], from: usize, to: usize) -> (r: Vec<WireLine>)
    requires
        from <= to <= lines@.len(),
    ensures
        r@ == model::wire_lines(lines@).subrange(from as int, to as int),
{
    let mut out: Vec<WireLine> = Vec::new();
    let mut i: usize = from;
    assert(out@ =~= model::wire_lines(lines@).subrange(from as int, from as int));
    while i < to
        invariant
            from <= i <= to <= lines@.len(),
            out@ == model::wire_lines(lines@).subrange(from as int, i as int),
        decreases to - i,
    {
        out.push(lines[i].to_wire());
        assert(out@ =~= model::wire_lines(lines@).subrange(from as int, i + 1));
        i += 1;
    }
    out
}

/// The frames that ask for the scores of lines.
///
/// Every 1000 lines and every 16 frames it is asked whether the work is cancelled.
pub fn score_frames<C: Fn() -> bool>(
    model_id: &str,
    normalization_versions: Vec<(String, u32)>,
    lines: &[InputLine],
    is_cancelled: &C,
) -> (r: Result<Vec<ClientFrame>, ScoreError>)
    requires
        call_requires(*is_cancelled, ()),
    ensures
        match r {
            Ok(frames) => are_score_frames(frames@, model_id@, normalization_versions, lines@)
                && call_ensures(*is_cancelled, (), false),
            Err(e) => e is Cancelled && call_ensures(*is_cancelled, (), true),
        },
{
    let n: usize = lines.len();
    assert(lines@.len() == n);
    let mut polled: usize = 0;
    while polled < n
        invariant
            polled <= n,
            call_requires(*is_cancelled, ()),
        decreases n - polled,
    {
        if is_cancelled() {
            return Err(ScoreError::Cancelled);
        }
        if n - polled <= 1000 {
            polled = n;
        } else {
            polled += 1000;
        }
    }
    if is_cancelled() {
        return Err(ScoreError::Cancelled);
    }
    let mut frames: Vec<ClientFrame> = Vec::new();
    frames.push(
        ClientFrame::Start {
            api_version: String::from_str("2"),
            model_id: String::from_str(model_id),
            filtering_mode: String::from_str("backend_authoritative"),
            normalization_versions,
        },
    );
    let mut from: usize = 0;
    let mut index: usize = 0;
    while from < n
        invariant
            call_requires(*is_cancelled, ()),
            call_ensures(*is_cancelled, (), false),
            n == lines@.len(),
            from <= n,
            index <= n,
            from < n ==> from == index * LINES_PER_CHUNK,
            from == n ==> index == chunk_count(n as nat),
            frames@.len() == index + 1,
            is_start_frame(frames@[0], model_id@, normalization_versions),
            forall|i: int|
                0 <= i < index ==> is_lines_frame(
                    #[trigger] frames@[i + 1],
                    i,
                    chunk(model::wire_lines(lines@), i),
                ),
        decreases n - from,
    {
        if index % 16 == 0 && is_cancelled() {
            return Err(ScoreError::Cancelled);
        }
        let to: usize = if n - from <= LINES_PER_CHUNK {
            n
        } else {
            from + LINES_PER_CHUNK
        };
        let sent = wire_chunk(lines, from, to);
        let ghost before = frames@;
        frames.push(
            ClientFrame::Lines {
                chunk_index: (index as u64 % 0x1_0000_0000) as u32,
                lines: sent,
            },
        );
        proof {
            let w = model::wire_lines(lines@);
            assert(chunk(w, index as int) == w.subrange(from as int, to as int));
            assert forall|i: int| 0 <= i < index + 1 implies is_lines_frame(
                #[trigger] frames@[i + 1],
                i,
                chunk(w, i),
            ) by {
                if i < index {
                    assert(frames@[i + 1] == before[i + 1]);
                }
            }
            assert(frames@[0] == before[0]);
        }
        from = to;
        index += 1;
    }
    let ghost before = frames@;
    frames.push(ClientFrame::End);
    proof {
        let w = model::wire_lines(lines@);
        assert forall|i: int| 0 <= i < chunk_count(n as nat) implies is_lines_frame(
            #[trigger] frames@[i + 1],
            i,
            chunk(w, i),
        ) by {
            assert(frames@[i + 1] == before[i + 1]);
        }
        assert(frames@[0] == before[0]);
    }
    Ok(frames)
}

/// The frames of lines hold all lines in their order, and none holds more lines than a
/// frame may.
pub proof fn frames_hold_all_lines<T>(lines: Seq<T>)
    ensures
        forall|i: int|
            0 <= i < chunk_count(lines.len()) ==> 0 < (#[trigger] chunk(lines, i)).len()
                <= LINES_PER_CHUNK,
        Seq::new(chunk_count(lines.len()), |i: int| chunk(lines, i)).flatten() == lines,
{
    let n = chunk_count(lines.len());
    let chunks = Seq::new(n, |i: int| chunk(lines, i));
    lemma_flatten(lines, n);
    assert(lines.take(if n * LINES_PER_CHUNK <= lines.len() {
        n * LINES_PER_CHUNK
    } else {
        lines.len() as int
    }) =~= lines);
}

proof fn lemma_flatten<T>(lines: Seq<T>, k: nat)
    requires
        k <= chunk_count(lines.len()),
    ensures
        Seq::new(k, |i: int| chunk(lines, i)).flatten() == lines.take(
            if k * LINES_PER_CHUNK <= lines.len() {
                k * LINES_PER_CHUNK
            } else {
                lines.len() as int
            },
        ),
    decreases k,
{
    let chunks = Seq::new(k, |i: int| chunk(lines, i));
    if k == 0 {
        assert(chunks.flatten() =~= lines.take(0));
    } else {
        lemma_flatten(lines, (k - 1) as nat);
        assert(chunks.drop_last() =~= Seq::new((k - 1) as nat, |i: int| chunk(lines, i)));
        chunks.lemma_flatten_and_flatten_alt_are_equivalent();
        chunks.drop_last().lemma_flatten_and_flatten_alt_are_equivalent();
        assert(chunks.flatten() =~= chunks.drop_last().flatten() + chunks.last());
        assert(chunks.flatten() =~= lines.take(
            if k * LINES_PER_CHUNK <= lines.len() {
                k * LINES_PER_CHUNK
            } else {
                lines.len() as int
            },
        ));
    }
}

impl ScoredMessage {
    /// The place of the line; the first where the message does not say.
    pub open spec fn place(&self) -> usize {
        match self.line_number {
            Some(n) => n as usize,
            None => 0,
        }
    }

    /// What is said of the line.
    pub open spec fn entry(&self) -> ScoreEntry {
        ScoreEntry {
            score: self.score,
            target_is_unk: self.target_is_unk,
            target_is_rare: self.target_is_rare,
        }
    }
}

/// What messages say of lines; of two for one line, the later one.
pub open spec fn entries_of(scored: Seq<ScoredMessage>) -> Map<usize, ScoreEntry>
    decreases scored.len(),
{
    if scored.len() == 0 {
        Map::empty()
    } else {
        entries_of(scored.drop_last()).insert(scored.last().place(), scored.last().entry())
    }
}

/// What a message of the service leads to.
#[derive(Debug)]
pub struct FrameOutcome {
    /// Whether all lines were scored.
    pub complete: bool,
    /// The scores that came with the message.
    pub new_entries: Option<HashMap<usize, ScoreEntry>>,
}

/// A warning of the service as it is kept.
pub open spec fn warning_text(code: Seq<char>, message: Seq<char>) -> Seq<char> {
    "["@ + code + "] "@ + message
}

impl ScoreStreamResult {
    /// Nothing said yet.
    pub fn new() -> (r: Self)
        ensures
            r.scored@ == Map::<usize, ScoreEntry>::empty(),
            r.warnings@ == Seq::<String>::empty(),
    {
        ScoreStreamResult { scored: HashMap::new(), warnings: Vec::new() }
    }
}

/// What a message of the service does to what it said before, and what it leads to.
pub open spec fn msg_handled(
    payload: Option<ServerPayload>,
    before: ScoreStreamResult,
    after: ScoreStreamResult,
    r: Result<FrameOutcome, ScoreError>,
) -> bool {
    match payload {
        Some(ServerPayload::Warning { code, message }) => {
            &&& r matches Ok(o) && !o.complete && o.new_entries is None
            &&& after.scored == before.scored
            &&& after.warnings@.len() == before.warnings@.len() + 1
            &&& after.warnings@.drop_last() == before.warnings@
            &&& after.warnings@.last()@ == warning_text(code@, message@)
        },
        Some(ServerPayload::Scores { scored, .. }) => {
            &&& r matches Ok(o) && !o.complete && (o.new_entries matches Some(m) && m@
                == entries_of(scored@))
            &&& after.scored@ == before.scored@.union_prefer_right(entries_of(scored@))
            &&& after.warnings == before.warnings
        },
        Some(ServerPayload::Complete) => {
            &&& r matches Ok(o) && o.complete && o.new_entries is None
            &&& after == before
        },
        Some(ServerPayload::Error { code, message }) => {
            &&& r == Err::<FrameOutcome, ScoreError>(ScoreError::Service { code, message })
            &&& after == before
        },
        _ => {
            &&& r matches Ok(o) && !o.complete && o.new_entries is None
            &&& after == before
        },
    }
}

/// Takes a message of the service while lines are being scored.
pub fn handle_server_msg(payload: Option<ServerPayload>, result: &mut ScoreStreamResult) -> (r:
    Result<FrameOutcome, ScoreError>)
    ensures
        msg_handled(payload, *old(result), *final(result), r),
{
    broadcast use vstd::std_specs::hash::group_hash_axioms;

    match payload {
        Some(ServerPayload::Warning { code, message }) => {
            let mut w = String::from_str("[");
            w.append(code.as_str());
            w.append("] ");
            w.append(message.as_str());
            result.warnings.push(w);
            assert(result.warnings@.drop_last() =~= old(result).warnings@);
            Ok(FrameOutcome { complete: false, new_entries: None })
        },
        Some(ServerPayload::Scores { chunk_index: _, scored }) => {
            let mut new_entries: HashMap<usize, ScoreEntry> = HashMap::new();
            let ghost before = result.scored@;
            let mut i: usize = 0;
            assert(scored@.take(0) =~= Seq::empty());
            assert(before.union_prefer_right(entries_of(scored@.take(0))) =~= before);
            while i < scored.len()
                invariant
                    i <= scored@.len(),
                    new_entries@ == entries_of(scored@.take(i as int)),
                    result.scored@ == before.union_prefer_right(
                        entries_of(scored@.take(i as int)),
                    ),
                    result.warnings == old(result).warnings,
                decreases scored.len() - i,
            {
                broadcast use vstd::std_specs::hash::group_hash_axioms;

                assert(scored@.take(i + 1).drop_last() =~= scored@.take(i as int));
                let s = scored[i];
                let place: usize = match s.line_number {
                    Some(n) => n as usize,
                    None => 0,
                };
                let entry = ScoreEntry {
                    score: s.score,
                    target_is_unk: s.target_is_unk,
                    target_is_rare: s.target_is_rare,
                };
                let ghost so_far = entries_of(scored@.take(i as int));
                new_entries.insert(place, entry);
                result.scored.insert(place, entry);
                assert(before.union_prefer_right(so_far).insert(place, entry)
                    =~= before.union_prefer_right(so_far.insert(place, entry)));
                i += 1;
            }
            assert(scored@.take(i as int) =~= scored@);
            Ok(FrameOutcome { complete: false, new_entries: Some(new_entries) })
        },
        Some(ServerPayload::Complete) => Ok(FrameOutcome { complete: true, new_entries: None }),
        Some(ServerPayload::Error { code, message }) => Err(
            ScoreError::Service { code, message },
        ),
        _ => Ok(FrameOutcome { complete: false, new_entries: None }),
    }
}

/// What waiting for the service led to.
#[derive(Debug)]
pub enum StreamEvent {
    /// Nothing came in time.
    Timeout,
    Message(Option<ServerPayload>),
    Closed,
    Failed,
}

/// Decides whether to go on waiting for the service.
pub fn before_wait(cancelled: bool) -> (r: Result<(), ScoreError>)
    ensures
        r == if cancelled {
            Err(ScoreError::Cancelled)
        } else {
            Ok(())
        },
{
    if cancelled {
        Err(ScoreError::Cancelled)
    } else {
        Ok(())
    }
}

/// What waiting for the service does to what it said before, and what it leads to.
pub open spec fn waited(
    event: StreamEvent,
    before: ScoreStreamResult,
    after: ScoreStreamResult,
    r: Result<FrameOutcome, ScoreError>,
) -> bool {
    match event {
        StreamEvent::Timeout => {
            &&& r matches Ok(o) && !o.complete && o.new_entries is None
            &&& after == before
        },
        StreamEvent::Closed => {
            &&& r == Err::<FrameOutcome, ScoreError>(ScoreError::Closed)
            &&& after == before
        },
        StreamEvent::Failed => {
            &&& r == Err::<FrameOutcome, ScoreError>(ScoreError::Read)
            &&& after == before
        },
        StreamEvent::Message(payload) => msg_handled(payload, before, after, r),
    }
}

/// Decides what waiting for the service leads to.
pub fn after_wait(event: StreamEvent, result: &mut ScoreStreamResult) -> (r: Result<
    FrameOutcome,
    ScoreError,
>)
    ensures
        waited(event, *old(result), *final(result), r),
{
    match event {
        StreamEvent::Timeout => Ok(FrameOutcome { complete: false, new_entries: None }),
        StreamEvent::Closed => Err(ScoreError::Closed),
        StreamEvent::Failed => Err(ScoreError::Read),
        StreamEvent::Message(payload) => handle_server_msg(payload, result),
    }
}

/// Of all scores of a line that come with a message of the service, the last counts.
pub proof fn the_last_score_of_a_line_counts(scored: Seq<ScoredMessage>, i: int, n: u64)
    requires
        0 <= i < scored.len(),
        n <= usize::MAX,
        scored[i].line_number == Some(n),
        forall|j: int|
            i < j < scored.len() ==> ((#[trigger] scored[j]).line_number matches Some(m) && m != n
                && m <= usize::MAX),
    ensures
        entries_of(scored).contains_key(n as usize),
        entries_of(scored)[n as usize].score == scored[i].score,
        entries_of(scored)[n as usize].target_is_unk == scored[i].target_is_unk,
        entries_of(scored)[n as usize].target_is_rare == scored[i].target_is_rare,
    decreases scored.len(),
{
    if i < scored.len() - 1 {
        let front = scored.drop_last();
        assert(front[i] == scored[i]);
        assert forall|j: int| i < j < front.len() implies ((#[trigger] front[j]).line_number matches
        Some(m) && m != n && m <= usize::MAX) by {
            assert(front[j] == scored[j]);
        }
        the_last_score_of_a_line_counts(front, i, n);
        assert(scored[scored.len() - 1].line_number is Some);
    }
}

/// A score that names no line is taken to be that of the first.
pub proof fn scores_without_a_line_go_to_the_first(scored: Seq<ScoredMessage>)
    requires
        scored.len() > 0,
        scored.last().line_number is None,
    ensures
        entries_of(scored).contains_key(0),
        entries_of(scored)[0].score == scored.last().score,
        entries_of(scored)[0].target_is_unk == scored.last().target_is_unk,
        entries_of(scored)[0].target_is_rare == scored.last().target_is_rare,
{
}

/// No line gets a score that none was sent for.
pub proof fn only_named_lines_get_scores(scored: Seq<ScoredMessage>, k: usize)
    requires
        entries_of(scored).contains_key(k),
    ensures
        exists|j: int|
            0 <= j < scored.len() && match (#[trigger] scored[j]).line_number {
                Some(n) => n as usize == k,
                None => k == 0,
            },
    decreases scored.len(),
{
    let last = scored.last();
    assert(scored[scored.len() - 1] == last);
    let named = match last.line_number {
        Some(n) => n as usize == k,
        None => k == 0,
    };
    if !named {
        let front = scored.drop_last();
        only_named_lines_get_scores(front, k);
        let j = choose|j: int|
            0 <= j < front.len() && match (#[trigger] front[j]).line_number {
                Some(n) => n as usize == k,
                None => k == 0,
            };
        assert(scored[j] == front[j]);
    }
}

/// A message of the service ends the stream just where it says that all is done or that
/// there is an error. Scores are taken over for the lines that they name and leave all
/// other lines as they were; a warning is kept behind those before it; no other message
/// changes what was said.
pub proof fn messages_change_what_they_speak_of(
    payload: Option<ServerPayload>,
    before: ScoreStreamResult,
    after: ScoreStreamResult,
    r: Result<FrameOutcome, ScoreError>,
)
    requires
        msg_handled(payload, before, after, r),
    ensures
        (r is Err) == (payload matches Some(ServerPayload::Error { .. })),
        (r matches Ok(o) && o.complete) == (payload == Some(ServerPayload::Complete)),
        (r matches Ok(o) && o.new_entries is Some) == (payload matches Some(
            ServerPayload::Scores { .. },
        )),
        payload matches Some(ServerPayload::Error { code, message }) ==> (r matches Err(
            ScoreError::Service { code: c, message: m },
        ) && c == code && m == message),
        !(payload matches Some(ServerPayload::Scores { .. })) ==> after.scored == before.scored,
        !(payload matches Some(ServerPayload::Warning { .. })) ==> after.warnings
            == before.warnings,
        payload matches Some(ServerPayload::Warning { code, message }) ==> {
            &&& after.warnings@.len() == before.warnings@.len() + 1
            &&& after.warnings@.last()@ == "["@ + code@ + "] "@ + message@
            &&& forall|i: int|
                0 <= i < before.warnings@.len() ==> #[trigger] after.warnings@[i]
                    == before.warnings@[i]
        },
        payload matches Some(ServerPayload::Scores { scored, .. }) ==> {
            &&& forall|k: usize|
                #![trigger after.scored@.contains_key(k)]
                (forall|j: int|
                    0 <= j < scored@.len() ==> !(match (#[trigger] scored@[j]).line_number {
                        Some(n) => n as usize == k,
                        None => k == 0,
                    })) ==> {
                    &&& after.scored@.contains_key(k) == before.scored@.contains_key(k)
                    &&& before.scored@.contains_key(k) ==> after.scored@[k] == before.scored@[k]
                }
            &&& forall|k: usize|
                #[trigger] entries_of(scored@).contains_key(k) ==> after.scored@.contains_key(k)
                    && after.scored@[k] == entries_of(scored@)[k]
        },
{
    if let Some(ServerPayload::Warning { code, message }) = payload {
        assert forall|i: int| 0 <= i < before.warnings@.len() implies #[trigger] after.warnings@[i]
            == before.warnings@[i] by {
            assert(after.warnings@.drop_last()[i] == after.warnings@[i]);
        }
    }
    if let Some(ServerPayload::Scores { scored, .. }) = payload {
        assert forall|k: usize|
            #![trigger after.scored@.contains_key(k)]
            (forall|j: int|
                0 <= j < scored@.len() ==> !(match (#[trigger] scored@[j]).line_number {
                    Some(n) => n as usize == k,
                    None => k == 0,
                })) implies {
            &&& after.scored@.contains_key(k) == before.scored@.contains_key(k)
            &&& before.scored@.contains_key(k) ==> after.scored@[k] == before.scored@[k]
        } by {
            if entries_of(scored@).contains_key(k) {
                only_named_lines_get_scores(scored@, k);
            }
        }
    }
}

/// Waiting without an answer changes nothing and goes on. A stream that ends or breaks
/// before all is done is an error, and leaves what was said as it was.
pub proof fn streams_that_end_early_are_errors(
    event: StreamEvent,
    before: ScoreStreamResult,
    after: ScoreStreamResult,
    r: Result<FrameOutcome, ScoreError>,
)
    requires
        waited(event, before, after, r),
    ensures
        event is Timeout ==> after == before && (r matches Ok(o) && !o.complete && o.new_entries
            is None),
        event is Closed ==> after == before && (r matches Err(e) && e is Closed),
        event is Failed ==> after == before && (r matches Err(e) && e is Read),
        event matches StreamEvent::Message(payload) ==> (r matches Ok(o) && o.complete) == (payload
            == Some(ServerPayload::Complete)),
{
}

/// The user is told of an error in the words for it.
pub proof fn errors_have_words(code: String, message: String)
    ensures
        ScoreError::Cancelled.message_text() == "score stream cancelled"@,
        ScoreError::Closed.message_text() == "sidecar stream closed before Complete frame"@,
        ScoreError::Read.message_text() == "stream read error"@,
        ScoreError::Refused.message_text() == "ScoreStream RPC failed"@,
        (ScoreError::Service { code, message }).message_text() == "sidecar error ["@ + code@
            + "]: "@ + message@,
{
}

/// Every line is sent, each in one frame: the frames of lines stand between an opening and
/// an end, hold 512 lines each but for the last, and a line is found by its place.
pub proof fn every_line_is_sent(
    frames: Seq<ClientFrame>,
    model_id: Seq<char>,
    versions: Vec<(String, u32)>,
    lines: Seq<InputLine>,
    i: int,
)
    requires
        are_score_frames(frames, model_id, versions, lines),
        0 <= i < lines.len(),
    ensures
        frames[0] matches ClientFrame::Start {
            api_version,
            model_id: id,
            filtering_mode,
            normalization_versions,
        } && api_version@ == "2"@ && id@ == model_id && filtering_mode@
            == "backend_authoritative"@ && normalization_versions == versions,
        frames.last() is End,
        512 * (frames.len() - 3) < lines.len() <= 512 * (frames.len() - 2),
        frames[i / 512 + 1] matches ClientFrame::Lines { chunk_index, lines: sent } && {
            &&& i < 0x1_0000_0000 ==> chunk_index == i / 512
            &&& sent@.len() == if lines.len() - 512 * (i / 512) < 512 {
                lines.len() - 512 * (i / 512)
            } else {
                512
            }
            &&& sent@[i % 512].source_id == lines[i].line_id.source_id
            &&& sent@[i % 512].line_number == lines[i].line_id.line_number
            &&& sent@[i % 512].timestamp_unix_ms == lines[i].line_id.timestamp_unix_ms
            &&& sent@[i % 512].message == lines[i].message
            &&& sent@[i % 512].template_key == lines[i].template_key
            &&& sent@[i % 512].source_file == lines[i].source_file
            &&& sent@[i % 512].filetype == lines[i].filetype
        },
{
    let q = i / 512;
    let n = chunk_count(lines.len());
    let w = model::wire_lines(lines);
    assert(q < n);
    assert(is_lines_frame(frames[q + 1], q, chunk(w, q)));
    assert(w[i] == lines[i].wire());
    assert(i == 512 * q + i % 512);
    assert(chunk(w, q)[i % 512] == w[i]);
    if i < 0x1_0000_0000 {
        vstd::arithmetic::div_mod::lemma_small_mod(q as nat, 0x1_0000_0000);
    }
}

} // verus!
