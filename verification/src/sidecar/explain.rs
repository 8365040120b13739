//! Asking the scoring service why a line got its score.

use super::stream::{ClientFrame, ServerPayload};
use crate::store::scores::ScoreBits;
use vstd::prelude::*;

verus! {

/// A weight as the bits of a floating-point number.
pub type WeightBits = u32;

/// A line that counted for the score, as the service sends it.
#[derive(Debug, Clone, Copy, PartialEq, Eq)]
pub struct AttentionMessage {
    pub line_number: u64,
    pub weight: WeightBits,
}

/// An explanation as the service sends it.
#[derive(Debug)]
pub struct ExplanationMessage {
    pub target_line_number: u64,
    pub target_in_corpus: bool,
    pub target_score: Option<ScoreBits>,
    pub target_is_unk: bool,
    pub target_is_rare: bool,
    pub attention: Vec<AttentionMessage>,
    pub top_templates: Vec<TemplateEntry>,
}

/// A line that counted for a score.
#[derive(Debug, Clone, Copy, PartialEq, Eq)]
pub struct AttentionEntry {
    pub line_number: usize,
    pub weight: WeightBits,
}

/// A line that the model would have expected.
#[derive(Debug)]
pub struct TemplateEntry {
    pub template: String,
    pub probability: WeightBits,
}

/// Why a line got its score.
#[derive(Debug)]
pub struct ExplainResult {
    pub target_line_number: usize,
    pub target_in_corpus: bool,
    pub target_score: Option<ScoreBits>,
    pub target_is_unk: bool,
    pub target_is_rare: bool,
    pub attention: Vec<AttentionEntry>,
    pub top_templates: Vec<TemplateEntry>,
}

/// Whether an explanation has come.
#[derive(Debug)]
pub enum ExplainPollStatus {
    Pending,
    Ready(ExplainResult),
    /// No explanation will come any more.
    Dead,
}

/// Whether a result says what a message says.
pub open spec fn is_result_of(e: ExplanationMessage, r: ExplainResult) -> bool {
    &&& r.target_line_number == e.target_line_number as usize
    &&& r.target_in_corpus == e.target_in_corpus
    &&& r.target_score == e.target_score
    &&& r.target_is_unk == e.target_is_unk
    &&& r.target_is_rare == e.target_is_rare
    &&& r.attention@ == e.attention@.map_values(
        |a: AttentionMessage|
            AttentionEntry { line_number: a.line_number as usize, weight: a.weight },
    )
    &&& r.top_templates == e.top_templates
}

fn explain_result(e: ExplanationMessage) -> (r: ExplainResult)
    ensures
        is_result_of(e, r),
{
    let mut attention: Vec<AttentionEntry> = Vec::new();
    let mut i: usize = 0;
    while i < e.attention.len()
        invariant
            i <= e.attention@.len(),
            attention@.len() == i,
            forall|k: int|
                0 <= k < i ==> #[trigger] attention@[k] == (AttentionEntry {
                    line_number: e.attention@[k].line_number as usize,
                    weight: e.attention@[k].weight,
                }),
        decreases e.attention.len() - i,
    {
        let a = e.attention[i];
        attention.push(
            AttentionEntry { line_number: a.line_number as usize, weight: a.weight },
        );
        i += 1;
    }
    let r = ExplainResult {
        target_line_number: e.target_line_number as usize,
        target_in_corpus: e.target_in_corpus,
        target_score: e.target_score,
        target_is_unk: e.target_is_unk,
        target_is_rare: e.target_is_rare,
        attention,
        top_templates: e.top_templates,
    };
    assert(r.attention@ =~= e.attention@.map_values(
        |a: AttentionMessage|
            AttentionEntry { line_number: a.line_number as usize, weight: a.weight },
    ));
    r
}

/// Where a session stands in which explanations are asked for.
#[derive(Debug, Clone, Copy, PartialEq, Eq, Structural)]
pub enum ExplainPhase {
    /// No line is asked for.
    Idle,
    /// A line was asked for, and its explanation has not come.
    Asked,
    /// The session is over.
    Ended,
}

/// What happens in a session.
#[derive(Debug)]
pub enum ExplainEvent {
    /// A line is asked for, by its place.
    Requested(usize),
    /// No line was asked for in time.
    NothingRequested,
    /// Nobody can ask any more.
    RequestersGone,
    /// The service sent a message.
    Message(Option<ServerPayload>),
    /// The stream ended or could not be read.
    StreamEnded,
}

/// What is to be done in a session.
#[derive(Debug)]
pub enum ExplainAction {
    /// Wait for a line to be asked for.
    AwaitRequest,
    /// Send a frame, and wait for a message of the service.
    Ask(ClientFrame),
    /// Wait for a message of the service.
    AwaitMessage,
    /// Hand an explanation over, and wait for a line to be asked for.
    Deliver(ExplainResult),
    /// Send a frame, and end.
    Leave(ClientFrame),
    /// End.
    Stop,
}

/// A session in which explanations are asked for, one after the other.
#[derive(Debug)]
pub struct ExplainSession {
    phase: ExplainPhase,
}

/// Whether an event can happen: lines are asked for only while none is, and messages are
/// waited for only while one is.
pub open spec fn can_happen(phase: ExplainPhase, event: ExplainEvent) -> bool {
    match event {
        ExplainEvent::Requested(_) => phase is Idle,
        ExplainEvent::NothingRequested => phase is Idle,
        ExplainEvent::RequestersGone => phase is Idle,
        ExplainEvent::Message(_) => phase is Asked,
        ExplainEvent::StreamEnded => phase is Asked,
    }
}

/// Where a session stands after an event.
pub open spec fn next_phase(phase: ExplainPhase, event: ExplainEvent) -> ExplainPhase {
    match event {
        ExplainEvent::Requested(_) => ExplainPhase::Asked,
        ExplainEvent::NothingRequested => ExplainPhase::Idle,
        ExplainEvent::RequestersGone => ExplainPhase::Ended,
        ExplainEvent::Message(Some(ServerPayload::Explanation(_))) => ExplainPhase::Idle,
        ExplainEvent::Message(_) => ExplainPhase::Asked,
        ExplainEvent::StreamEnded => ExplainPhase::Ended,
    }
}

/// Whether an action is the answer to an event.
pub open spec fn is_answer(event: ExplainEvent, action: ExplainAction) -> bool {
    match event {
        ExplainEvent::Requested(line) => action == ExplainAction::Ask(
            ClientFrame::Explain { target_line_number: line as u64 },
        ),
        ExplainEvent::NothingRequested => action is AwaitRequest,
        ExplainEvent::RequestersGone => action == ExplainAction::Leave(ClientFrame::Close),
        ExplainEvent::Message(Some(ServerPayload::Explanation(e))) => {
            action matches ExplainAction::Deliver(r) && is_result_of(e, r)
        },
        ExplainEvent::Message(_) => action is AwaitMessage,
        ExplainEvent::StreamEnded => action is Stop,
    }
}

impl ExplainSession {
    pub closed spec fn at(&self) -> ExplainPhase {
        self.phase
    }

    /// A session in which no line is asked for yet.
    pub fn new() -> (r: Self)
        ensures
            r.at() is Idle,
    {
        ExplainSession { phase: ExplainPhase::Idle }
    }

    /// Where the session stands.
    pub fn phase(&self) -> (r: ExplainPhase)
        ensures
            r == self.at(),
    {
        self.phase
    }

    /// Decides what an event leads to.
    pub fn step(&mut self, event: ExplainEvent) -> (r: ExplainAction)
        requires
            can_happen(old(self).at(), event),
        ensures
            final(self).at() == next_phase(old(self).at(), event),
            is_answer(event, r),
    {
        match event {
            ExplainEvent::Requested(line) => {
                self.phase = ExplainPhase::Asked;
                ExplainAction::Ask(ClientFrame::Explain { target_line_number: line as u64 })
            },
            ExplainEvent::NothingRequested => ExplainAction::AwaitRequest,
            ExplainEvent::RequestersGone => {
                self.phase = ExplainPhase::Ended;
                ExplainAction::Leave(ClientFrame::Close)
            },
            ExplainEvent::Message(Some(ServerPayload::Explanation(e))) => {
                self.phase = ExplainPhase::Idle;
                ExplainAction::Deliver(explain_result(e))
            },
            ExplainEvent::Message(_) => ExplainAction::AwaitMessage,
            ExplainEvent::StreamEnded => {
                self.phase = ExplainPhase::Ended;
                ExplainAction::Stop
            },
        }
    }
}

/// What came of looking for an explanation.
#[derive(Debug)]
pub enum Received {
    Result(ExplainResult),
    Empty,
    Disconnected,
}

/// Whether an explanation has come, by what came of looking for it.
pub open spec fn status_of(received: Received) -> ExplainPollStatus {
    match received {
        Received::Result(e) => ExplainPollStatus::Ready(e),
        Received::Empty => ExplainPollStatus::Pending,
        Received::Disconnected => ExplainPollStatus::Dead,
    }
}

/// Decides whether an explanation has come.
pub fn poll_status(received: Received) -> (r: ExplainPollStatus)
    ensures
        r == status_of(received),
{
    match received {
        Received::Result(e) => ExplainPollStatus::Ready(e),
        Received::Empty => ExplainPollStatus::Pending,
        Received::Disconnected => ExplainPollStatus::Dead,
    }
}

/// Where a session stands after events, from its beginning.
pub open spec fn phase_after(events: Seq<ExplainEvent>) -> ExplainPhase
    decreases events.len(),
{
    if events.len() == 0 {
        ExplainPhase::Idle
    } else {
        next_phase(phase_after(events.drop_last()), events.last())
    }
}

/// Whether events can happen one after the other in a session.
pub open spec fn is_history(events: Seq<ExplainEvent>) -> bool
    decreases events.len(),
{
    events.len() > 0 ==> {
        &&& is_history(events.drop_last())
        &&& can_happen(phase_after(events.drop_last()), events.last())
    }
}

/// How often lines were asked for.
pub open spec fn asked(events: Seq<ExplainEvent>) -> nat
    decreases events.len(),
{
    if events.len() == 0 {
        0
    } else {
        asked(events.drop_last()) + if events.last() is Requested {
            1nat
        } else {
            0nat
        }
    }
}

/// How many explanations were handed over.
pub open spec fn delivered(events: Seq<ExplainEvent>) -> nat
    decreases events.len(),
{
    if events.len() == 0 {
        0
    } else {
        delivered(events.drop_last()) + match events.last() {
            ExplainEvent::Message(Some(ServerPayload::Explanation(_))) => 1nat,
            _ => 0nat,
        }
    }
}

/// No explanation is handed over that was not asked for, and while none is asked for,
/// each that was asked for has been handed over.
pub proof fn explanations_answer_requests(events: Seq<ExplainEvent>)
    requires
        is_history(events),
    ensures
        delivered(events) <= asked(events) <= delivered(events) + 1,
        phase_after(events) is Idle ==> asked(events) == delivered(events),
        phase_after(events) is Asked ==> asked(events) == delivered(events) + 1,
    decreases events.len(),
{
    if events.len() > 0 {
        explanations_answer_requests(events.drop_last());
    }
}

/// An explanation says what the service said, line by line.
pub proof fn explanations_say_what_was_sent(e: ExplanationMessage, r: ExplainResult)
    requires
        is_result_of(e, r),
    ensures
        e.target_line_number <= usize::MAX ==> r.target_line_number == e.target_line_number,
        r.target_in_corpus == e.target_in_corpus,
        r.target_score == e.target_score,
        r.target_is_unk == e.target_is_unk,
        r.target_is_rare == e.target_is_rare,
        r.top_templates == e.top_templates,
        r.attention@.len() == e.attention@.len(),
        forall|i: int|
            0 <= i < r.attention@.len() ==> {
                &&& (#[trigger] r.attention@[i]).weight == e.attention@[i].weight
                &&& e.attention@[i].line_number <= usize::MAX ==> r.attention@[i].line_number
                    == e.attention@[i].line_number
            },
{
}

/// A request is sent for the line that was asked for and then waited for; an explanation is
/// handed over once and ends the waiting; any other message is passed over; a stream that
/// ended is not asked again; and when nobody asks any more, the service is told.
pub proof fn sessions_answer_each_event(
    phase: ExplainPhase,
    event: ExplainEvent,
    action: ExplainAction,
)
    requires
        can_happen(phase, event),
        is_answer(event, action),
    ensures
        phase is Idle == (event is Requested || event is NothingRequested
            || event is RequestersGone),
        phase is Asked == (event is Message || event is StreamEnded),
        event matches ExplainEvent::Requested(line) ==> {
            &&& next_phase(phase, event) is Asked
            &&& action matches ExplainAction::Ask(ClientFrame::Explain { target_line_number })
            &&& target_line_number == line
        },
        event is NothingRequested ==> next_phase(phase, event) is Idle && action is AwaitRequest,
        event is RequestersGone ==> next_phase(phase, event) is Ended && action
            == ExplainAction::Leave(ClientFrame::Close),
        event is StreamEnded ==> next_phase(phase, event) is Ended && action is Stop,
        event matches ExplainEvent::Message(Some(ServerPayload::Explanation(e))) ==> {
            &&& next_phase(phase, event) is Idle
            &&& action matches ExplainAction::Deliver(r)
            &&& r.target_score == e.target_score
            &&& r.top_templates == e.top_templates
        },
        event is Message && !(event matches ExplainEvent::Message(Some(ServerPayload::Explanation(
            _,
        )))) ==> next_phase(phase, event) is Asked && action is AwaitMessage,
{
}

/// What was received is what is handed on: an explanation where there is one, and no more
/// waiting where none can come.
pub proof fn received_explanations_are_handed_on(received: Received)
    ensures
        received matches Received::Result(e) ==> status_of(received) == ExplainPollStatus::Ready(
            e,
        ),
        received is Empty ==> status_of(received) is Pending,
        received is Disconnected ==> status_of(received) is Dead,
{
}

} // verus!
