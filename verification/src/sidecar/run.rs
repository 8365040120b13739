//! Scoring a file with the scoring service, step by step.

use super::scoring;
use super::scoring::{ScoreSheet, ScoringConfig};
use super::stream;
use super::stream::{FrameOutcome, ScoreEntry, ScoreError, ScoreStreamResult, StreamEvent};
use crate::store::scores::ScoreBits;
use crate::text;
use vstd::prelude::*;

verus! {

/// Where the scoring of a file stands.
#[derive(Debug, Clone, Copy, PartialEq, Eq, Structural)]
pub enum RunPhase {
    Connecting,
    CheckingHealth,
    Preparing,
    Streaming,
    Over,
}

/// What is to be done next.
#[derive(Debug)]
pub enum RunAction {
    /// Connect to the service; the user is shown a title and a status.
    Connect { title: String, status: String },
    /// Ask whether the service is up.
    CheckHealth,
    /// Make the lines ready to be sent.
    Prepare { status: String },
    /// Send the lines.
    Send { status: String },
    /// Wait for a message of the service.
    Await,
    /// Keep the scores of the sheet, tell the user, and wait for a message.
    Keep { status: String },
    /// Keep the scores of the sheet, tell the user, and end.
    Finish { status: String },
    /// End; the user is told of an error, if there was one.
    Stop { error: Option<String> },
}

/// The scoring of a file with the scoring service.
#[derive(Debug)]
pub struct SidecarRun {
    phase: RunPhase,
    host: String,
    port: u16,
    total: usize,
    result: ScoreStreamResult,
    sheet: ScoreSheet,
}

/// The title under which the user sees the scoring.
pub open spec fn title_text(model_id: Seq<char>) -> Seq<char> {
    "ML Scoring ("@ + model_id + ")"@
}

/// What the user is told where the service cannot be reached.
pub open spec fn connect_error_text(host: Seq<char>, port: u16, error: Seq<char>) -> Seq<char> {
    "Failed to connect to sidecar at "@ + host + ":"@ + text::dec(port as nat) + ": "@ + error
}

/// What the user is told when the lines are sent.
pub open spec fn sending_text(n: nat) -> Seq<char> {
    "Scoring "@ + text::dec(n) + " lines..."@
}

/// What the user is told while scores come in.
pub open spec fn scoring_text(scored: nat, total: nat) -> Seq<char> {
    "ML scoring... ("@ + text::dec(scored) + "/"@ + text::dec(total) + ")"@
}

/// What the user is told of an error.
pub open spec fn error_text(prefix: Seq<char>, error: Seq<char>) -> Seq<char> {
    prefix + error
}

fn joined(prefix: &str, rest: &str) -> (r: String)
    ensures
        r@ == error_text(prefix@, rest@),
{
    let mut r = String::from_str(prefix);
    r.append(rest);
    r
}

/// Whether an action ends the scoring without an error.
pub open spec fn is_quiet_stop(action: RunAction) -> bool {
    action matches RunAction::Stop { error } && error is None
}

/// Whether an action ends the scoring with an error.
pub open spec fn is_stop_with(action: RunAction, error: Seq<char>) -> bool {
    action matches RunAction::Stop { error: Some(e) } && e@ == error
}

impl SidecarRun {
    pub closed spec fn at(&self) -> RunPhase {
        self.phase
    }

    pub closed spec fn address(&self) -> (Seq<char>, u16) {
        (self.host@, self.port)
    }

    /// How many lines the file has.
    pub closed spec fn line_count(&self) -> nat {
        self.total as nat
    }

    /// What the service said so far.
    pub closed spec fn said(&self) -> ScoreStreamResult {
        self.result
    }

    /// The scores that are kept.
    pub closed spec fn scores(&self) -> ScoreSheet {
        self.sheet
    }

    /// The sheet is that of all that the service said so far.
    pub open spec fn wf<S: Fn(ScoreBits) -> ScoreBits>(&self, scale: S) -> bool {
        self.line_count() <= usize::MAX && self.scores().is_sheet_of(
            self.said().scored@,
            self.line_count(),
            scale,
        )
    }

    /// Whether only the phase differs.
    pub open spec fn same_but_phase(&self, other: &Self) -> bool {
        &&& self.address() == other.address()
        &&& self.line_count() == other.line_count()
        &&& self.said() == other.said()
        &&& self.scores() == other.scores()
    }

    /// Begins to score a file with as many lines. Without a model nothing is scored.
    pub fn begin<S: Fn(ScoreBits) -> ScoreBits>(
        config: &ScoringConfig,
        total: usize,
        scale: &S,
    ) -> (r: (SidecarRun, RunAction))
        ensures
            r.0.wf(*scale),
            r.0.line_count() == total,
            r.0.address() == (config.sidecar_host@, config.sidecar_port),
            r.0.said().scored@ == Map::<usize, ScoreEntry>::empty(),
            r.0.said().warnings@ == Seq::<String>::empty(),
            match config.model_id {
                Some(model) => {
                    &&& r.0.at() is Connecting
                    &&& r.1 matches RunAction::Connect { title, status }
                    &&& title@ == title_text(model@)
                    &&& status@ == "Connecting to sidecar..."@
                },
                None => r.0.at() is Over && is_quiet_stop(r.1),
            },
    {
        let (phase, action) = match &config.model_id {
            Some(model) => {
                let mut title = String::from_str("ML Scoring (");
                title.append(model.as_str());
                title.append(")");
                (
                    RunPhase::Connecting,
                    RunAction::Connect {
                        title,
                        status: String::from_str("Connecting to sidecar..."),
                    },
                )
            },
            None => (RunPhase::Over, RunAction::Stop { error: None }),
        };
        let sheet = ScoreSheet::new(total);
        proof {
            scoring::new_sheet_is_empty(sheet, total as nat, *scale);
        }
        let run = SidecarRun {
            phase,
            host: config.sidecar_host.clone(),
            port: config.sidecar_port,
            total,
            result: ScoreStreamResult::new(),
            sheet,
        };
        (run, action)
    }

    /// Where the scoring stands.
    pub fn phase(&self) -> (r: RunPhase)
        ensures
            r == self.at(),
    {
        self.phase
    }

    /// The scores that are kept.
    pub fn sheet(&self) -> (r: &ScoreSheet)
        ensures
            *r == self.scores(),
    {
        &self.sheet
    }

    /// What the service said so far.
    pub fn result(&self) -> (r: &ScoreStreamResult)
        ensures
            *r == self.said(),
    {
        &self.result
    }

    /// Goes on once it is known whether the service could be reached.
    pub fn connected(&mut self, outcome: Result<(), String>) -> (r: RunAction)
        requires
            old(self).at() is Connecting,
        ensures
            final(self).same_but_phase(old(self)),
            match outcome {
                Ok(()) => final(self).at() is CheckingHealth && r is CheckHealth,
                Err(e) => final(self).at() is Over && is_stop_with(
                    r,
                    connect_error_text(old(self).address().0, old(self).address().1, e@),
                ),
            },
    {
        match outcome {
            Ok(()) => {
                self.phase = RunPhase::CheckingHealth;
                RunAction::CheckHealth
            },
            Err(e) => {
                self.phase = RunPhase::Over;
                let mut t = String::from_str("Failed to connect to sidecar at ");
                t.append(self.host.as_str());
                t.append(":");
                text::push_dec(&mut t, self.port as u64);
                t.append(": ");
                t.append(e.as_str());
                RunAction::Stop { error: Some(t) }
            },
        }
    }

    /// Goes on once it is known whether the service is up.
    pub fn health_checked(&mut self, outcome: Result<(), String>) -> (r: RunAction)
        requires
            old(self).at() is CheckingHealth,
        ensures
            final(self).same_but_phase(old(self)),
            match outcome {
                Ok(()) => {
                    &&& final(self).at() is Preparing
                    &&& r matches RunAction::Prepare { status }
                    &&& status@ == "Preparing lines..."@
                },
                Err(e) => final(self).at() is Over && is_stop_with(
                    r,
                    error_text("Sidecar not responding: "@, e@),
                ),
            },
    {
        match outcome {
            Ok(()) => {
                self.phase = RunPhase::Preparing;
                RunAction::Prepare { status: String::from_str("Preparing lines...") }
            },
            Err(e) => {
                self.phase = RunPhase::Over;
                RunAction::Stop { error: Some(joined("Sidecar not responding: ", e.as_str())) }
            },
        }
    }

    /// Goes on once the lines were made ready; `None` where that was cancelled.
    pub fn prepared(&mut self, count: Option<usize>) -> (r: RunAction)
        requires
            old(self).at() is Preparing,
        ensures
            final(self).same_but_phase(old(self)),
            match count {
                Some(n) => {
                    &&& final(self).at() is Streaming
                    &&& r matches RunAction::Send { status }
                    &&& status@ == sending_text(n as nat)
                },
                None => final(self).at() is Over && is_quiet_stop(r),
            },
    {
        match count {
            Some(n) => {
                self.phase = RunPhase::Streaming;
                let mut status = String::from_str("Scoring ");
                text::push_dec(&mut status, n as u64);
                status.append(" lines...");
                RunAction::Send { status }
            },
            None => {
                self.phase = RunPhase::Over;
                RunAction::Stop { error: None }
            },
        }
    }

    /// Ends because of an error. Where the user cancelled the scoring, they are not told.
    pub fn failed(&mut self, error: &ScoreError, cancelled: bool) -> (r: RunAction)
        requires
            old(self).at() is Streaming,
        ensures
            final(self).same_but_phase(old(self)),
            final(self).at() is Over,
            if cancelled {
                is_quiet_stop(r)
            } else {
                is_stop_with(r, error_text("Sidecar scoring error: "@, error.message_text()))
            },
    {
        self.phase = RunPhase::Over;
        if cancelled {
            RunAction::Stop { error: None }
        } else {
            let t = error.to_text();
            RunAction::Stop { error: Some(joined("Sidecar scoring error: ", t.as_str())) }
        }
    }

    /// Goes on once the service sent something, or did not in time.
    pub fn received<S: Fn(ScoreBits) -> ScoreBits>(
        &mut self,
        event: StreamEvent,
        cancelled: bool,
        scale: &S,
    ) -> (r: RunAction)
        requires
            old(self).at() is Streaming,
            old(self).wf(*scale),
            forall|b: ScoreBits| #[trigger] call_requires(*scale, (b,)),
        ensures
            final(self).wf(*scale),
            final(self).address() == old(self).address(),
            final(self).line_count() == old(self).line_count(),
            exists|o: Result<FrameOutcome, ScoreError>|
                {
                    &&& #[trigger] stream::waited(event, old(self).said(), final(self).said(), o)
                    &&& match o {
                        Ok(o) => if o.complete {
                            &&& final(self).at() is Over
                            &&& r matches RunAction::Finish { status }
                            &&& status@ == "ML scoring done!"@
                        } else if o.new_entries is Some {
                            &&& final(self).at() is Streaming
                            &&& r matches RunAction::Keep { status }
                            &&& status@ == scoring_text(
                                final(self).said().scored@.dom().len(),
                                final(self).line_count(),
                            )
                        } else {
                            &&& final(self).at() is Streaming
                            &&& r is Await
                        },
                        Err(e) => {
                            &&& final(self).at() is Over
                            &&& if cancelled {
                                is_quiet_stop(r)
                            } else {
                                is_stop_with(
                                    r,
                                    error_text("Sidecar scoring error: "@, e.message_text()),
                                )
                            }
                        },
                    }
                },
    {
        broadcast use vstd::std_specs::hash::group_hash_axioms;

        let o = stream::after_wait(event, &mut self.result);
        let ghost outcome = o;
        let r = match o {
            Ok(outcome) => {
                if outcome.complete {
                    self.sheet = ScoreSheet::from_result(&self.result, self.total, scale);
                    self.phase = RunPhase::Over;
                    RunAction::Finish { status: String::from_str("ML scoring done!") }
                } else {
                    match outcome.new_entries {
                        Some(new_entries) => {
                            let ghost before = self.sheet;
                            assert(before.has_len(self.total as nat));
                            self.sheet.patch(&new_entries, scale);
                            proof {
                                scoring::patched_sheet_is_complete(
                                    before,
                                    self.sheet,
                                    old(self).said().scored@,
                                    new_entries@,
                                    self.total as nat,
                                    *scale,
                                );
                            }
                            let mut status = String::from_str("ML scoring... (");
                            text::push_dec(&mut status, self.result.scored.len() as u64);
                            status.append("/");
                            text::push_dec(&mut status, self.total as u64);
                            status.append(")");
                            RunAction::Keep { status }
                        },
                        None => RunAction::Await,
                    }
                }
            },
            Err(e) => self.failed(&e, cancelled),
        };
        assert(stream::waited(event, old(self).said(), self.said(), outcome));
        r
    }
}

/// The user is told what goes on in the words for it, with the numbers of lines in place.
pub proof fn users_are_told_how_far_scoring_is(
    model_id: Seq<char>,
    host: Seq<char>,
    port: u16,
    error: Seq<char>,
    scored: nat,
    total: nat,
)
    ensures
        title_text(model_id) == "ML Scoring ("@ + model_id + ")"@,
        connect_error_text(host, port, error) == "Failed to connect to sidecar at "@ + host + ":"@
            + text::dec(port as nat) + ": "@ + error,
        sending_text(total) == "Scoring "@ + text::dec(total) + " lines..."@,
        scoring_text(scored, total) == "ML scoring... ("@ + text::dec(scored) + "/"@ + text::dec(
            total,
        ) + ")"@,
        error_text(host, error) == host + error,
{
}

/// A scoring that ends without a word to the user has no error, one that ends with a word
/// has just that one, and no other action ends it so.
pub proof fn quiet_ends_have_no_error(action: RunAction, error: Seq<char>)
    ensures
        is_quiet_stop(action) == (action matches RunAction::Stop { error: None }),
        is_stop_with(action, error) == (action matches RunAction::Stop { error: Some(e) } && e@
            == error),
        !(is_quiet_stop(action) && is_stop_with(action, error)),
{
}

/// The scores that are kept are at every moment those that the service gave so far: a line
/// is marked as scored just where the service spoke of it.
pub proof fn kept_scores_are_those_given<S: Fn(ScoreBits) -> ScoreBits>(
    run: SidecarRun,
    scale: S,
    i: usize,
)
    requires
        run.wf(scale),
        i < run.line_count(),
    ensures
        run.scores().scored_flags@[i as int] == run.said().scored@.contains_key(i),
        run.said().scored@.contains_key(i) ==> {
            &&& call_ensures(
                scale,
                (run.said().scored@[i].score,),
                run.scores().raw_scores@[i as int],
            )
            &&& run.scores().unk_flags@[i as int] == run.said().scored@[i].target_is_unk
            &&& run.scores().rare_flags@[i as int] == run.said().scored@[i].target_is_rare
        },
        !run.said().scored@.contains_key(i) ==> run.scores().raw_scores@[i as int] == 0,
{
    scoring::sheets_hold_what_was_said(
        run.scores(),
        run.said().scored@,
        run.line_count(),
        scale,
        i,
    );
}

} // verus!
