//! Scoring the lines of a file without a model.

use crate::filetype;
use crate::filetype::LineType;
use crate::store::scores::ScoreBits;
use crate::store::source;
use crate::store::source::{LogLine, SourceData};
use crate::store::variant;
use crate::time::TimeSpan;
use vstd::prelude::*;

verus! {

/// How many lines at the start of a file get no score: the scorer has seen too little.
pub const N_SKIP_INITIAL: usize = 10;

/// How many lines are scored.
pub open spec fn scored_count(lines: nat) -> nat {
    if lines > N_SKIP_INITIAL {
        (lines - N_SKIP_INITIAL) as nat
    } else {
        0
    }
}

/// Whether scores are those of the lines of a file, which are shown one after the other:
/// the scorer scores a line by the lines before it, and then learns it.
pub open spec fn is_scoring<L, S, F, U>(
    lines: Seq<L>,
    config: L::Config,
    diff: filetype::SpanTexts,
    states: Seq<L::FileState>,
    shown: Seq<LogLine>,
    scorers: Seq<S>,
    score: F,
    update: U,
    raw: Seq<ScoreBits>,
) -> bool where
    L: LineType,
    F: Fn(&S, &LogLine) -> ScoreBits,
    U: Fn(S, &LogLine) -> S,
 {
    &&& states.len() == shown.len() + 1
    &&& scorers.len() == shown.len() + 1
    &&& raw.len() == scored_count(shown.len())
    &&& forall|i: int|
        0 <= i < shown.len() ==> is_shown_as(
            lines[i],
            config,
            states[i],
            states[i + 1],
            diff,
            #[trigger] shown[i],
        )
    &&& forall|i: int|
        0 <= i < shown.len() ==> call_ensures(
            update,
            (scorers[i], &#[trigger] shown[i]),
            scorers[i + 1],
        )
    &&& forall|i: int|
        N_SKIP_INITIAL <= i < shown.len() ==> call_ensures(
            score,
            (&scorers[i], &#[trigger] shown[i]),
            raw[i - N_SKIP_INITIAL],
        )
}

/// Whether a line is shown as such, without scores.
pub open spec fn is_shown_as<L: LineType>(
    line: L,
    config: L::Config,
    state: L::FileState,
    after: L::FileState,
    diff: filetype::SpanTexts,
    shown: LogLine,
) -> bool {
    &&& shown.timestamp == line.time(config, state)
    &&& line.displays(config, state, diff, shown.message@)
    &&& line.is_raw(shown.raw@)
    &&& shown.line_number == line.number()
    &&& shown.anomaly_score == 0
    &&& shown.sidecar_anomaly_score == 0
    &&& !shown.sidecar_score_is_unk
    &&& !shown.sidecar_score_is_rare
    &&& !shown.sidecar_scored
    &&& line.state_after_display(config, state, after)
}

/// How many lines are not scored.
pub open spec fn skipped_count(lines: nat) -> nat {
    if lines > N_SKIP_INITIAL {
        N_SKIP_INITIAL as nat
    } else {
        lines
    }
}

/// The scores of a file with as many lines: none for its first lines, and then those that
/// were brought to the range of the program.
pub open spec fn padded(lines: nat, normalized: Seq<ScoreBits>) -> Seq<ScoreBits> {
    Seq::new(skipped_count(lines), |i: int| 0u64) + normalized
}

/// Whether a function gives back as many scores as it takes.
pub open spec fn keeps_length<N: Fn(&Vec<ScoreBits>) -> Vec<ScoreBits>>(normalize: N) -> bool {
    forall|raw: &Vec<ScoreBits>, normalized: Vec<ScoreBits>| #[trigger]
        call_ensures(normalize, (raw,), normalized) ==> normalized@.len() == raw@.len()
}

/// Puts the scores of a file with as many lines together.
pub fn pad_scores(lines: usize, normalized: &Vec<ScoreBits>) -> (r: Vec<ScoreBits>)
    ensures
        r@ == padded(lines as nat, normalized@),
{
    let mut out: Vec<ScoreBits> = Vec::new();
    while out.len() < N_SKIP_INITIAL && out.len() < lines
        invariant
            out@.len() <= skipped_count(lines as nat),
            forall|k: int| 0 <= k < out@.len() ==> #[trigger] out@[k] == 0,
        decreases N_SKIP_INITIAL - out.len(),
    {
        out.push(0);
    }
    out.extend_from_slice(normalized.as_slice());
    assert(out@ =~= padded(lines as nat, normalized@));
    out
}

/// Scores the lines of a file; `None` where that was cancelled. Every 1000 lines it is
/// asked whether it is.
///
/// `score` and `update` are those of a scorer, and `normalize` brings scores to the range
/// of the program. Where it keeps their number, each line gets one score.
pub fn score_heuristic<L, S, F, U, N, D, C>(
    source: &mut SourceData<L>,
    scorer: S,
    score: &F,
    update: &U,
    normalize: &N,
    diff: &D,
    is_cancelled: &C,
) -> (r: Option<Vec<ScoreBits>>) where
    L: LineType,
    F: Fn(&S, &LogLine) -> ScoreBits,
    U: Fn(S, &LogLine) -> S,
    N: Fn(&Vec<ScoreBits>) -> Vec<ScoreBits>,
    D: Fn(TimeSpan) -> String,
    C: Fn() -> bool,

    requires
        old(source).is_timed(),
        old(source).is_searchable(),
        forall|s: &S, l: &LogLine| #[trigger] call_requires(*score, (s, l)),
        forall|s: S, l: &LogLine| #[trigger] call_requires(*update, (s, l)),
        forall|v: &Vec<ScoreBits>| #[trigger] call_requires(*normalize, (v,)),
        forall|d: TimeSpan| #[trigger] call_requires(*diff, (d,)),
        call_requires(*is_cancelled, ()),
    ensures
        r matches Some(scores) ==> exists|
            states: Seq<L::FileState>,
            shown: Seq<LogLine>,
            scorers: Seq<S>,
            raw: Vec<ScoreBits>,
            normalized: Vec<ScoreBits>,
        |
            {
                &&& shown.len() == old(source).lines().len()
                &&& states[0] == old(source).state()
                &&& states.last() == final(source).state()
                &&& scorers[0] == scorer
                &&& #[trigger] is_scoring(
                    old(source).lines(),
                    old(source).settings(),
                    filetype::span_texts(*diff),
                    states,
                    shown,
                    scorers,
                    *score,
                    *update,
                    raw@,
                )
                &&& #[trigger] call_ensures(*normalize, (&raw,), normalized)
                &&& scores@ == padded(old(source).lines().len(), normalized@)
            },
        keeps_length(*normalize) ==> (r matches Some(scores) ==> scores@.len() == old(
            source,
        ).lines().len()),
        r is None ==> old(source).lines().len() > 0 && (old(source).cancel_flag()
            || call_ensures(*is_cancelled, (), true)),
        r is Some && old(source).lines().len() > 0 ==> !old(source).cancel_flag()
            && call_ensures(*is_cancelled, (), false),
        variant::same_but_state(*final(source), *old(source)),
{
    let ghost lines = source.lines();
    let ghost config = source.settings();
    let ghost texts = filetype::span_texts(*diff);
    let ghost mut states: Seq<L::FileState> = seq![source.state()];
    let ghost mut shown: Seq<LogLine> = Seq::empty();
    let ghost mut scorers: Seq<S> = seq![scorer];
    let ghost first_scorer = scorer;
    let total: usize = source.len();
    let mut scorer = scorer;
    let mut raw: Vec<ScoreBits> = Vec::new();
    let mut i: usize = 0;
    while i < total
        invariant
            i <= total,
            total == lines.len(),
            i > 0 ==> !old(source).cancel_flag() && call_ensures(*is_cancelled, (), false),
            lines == old(source).lines(),
            config == old(source).settings(),
            texts == filetype::span_texts(*diff),
            source.is_timed(),
            source.is_searchable(),
            old(source).is_timed(),
            old(source).is_searchable(),
            variant::same_but_state(*source, *old(source)),
            shown.len() == i,
            states[0] == old(source).state(),
            states.last() == source.state(),
            scorers[0] == first_scorer,
            scorers.last() == scorer,
            is_scoring(lines, config, texts, states, shown, scorers, *score, *update, raw@),
            forall|s: &S, l: &LogLine| #[trigger] call_requires(*score, (s, l)),
            forall|s: S, l: &LogLine| #[trigger] call_requires(*update, (s, l)),
            forall|d: TimeSpan| #[trigger] call_requires(*diff, (d,)),
            call_requires(*is_cancelled, ()),
        decreases total - i,
    {
        if i % 1000 == 0 {
            if source.is_cancelled() || is_cancelled() {
                return None;
            }
        }
        let ghost before = source.state();
        assert(source.shows(i)) by {
            assert(source.lines()[i as int].time_defined(source.settings(), source.state()));
            assert(source.lines()[i as int].display_defined(source.settings(), source.state()));
        }
        if let Some(line) = source.get_as_log_line(i, diff) {
            let ghost (old_states, old_shown, old_scorers, old_raw) = (
                states,
                shown,
                scorers,
                raw@,
            );
            if i > N_SKIP_INITIAL - 1 {
                raw.push(score(&scorer, &line));
            }
            scorer = update(scorer, &line);
            proof {
                source::showing_moves_no_time(lines, i as int, config, before, source.state());
                states = states.push(source.state());
                shown = shown.push(line);
                scorers = scorers.push(scorer);
                assert forall|k: int| 0 <= k < shown.len() implies is_shown_as(
                    lines[k],
                    config,
                    states[k],
                    states[k + 1],
                    texts,
                    #[trigger] shown[k],
                ) && call_ensures(*update, (scorers[k], &shown[k]), scorers[k + 1]) by {
                    if k < i {
                        assert(shown[k] == old_shown[k]);
                        assert(states[k] == old_states[k] && states[k + 1] == old_states[k + 1]);
                        assert(scorers[k] == old_scorers[k] && scorers[k + 1] == old_scorers[k
                            + 1]);
                    }
                }
                assert forall|k: int| N_SKIP_INITIAL <= k < shown.len() implies call_ensures(
                    *score,
                    (&scorers[k], &#[trigger] shown[k]),
                    raw@[k - N_SKIP_INITIAL],
                ) by {
                    if k < i {
                        assert(shown[k] == old_shown[k]);
                        assert(scorers[k] == old_scorers[k]);
                        assert(raw@[k - N_SKIP_INITIAL] == old_raw[k - N_SKIP_INITIAL]);
                    }
                }
            }
        }
        i += 1;
    }
    let normalized = normalize(&raw);
    assert(call_ensures(*normalize, (&raw,), normalized));
    Some(pad_scores(total, &normalized))
}

/// The first ten lines of a file have no score, and each line behind them has the score
/// that was made for it: there are as many scores as lines.
pub proof fn lines_behind_the_first_are_scored(lines: nat, normalized: Seq<ScoreBits>)
    requires
        normalized.len() == scored_count(lines),
    ensures
        normalized.len() == if lines > 10 {
            lines - 10
        } else {
            0
        },
        padded(lines, normalized).len() == lines,
        forall|i: int| 0 <= i < 10 && i < lines ==> #[trigger] padded(lines, normalized)[i] == 0,
        forall|i: int|
            10 <= i < lines ==> #[trigger] padded(lines, normalized)[i] == normalized[i - 10],
{
}

/// A line is scored by a scorer that has learnt just the lines before it, and what it
/// scores is the line as it is shown, with no score yet.
pub proof fn lines_are_scored_by_those_before_them<L, S, F, U>(
    lines: Seq<L>,
    config: L::Config,
    diff: filetype::SpanTexts,
    states: Seq<L::FileState>,
    shown: Seq<LogLine>,
    scorers: Seq<S>,
    score: F,
    update: U,
    raw: Seq<ScoreBits>,
    i: int,
) where L: LineType, F: Fn(&S, &LogLine) -> ScoreBits, U: Fn(S, &LogLine) -> S
    requires
        is_scoring(lines, config, diff, states, shown, scorers, score, update, raw),
        0 <= i < shown.len(),
    ensures
        call_ensures(update, (scorers[i], &shown[i]), scorers[i + 1]),
        raw.len() == if shown.len() > 10 {
            shown.len() - 10
        } else {
            0
        },
        i >= 10 ==> call_ensures(score, (&scorers[i], &shown[i]), raw[i - 10]),
        shown[i].timestamp == lines[i].time(config, states[i]),
        lines[i].displays(config, states[i], diff, shown[i].message@),
        lines[i].is_raw(shown[i].raw@),
        shown[i].line_number == lines[i].number(),
        shown[i].anomaly_score == 0 && shown[i].sidecar_anomaly_score == 0,
        !shown[i].sidecar_scored && !shown[i].sidecar_score_is_unk
            && !shown[i].sidecar_score_is_rare,
        lines[i].state_after_display(config, states[i], states[i + 1]),
{
    let line = shown[i];
}

} // verus!
