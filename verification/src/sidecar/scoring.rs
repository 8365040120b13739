//! Scoring the lines of a file.

use super::model::{InputLine, LineId};
use super::stream::{ScoreEntry, ScoreStreamResult};
use crate::filetype::LineType;
use crate::store::scores::ScoreBits;
use crate::store::source::SourceData;
use crate::text;
use std::collections::HashMap;
use vstd::prelude::*;
use vstd::std_specs::iter::IteratorSpec;

verus! {

/// Whether and how a scoring service is used.
#[derive(Debug)]
pub struct ScoringConfig {
    pub use_sidecar: bool,
    pub sidecar_host: String,
    pub sidecar_port: u16,
    /// The model to use; without one the service is not asked.
    pub model_id: Option<String>,
}

impl Clone for ScoringConfig {
    fn clone(&self) -> (r: Self)
        ensures
            r == *self,
    {
        ScoringConfig {
            use_sidecar: self.use_sidecar,
            sidecar_host: self.sidecar_host.clone(),
            sidecar_port: self.sidecar_port,
            model_id: text::clone_opt(&self.model_id),
        }
    }
}

/// The settings of the scoring service, where it is to be used.
pub fn wanted_sidecar(config: Option<ScoringConfig>) -> (r: Option<ScoringConfig>)
    ensures
        r == match config {
            Some(c) => if c.use_sidecar {
                Some(c)
            } else {
                None
            },
            None => None,
        },
{
    match config {
        Some(c) => {
            if c.use_sidecar {
                Some(c)
            } else {
                None
            }
        },
        None => None,
    }
}

/// Whether a line to be scored is that at a place of a source.
pub open spec fn is_prepared<L: LineType>(
    source: SourceData<L>,
    i: int,
    source_id: u64,
    file_name: Option<String>,
    slug: Seq<char>,
    line: InputLine,
) -> bool {
    &&& line.line_id == (LineId {
        source_id: (source_id % 0x1_0000) as u16,
        line_number: i as usize,
        timestamp_unix_ms: source.times()[i].unix_ms() as u64,
    })
    &&& line.message@ == source.lines()[i].message_text()
    &&& line.template_key is None
    &&& line.source_file == file_name
    &&& line.filetype matches Some(f) && f@ == slug
}

/// The lines of a source as the scoring service gets them; `None` where the work was
/// cancelled. Every 1000 lines it is asked whether it is.
pub fn prepare_input_lines<L: LineType, C: Fn() -> bool>(
    source: &SourceData<L>,
    source_id: u64,
    file_name: &Option<String>,
    slug: &str,
    is_cancelled: &C,
) -> (r: Option<Vec<InputLine>>)
    requires
        source.is_timed(),
        call_requires(*is_cancelled, ()),
    ensures
        r matches Some(lines) ==> {
            &&& lines@.len() == source.lines().len()
            &&& forall|i: int|
                0 <= i < lines@.len() ==> is_prepared(
                    *source,
                    i,
                    source_id,
                    *file_name,
                    slug@,
                    #[trigger] lines@[i],
                )
        },
        r is None ==> source.lines().len() > 0 && call_ensures(*is_cancelled, (), true),
        r is Some && source.lines().len() > 0 ==> call_ensures(*is_cancelled, (), false),
{
    let total: usize = source.len();
    let mut lines: Vec<InputLine> = Vec::new();
    let mut i: usize = 0;
    while i < total
        invariant
            i <= total,
            total == source.lines().len(),
            source.is_timed(),
            call_requires(*is_cancelled, ()),
            i > 0 ==> call_ensures(*is_cancelled, (), false),
            lines@.len() == i,
            forall|k: int|
                0 <= k < i ==> is_prepared(
                    *source,
                    k,
                    source_id,
                    *file_name,
                    slug@,
                    #[trigger] lines@[k],
                ),
        decreases total - i,
    {
        if i % 1000 == 0 && is_cancelled() {
            return None;
        }
        if let Some((ms, message)) = source.get_sidecar_message(i) {
            let line = InputLine::new(
                (source_id % 0x1_0000) as u16,
                i,
                ms,
                message,
                None,
                text::clone_opt(file_name),
                Some(String::from_str(slug)),
            );
            assert(is_prepared(*source, i as int, source_id, *file_name, slug@, line));
            lines.push(line);
        }
        i += 1;
    }
    Some(lines)
}

/// The scores and flags of the lines of a file, each list by the place of the line.
#[derive(Debug)]
pub struct ScoreSheet {
    pub raw_scores: Vec<ScoreBits>,
    pub unk_flags: Vec<bool>,
    pub rare_flags: Vec<bool>,
    pub scored_flags: Vec<bool>,
}

impl ScoreSheet {
    /// Whether every list has room for as many lines.
    pub open spec fn has_len(&self, total: nat) -> bool {
        &&& self.raw_scores@.len() == total
        &&& self.unk_flags@.len() == total
        &&& self.rare_flags@.len() == total
        &&& self.scored_flags@.len() == total
    }

    /// Whether a line has the score and the flags that the service gave it, the score
    /// brought to the range of the program.
    pub open spec fn says<S: Fn(ScoreBits) -> ScoreBits>(
        &self,
        i: int,
        entry: ScoreEntry,
        scale: S,
    ) -> bool {
        &&& call_ensures(scale, (entry.score,), self.raw_scores@[i])
        &&& self.unk_flags@[i] == entry.target_is_unk
        &&& self.rare_flags@[i] == entry.target_is_rare
        &&& self.scored_flags@[i]
    }

    /// Whether a line has neither score nor flag.
    pub open spec fn is_blank(&self, i: int) -> bool {
        &&& self.raw_scores@[i] == 0
        &&& !self.unk_flags@[i]
        &&& !self.rare_flags@[i]
        &&& !self.scored_flags@[i]
    }

    /// Whether a line has the score and the flags that it has in another sheet.
    pub open spec fn agrees(&self, other: ScoreSheet, i: int) -> bool {
        &&& self.raw_scores@[i] == other.raw_scores@[i]
        &&& self.unk_flags@[i] == other.unk_flags@[i]
        &&& self.rare_flags@[i] == other.rare_flags@[i]
        &&& self.scored_flags@[i] == other.scored_flags@[i]
    }

    /// Whether this is the sheet of what the service said.
    pub open spec fn is_sheet_of<S: Fn(ScoreBits) -> ScoreBits>(
        &self,
        scored: Map<usize, ScoreEntry>,
        total: nat,
        scale: S,
    ) -> bool {
        &&& self.has_len(total)
        &&& forall|i: int|
            #![trigger self.raw_scores@[i]]
            0 <= i < total ==> if scored.contains_key(i as usize) {
                self.says(i, scored[i as usize], scale)
            } else {
                self.is_blank(i)
            }
    }

    /// No line scored yet.
    pub fn new(total: usize) -> (r: Self)
        ensures
            r.has_len(total as nat),
            forall|i: int| 0 <= i < total ==> #[trigger] r.is_blank(i),
    {
        let mut raw_scores: Vec<ScoreBits> = Vec::new();
        let mut unk_flags: Vec<bool> = Vec::new();
        let mut rare_flags: Vec<bool> = Vec::new();
        let mut scored_flags: Vec<bool> = Vec::new();
        let mut i: usize = 0;
        while i < total
            invariant
                i <= total,
                raw_scores@.len() == i,
                unk_flags@.len() == i,
                rare_flags@.len() == i,
                scored_flags@.len() == i,
                forall|k: int| 0 <= k < i ==> #[trigger] raw_scores@[k] == 0,
                forall|k: int| 0 <= k < i ==> !#[trigger] unk_flags@[k],
                forall|k: int| 0 <= k < i ==> !#[trigger] rare_flags@[k],
                forall|k: int| 0 <= k < i ==> !#[trigger] scored_flags@[k],
            decreases total - i,
        {
            raw_scores.push(0);
            unk_flags.push(false);
            rare_flags.push(false);
            scored_flags.push(false);
            i += 1;
        }
        ScoreSheet { raw_scores, unk_flags, rare_flags, scored_flags }
    }

    fn set<S: Fn(ScoreBits) -> ScoreBits>(&mut self, i: usize, entry: ScoreEntry, scale: &S)
        requires
            exists|total: nat| i < total && old(self).has_len(total),
            forall|b: ScoreBits| #[trigger] call_requires(*scale, (b,)),
        ensures
            forall|total: nat| old(self).has_len(total) ==> #[trigger] final(self).has_len(total),
            final(self).says(i as int, entry, *scale),
            forall|k: int|
                0 <= k < old(self).raw_scores@.len() && k != i ==> #[trigger] final(self).agrees(
                    *old(self),
                    k,
                ),
    {
        self.raw_scores.set(i, scale(entry.score));
        self.unk_flags.set(i, entry.target_is_unk);
        self.rare_flags.set(i, entry.target_is_rare);
        self.scored_flags.set(i, true);
    }

    /// Takes new scores over; those of lines that the file does not have are left out.
    pub fn patch<S: Fn(ScoreBits) -> ScoreBits>(
        &mut self,
        new_entries: &HashMap<usize, ScoreEntry>,
        scale: &S,
    )
        requires
            exists|total: nat| old(self).has_len(total),
            forall|b: ScoreBits| #[trigger] call_requires(*scale, (b,)),
        ensures
            forall|total: nat| old(self).has_len(total) ==> #[trigger] final(self).has_len(total),
            forall|i: int|
                #![trigger final(self).raw_scores@[i]]
                0 <= i < old(self).raw_scores@.len() ==> if new_entries@.contains_key(
                    i as usize,
                ) {
                    final(self).says(i, new_entries@[i as usize], *scale)
                } else {
                    final(self).agrees(*old(self), i)
                },
    {
        broadcast use vstd::std_specs::hash::group_hash_axioms;

        let total: usize = self.raw_scores.len();
        let ghost before = *self;
        assert(before.has_len(total as nat));
        let entries = new_entries.iter();
        let ghost v = entries.remaining();
        for entry in it: entries
            invariant
                it.seq() == v,
                v.no_duplicates(),
                v.len() == new_entries@.dom().len(),
                forall|i: int|
                    #![trigger new_entries@.contains_key(*v[i].0)]
                    #![trigger v[i]]
                    0 <= i < v.len() ==> new_entries@.contains_key(*v[i].0)
                        && new_entries@[*v[i].0] == *v[i].1,
                total == before.raw_scores@.len(),
                before.has_len(total as nat),
                self.has_len(total as nat),
                forall|b: ScoreBits| #[trigger] call_requires(*scale, (b,)),
                forall|k: int|
                    #![trigger self.raw_scores@[k]]
                    0 <= k < total ==> if exists|j: int|
                        0 <= j < it.index() && *(#[trigger] v[j]).0 == k {
                        self.says(k, new_entries@[k as usize], *scale)
                    } else {
                        self.agrees(before, k)
                    },
        {
            let place: usize = *entry.0;
            let ghost now = *self;
            assert(entry == v[it.index() as int]);
            assert(new_entries@.contains_key(*v[it.index() as int].0));
            if place < total {
                self.set(place, *entry.1, scale);
            }
            proof {
                let at = it.index() as int;
                assert forall|k: int|
                    #![trigger self.raw_scores@[k]]
                    0 <= k < total implies if exists|j: int|
                    0 <= j < at + 1 && *(#[trigger] v[j]).0 == k {
                    self.says(k, new_entries@[k as usize], *scale)
                } else {
                    self.agrees(before, k)
                } by {
                    assert(now.raw_scores@[k] == now.raw_scores@[k]);
                    if k == place {
                        assert(*v[at].0 == k);
                    } else {
                        if place < total {
                            assert(self.agrees(now, k));
                        }
                        if exists|j: int| 0 <= j < at + 1 && *(#[trigger] v[j]).0 == k {
                            let j = choose|j: int| 0 <= j < at + 1 && *(#[trigger] v[j]).0 == k;
                            assert(j < at);
                        }
                    }
                }
            }
        }
        proof {
            assert forall|i: int|
                #![trigger self.raw_scores@[i]]
                0 <= i < total implies if new_entries@.contains_key(i as usize) {
                self.says(i, new_entries@[i as usize], *scale)
            } else {
                self.agrees(before, i)
            } by {
                if new_entries@.contains_key(i as usize) {
                    let k = i as usize;
                    assert(v.contains((&k, &new_entries@[k])));
                    let j = choose|j: int| 0 <= j < v.len() && v[j] == (&k, &new_entries@[k]);
                    assert(*v[j].0 == i);
                } else if exists|j: int| 0 <= j < v.len() && *(#[trigger] v[j]).0 == i {
                    let j = choose|j: int| 0 <= j < v.len() && *(#[trigger] v[j]).0 == i;
                    assert(new_entries@.contains_key(*v[j].0));
                }
            }
        }
    }

    /// The sheet of all that the service said.
    pub fn from_result<S: Fn(ScoreBits) -> ScoreBits>(
        result: &ScoreStreamResult,
        total: usize,
        scale: &S,
    ) -> (r: Self)
        requires
            forall|b: ScoreBits| #[trigger] call_requires(*scale, (b,)),
        ensures
            r.is_sheet_of(result.scored@, total as nat, *scale),
    {
        let mut sheet = ScoreSheet::new(total);
        let mut i: usize = 0;
        while i < total
            invariant
                i <= total,
                sheet.has_len(total as nat),
                forall|b: ScoreBits| #[trigger] call_requires(*scale, (b,)),
                forall|k: int|
                    #![trigger sheet.raw_scores@[k]]
                    0 <= k < i ==> if result.scored@.contains_key(k as usize) {
                        sheet.says(k, result.scored@[k as usize], *scale)
                    } else {
                        sheet.is_blank(k)
                    },
                forall|k: int| i <= k < total ==> #[trigger] sheet.is_blank(k),
            decreases total - i,
        {
            broadcast use vstd::std_specs::hash::group_hash_axioms;

            let ghost before = sheet;
            assert(sheet.is_blank(i as int));
            if let Some(e) = result.scored.get(&i) {
                sheet.set(i, *e, scale);
            }
            proof {
                assert forall|k: int|
                    #![trigger sheet.raw_scores@[k]]
                    0 <= k < i + 1 implies if result.scored@.contains_key(k as usize) {
                    sheet.says(k, result.scored@[k as usize], *scale)
                } else {
                    sheet.is_blank(k)
                } by {
                    if k < i {
                        assert(before.raw_scores@[k] == before.raw_scores@[k]);
                        assert(sheet == before || sheet.agrees(before, k));
                    }
                }
                assert forall|k: int| i < k < total implies #[trigger] sheet.is_blank(k) by {
                    assert(before.is_blank(k));
                    assert(sheet == before || sheet.agrees(before, k));
                }
            }
            i += 1;
        }
        sheet
    }
}

/// A sheet that takes each set of new scores over is at every moment the sheet of all that
/// the service said so far.
pub proof fn patched_sheet_is_complete<S: Fn(ScoreBits) -> ScoreBits>(
    before: ScoreSheet,
    after: ScoreSheet,
    scored: Map<usize, ScoreEntry>,
    new_entries: Map<usize, ScoreEntry>,
    total: nat,
    scale: S,
)
    requires
        total <= usize::MAX,
        before.is_sheet_of(scored, total, scale),
        after.has_len(total),
        forall|i: int|
            #![trigger after.raw_scores@[i]]
            0 <= i < total ==> if new_entries.contains_key(i as usize) {
                after.says(i, new_entries[i as usize], scale)
            } else {
                after.agrees(before, i)
            },
    ensures
        after.is_sheet_of(scored.union_prefer_right(new_entries), total, scale),
{
    let all = scored.union_prefer_right(new_entries);
    assert forall|i: int|
        #![trigger after.raw_scores@[i]]
        0 <= i < total implies if all.contains_key(i as usize) {
        after.says(i, all[i as usize], scale)
    } else {
        after.is_blank(i)
    } by {
        assert(if scored.contains_key(i as usize) {
            before.says(i, scored[i as usize], scale)
        } else {
            before.is_blank(i)
        }) by {
            assert(before.raw_scores@[i] == before.raw_scores@[i]);
        }
        assert(if new_entries.contains_key(i as usize) {
            after.says(i, new_entries[i as usize], scale)
        } else {
            after.agrees(before, i)
        }) by {
            assert(after.raw_scores@[i] == after.raw_scores@[i]);
        }
    }
}

/// A sheet on which no line is scored is that of a service that has said nothing.
pub proof fn new_sheet_is_empty<S: Fn(ScoreBits) -> ScoreBits>(
    sheet: ScoreSheet,
    total: nat,
    scale: S,
)
    requires
        sheet.has_len(total),
        forall|i: int| 0 <= i < total ==> #[trigger] sheet.is_blank(i),
    ensures
        sheet.is_sheet_of(Map::empty(), total, scale),
{
    assert forall|i: int| #![trigger sheet.raw_scores@[i]] 0 <= i < total implies sheet.is_blank(
        i,
    ) by {}
}

/// A line that is made ready says the place of the line, its time in milliseconds since
/// 1970, and its message, not what is shown of it.
pub proof fn prepared_lines_say_what_the_source_has<L: LineType>(
    source: SourceData<L>,
    i: int,
    source_id: u64,
    file_name: Option<String>,
    slug: Seq<char>,
    line: InputLine,
)
    requires
        is_prepared(source, i, source_id, file_name, slug, line),
        0 <= i <= usize::MAX,
    ensures
        line.line_id.line_number == i,
        source_id < 0x1_0000 ==> line.line_id.source_id == source_id,
        line.line_id.timestamp_unix_ms == source.times()[i].unix_ms() as u64,
        line.message@ == source.lines()[i].message_text(),
        line.source_file == file_name,
        line.filetype matches Some(f) && f@ == slug,
        line.template_key is None,
{
}

/// A sheet holds for every line what the service said of it, and marks it as scored; a
/// line of which it said nothing has no score and no mark.
pub proof fn sheets_hold_what_was_said<S: Fn(ScoreBits) -> ScoreBits>(
    sheet: ScoreSheet,
    scored: Map<usize, ScoreEntry>,
    total: nat,
    scale: S,
    i: usize,
)
    requires
        sheet.is_sheet_of(scored, total, scale),
        i < total,
    ensures
        sheet.raw_scores@.len() == total,
        sheet.unk_flags@.len() == total,
        sheet.rare_flags@.len() == total,
        sheet.scored_flags@.len() == total,
        sheet.scored_flags@[i as int] == scored.contains_key(i),
        scored.contains_key(i) ==> {
            &&& call_ensures(scale, (scored[i].score,), sheet.raw_scores@[i as int])
            &&& sheet.unk_flags@[i as int] == scored[i].target_is_unk
            &&& sheet.rare_flags@[i as int] == scored[i].target_is_rare
        },
        !scored.contains_key(i) ==> {
            &&& sheet.raw_scores@[i as int] == 0
            &&& !sheet.unk_flags@[i as int]
            &&& !sheet.rare_flags@[i as int]
        },
{
    let score = sheet.raw_scores@[i as int];
}

/// A service is asked just where there are settings that say so.
pub proof fn services_are_asked_only_if_wanted(
    config: Option<ScoringConfig>,
    r: Option<ScoringConfig>,
)
    requires
        call_ensures(wanted_sidecar, (config,), r),
    ensures
        (r is Some) == (config matches Some(c) && c.use_sidecar),
        r is Some ==> r == config,
{
}

} // verus!
