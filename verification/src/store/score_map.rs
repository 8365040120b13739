//! The scores of several sources.

use super::scores::{ScoreBits, ScoreStore, ScoresView};
use dashmap::DashMap;
use vstd::prelude::*;

verus! {

/// Scores by the numbers of sources.
pub type Sheets = Map<u64, ScoresView>;

/// The scores that a map holds.
pub uninterp spec fn score_entries(m: DashMap<u64, ScoreStore>) -> Sheets;

/// Makes an empty map with `dashmap::DashMap::new`.
#[verifier::external_body]
fn new_map() -> (r: DashMap<u64, ScoreStore>)
    ensures
        score_entries(r) == Sheets::empty(),
{
    DashMap::new()
}

/// Puts an entry into a map with `dashmap::DashMap::insert`, in place of one with its key.
#[verifier::external_body]
fn map_insert(m: &mut DashMap<u64, ScoreStore>, key: u64, value: ScoreStore)
    ensures
        score_entries(*final(m)) == score_entries(*old(m)).insert(key, value@),
{
    m.insert(key, value);
}

/// Looks an entry up with `dashmap::DashMap::get`.
#[verifier::external_body]
fn map_get(m: &DashMap<u64, ScoreStore>, key: u64) -> (r: Option<ScoreStore>)
    ensures
        r is Some == score_entries(*m).contains_key(key),
        r matches Some(s) ==> s@ == score_entries(*m)[key],
{
    m.get(&key).map(|e| e.value().duplicate())
}

/// Decides whether there is an entry with `dashmap::DashMap::contains_key`.
#[verifier::external_body]
fn map_contains(m: &DashMap<u64, ScoreStore>, key: u64) -> (r: bool)
    ensures
        r == score_entries(*m).contains_key(key),
{
    m.contains_key(&key)
}

/// Takes an entry out of a map with `dashmap::DashMap::remove`.
#[verifier::external_body]
fn map_remove(m: &mut DashMap<u64, ScoreStore>, key: u64)
    ensures
        score_entries(*final(m)) == score_entries(*old(m)).remove(key),
{
    m.remove(&key);
}

/// The scores of several sources.
pub struct ScoreMap {
    map: DashMap<u64, ScoreStore>,
}

impl View for ScoreMap {
    type V = Sheets;

    closed spec fn view(&self) -> Sheets {
        score_entries(self.map)
    }
}

/// The score and the flags of a line; zero and false where it has none.
pub open spec fn line_scores(sheets: Sheets, source_id: u64, line_index: int) -> (
    ScoreBits,
    bool,
    bool,
    bool,
) {
    if sheets.contains_key(source_id) {
        sheets[source_id].line(line_index)
    } else {
        (0, false, false, false)
    }
}

impl ScoreMap {
    pub fn new() -> (r: Self)
        ensures
            r@ == Sheets::empty(),
    {
        ScoreMap { map: new_map() }
    }

    /// Sets the scores of a source.
    pub fn insert(&mut self, source_id: u64, value: ScoreStore)
        ensures
            final(self)@ == old(self)@.insert(source_id, value@),
    {
        map_insert(&mut self.map, source_id, value);
    }

    /// Takes the scores of a source away.
    pub fn remove(&mut self, source_id: u64)
        ensures
            final(self)@ == old(self)@.remove(source_id),
    {
        map_remove(&mut self.map, source_id);
    }

    /// Decides whether a source has scores.
    pub fn contains(&self, source_id: u64) -> (r: bool)
        ensures
            r == self@.contains_key(source_id),
    {
        map_contains(&self.map, source_id)
    }

    /// The score and the flags of a line.
    pub fn line(&self, source_id: u64, line_index: usize) -> (r: (ScoreBits, bool, bool, bool))
        ensures
            r == line_scores(self@, source_id, line_index as int),
    {
        match map_get(&self.map, source_id) {
            Some(s) => s.get_all(line_index),
            None => (0, false, false, false),
        }
    }
}

/// The scores that were set for a source are those that its lines have, and the lines of
/// other sources keep theirs.
pub proof fn set_scores_are_read(sheets: Sheets, source_id: u64, scores: ScoresView, other: u64, i: int)
    ensures
        line_scores(sheets.insert(source_id, scores), source_id, i) == scores.line(i),
        other != source_id ==> line_scores(sheets.insert(source_id, scores), other, i)
            == line_scores(sheets, other, i),
{
}

/// The lines of a source that was taken out have no scores, and those of other sources
/// keep theirs.
pub proof fn removed_scores_are_gone(sheets: Sheets, source_id: u64, other: u64, i: int)
    ensures
        line_scores(sheets.remove(source_id), source_id, i) == (0u64, false, false, false),
        other != source_id ==> line_scores(sheets.remove(source_id), other, i) == line_scores(
            sheets,
            other,
            i,
        ),
{
}

} // verus!
