//! How odd the lines of a file are.

use std::sync::Arc;
use vstd::prelude::*;

verus! {

/// A score as the bits of a floating-point number; zero is zero.
pub type ScoreBits = u64;

/// The scores and flags of the lines of a file.
#[derive(Debug)]
struct ScoreSnapshot {
    scores: Vec<ScoreBits>,
    unk_flags: Vec<bool>,
    rare_flags: Vec<bool>,
    scored_flags: Vec<bool>,
}

/// The scores and flags of the lines of a file, each list by the place of the line: the
/// score, whether the line was unknown to the model, whether it was rare, and whether it
/// was scored at all.
pub struct ScoresView {
    pub scores: Seq<ScoreBits>,
    pub unk_flags: Seq<bool>,
    pub rare_flags: Seq<bool>,
    pub scored_flags: Seq<bool>,
}

/// The value at a place of a list, or a default beyond its end.
pub open spec fn value_at<T>(s: Seq<T>, i: int, default: T) -> T {
    if 0 <= i < s.len() {
        s[i]
    } else {
        default
    }
}

/// A list cut or filled to a length.
pub open spec fn resized<T>(s: Seq<T>, n: nat, fill: T) -> Seq<T> {
    Seq::new(n, |i: int| value_at(s, i, fill))
}

impl ScoresView {
    /// No scores.
    pub open spec fn none() -> ScoresView {
        ScoresView {
            scores: Seq::empty(),
            unk_flags: Seq::empty(),
            rare_flags: Seq::empty(),
            scored_flags: Seq::empty(),
        }
    }

    /// The score and the flags of a line; a line beyond the lists has none.
    pub open spec fn line(self, i: int) -> (ScoreBits, bool, bool, bool) {
        (
            value_at(self.scores, i, 0),
            value_at(self.unk_flags, i, false),
            value_at(self.rare_flags, i, false),
            value_at(self.scored_flags, i, false),
        )
    }

    /// With room for as many lines.
    pub open spec fn with_room(self, n: nat) -> ScoresView {
        if self.scores.len() >= n {
            self
        } else {
            ScoresView {
                scores: resized(self.scores, n, 0),
                unk_flags: resized(self.unk_flags, n, false),
                rare_flags: resized(self.rare_flags, n, false),
                scored_flags: resized(self.scored_flags, n, false),
            }
        }
    }
}

fn copy_scores(v: &[ScoreBits]) -> (r: Vec<ScoreBits>)
    ensures
        r@ == v@,
{
    let mut out: Vec<ScoreBits> = Vec::new();
    out.extend_from_slice(v);
    assert(out@ =~= v@);
    out
}

fn copy_flags(v: &[bool]) -> (r: Vec<bool>)
    ensures
        r@ == v@,
{
    let mut out: Vec<bool> = Vec::new();
    out.extend_from_slice(v);
    assert(out@ =~= v@);
    out
}

fn flag_at(v: &Vec<bool>, i: usize) -> (r: bool)
    ensures
        r == value_at(v@, i as int, false),
{
    if i < v.len() {
        v[i]
    } else {
        false
    }
}

fn resize_flags(v: &Vec<bool>, n: usize) -> (r: Vec<bool>)
    ensures
        r@ == resized(v@, n as nat, false),
{
    let mut out: Vec<bool> = Vec::new();
    let mut i: usize = 0;
    while i < n
        invariant
            i <= n,
            out@ == resized(v@, i as nat, false),
        decreases n - i,
    {
        out.push(flag_at(v, i));
        assert(out@ =~= resized(v@, (i + 1) as nat, false));
        i += 1;
    }
    out
}

/// The scores of the lines of a file. All lists change together.
#[derive(Debug)]
pub struct ScoreStore {
    data: Arc<ScoreSnapshot>,
}

impl View for ScoreStore {
    type V = ScoresView;

    closed spec fn view(&self) -> ScoresView {
        ScoresView {
            scores: self.data.scores@,
            unk_flags: self.data.unk_flags@,
            rare_flags: self.data.rare_flags@,
            scored_flags: self.data.scored_flags@,
        }
    }
}

impl ScoreStore {
    pub fn new() -> (r: Self)
        ensures
            r@ == ScoresView::none(),
    {
        let none: Vec<ScoreBits> = Vec::new();
        let r = ScoreStore::from_scores(none.as_slice());
        assert(r@.scores =~= Seq::empty());
        r
    }

    fn from_scores(scores: &[ScoreBits]) -> (r: Self)
        ensures
            r@ == (ScoresView { scores: scores@, ..ScoresView::none() }),
    {
        let r = ScoreStore {
            data: Arc::new(
                ScoreSnapshot {
                    scores: copy_scores(scores),
                    unk_flags: Vec::new(),
                    rare_flags: Vec::new(),
                    scored_flags: Vec::new(),
                },
            ),
        };
        assert(r@.unk_flags =~= Seq::empty());
        assert(r@.rare_flags =~= Seq::empty());
        assert(r@.scored_flags =~= Seq::empty());
        r
    }

    /// Sets all scores; no line has a flag any more.
    pub fn set_all(&mut self, scores: &[ScoreBits])
        ensures
            final(self)@ == (ScoresView { scores: scores@, ..ScoresView::none() }),
    {
        *self = ScoreStore::from_scores(scores);
    }

    /// Sets all scores and flags.
    pub fn set_all_with_unk(
        &mut self,
        scores: &[ScoreBits],
        unk_flags: &[bool],
        rare_flags: &[bool],
        scored_flags: &[bool],
    )
        ensures
            final(self)@ == (ScoresView {
                scores: scores@,
                unk_flags: unk_flags@,
                rare_flags: rare_flags@,
                scored_flags: scored_flags@,
            }),
    {
        self.data = Arc::new(
            ScoreSnapshot {
                scores: copy_scores(scores),
                unk_flags: copy_flags(unk_flags),
                rare_flags: copy_flags(rare_flags),
                scored_flags: copy_flags(scored_flags),
            },
        );
    }

    /// The score of a line, zero beyond the last one.
    pub fn get(&self, index: usize) -> (r: ScoreBits)
        ensures
            r == self@.line(index as int).0,
    {
        if index < self.data.scores.len() {
            self.data.scores[index]
        } else {
            0
        }
    }

    /// Whether a line was unknown to the model.
    pub fn get_unk(&self, index: usize) -> (r: bool)
        ensures
            r == self@.line(index as int).1,
    {
        flag_at(&self.data.unk_flags, index)
    }

    /// Whether a line was rare.
    pub fn get_rare(&self, index: usize) -> (r: bool)
        ensures
            r == self@.line(index as int).2,
    {
        flag_at(&self.data.rare_flags, index)
    }

    /// Whether a line was scored.
    pub fn get_scored(&self, index: usize) -> (r: bool)
        ensures
            r == self@.line(index as int).3,
    {
        flag_at(&self.data.scored_flags, index)
    }

    /// The score and all flags of a line.
    pub fn get_all(&self, index: usize) -> (r: (ScoreBits, bool, bool, bool))
        ensures
            r == self@.line(index as int),
    {
        (self.get(index), self.get_unk(index), self.get_rare(index), self.get_scored(index))
    }

    /// Makes room for as many lines; new ones have neither score nor flag.
    pub fn resize(&mut self, new_len: usize)
        ensures
            final(self)@ == old(self)@.with_room(new_len as nat),
    {
        if self.data.scores.len() >= new_len {
            return ;
        }
        let mut scores: Vec<ScoreBits> = Vec::new();
        let mut i: usize = 0;
        while i < new_len
            invariant
                i <= new_len,
                scores@ == resized(self.data.scores@, i as nat, 0),
            decreases new_len - i,
        {
            scores.push(self.get(i));
            assert(scores@ =~= resized(self.data.scores@, (i + 1) as nat, 0));
            i += 1;
        }
        let unk_flags = resize_flags(&self.data.unk_flags, new_len);
        let rare_flags = resize_flags(&self.data.rare_flags, new_len);
        let scored_flags = resize_flags(&self.data.scored_flags, new_len);
        self.data = Arc::new(ScoreSnapshot { scores, unk_flags, rare_flags, scored_flags });
    }

    /// A copy that shares its lists until one of the two is changed.
    pub fn duplicate(&self) -> (r: Self)
        ensures
            r@ == self@,
    {
        ScoreStore { data: Arc::clone(&self.data) }
    }
}

impl Default for ScoreStore {
    fn default() -> (r: Self)
        ensures
            r@ == ScoresView::none(),
    {
        ScoreStore::new()
    }
}

impl Clone for ScoreStore {
    fn clone(&self) -> (r: Self)
        ensures
            r@ == self@,
    {
        self.duplicate()
    }
}

/// Making room changes no score, and no flag of a line for which there is room.
pub proof fn room_keeps_scores(s: ScoresView, n: nat, i: int)
    ensures
        s.with_room(n).line(i).0 == s.line(i).0,
        i < n ==> s.with_room(n).line(i) == s.line(i),
{
}

/// A line has the score and the flags at its place in the lists, and none beyond their ends.
pub proof fn lines_have_the_scores_at_their_place(s: ScoresView, i: int)
    requires
        0 <= i,
    ensures
        i < s.scores.len() ==> s.line(i).0 == s.scores[i],
        i >= s.scores.len() ==> s.line(i).0 == 0,
        i < s.unk_flags.len() ==> s.line(i).1 == s.unk_flags[i],
        i >= s.unk_flags.len() ==> !s.line(i).1,
        i < s.rare_flags.len() ==> s.line(i).2 == s.rare_flags[i],
        i >= s.rare_flags.len() ==> !s.line(i).2,
        i < s.scored_flags.len() ==> s.line(i).3 == s.scored_flags[i],
        i >= s.scored_flags.len() ==> !s.line(i).3,
        ScoresView::none().line(i) == (0u64, false, false, false),
{
}

/// There is room for as many lines as were asked for, and none is taken away.
pub proof fn there_is_room_for_all_lines(s: ScoresView, n: nat)
    ensures
        s.with_room(n).scores.len() >= n,
        s.with_room(n).scores.len() >= s.scores.len(),
        s.scores.len() < n ==> s.with_room(n).unk_flags.len() == n && s.with_room(
            n,
        ).rare_flags.len() == n && s.with_room(n).scored_flags.len() == n,
{
}

} // verus!
