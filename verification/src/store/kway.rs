//! Merging the lines of several sources by time.

use super::ids::StoreID;
use crate::time::Timestamp;
use vstd::multiset::Multiset;
use vstd::prelude::*;

verus! {

/// A line with its time.
pub type TimedId = (Timestamp, StoreID);

/// How many lines lists hold together.
pub open spec fn total(lists: Seq<Seq<TimedId>>) -> nat
    decreases lists.len(),
{
    if lists.len() == 0 {
        0
    } else {
        total(lists.drop_last()) + lists.last().len()
    }
}

/// Which of the first `n` lists has the earliest first line; the first of them where
/// several are equally early.
pub open spec fn earliest(lists: Seq<Seq<TimedId>>, n: nat) -> Option<int>
    decreases n,
{
    if n == 0 {
        None
    } else {
        let before = earliest(lists, (n - 1) as nat);
        if lists[n - 1].len() == 0 {
            before
        } else {
            match before {
                None => Some(n - 1),
                Some(i) => if lists[n - 1][0].0.lt(lists[i][0].0) {
                    Some(n - 1)
                } else {
                    Some(i)
                },
            }
        }
    }
}

/// Lists in one: the earliest of the first lines comes first, and then the others in the
/// same way.
pub open spec fn kway(lists: Seq<Seq<TimedId>>) -> Seq<TimedId>
    decreases total(lists),
    via kway_ends
{
    match earliest(lists, lists.len()) {
        None => Seq::empty(),
        Some(i) => seq![lists[i][0]] + kway(lists.update(i, lists[i].drop_first())),
    }
}

#[via_fn]
proof fn kway_ends(lists: Seq<Seq<TimedId>>) {
    if let Some(i) = earliest(lists, lists.len()) {
        lemma_earliest(lists, lists.len());
        lemma_total(lists, i, lists[i].drop_first());
    }
}

proof fn lemma_earliest(lists: Seq<Seq<TimedId>>, n: nat)
    requires
        n <= lists.len(),
    ensures
        match earliest(lists, n) {
            None => forall|j: int| 0 <= j < n ==> (#[trigger] lists[j]).len() == 0,
            Some(i) => {
                &&& 0 <= i < n
                &&& lists[i].len() > 0
                &&& forall|j: int|
                    0 <= j < n && (#[trigger] lists[j]).len() > 0 ==> lists[i][0].0.le(
                        lists[j][0].0,
                    )
            },
        },
    decreases n,
{
    if n > 0 {
        lemma_earliest(lists, (n - 1) as nat);
    }
}

/// Empty lists merge to nothing.
pub proof fn lemma_nothing_to_merge(lists: Seq<Seq<TimedId>>)
    requires
        forall|i: int| 0 <= i < lists.len() ==> (#[trigger] lists[i]).len() == 0,
    ensures
        kway(lists).len() == 0,
{
    lemma_earliest(lists, lists.len());
}

proof fn lemma_total(lists: Seq<Seq<TimedId>>, i: int, x: Seq<TimedId>)
    requires
        0 <= i < lists.len(),
    ensures
        total(lists.update(i, x)) == total(lists) - lists[i].len() + x.len(),
        total(lists) >= lists[i].len(),
    decreases lists.len(),
{
    let changed = lists.update(i, x);
    if i < lists.len() - 1 {
        lemma_total(lists.drop_last(), i, x);
        assert(changed.drop_last() =~= lists.drop_last().update(i, x));
    } else {
        assert(changed.drop_last() =~= lists.drop_last());
    }
}

/// The lists from places on.
pub open spec fn rest(lists: Seq<Seq<TimedId>>, at: Seq<usize>) -> Seq<Seq<TimedId>> {
    Seq::new(lists.len(), |i: int| lists[i].skip(at[i] as int))
}

/// The contents of lists.
pub open spec fn contents(lists: Seq<Vec<TimedId>>) -> Seq<Seq<TimedId>> {
    lists.map_values(|l: Vec<TimedId>| l@)
}

/// The lines without their times.
pub open spec fn ids(v: Seq<TimedId>) -> Seq<StoreID> {
    v.map_values(|e: TimedId| e.1)
}

/// Merges lists of lines by time; `None` where the work was cancelled.
pub fn merge_lists<C: Fn() -> bool>(lists: &Vec<Vec<TimedId>>, should_cancel: &C) -> (r: Option<
    Vec<StoreID>,
>)
    requires
        call_requires(*should_cancel, ()),
    ensures
        r matches Some(merged) ==> merged@ == ids(kway(contents(lists@))),
        r is None ==> kway(contents(lists@)).len() > 0 && call_ensures(*should_cancel, (), true),
        r matches Some(merged) ==> merged@.len() > 0 ==> call_ensures(*should_cancel, (), false),
{
    let ghost all = contents(lists@);
    let mut at: Vec<usize> = Vec::new();
    let mut k: usize = 0;
    while k < lists.len()
        invariant
            k <= lists@.len(),
            at@.len() == k,
            forall|i: int| 0 <= i < k ==> #[trigger] at@[i] == 0,
        decreases lists.len() - k,
    {
        at.push(0);
        k += 1;
    }
    let mut out: Vec<StoreID> = Vec::new();
    assert(rest(all, at@) =~= all) by {
        assert forall|i: int| 0 <= i < all.len() implies rest(all, at@)[i] == all[i] by {
            assert(all[i].skip(0) =~= all[i]);
        }
    }
    assert(out@ + ids(kway(all)) =~= ids(kway(all)));
    loop
        invariant
            all == contents(lists@),
            at@.len() == lists@.len(),
            forall|i: int| 0 <= i < lists@.len() ==> #[trigger] at@[i] <= lists@[i]@.len(),
            out@ + ids(kway(rest(all, at@))) == ids(kway(all)),
            call_requires(*should_cancel, ()),
            out@.len() > 0 ==> call_ensures(*should_cancel, (), false),
        decreases total(rest(all, at@)),
    {
        let ghost now = rest(all, at@);
        match earliest_list(lists, &at) {
            None => {
                assert(ids(kway(now)) =~= Seq::empty());
                assert(out@ =~= ids(kway(all)));
                return Some(out);
            },
            Some(i) => {
                if should_cancel() {
                    assert(ids(kway(all)).len() > 0) by {
                        assert(kway(now).len() > 0);
                    }
                    return None;
                }
                let ghost before = out@;
                let ghost at_before = at@;
                proof {
                    lemma_earliest(now, now.len());
                    assert(now[i as int] == lists@[i as int]@.skip(at_before[i as int] as int));
                }
                let place: usize = at[i];
                let count: usize = lists[i].len();
                assert(place < count);
                let id = lists[i][place].1;
                out.push(id);
                at.set(i, place + 1);
                proof {
                    let next = rest(all, at@);
                    assert(next =~= now.update(i as int, now[i as int].drop_first())) by {
                        assert forall|j: int| 0 <= j < next.len() implies next[j] == now.update(
                            i as int,
                            now[i as int].drop_first(),
                        )[j] by {
                            if j == i {
                                assert(next[j] =~= now[j].drop_first());
                            }
                        }
                    }
                    lemma_total(now, i as int, now[i as int].drop_first());
                    assert(id == now[i as int][0].1);
                    assert(before + ids(kway(now)) =~= out@ + ids(kway(next)));
                }
            },
        }
    }
}

/// Which list has the earliest line at its place.
fn earliest_list(lists: &Vec<Vec<TimedId>>, at: &Vec<usize>) -> (r: Option<usize>)
    requires
        at@.len() == lists@.len(),
        forall|i: int| 0 <= i < lists@.len() ==> #[trigger] at@[i] <= lists@[i]@.len(),
    ensures
        match r {
            None => earliest(rest(contents(lists@), at@), lists@.len()) is None,
            Some(i) => earliest(rest(contents(lists@), at@), lists@.len()) == Some(i as int),
        },
        r matches Some(i) ==> i < lists@.len() && at@[i as int] < lists@[i as int]@.len(),
{
    let ghost now = rest(contents(lists@), at@);
    let mut best: Option<usize> = None;
    let mut k: usize = 0;
    while k < lists.len()
        invariant
            k <= lists@.len(),
            at@.len() == lists@.len(),
            forall|i: int| 0 <= i < lists@.len() ==> #[trigger] at@[i] <= lists@[i]@.len(),
            now == rest(contents(lists@), at@),
            match best {
                None => earliest(now, k as nat) is None,
                Some(i) => earliest(now, k as nat) == Some(i as int),
            },
            best matches Some(i) ==> i < lists@.len() && at@[i as int] < lists@[i as int]@.len(),
        decreases lists.len() - k,
    {
        let place: usize = at[k];
        assert(now[k as int] == lists@[k as int]@.skip(place as int));
        if place < lists[k].len() {
            match best {
                None => {
                    best = Some(k);
                },
                Some(i) => {
                    assert(now[i as int] == lists@[i as int]@.skip(at@[i as int] as int));
                    if lists[k][place].0.is_before(&lists[i][at[i]].0) {
                        best = Some(k);
                    }
                },
            }
        }
        k += 1;
    }
    best
}

/// What lists hold together.
pub open spec fn all_of(lists: Seq<Seq<TimedId>>) -> Multiset<TimedId>
    decreases lists.len(),
{
    if lists.len() == 0 {
        Multiset::empty()
    } else {
        all_of(lists.drop_last()).add(lists.last().to_multiset())
    }
}

proof fn lemma_all_of(lists: Seq<Seq<TimedId>>, i: int)
    requires
        0 <= i < lists.len(),
        lists[i].len() > 0,
    ensures
        all_of(lists.update(i, lists[i].drop_first())).insert(lists[i][0]) == all_of(lists),
    decreases lists.len(),
{
    broadcast use vstd::multiset::group_multiset_axioms;
    broadcast use vstd::seq_lib::group_to_multiset_ensures;

    let changed = lists.update(i, lists[i].drop_first());
    if i < lists.len() - 1 {
        lemma_all_of(lists.drop_last(), i);
        assert(changed.drop_last() =~= lists.drop_last().update(
            i,
            lists.drop_last()[i].drop_first(),
        ));
        assert(all_of(changed).insert(lists[i][0]) =~= all_of(lists));
    } else {
        assert(changed.drop_last() =~= lists.drop_last());
        let l = lists[i];
        assert(l.remove(0) =~= l.drop_first());
        assert(l.contains(l[0]));
        assert(l.to_multiset() =~= l.drop_first().to_multiset().insert(l[0]));
        assert(all_of(changed).insert(l[0]) =~= all_of(lists));
    }
}

/// Merging sources loses no line and adds none.
pub proof fn merging_sources_keeps_lines(lists: Seq<Seq<TimedId>>)
    ensures
        kway(lists).to_multiset() == all_of(lists),
    decreases total(lists),
{
    broadcast use vstd::multiset::group_multiset_axioms;
    broadcast use vstd::seq_lib::group_to_multiset_ensures;

    lemma_earliest(lists, lists.len());
    match earliest(lists, lists.len()) {
        None => {
            lemma_all_empty(lists);
            assert(kway(lists).to_multiset() =~= Multiset::empty());
        },
        Some(i) => {
            let next = lists.update(i, lists[i].drop_first());
            lemma_total(lists, i, lists[i].drop_first());
            merging_sources_keeps_lines(next);
            lemma_all_of(lists, i);
            let k = kway(lists);
            assert(k.remove(0) =~= kway(next));
            assert(k.contains(k[0]));
            assert(k.to_multiset() =~= kway(next).to_multiset().insert(k[0]));
        },
    }
}

proof fn lemma_all_empty(lists: Seq<Seq<TimedId>>)
    requires
        forall|j: int| 0 <= j < lists.len() ==> (#[trigger] lists[j]).len() == 0,
    ensures
        all_of(lists) == Multiset::<TimedId>::empty(),
    decreases lists.len(),
{
    broadcast use vstd::multiset::group_multiset_axioms;
    broadcast use vstd::seq_lib::group_to_multiset_ensures;

    if lists.len() > 0 {
        lemma_all_empty(lists.drop_last());
        assert(lists.last().len() == 0);
        assert(lists.last().to_multiset() =~= Multiset::empty());
        assert(all_of(lists) =~= Multiset::empty());
    }
}

/// Whether lines stand in the order of their times.
pub open spec fn in_order(v: Seq<TimedId>) -> bool {
    forall|i: int, j: int| 0 <= i < j < v.len() ==> (#[trigger] v[i]).0.le((#[trigger] v[j]).0)
}

/// Whether no line of lists is earlier than a time.
pub open spec fn none_before(lists: Seq<Seq<TimedId>>, t: Timestamp) -> bool {
    forall|i: int, j: int|
        0 <= i < lists.len() && 0 <= j < lists[i].len() ==> t.le((#[trigger] lists[i][j]).0)
}

proof fn lemma_none_before(lists: Seq<Seq<TimedId>>, t: Timestamp)
    requires
        none_before(lists, t),
    ensures
        forall|k: int| 0 <= k < kway(lists).len() ==> t.le((#[trigger] kway(lists)[k]).0),
    decreases total(lists),
{
    lemma_earliest(lists, lists.len());
    if let Some(i) = earliest(lists, lists.len()) {
        let next = lists.update(i, lists[i].drop_first());
        lemma_total(lists, i, lists[i].drop_first());
        assert(none_before(next, t)) by {
            assert forall|a: int, b: int|
                0 <= a < next.len() && 0 <= b < next[a].len() implies t.le(
                (#[trigger] next[a][b]).0,
            ) by {
                if a == i {
                    assert(next[a][b] == lists[a][b + 1]);
                } else {
                    assert(next[a][b] == lists[a][b]);
                }
            }
        }
        lemma_none_before(next, t);
        assert(t.le(lists[i][0].0));
        assert forall|k: int| 0 <= k < kway(lists).len() implies t.le(
            (#[trigger] kway(lists)[k]).0,
        ) by {
            if k > 0 {
                assert(kway(lists)[k] == kway(next)[k - 1]);
            }
        }
    }
}

/// Sources that are each in the order of time are so together once they are merged.
pub proof fn merging_sources_keeps_order(lists: Seq<Seq<TimedId>>)
    requires
        forall|i: int| 0 <= i < lists.len() ==> in_order(#[trigger] lists[i]),
    ensures
        in_order(kway(lists)),
    decreases total(lists),
{
    lemma_earliest(lists, lists.len());
    if let Some(i) = earliest(lists, lists.len()) {
        let next = lists.update(i, lists[i].drop_first());
        lemma_total(lists, i, lists[i].drop_first());
        assert forall|a: int| 0 <= a < next.len() implies in_order(#[trigger] next[a]) by {
            if a == i {
                assert(in_order(lists[i]));
                assert forall|x: int, y: int| 0 <= x < y < next[a].len() implies (
                #[trigger] next[a][x]).0.le((#[trigger] next[a][y]).0) by {
                    assert(next[a][x] == lists[a][x + 1]);
                    assert(next[a][y] == lists[a][y + 1]);
                }
            } else {
                assert(in_order(lists[a]));
            }
        }
        merging_sources_keeps_order(next);
        let t = lists[i][0].0;
        assert(none_before(next, t)) by {
            assert forall|a: int, b: int|
                0 <= a < next.len() && 0 <= b < next[a].len() implies t.le(
                (#[trigger] next[a][b]).0,
            ) by {
                assert(in_order(lists[a]));
                if a == i {
                    assert(next[a][b] == lists[a][b + 1]);
                } else {
                    assert(next[a][b] == lists[a][b]);
                    assert(lists[a].len() > 0);
                    assert(t.le(lists[a][0].0));
                    if b > 0 {
                        assert(lists[a][0].0.le(lists[a][b].0));
                    }
                }
            }
        }
        lemma_none_before(next, t);
        let k = kway(lists);
        assert forall|x: int, y: int| 0 <= x < y < k.len() implies (#[trigger] k[x]).0.le(
            (#[trigger] k[y]).0,
        ) by {
            assert(k[y] == kway(next)[y - 1]);
            if x > 0 {
                assert(k[x] == kway(next)[x - 1]);
            }
        }
    }
}

/// Where sources are merged, the first line is the earliest of their first lines, that of the
/// first source where several are equally early, and the others are merged in the same way.
pub proof fn the_earliest_line_comes_first(lists: Seq<Seq<TimedId>>)
    requires
        exists|i: int| 0 <= i < lists.len() && (#[trigger] lists[i]).len() > 0,
    ensures
        exists|i: int|
            {
                &&& 0 <= i < lists.len()
                &&& (#[trigger] lists[i]).len() > 0
                &&& kway(lists)[0] == lists[i][0]
                &&& kway(lists).drop_first() == kway(lists.update(i, lists[i].drop_first()))
                &&& forall|j: int|
                    0 <= j < i && (#[trigger] lists[j]).len() > 0 ==> lists[i][0].0.lt(
                        lists[j][0].0,
                    )
                &&& forall|j: int|
                    i < j < lists.len() && (#[trigger] lists[j]).len() > 0 ==> !lists[j][0].0.lt(
                        lists[i][0].0,
                    )
            },
{
    lemma_earliest(lists, lists.len());
    lemma_earliest_first(lists, lists.len());
    let i = earliest(lists, lists.len())->0;
    assert(lists[i].len() > 0);
    assert(kway(lists).drop_first() =~= kway(lists.update(i, lists[i].drop_first())));
}

proof fn lemma_earliest_first(lists: Seq<Seq<TimedId>>, n: nat)
    requires
        n <= lists.len(),
    ensures
        earliest(lists, n) matches Some(i) ==> {
            &&& forall|j: int|
                0 <= j < i && (#[trigger] lists[j]).len() > 0 ==> lists[i][0].0.lt(lists[j][0].0)
            &&& forall|j: int|
                i < j < n && (#[trigger] lists[j]).len() > 0 ==> !lists[j][0].0.lt(lists[i][0].0)
        },
    decreases n,
{
    if n > 0 {
        lemma_earliest_first(lists, (n - 1) as nat);
        lemma_earliest(lists, (n - 1) as nat);
    }
}

/// What sources hold together is what any of them holds.
pub proof fn lemma_members_of_all(lists: Seq<Seq<TimedId>>, e: TimedId)
    ensures
        all_of(lists).contains(e) == exists|k: int|
            0 <= k < lists.len() && (#[trigger] lists[k]).contains(e),
    decreases lists.len(),
{
    broadcast use vstd::multiset::group_multiset_axioms;
    broadcast use vstd::seq_lib::group_to_multiset_ensures;

    if lists.len() > 0 {
        let front = lists.drop_last();
        let n = lists.len() - 1;
        lemma_members_of_all(front, e);
        assert(forall|k: int| 0 <= k < n ==> front[k] == lists[k]);
        assert(lists[n] == lists.last());
        if all_of(front).contains(e) {
            let k = choose|k: int| 0 <= k < front.len() && (#[trigger] front[k]).contains(e);
            assert(lists[k].contains(e));
        }
        if exists|k: int| 0 <= k < lists.len() && (#[trigger] lists[k]).contains(e) {
            let k = choose|k: int| 0 <= k < lists.len() && (#[trigger] lists[k]).contains(e);
            if k < n {
                assert(front[k].contains(e));
            }
        }
    }
}

/// A line is among those of merged sources exactly where one of them holds it, and lines of one
/// source stay in their order where it is that of time.
pub proof fn merged_sources_hold_what_each_holds(lists: Seq<Seq<TimedId>>, e: TimedId)
    ensures
        kway(lists).contains(e) == exists|k: int|
            0 <= k < lists.len() && (#[trigger] lists[k]).contains(e),
{
    broadcast use vstd::seq_lib::group_to_multiset_ensures;

    merging_sources_keeps_lines(lists);
    lemma_members_of_all(lists, e);
}

} // verus!
