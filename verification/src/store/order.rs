//! The lines of a file in the order of their times.

use crate::time::Timestamp;
use rayon::slice::ParallelSliceMut;
use vstd::multiset::Multiset;
use vstd::prelude::*;

verus! {

/// Whether a line comes before another: it is earlier, or it is as early and stands
/// before it in the file.
pub open spec fn comes_before(times: Seq<Timestamp>, a: usize, b: usize) -> bool {
    times[a as int].lt(times[b as int]) || (times[a as int] == times[b as int] && a < b)
}

/// The numbers from `from` up to `to`, without it.
pub open spec fn numbers(from: int, to: int) -> Seq<usize> {
    Seq::new((to - from) as nat, |i: int| (from + i) as usize)
}

/// Whether a list holds the lines from `from` up to `to`, each once and in the order of
/// their times; lines of one time stay in the order of the file.
pub open spec fn is_order_of(order: Seq<usize>, times: Seq<Timestamp>, from: int, to: int) -> bool {
    &&& order.to_multiset() == numbers(from, to).to_multiset()
    &&& is_ordered(order, times)
}

/// Whether the lines of a list stand in the order of their times.
pub open spec fn is_ordered(order: Seq<usize>, times: Seq<Timestamp>) -> bool {
    forall|i: int, j: int|
        0 <= i < j < order.len() ==> comes_before(times, #[trigger] order[i], #[trigger] order[j])
}

/// Whether a list holds every line of a file once.
pub open spec fn is_permutation(order: Seq<usize>, n: int) -> bool {
    order.to_multiset() == numbers(0, n).to_multiset()
}

/// A list that holds lines from `from` up to `to`, each once, holds no other number.
pub proof fn lemma_in_range(order: Seq<usize>, from: int, to: int)
    requires
        0 <= from <= to <= usize::MAX + 1,
        order.to_multiset() == numbers(from, to).to_multiset(),
    ensures
        order.len() == to - from,
        forall|i: int| 0 <= i < order.len() ==> from <= #[trigger] order[i] < to,
        forall|x: usize| from <= x < to ==> order.contains(x),
{
    broadcast use vstd::seq_lib::group_to_multiset_ensures;

    let r = numbers(from, to);
    assert forall|i: int| 0 <= i < order.len() implies from <= #[trigger] order[i] < to by {
        assert(order.contains(order[i]));
        assert(order.to_multiset().count(order[i]) > 0);
        assert(r.contains(order[i]));
    }
    assert forall|x: usize| from <= x < to implies order.contains(x) by {
        assert(r[x - from] == x);
        assert(r.contains(x));
        assert(r.to_multiset().count(x) > 0);
    }
    assert(order.len() == order.to_multiset().len());
    assert(r.len() == r.to_multiset().len());
}

/// Sorts numbers of lines by the keys of the lines with
/// `rayon::slice::ParallelSliceMut::par_sort_by_key`.
///
/// It is stable: numbers with one key keep their order. So increasing numbers come out by
/// key, and by number where the keys are equal; none is lost and none added.
#[verifier::external_body]
fn sort_by_key(indices: &mut Vec<usize>, keys: &Vec<(i64, u32)>)
    requires
        forall|i: int| 0 <= i < old(indices)@.len() ==> #[trigger] old(indices)@[i] < keys@.len(),
        forall|i: int, j: int|
            0 <= i < j < old(indices)@.len() ==> #[trigger] old(indices)@[i]
                < #[trigger] old(indices)@[j],
    ensures
        final(indices)@.to_multiset() == old(indices)@.to_multiset(),
        forall|i: int, j: int|
            0 <= i < j < final(indices)@.len() ==> key_before(
                keys@,
                #[trigger] final(indices)@[i],
                #[trigger] final(indices)@[j],
            ),
{
    indices.par_sort_by_key(|&i| keys[i])
}

/// Whether a number comes before another by key, or by itself where the keys are equal.
pub open spec fn key_before(keys: Seq<(i64, u32)>, a: usize, b: usize) -> bool {
    let (x, y) = (keys[a as int], keys[b as int]);
    x.0 < y.0 || (x.0 == y.0 && x.1 < y.1) || (x == y && a < b)
}

/// Puts the lines from `from` on in the order of their times.
pub fn sort_from(times: &Vec<Timestamp>, from: usize) -> (r: Vec<usize>)
    requires
        from <= times@.len(),
    ensures
        is_order_of(r@, times@, from as int, times@.len() as int),
{
    let mut keys: Vec<(i64, u32)> = Vec::new();
    let mut k: usize = 0;
    while k < times.len()
        invariant
            k <= times@.len(),
            keys@.len() == k,
            forall|i: int|
                0 <= i < k ==> #[trigger] keys@[i] == (times@[i].secs, times@[i].nanos),
        decreases times.len() - k,
    {
        keys.push((times[k].secs, times[k].nanos));
        k += 1;
    }
    let mut indices: Vec<usize> = Vec::new();
    let mut i: usize = from;
    while i < times.len()
        invariant
            from <= i <= times@.len(),
            indices@ == numbers(from as int, i as int),
        decreases times.len() - i,
    {
        indices.push(i);
        assert(indices@ =~= numbers(from as int, i + 1));
        i += 1;
    }
    sort_by_key(&mut indices, &keys);
    proof {
        lemma_in_range(indices@, from as int, times@.len() as int);
        assert forall|a: int, b: int| 0 <= a < b < indices@.len() implies comes_before(
            times@,
            #[trigger] indices@[a],
            #[trigger] indices@[b],
        ) by {
            assert(key_before(keys@, indices@[a], indices@[b]));
            assert(keys@[indices@[a] as int] == (
                times@[indices@[a] as int].secs,
                times@[indices@[a] as int].nanos,
            ));
            assert(keys@[indices@[b] as int] == (
                times@[indices@[b] as int].secs,
                times@[indices@[b] as int].nanos,
            ));
        }
    }
    indices
}

/// Two lists in one: the earlier of the two first lines comes first, that of the first
/// list where they are equally early.
pub open spec fn merged(times: Seq<Timestamp>, a: Seq<usize>, b: Seq<usize>) -> Seq<usize>
    decreases a.len() + b.len(),
{
    if a.len() == 0 {
        b
    } else if b.len() == 0 {
        a
    } else if times[a[0] as int].le(times[b[0] as int]) {
        seq![a[0]] + merged(times, a.drop_first(), b)
    } else {
        seq![b[0]] + merged(times, a, b.drop_first())
    }
}

/// Merges two lists of lines by their times.
pub fn merge(times: &Vec<Timestamp>, a: &Vec<usize>, b: &Vec<usize>) -> (r: Vec<usize>)
    requires
        forall|i: int| 0 <= i < a@.len() ==> #[trigger] a@[i] < times@.len(),
        forall|i: int| 0 <= i < b@.len() ==> #[trigger] b@[i] < times@.len(),
    ensures
        r@ == merged(times@, a@, b@),
{
    let mut out: Vec<usize> = Vec::new();
    let mut i: usize = 0;
    let mut j: usize = 0;
    assert(a@.skip(0) =~= a@);
    assert(b@.skip(0) =~= b@);
    assert(out@ + merged(times@, a@.skip(0), b@.skip(0)) =~= merged(times@, a@, b@));
    while i < a.len() && j < b.len()
        invariant
            i <= a@.len(),
            j <= b@.len(),
            forall|k: int| 0 <= k < a@.len() ==> #[trigger] a@[k] < times@.len(),
            forall|k: int| 0 <= k < b@.len() ==> #[trigger] b@[k] < times@.len(),
            out@ + merged(times@, a@.skip(i as int), b@.skip(j as int)) == merged(times@, a@, b@),
        decreases a.len() - i + b.len() - j,
    {
        let ghost before = out@;
        let ghost (x, y) = (a@.skip(i as int), b@.skip(j as int));
        if times[a[i]].is_not_after(&times[b[j]]) {
            out.push(a[i]);
            assert(x.drop_first() =~= a@.skip(i + 1));
            assert(before + (seq![x[0]] + merged(times@, x.drop_first(), y)) =~= out@ + merged(
                times@,
                x.drop_first(),
                y,
            ));
            i += 1;
        } else {
            out.push(b[j]);
            assert(y.drop_first() =~= b@.skip(j + 1));
            assert(before + (seq![y[0]] + merged(times@, x, y.drop_first())) =~= out@ + merged(
                times@,
                x,
                y.drop_first(),
            ));
            j += 1;
        }
    }
    let ghost (x, y) = (a@.skip(i as int), b@.skip(j as int));
    let ghost rest = merged(times@, x, y);
    let ghost before = out@;
    while i < a.len()
        invariant
            i <= a@.len(),
            out@ + a@.skip(i as int) == before + x,
        decreases a.len() - i,
    {
        let ghost o = out@;
        out.push(a[i]);
        assert(out@ + a@.skip(i + 1) =~= o + a@.skip(i as int));
        i += 1;
    }
    assert(out@ + a@.skip(i as int) =~= out@);
    let ghost middle = out@;
    while j < b.len()
        invariant
            j <= b@.len(),
            out@ + b@.skip(j as int) == middle + y,
        decreases b.len() - j,
    {
        let ghost o = out@;
        out.push(b[j]);
        assert(out@ + b@.skip(j + 1) =~= o + b@.skip(j as int));
        j += 1;
    }
    assert(out@ + b@.skip(j as int) =~= out@);
    assert(before + rest =~= before + x + y) by {
        if x.len() == 0 {
            assert(rest =~= x + y);
        } else {
            assert(y.len() == 0);
            assert(rest =~= x + y);
        }
    }
    out
}

/// Merging loses no line and adds none.
pub proof fn merging_keeps_lines(times: Seq<Timestamp>, a: Seq<usize>, b: Seq<usize>)
    ensures
        merged(times, a, b).to_multiset() == a.to_multiset().add(b.to_multiset()),
    decreases a.len() + b.len(),
{
    broadcast use vstd::multiset::group_multiset_axioms;
    broadcast use vstd::seq_lib::group_to_multiset_ensures;

    if a.len() == 0 {
        assert(a.to_multiset() =~= Multiset::<usize>::empty());
        assert(b.to_multiset() =~= a.to_multiset().add(b.to_multiset()));
    } else if b.len() == 0 {
        assert(b.to_multiset() =~= Multiset::<usize>::empty());
        assert(a.to_multiset() =~= a.to_multiset().add(b.to_multiset()));
    } else if times[a[0] as int].le(times[b[0] as int]) {
        merging_keeps_lines(times, a.drop_first(), b);
        lemma_first(a);
        let rest = merged(times, a.drop_first(), b);
        lemma_first(seq![a[0]] + rest);
        assert((seq![a[0]] + rest).drop_first() =~= rest);
        assert(merged(times, a, b).to_multiset() =~= a.to_multiset().add(b.to_multiset()));
    } else {
        merging_keeps_lines(times, a, b.drop_first());
        lemma_first(b);
        let rest = merged(times, a, b.drop_first());
        lemma_first(seq![b[0]] + rest);
        assert((seq![b[0]] + rest).drop_first() =~= rest);
        assert(merged(times, a, b).to_multiset() =~= a.to_multiset().add(b.to_multiset()));
    }
}

proof fn lemma_first(s: Seq<usize>)
    requires
        s.len() > 0,
    ensures
        s.to_multiset() == s.drop_first().to_multiset().insert(s[0]),
{
    broadcast use vstd::multiset::group_multiset_axioms;
    broadcast use vstd::seq_lib::group_to_multiset_ensures;

    assert(s.remove(0) =~= s.drop_first());
    assert(s.contains(s[0]));
    assert(s.to_multiset() =~= s.drop_first().to_multiset().insert(s[0]));
}

/// Lines that stand in the order of their times, merged with later lines of the file
/// that do, stand in that order.
pub proof fn merging_keeps_order(times: Seq<Timestamp>, a: Seq<usize>, b: Seq<usize>)
    requires
        is_ordered(a, times),
        is_ordered(b, times),
        forall|i: int, j: int|
            0 <= i < a.len() && 0 <= j < b.len() ==> #[trigger] a[i] < #[trigger] b[j],
    ensures
        is_ordered(merged(times, a, b), times),
    decreases a.len() + b.len(),
{
    let m = merged(times, a, b);
    if a.len() == 0 || b.len() == 0 {
    } else {
        let takes_a = times[a[0] as int].le(times[b[0] as int]);
        let (x, y) = if takes_a {
            (a.drop_first(), b)
        } else {
            (a, b.drop_first())
        };
        let first = if takes_a {
            a[0]
        } else {
            b[0]
        };
        assert(forall|i: int, j: int|
            0 <= i < x.len() && 0 <= j < y.len() ==> #[trigger] x[i] < #[trigger] y[j]) by {
            assert forall|i: int, j: int| 0 <= i < x.len() && 0 <= j < y.len() implies
                #[trigger] x[i] < #[trigger] y[j] by {
                if takes_a {
                    assert(x[i] == a[i + 1] && y[j] == b[j]);
                } else {
                    assert(x[i] == a[i] && y[j] == b[j + 1]);
                }
            }
        }
        assert(is_ordered(x, times)) by {
            assert forall|i: int, j: int| 0 <= i < j < x.len() implies comes_before(
                times,
                #[trigger] x[i],
                #[trigger] x[j],
            ) by {
                if takes_a {
                    assert(x[i] == a[i + 1] && x[j] == a[j + 1]);
                }
            }
        }
        assert(is_ordered(y, times)) by {
            assert forall|i: int, j: int| 0 <= i < j < y.len() implies comes_before(
                times,
                #[trigger] y[i],
                #[trigger] y[j],
            ) by {
                if !takes_a {
                    assert(y[i] == b[i + 1] && y[j] == b[j + 1]);
                }
            }
        }
        merging_keeps_order(times, x, y);
        let rest = merged(times, x, y);
        lemma_members(times, x, y);
        assert forall|i: int, j: int| 0 <= i < j < m.len() implies comes_before(
            times,
            #[trigger] m[i],
            #[trigger] m[j],
        ) by {
            assert(m[j] == rest[j - 1]);
            if i > 0 {
                assert(m[i] == rest[i - 1]);
            } else {
                assert(m[0] == first);
                if x.contains(rest[j - 1]) {
                    let k = choose|k: int| 0 <= k < x.len() && x[k] == rest[j - 1];
                    if takes_a {
                        assert(a[k + 1] == rest[j - 1]);
                        assert(comes_before(times, a[0], a[k + 1]));
                    } else {
                        assert(times[b[0] as int].lt(times[a[0] as int]));
                        if k > 0 {
                            assert(comes_before(times, a[0], a[k]));
                        }
                    }
                } else {
                    let k = choose|k: int| 0 <= k < y.len() && y[k] == rest[j - 1];
                    if takes_a {
                        assert(a[0] < b[k]);
                        if k > 0 {
                            assert(comes_before(times, b[0], b[k]));
                        }
                    } else {
                        assert(b[k + 1] == rest[j - 1]);
                        assert(comes_before(times, b[0], b[k + 1]));
                    }
                }
            }
        }
    }
}

proof fn lemma_members(times: Seq<Timestamp>, a: Seq<usize>, b: Seq<usize>)
    ensures
        forall|i: int|
            0 <= i < merged(times, a, b).len() ==> a.contains(#[trigger] merged(times, a, b)[i])
                || b.contains(merged(times, a, b)[i]),
{
    broadcast use vstd::multiset::group_multiset_axioms;
    broadcast use vstd::seq_lib::group_to_multiset_ensures;

    merging_keeps_lines(times, a, b);
    let m = merged(times, a, b);
    assert forall|i: int| 0 <= i < m.len() implies a.contains(#[trigger] m[i]) || b.contains(
        m[i],
    ) by {
        assert(m.contains(m[i]));
        assert(m.to_multiset().count(m[i]) > 0);
    }
}

/// There is only one order of time: two lists that hold the same lines in the order of
/// their times are equal.
pub proof fn time_order_is_unique(
    x: Seq<usize>,
    y: Seq<usize>,
    times: Seq<Timestamp>,
    from: int,
    to: int,
)
    requires
        is_order_of(x, times, from, to),
        is_order_of(y, times, from, to),
    ensures
        x == y,
{
    let leq = |a: usize, b: usize| a == b || comes_before(times, a, b);
    assert(vstd::relations::total_ordering(leq)) by {
        assert(vstd::relations::antisymmetric(leq));
        assert(vstd::relations::transitive(leq));
        assert(vstd::relations::strongly_connected(leq));
    }
    assert(vstd::relations::sorted_by(x, leq));
    assert(vstd::relations::sorted_by(y, leq));
    vstd::seq_lib::lemma_sorted_unique(x, y, leq);
}

proof fn lemma_numbers_split(from: int, mid: int, to: int)
    requires
        0 <= from <= mid <= to,
    ensures
        numbers(from, to).to_multiset() == numbers(from, mid).to_multiset().add(
            numbers(mid, to).to_multiset(),
        ),
{
    assert(numbers(from, to) =~= numbers(from, mid) + numbers(mid, to));
    vstd::seq_lib::lemma_multiset_commutative(numbers(from, mid), numbers(mid, to));
}

/// Lines that are added to a file and merged leave every line in the list once; where
/// the list was in the order of time, it stays so.
pub proof fn adding_keeps_order(
    times: Seq<Timestamp>,
    order: Seq<usize>,
    added: Seq<usize>,
    n: int,
)
    requires
        0 <= n <= times.len() <= usize::MAX,
        is_permutation(order, n),
        is_order_of(added, times, n, times.len() as int),
    ensures
        is_permutation(merged(times, order, added), times.len() as int),
        is_ordered(order, times) ==> is_order_of(
            merged(times, order, added),
            times,
            0,
            times.len() as int,
        ),
{
    lemma_numbers_split(0, n, times.len() as int);
    merging_keeps_lines(times, order, added);
    lemma_in_range(order, 0, n);
    lemma_in_range(added, n, times.len() as int);
    if is_ordered(order, times) {
        merging_keeps_order(times, order, added);
    }
}

/// A list that holds lines in the order of time holds each of them once; earlier ones stand
/// before later ones, and those of one time in the order of the file.
pub proof fn orders_hold_every_line_by_time(
    order: Seq<usize>,
    times: Seq<Timestamp>,
    from: int,
    to: int,
)
    requires
        0 <= from <= to <= times.len() <= usize::MAX,
        is_order_of(order, times, from, to),
    ensures
        order.len() == to - from,
        order.no_duplicates(),
        forall|p: usize| from <= p < to ==> order.contains(p),
        forall|i: int| 0 <= i < order.len() ==> from <= #[trigger] order[i] < to,
        forall|i: int, j: int|
            0 <= i < j < order.len() ==> {
                let a = times[#[trigger] order[i] as int];
                let b = times[#[trigger] order[j] as int];
                &&& a.secs < b.secs || (a.secs == b.secs && a.nanos <= b.nanos)
                &&& a == b ==> order[i] < order[j]
            },
{
    lemma_in_range(order, from, to);
    permutations_repeat_nothing(order, from, to);
    assert forall|i: int, j: int| 0 <= i < j < order.len() implies {
        let a = times[#[trigger] order[i] as int];
        let b = times[#[trigger] order[j] as int];
        &&& a.secs < b.secs || (a.secs == b.secs && a.nanos <= b.nanos)
        &&& a == b ==> order[i] < order[j]
    } by {
        assert(comes_before(times, order[i], order[j]));
    }
}

/// A list that holds lines from one place up to another, each once, holds none twice.
pub proof fn permutations_repeat_nothing(order: Seq<usize>, from: int, to: int)
    requires
        0 <= from <= to <= usize::MAX + 1,
        order.to_multiset() == numbers(from, to).to_multiset(),
    ensures
        order.no_duplicates(),
{
    let r = numbers(from, to);
    assert(r.no_duplicates());
    r.lemma_multiset_has_no_duplicates();
    order.lemma_multiset_has_no_duplicates_conv();
}

/// Where two lists are merged, the earlier of their first lines comes first, that of the first
/// list where they are equally early, and then the others are merged in the same way.
pub proof fn the_earlier_line_comes_first(times: Seq<Timestamp>, a: Seq<usize>, b: Seq<usize>)
    ensures
        a.len() == 0 ==> merged(times, a, b) == b,
        b.len() == 0 ==> merged(times, a, b) == a,
        a.len() > 0 && b.len() > 0 && !times[b[0] as int].lt(times[a[0] as int]) ==> merged(
            times,
            a,
            b,
        )[0] == a[0],
        a.len() > 0 && b.len() > 0 && times[b[0] as int].lt(times[a[0] as int]) ==> merged(
            times,
            a,
            b,
        )[0] == b[0],
{
}

} // verus!
