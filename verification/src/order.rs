//! Sorting, and what it means for one sequence to be another in order.
//!
//! Items are placed by their order key, so a NaN stands after every number
//! when ascending and before every number when descending. Items with one
//! key, such as `+0.0` and `-0.0` or two NaNs, keep the order in which they
//! came. That fixes the result to the last bit.

use crate::pattern::{is_at_most, is_nan, key, order_key};
use vstd::prelude::*;
use vstd::seq_lib::{group_to_multiset_ensures, lemma_multiset_commutative, to_multiset_build};

verus! {

/// The integer by which an item is placed: its order key when ascending,
/// the negated key when descending.
pub open spec fn placed_key(x: u64, descending: bool) -> int {
    if descending {
        -order_key(x)
    } else {
        order_key(x)
    }
}

/// No item is placed before one with a smaller key.
pub open spec fn in_order(s: Seq<u64>, descending: bool) -> bool {
    forall|i: int, j: int|
        #![trigger s[i], s[j]]
        0 <= i < j < s.len() ==> placed_key(s[i], descending) <= placed_key(s[j], descending)
}

/// The test that picks the items whose order key is `k`.
pub open spec fn has_key(k: int) -> spec_fn(u64) -> bool {
    |x: u64| order_key(x) == k
}

/// `out` and `src` hold the items of each key in one and the same order.
pub open spec fn keeps_ties(src: Seq<u64>, out: Seq<u64>) -> bool {
    forall|k: int| #[trigger] out.filter(has_key(k)) == src.filter(has_key(k))
}

/// `out` is `src` sorted: the same items, in order, ties as they came.
pub open spec fn sorts_to(src: Seq<u64>, out: Seq<u64>, descending: bool) -> bool {
    &&& out.len() == src.len()
    &&& out.to_multiset() == src.to_multiset()
    &&& in_order(out, descending)
    &&& keeps_ties(src, out)
}

fn placed(x: u64, descending: bool) -> (k: i64)
    ensures
        k == placed_key(x, descending),
{
    if descending {
        -key(x)
    } else {
        key(x)
    }
}

pub(crate) proof fn lemma_key_absent(s: Seq<u64>, k: int)
    requires
        forall|i: int| 0 <= i < s.len() ==> order_key(#[trigger] s[i]) != k,
    ensures
        s.filter(has_key(k)) == Seq::<u64>::empty(),
    decreases s.len(),
{
    reveal(Seq::filter);
    if s.len() > 0 {
        lemma_key_absent(s.drop_last(), k);
    }
}

fn merge(left: &Vec<u64>, right: &Vec<u64>, descending: bool) -> (out: Vec<u64>)
    requires
        in_order(left@, descending),
        in_order(right@, descending),
        left.len() + right.len() <= usize::MAX,
    ensures
        out.len() == left.len() + right.len(),
        in_order(out@, descending),
        out@.to_multiset() == left@.to_multiset().add(right@.to_multiset()),
        forall|k: int| #[trigger]
            out@.filter(has_key(k)) == left@.filter(has_key(k)) + right@.filter(has_key(k)),
{
    let mut out: Vec<u64> = Vec::with_capacity(left.len() + right.len());
    let mut i: usize = 0;
    let mut j: usize = 0;
    proof {
        let nothing = Seq::<u64>::empty();
        assert(left@.take(0) == nothing && right@.take(0) == nothing);
        assert(nothing + nothing == nothing);
        lemma_multiset_commutative(nothing, nothing);
    }
    while i < left.len() || j < right.len()
        invariant
            in_order(left@, descending),
            in_order(right@, descending),
            i <= left.len(),
            j <= right.len(),
            out.len() == i + j,
            in_order(out@, descending),
            forall|p: int, q: int|
                #![trigger out@[p], left@[q]]
                0 <= p < out.len() && i <= q < left.len() ==> placed_key(out@[p], descending)
                    <= placed_key(left@[q], descending),
            forall|p: int, q: int|
                #![trigger out@[p], right@[q]]
                0 <= p < out.len() && j <= q < right.len() ==> placed_key(out@[p], descending)
                    <= placed_key(right@[q], descending),
            forall|p: int, q: int|
                #![trigger right@[p], left@[q]]
                0 <= p < j && i <= q < left.len() ==> placed_key(right@[p], descending)
                    < placed_key(left@[q], descending),
            out@.to_multiset() == left@.take(i as int).to_multiset().add(
                right@.take(j as int).to_multiset(),
            ),
            forall|k: int| #[trigger]
                out@.filter(has_key(k)) == left@.take(i as int).filter(has_key(k)) + right@.take(
                    j as int,
                ).filter(has_key(k)),
        decreases left.len() - i + right.len() - j,
    {
        let from_left: bool = if j >= right.len() {
            true
        } else if i >= left.len() {
            false
        } else {
            placed(left[i], descending) <= placed(right[j], descending)
        };
        let ghost before = out@;
        let ghost taken_left = left@.take(i as int);
        let ghost taken_right = right@.take(j as int);
        if from_left {
            let x: u64 = left[i];
            out.push(x);
            proof {
                assert(left@.take(i + 1) == taken_left.push(x));
                to_multiset_build(before, x);
                to_multiset_build(taken_left, x);
                assert(out@.to_multiset() == left@.take(i + 1).to_multiset().add(
                    taken_right.to_multiset(),
                ));
                assert forall|k: int| #[trigger]
                    out@.filter(has_key(k)) == left@.take(i + 1).filter(has_key(k))
                        + taken_right.filter(has_key(k)) by {
                    before.lemma_filter_push(x, has_key(k));
                    taken_left.lemma_filter_push(x, has_key(k));
                    assert(before.filter(has_key(k)) == taken_left.filter(has_key(k))
                        + taken_right.filter(has_key(k)));
                    if order_key(x) == k {
                        assert forall|p: int| 0 <= p < taken_right.len() implies order_key(
                            #[trigger] taken_right[p],
                        ) != k by {
                            assert(placed_key(right@[p], descending) < placed_key(
                                left@[i as int],
                                descending,
                            ));
                        }
                        lemma_key_absent(taken_right, k);
                    }
                }
                assert(in_order(out@, descending)) by {
                    assert forall|p: int, q: int|
                        #![trigger out@[p], out@[q]]
                        0 <= p < q < out@.len() implies placed_key(out@[p], descending)
                        <= placed_key(out@[q], descending) by {
                        if q < before.len() {
                            assert(out@[p] == before[p] && out@[q] == before[q]);
                        } else {
                            assert(out@[p] == before[p]);
                            assert(placed_key(before[p], descending) <= placed_key(
                                left@[i as int],
                                descending,
                            ));
                        }
                    }
                }
            }
            i += 1;
        } else {
            let y: u64 = right[j];
            out.push(y);
            proof {
                assert(right@.take(j + 1) == taken_right.push(y));
                to_multiset_build(before, y);
                to_multiset_build(taken_right, y);
                assert(out@.to_multiset() == taken_left.to_multiset().add(
                    right@.take(j + 1).to_multiset(),
                ));
                assert forall|k: int| #[trigger]
                    out@.filter(has_key(k)) == taken_left.filter(has_key(k)) + right@.take(
                        j + 1,
                    ).filter(has_key(k)) by {
                    before.lemma_filter_push(y, has_key(k));
                    taken_right.lemma_filter_push(y, has_key(k));
                    assert(before.filter(has_key(k)) == taken_left.filter(has_key(k))
                        + taken_right.filter(has_key(k)));
                }
                assert(in_order(out@, descending)) by {
                    assert forall|p: int, q: int|
                        #![trigger out@[p], out@[q]]
                        0 <= p < q < out@.len() implies placed_key(out@[p], descending)
                        <= placed_key(out@[q], descending) by {
                        if q < before.len() {
                            assert(out@[p] == before[p] && out@[q] == before[q]);
                        } else {
                            assert(out@[p] == before[p]);
                            assert(placed_key(before[p], descending) <= placed_key(
                                right@[j as int],
                                descending,
                            ));
                        }
                    }
                }
            }
            j += 1;
        }
    }
    proof {
        assert(left@.take(i as int) == left@);
        assert(right@.take(j as int) == right@);
    }
    out
}

fn sort_range(a: &[u64], lo: usize, hi: usize, descending: bool) -> (out: Vec<u64>)
    requires
        lo <= hi <= a@.len(),
    ensures
        sorts_to(a@.subrange(lo as int, hi as int), out@, descending),
    decreases hi - lo,
{
    let ghost src = a@.subrange(lo as int, hi as int);
    if hi - lo <= 1 {
        let mut out: Vec<u64> = Vec::new();
        if hi - lo == 1 {
            out.push(a[lo]);
        }
        proof {
            assert(out@ == src);
        }
        out
    } else {
        let mid: usize = lo + (hi - lo) / 2;
        let left = sort_range(a, lo, mid, descending);
        let right = sort_range(a, mid, hi, descending);
        let out = merge(&left, &right, descending);
        proof {
            let first = a@.subrange(lo as int, mid as int);
            let second = a@.subrange(mid as int, hi as int);
            assert(src == first + second);
            lemma_multiset_commutative(first, second);
            assert forall|k: int| #[trigger] out@.filter(has_key(k)) == src.filter(has_key(k)) by {
                Seq::filter_distributes_over_add(first, second, has_key(k));
                assert(left@.filter(has_key(k)) == first.filter(has_key(k)));
                assert(right@.filter(has_key(k)) == second.filter(has_key(k)));
            }
        }
        out
    }
}

proof fn lemma_last_keys_agree(x: Seq<u64>, y: Seq<u64>, descending: bool)
    requires
        x.len() > 0,
        in_order(y, descending),
        x.to_multiset() == y.to_multiset(),
    ensures
        y.len() > 0,
        placed_key(x.last(), descending) <= placed_key(y.last(), descending),
{
    broadcast use group_to_multiset_ensures;

    assert(x.contains(x.last())) by {
        assert(x[x.len() - 1] == x.last());
    }
    assert(x.to_multiset().count(x.last()) > 0);
    assert(y.to_multiset().count(x.last()) > 0);
    assert(y.contains(x.last()));
    let at = choose|j: int| 0 <= j < y.len() && y[j] == x.last();
    if at < y.len() - 1 {
        assert(placed_key(y[at], descending) <= placed_key(y[y.len() - 1], descending));
    }
}

proof fn lemma_same_arrangement(x: Seq<u64>, y: Seq<u64>, descending: bool)
    requires
        in_order(x, descending),
        in_order(y, descending),
        x.to_multiset() == y.to_multiset(),
        keeps_ties(x, y),
    ensures
        x == y,
    decreases x.len(),
{
    broadcast use group_to_multiset_ensures;

    assert(x.len() == x.to_multiset().len() && y.len() == y.to_multiset().len());
    if x.len() == 0 {
        assert(x =~= y);
    } else {
        lemma_last_keys_agree(x, y, descending);
        lemma_last_keys_agree(y, x, descending);
        let x_last = x.last();
        let y_last = y.last();
        let x_rest = x.drop_last();
        let y_rest = y.drop_last();
        let k = order_key(x_last);
        assert(order_key(y_last) == k);
        assert(x == x_rest.push(x_last));
        assert(y == y_rest.push(y_last));
        assert(x_last == y_last) by {
            x_rest.lemma_filter_push(x_last, has_key(k));
            y_rest.lemma_filter_push(y_last, has_key(k));
            assert(y.filter(has_key(k)) == x.filter(has_key(k)));
            assert(x_rest.filter(has_key(k)).push(x_last).last() == x_last);
            assert(y_rest.filter(has_key(k)).push(y_last).last() == y_last);
        }
        assert(x_rest.to_multiset() == y_rest.to_multiset()) by {
            to_multiset_build(x_rest, x_last);
            to_multiset_build(y_rest, y_last);
            assert(x_rest.to_multiset() =~= x.to_multiset().remove(x_last));
            assert(y_rest.to_multiset() =~= y.to_multiset().remove(y_last));
        }
        assert(keeps_ties(x_rest, y_rest)) by {
            assert forall|k2: int| #[trigger]
                y_rest.filter(has_key(k2)) == x_rest.filter(has_key(k2)) by {
                x_rest.lemma_filter_push(x_last, has_key(k2));
                y_rest.lemma_filter_push(y_last, has_key(k2));
                assert(y.filter(has_key(k2)) == x.filter(has_key(k2)));
                if k2 == k {
                    let xf = x_rest.filter(has_key(k2));
                    let yf = y_rest.filter(has_key(k2));
                    assert(xf == xf.push(x_last).drop_last());
                    assert(yf == yf.push(y_last).drop_last());
                }
            }
        }
        assert(in_order(x_rest, descending)) by {
            assert forall|i: int, j: int|
                #![trigger x_rest[i], x_rest[j]]
                0 <= i < j < x_rest.len() implies placed_key(x_rest[i], descending) <= placed_key(
                x_rest[j],
                descending,
            ) by {
                assert(x_rest[i] == x[i] && x_rest[j] == x[j]);
            }
        }
        assert(in_order(y_rest, descending)) by {
            assert forall|i: int, j: int|
                #![trigger y_rest[i], y_rest[j]]
                0 <= i < j < y_rest.len() implies placed_key(y_rest[i], descending) <= placed_key(
                y_rest[j],
                descending,
            ) by {
                assert(y_rest[i] == y[i] && y_rest[j] == y[j]);
            }
        }
        lemma_same_arrangement(x_rest, y_rest, descending);
    }
}

/// Sorting has one result: two sequences that are both `src` sorted are
/// equal, item for item and bit for bit.
pub proof fn sort_is_determined(src: Seq<u64>, x: Seq<u64>, y: Seq<u64>, descending: bool)
    requires
        sorts_to(src, x, descending),
        sorts_to(src, y, descending),
    ensures
        x == y,
{
    assert(keeps_ties(x, y)) by {
        assert forall|k: int| #[trigger] y.filter(has_key(k)) == x.filter(has_key(k)) by {
            assert(x.filter(has_key(k)) == src.filter(has_key(k)));
        }
    }
    lemma_same_arrangement(x, y, descending);
}

/// Sorting is idempotent: sorting what is already sorted, in the same
/// direction, gives it back unchanged.
pub proof fn sort_is_idempotent(src: Seq<u64>, once: Seq<u64>, twice: Seq<u64>, descending: bool)
    requires
        sorts_to(src, once, descending),
        sorts_to(once, twice, descending),
    ensures
        twice == once,
{
    lemma_same_arrangement(once, twice, descending);
}

/// Sorting permutes: every pattern occurs in the result as often as in the
/// source, and the result is as long.
pub proof fn sort_is_a_permutation(src: Seq<u64>, out: Seq<u64>, descending: bool)
    requires
        sorts_to(src, out, descending),
    ensures
        out.len() == src.len(),
        forall|x: u64| out.to_multiset().count(x) == src.to_multiset().count(x),
{
}

/// Sorting ascending leaves neighbours non-decreasing: of two neighbours
/// the first is at most the second as numbers compare, unless the second is
/// a NaN, and NaNs only trail.
pub proof fn sort_is_nondecreasing(src: Seq<u64>, out: Seq<u64>, i: int)
    requires
        sorts_to(src, out, false),
        0 <= i,
        i + 1 < out.len(),
    ensures
        is_nan(out[i + 1]) || is_at_most(out[i], out[i + 1]),
        is_nan(out[i]) ==> is_nan(out[i + 1]),
{
    assert(placed_key(out[i], false) <= placed_key(out[i + 1], false));
}

/// Sorting descending leaves neighbours non-increasing: of two neighbours
/// the second is at most the first as numbers compare, unless the first is
/// a NaN, and NaNs only lead.
pub proof fn sort_desc_is_nonincreasing(src: Seq<u64>, out: Seq<u64>, i: int)
    requires
        sorts_to(src, out, true),
        0 <= i,
        i + 1 < out.len(),
    ensures
        is_nan(out[i]) || is_at_most(out[i + 1], out[i]),
        is_nan(out[i + 1]) ==> is_nan(out[i]),
{
    assert(placed_key(out[i], true) <= placed_key(out[i + 1], true));
}

/// Sorts into ascending order.
///
/// NaNs come last. Items that compare equal keep the order in which they
/// came.
pub fn array_sort(a: &[u64]) -> (out: Vec<u64>)
    ensures
        sorts_to(a@, out@, false),
{
    let out = sort_range(a, 0, a.len(), false);
    proof {
        assert(a@.subrange(0, a@.len() as int) == a@);
    }
    out
}

/// Sorts into descending order.
///
/// NaNs come first. Items that compare equal keep the order in which they
/// came.
pub fn array_sort_desc(a: &[u64]) -> (out: Vec<u64>)
    ensures
        sorts_to(a@, out@, true),
{
    let out = sort_range(a, 0, a.len(), true);
    proof {
        assert(a@.subrange(0, a@.len() as int) == a@);
    }
    out
}

/// Sorts a sequence that the caller gives away, into ascending order.
pub fn fast_sort(numbers: Vec<u64>) -> (out: Vec<u64>)
    ensures
        sorts_to(numbers@, out@, false),
{
    array_sort(numbers.as_slice())
}

} // verus!
