//! Picking items, or their positions, by comparison with a threshold.
//!
//! The comparisons are those of numbers: a NaN is neither above nor below
//! anything, and nothing is above or below a NaN.

use crate::pattern::{is_greater, is_less};
use vstd::prelude::*;

verus! {

/// The test that picks what is strictly greater than `threshold`.
pub open spec fn above(threshold: u64) -> spec_fn(u64) -> bool {
    |x: u64| is_greater(x, threshold)
}

/// The test that picks what is strictly less than `threshold`.
pub open spec fn below(threshold: u64) -> spec_fn(u64) -> bool {
    |x: u64| is_less(x, threshold)
}

/// `out` lists, in ascending order and each once, the positions of the
/// items of `s` that are strictly greater than `threshold`.
pub open spec fn lists_positions_above(s: Seq<u64>, threshold: u64, out: Seq<usize>) -> bool {
    &&& forall|k: int|
        0 <= k < out.len() ==> (#[trigger] out[k]) < s.len() && is_greater(
            s[out[k] as int],
            threshold,
        )
    &&& forall|k: int, l: int| 0 <= k < l < out.len() ==> #[trigger] out[k] < #[trigger] out[l]
    &&& forall|i: int|
        0 <= i < s.len() && is_greater(#[trigger] s[i], threshold) ==> out.contains(i as usize)
}

/// The items strictly greater than `threshold`, in their order.
pub fn array_filter_gt(a: &[u64], threshold: u64) -> (out: Vec<u64>)
    ensures
        out@ == a@.filter(above(threshold)),
{
    let mut out: Vec<u64> = Vec::new();
    let mut i: usize = 0;
    while i < a.len()
        invariant
            i <= a.len(),
            out@ == a@.take(i as int).filter(above(threshold)),
        decreases a.len() - i,
    {
        proof {
            assert(a@.take(i + 1) == a@.take(i as int).push(a@[i as int]));
            a@.take(i as int).lemma_filter_push(a@[i as int], above(threshold));
        }
        if is_greater(a[i], threshold) {
            out.push(a[i]);
        }
        i += 1;
    }
    proof {
        assert(a@.take(i as int) == a@);
    }
    out
}

/// The items strictly less than `threshold`, in their order.
pub fn array_filter_lt(a: &[u64], threshold: u64) -> (out: Vec<u64>)
    ensures
        out@ == a@.filter(below(threshold)),
{
    let mut out: Vec<u64> = Vec::new();
    let mut i: usize = 0;
    while i < a.len()
        invariant
            i <= a.len(),
            out@ == a@.take(i as int).filter(below(threshold)),
        decreases a.len() - i,
    {
        proof {
            assert(a@.take(i + 1) == a@.take(i as int).push(a@[i as int]));
            a@.take(i as int).lemma_filter_push(a@[i as int], below(threshold));
        }
        if is_less(a[i], threshold) {
            out.push(a[i]);
        }
        i += 1;
    }
    proof {
        assert(a@.take(i as int) == a@);
    }
    out
}

/// The positions, counted from zero and in ascending order, of the items
/// strictly greater than `threshold`.
pub fn array_where_gt(a: &[u64], threshold: u64) -> (out: Vec<usize>)
    ensures
        lists_positions_above(a@, threshold, out@),
{
    let mut out: Vec<usize> = Vec::new();
    let mut i: usize = 0;
    while i < a.len()
        invariant
            i <= a.len(),
            forall|k: int|
                0 <= k < out.len() ==> (#[trigger] out@[k]) < i && is_greater(
                    a@[out@[k] as int],
                    threshold,
                ),
            forall|k: int, l: int|
                0 <= k < l < out.len() ==> #[trigger] out@[k] < #[trigger] out@[l],
            forall|j: int|
                0 <= j < i && is_greater(#[trigger] a@[j], threshold) ==> out@.contains(j as usize),
        decreases a.len() - i,
    {
        if is_greater(a[i], threshold) {
            let ghost before = out@;
            out.push(i);
            proof {
                assert(out@[before.len() as int] == i);
                assert forall|j: int|
                    0 <= j < i + 1 && is_greater(#[trigger] a@[j], threshold) implies out@.contains(
                    j as usize,
                ) by {
                    if j < i {
                        let at = choose|at: int| 0 <= at < before.len() && before[at] == j as usize;
                        assert(out@[at] == j as usize);
                    }
                }
            }
        }
        i += 1;
    }
    out
}

} // verus!
