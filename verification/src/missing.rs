//! Missing values, which are the NaNs, and the count of distinct patterns.

use crate::pattern::is_nan;
use std::collections::HashSet;
use vstd::prelude::*;

verus! {

/// The test that picks the NaNs.
pub open spec fn is_missing() -> spec_fn(u64) -> bool {
    |x: u64| is_nan(x)
}

/// The test that picks what is not a NaN.
pub open spec fn is_present() -> spec_fn(u64) -> bool {
    |x: u64| !is_nan(x)
}

/// A copy in which `fill` stands wherever a NaN stood.
pub fn array_fillna(a: &[u64], fill: u64) -> (out: Vec<u64>)
    ensures
        out.len() == a@.len(),
        forall|i: int|
            0 <= i < a@.len() ==> #[trigger] out@[i] == if is_nan(a@[i]) {
                fill
            } else {
                a@[i]
            },
{
    let mut out: Vec<u64> = Vec::with_capacity(a.len());
    let mut i: usize = 0;
    while i < a.len()
        invariant
            i <= a.len(),
            out.len() == i,
            forall|k: int|
                0 <= k < i ==> #[trigger] out@[k] == if is_nan(a@[k]) {
                    fill
                } else {
                    a@[k]
                },
        decreases a.len() - i,
    {
        if is_nan(a[i]) {
            out.push(fill);
        } else {
            out.push(a[i]);
        }
        i += 1;
    }
    out
}

/// How many items are NaNs.
pub fn array_count_nan(a: &[u64]) -> (count: usize)
    ensures
        count == a@.filter(is_missing()).len(),
        count <= a@.len(),
{
    let mut count: usize = 0;
    let mut i: usize = 0;
    while i < a.len()
        invariant
            i <= a.len(),
            count <= i,
            count == a@.take(i as int).filter(is_missing()).len(),
        decreases a.len() - i,
    {
        proof {
            assert(a@.take(i + 1) == a@.take(i as int).push(a@[i as int]));
            a@.take(i as int).lemma_filter_push(a@[i as int], is_missing());
        }
        if is_nan(a[i]) {
            count += 1;
        }
        i += 1;
    }
    proof {
        assert(a@.take(i as int) == a@);
    }
    count
}

/// The items that are not NaNs, in their order.
pub fn array_dropna(a: &[u64]) -> (out: Vec<u64>)
    ensures
        out@ == a@.filter(is_present()),
        out.len() <= a@.len(),
{
    let mut out: Vec<u64> = Vec::new();
    let mut i: usize = 0;
    while i < a.len()
        invariant
            i <= a.len(),
            out@ == a@.take(i as int).filter(is_present()),
        decreases a.len() - i,
    {
        proof {
            assert(a@.take(i + 1) == a@.take(i as int).push(a@[i as int]));
            a@.take(i as int).lemma_filter_push(a@[i as int], is_present());
        }
        if !is_nan(a[i]) {
            out.push(a[i]);
        }
        i += 1;
    }
    proof {
        assert(a@.take(i as int) == a@);
        a@.lemma_filter_len(is_present());
    }
    out
}

/// How many distinct patterns occur.
///
/// Patterns are told apart bit by bit: `+0.0` and `-0.0` count as two, and
/// so do two NaNs of different payload.
pub fn array_unique_count(a: &[u64]) -> (count: usize)
    ensures
        count == a@.to_set().len(),
{
    broadcast use vstd::std_specs::hash::group_hash_axioms;

    let mut seen: HashSet<u64> = HashSet::new();
    let mut i: usize = 0;
    while i < a.len()
        invariant
            i <= a.len(),
            seen@ == a@.take(i as int).to_set(),
        decreases a.len() - i,
    {
        proof {
            assert(a@.take(i + 1) == a@.take(i as int).push(a@[i as int]));
            a@.take(i as int).lemma_push_to_set_commute(a@[i as int]);
        }
        seen.insert(a[i]);
        i += 1;
    }
    proof {
        assert(a@.take(i as int) == a@);
    }
    seen.len()
}

} // verus!
