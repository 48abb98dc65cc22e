//! Median and percentile: a sorted copy, and an item or two picked from it.

use crate::error::KernelError;
use crate::order::{array_sort, has_key, lemma_key_absent, sorts_to};
use crate::pattern::{is_at_most, is_zero, order_key, HUNDRED, ONE, POSITIVE_ZERO, TWO};
use crate::statistics::{
    array_max, array_min, is_first_least, is_last_greatest, is_maximum_of, is_minimum_of,
};
use crate::unit::{accepts_all, ask, gives, FloatOp};
use vstd::prelude::*;
use vstd::seq_lib::group_to_multiset_ensures;

verus! {

/// `m` is the median of a sequence that is already sorted: the middle item
/// of an odd length, and for an even length what the unit may give for the
/// sum of the two middle items divided by `2.0`.
pub open spec fn median_of_sorted<U: Fn(FloatOp, u64, u64) -> u64>(
    unit: &U,
    sorted: Seq<u64>,
    m: u64,
) -> bool {
    let n = sorted.len() as int;
    if n % 2 == 1 {
        m == sorted[n / 2]
    } else {
        exists|pair: u64| #[trigger]
            gives(unit, FloatOp::Add, sorted[n / 2 - 1], sorted[n / 2], pair) && gives(
                unit,
                FloatOp::Div,
                pair,
                TWO,
                m,
            )
    }
}

/// `m` is a median of `src`, read from `sorted`, which is `src` in
/// ascending order.
pub open spec fn median_steps<U: Fn(FloatOp, u64, u64) -> u64>(
    unit: &U,
    src: Seq<u64>,
    sorted: Seq<u64>,
    m: u64,
) -> bool {
    sorts_to(src, sorted, false) && median_of_sorted(unit, sorted, m)
}

/// `m` is what the median of `src` may come to.
pub open spec fn medians_to<U: Fn(FloatOp, u64, u64) -> u64>(
    unit: &U,
    src: Seq<u64>,
    m: u64,
) -> bool {
    exists|sorted: Seq<u64>| #[trigger] median_steps(unit, src, sorted, m)
}

/// Whether `p` is a number from `0.0` to `100.0`, both included. A NaN is not.
pub open spec fn within_percent(p: u64) -> bool {
    is_at_most(POSITIVE_ZERO, p) && is_at_most(p, HUNDRED)
}

/// The rank of the percentile `p` in a sequence of `n` items, as the unit
/// may give it: `p / 100.0` is `fraction`, `n - 1` as a number is `last`,
/// their product is `rank`, and `lower` and `upper` are the counts that
/// enclose it.
pub open spec fn rank_steps<U: Fn(FloatOp, u64, u64) -> u64>(
    unit: &U,
    p: u64,
    n: nat,
    fraction: u64,
    last: u64,
    rank: u64,
    lower: u64,
    upper: u64,
) -> bool {
    &&& gives(unit, FloatOp::Div, p, HUNDRED, fraction)
    &&& gives(unit, FloatOp::FromCount, (n - 1) as u64, POSITIVE_ZERO, last)
    &&& gives(unit, FloatOp::Mul, fraction, last, rank)
    &&& gives(unit, FloatOp::Floor, rank, POSITIVE_ZERO, lower)
    &&& gives(unit, FloatOp::Ceil, rank, POSITIVE_ZERO, upper)
}

/// `r` lies between `low` and `high` as far as `rank` lies past the count
/// `lower`: with `weight` for `rank - lower`, it is
/// `low * (1.0 - weight) + high * weight`, each step as the unit may give it.
pub open spec fn blend_steps<U: Fn(FloatOp, u64, u64) -> u64>(
    unit: &U,
    low: u64,
    high: u64,
    rank: u64,
    lower: u64,
    base: u64,
    weight: u64,
    rest: u64,
    low_part: u64,
    high_part: u64,
    r: u64,
) -> bool {
    &&& gives(unit, FloatOp::FromCount, lower, POSITIVE_ZERO, base)
    &&& gives(unit, FloatOp::Sub, rank, base, weight)
    &&& gives(unit, FloatOp::Sub, ONE, weight, rest)
    &&& gives(unit, FloatOp::Mul, low, rest, low_part)
    &&& gives(unit, FloatOp::Mul, high, weight, high_part)
    &&& gives(unit, FloatOp::Add, low_part, high_part, r)
}

/// `r` is what the unit may give for `low` and `high` blended at `rank`,
/// which lies past the count `lower`.
pub open spec fn blends_to<U: Fn(FloatOp, u64, u64) -> u64>(
    unit: &U,
    low: u64,
    high: u64,
    rank: u64,
    lower: u64,
    r: u64,
) -> bool {
    exists|base: u64, weight: u64, rest: u64, low_part: u64, high_part: u64| #[trigger]
        blend_steps(unit, low, high, rank, lower, base, weight, rest, low_part, high_part, r)
}

/// What interpolating in `sorted` at `rank`, between the positions `lower`
/// and `upper`, comes to.
///
/// A position outside of the sequence is an error. Two equal positions give
/// the item there, untouched. Otherwise the two items are blended.
pub open spec fn interpolated<U: Fn(FloatOp, u64, u64) -> u64>(
    unit: &U,
    sorted: Seq<u64>,
    rank: u64,
    lower: u64,
    upper: u64,
    r: Result<u64, KernelError>,
) -> bool {
    if lower >= sorted.len() || upper >= sorted.len() {
        r == Err::<u64, KernelError>(KernelError::RankOutOfRange)
    } else if lower == upper {
        r == Ok::<u64, KernelError>(sorted[lower as int])
    } else {
        r is Ok && blends_to(unit, sorted[lower as int], sorted[upper as int], rank, lower, r->Ok_0)
    }
}

/// `r` is what the percentile `p` of `src` comes to, through `sorted`, which
/// is `src` in ascending order, and the rank that the unit gave.
pub open spec fn percentile_steps<U: Fn(FloatOp, u64, u64) -> u64>(
    unit: &U,
    src: Seq<u64>,
    p: u64,
    sorted: Seq<u64>,
    fraction: u64,
    last: u64,
    rank: u64,
    lower: u64,
    upper: u64,
    r: Result<u64, KernelError>,
) -> bool {
    &&& sorts_to(src, sorted, false)
    &&& rank_steps(unit, p, src.len(), fraction, last, rank, lower, upper)
    &&& interpolated(unit, sorted, rank, lower, upper, r)
}

/// `r` is what the percentile `p` of `src` may come to.
pub open spec fn percentile_of<U: Fn(FloatOp, u64, u64) -> u64>(
    unit: &U,
    src: Seq<u64>,
    p: u64,
    r: Result<u64, KernelError>,
) -> bool {
    exists|sorted: Seq<u64>, fraction: u64, last: u64, rank: u64, lower: u64, upper: u64| #[trigger]
        percentile_steps(unit, src, p, sorted, fraction, last, rank, lower, upper, r)
}

/// Whether `p` is a number from `0.0` to `100.0`.
pub fn is_percent(p: u64) -> (b: bool)
    ensures
        b == within_percent(p),
{
    is_at_most(POSITIVE_ZERO, p) && is_at_most(p, HUNDRED)
}

/// Interpolates in `sorted` at `rank`, between the positions `lower` and
/// `upper`.
pub fn interpolate<U: Fn(FloatOp, u64, u64) -> u64>(
    sorted: &[u64],
    rank: u64,
    lower: u64,
    upper: u64,
    unit: &U,
) -> (r: Result<u64, KernelError>)
    requires
        accepts_all(unit),
    ensures
        interpolated(unit, sorted@, rank, lower, upper, r),
{
    let n: u64 = sorted.len() as u64;
    if lower >= n || upper >= n {
        return Err(KernelError::RankOutOfRange);
    }
    let low: u64 = sorted[lower as usize];
    if lower == upper {
        return Ok(low);
    }
    let high: u64 = sorted[upper as usize];
    let base: u64 = ask(unit, FloatOp::FromCount, lower, POSITIVE_ZERO);
    let weight: u64 = ask(unit, FloatOp::Sub, rank, base);
    let rest: u64 = ask(unit, FloatOp::Sub, ONE, weight);
    let low_part: u64 = ask(unit, FloatOp::Mul, low, rest);
    let high_part: u64 = ask(unit, FloatOp::Mul, high, weight);
    let blend: u64 = ask(unit, FloatOp::Add, low_part, high_part);
    proof {
        assert(low == sorted@[lower as int] && high == sorted@[upper as int]);
        assert(blend_steps(
            unit,
            low,
            high,
            rank,
            lower,
            base,
            weight,
            rest,
            low_part,
            high_part,
            blend,
        ));
    }
    Ok(blend)
}

/// The median: the middle item of the sorted sequence, or the mean of the
/// two middle items. An empty sequence is an error.
pub fn array_median<U: Fn(FloatOp, u64, u64) -> u64>(a: &[u64], unit: &U) -> (r: Result<
    u64,
    KernelError,
>)
    requires
        accepts_all(unit),
    ensures
        a@.len() == 0 ==> r == Err::<u64, KernelError>(KernelError::EmptyInput),
        a@.len() > 0 ==> r is Ok && medians_to(unit, a@, r->Ok_0),
{
    if a.len() == 0 {
        return Err(KernelError::EmptyInput);
    }
    let sorted = array_sort(a);
    let n: usize = sorted.len();
    if n % 2 == 0 {
        let before: u64 = sorted[n / 2 - 1];
        let after: u64 = sorted[n / 2];
        let pair: u64 = ask(unit, FloatOp::Add, before, after);
        let m: u64 = ask(unit, FloatOp::Div, pair, TWO);
        proof {
            let len = sorted@.len() as int;
            assert(before == sorted@[len / 2 - 1] && after == sorted@[len / 2]);
            assert(gives(unit, FloatOp::Add, sorted@[len / 2 - 1], sorted@[len / 2], pair));
            assert(median_of_sorted(unit, sorted@, m));
            assert(median_steps(unit, a@, sorted@, m));
        }
        Ok(m)
    } else {
        let m: u64 = sorted[n / 2];
        proof {
            assert(median_steps(unit, a@, sorted@, m));
        }
        Ok(m)
    }
}

/// The percentile `p`, by linear interpolation between the closest ranks.
///
/// The rank is `p / 100.0` times the last index; the result is the item at
/// that rank where the rank is whole, and lies between the two items that
/// enclose it otherwise. The two ends need no arithmetic: a `p` that is a
/// zero gives the minimum and a `p` of `100.0` the maximum. An empty
/// sequence is an error, and so is a `p` that is not a number from `0.0` to
/// `100.0`.
pub fn array_percentile<U: Fn(FloatOp, u64, u64) -> u64>(a: &[u64], p: u64, unit: &U) -> (r:
    Result<u64, KernelError>)
    requires
        accepts_all(unit),
    ensures
        a@.len() == 0 ==> r == Err::<u64, KernelError>(KernelError::EmptyInput),
        a@.len() > 0 && !within_percent(p) ==> r == Err::<u64, KernelError>(
            KernelError::PercentileOutOfRange,
        ),
        a@.len() > 0 && is_zero(p) ==> r is Ok && is_minimum_of(a@, r->Ok_0),
        a@.len() > 0 && p == HUNDRED ==> r is Ok && is_maximum_of(a@, r->Ok_0),
        a@.len() > 0 && within_percent(p) && !is_zero(p) && p != HUNDRED ==> percentile_of(
            unit,
            a@,
            p,
            r,
        ),
{
    if a.len() == 0 {
        return Err(KernelError::EmptyInput);
    }
    if !is_percent(p) {
        return Err(KernelError::PercentileOutOfRange);
    }
    if is_zero(p) {
        return array_min(a);
    }
    if p == HUNDRED {
        return array_max(a);
    }
    let sorted = array_sort(a);
    let fraction: u64 = ask(unit, FloatOp::Div, p, HUNDRED);
    let last: u64 = ask(unit, FloatOp::FromCount, (a.len() - 1) as u64, POSITIVE_ZERO);
    let rank: u64 = ask(unit, FloatOp::Mul, fraction, last);
    let lower: u64 = ask(unit, FloatOp::Floor, rank, POSITIVE_ZERO);
    let upper: u64 = ask(unit, FloatOp::Ceil, rank, POSITIVE_ZERO);
    let r = interpolate(sorted.as_slice(), rank, lower, upper, unit);
    proof {
        assert(percentile_steps(unit, a@, p, sorted@, fraction, last, rank, lower, upper, r));
    }
    r
}

proof fn lemma_first_with_key(s: Seq<u64>, k: int, at: int)
    requires
        0 <= at < s.len(),
        order_key(s[at]) == k,
        forall|j: int| 0 <= j < at ==> order_key(#[trigger] s[j]) != k,
    ensures
        s.filter(has_key(k)).len() > 0,
        s.filter(has_key(k))[0] == s[at],
    decreases s.len(),
{
    let rest = s.drop_last();
    assert(s == rest.push(s.last()));
    rest.lemma_filter_push(s.last(), has_key(k));
    if at == s.len() - 1 {
        assert forall|j: int| 0 <= j < rest.len() implies order_key(#[trigger] rest[j]) != k by {
            assert(rest[j] == s[j]);
        }
        lemma_key_absent(rest, k);
    } else {
        assert forall|j: int| 0 <= j < at implies order_key(#[trigger] rest[j]) != k by {
            assert(rest[j] == s[j]);
        }
        lemma_first_with_key(rest, k, at);
    }
}

proof fn lemma_last_with_key(s: Seq<u64>, k: int, at: int)
    requires
        0 <= at < s.len(),
        order_key(s[at]) == k,
        forall|j: int| at < j < s.len() ==> order_key(#[trigger] s[j]) != k,
    ensures
        s.filter(has_key(k)).len() > 0,
        s.filter(has_key(k)).last() == s[at],
    decreases s.len(),
{
    let rest = s.drop_last();
    assert(s == rest.push(s.last()));
    rest.lemma_filter_push(s.last(), has_key(k));
    if at < s.len() - 1 {
        assert(order_key(s[s.len() - 1]) != k);
        assert forall|j: int| at < j < rest.len() implies order_key(#[trigger] rest[j]) != k by {
            assert(rest[j] == s[j]);
        }
        lemma_last_with_key(rest, k, at);
    }
}

proof fn lemma_shared_item(x: Seq<u64>, y: Seq<u64>, i: int) -> (j: int)
    requires
        x.to_multiset() == y.to_multiset(),
        0 <= i < x.len(),
    ensures
        0 <= j < y.len(),
        y[j] == x[i],
{
    broadcast use group_to_multiset_ensures;

    assert(x.contains(x[i]));
    assert(x.to_multiset().count(x[i]) > 0);
    assert(y.to_multiset().count(x[i]) > 0);
    assert(y.contains(x[i]));
    choose|j: int| 0 <= j < y.len() && y[j] == x[i]
}

/// A sequence sorted ascending starts with the minimum of its source: the
/// very item that `array_min` picks.
pub proof fn sorted_starts_with_minimum(src: Seq<u64>, sorted: Seq<u64>, at: int)
    requires
        sorts_to(src, sorted, false),
        is_first_least(src, at),
    ensures
        sorted[0] == src[at],
{
    let k = order_key(src[at]);
    let in_src = lemma_shared_item(sorted, src, 0);
    let in_sorted = lemma_shared_item(src, sorted, at);
    assert(order_key(src[at]) <= order_key(src[in_src]));
    if in_sorted > 0 {
        assert(order_key(sorted[0]) <= order_key(sorted[in_sorted]));
    }
    assert(order_key(sorted[0]) == k);
    lemma_first_with_key(sorted, k, 0);
    lemma_first_with_key(src, k, at);
    assert(sorted.filter(has_key(k)) == src.filter(has_key(k)));
}

/// A sequence sorted ascending ends with the maximum of its source: the
/// very item that `array_max` picks.
pub proof fn sorted_ends_with_maximum(src: Seq<u64>, sorted: Seq<u64>, at: int)
    requires
        sorts_to(src, sorted, false),
        is_last_greatest(src, at),
    ensures
        sorted.last() == src[at],
{
    let k = order_key(src[at]);
    let end = sorted.len() - 1;
    let in_src = lemma_shared_item(sorted, src, end);
    let in_sorted = lemma_shared_item(src, sorted, at);
    assert(order_key(src[in_src]) <= order_key(src[at]));
    if in_sorted < end {
        assert(order_key(sorted[in_sorted]) <= order_key(sorted[end]));
    }
    assert(order_key(sorted[end]) == k);
    lemma_last_with_key(sorted, k, end);
    lemma_last_with_key(src, k, at);
    assert(sorted.filter(has_key(k)) == src.filter(has_key(k)));
}

/// Interpolation agrees with the lower end: wherever the steps of a
/// percentile place the rank on the first position, they come to the
/// minimum of the sequence, the very item that `array_min` picks.
pub proof fn percentile_at_first_rank_is_minimum<U: Fn(FloatOp, u64, u64) -> u64>(
    unit: &U,
    src: Seq<u64>,
    p: u64,
    sorted: Seq<u64>,
    fraction: u64,
    last: u64,
    rank: u64,
    at: int,
    r: Result<u64, KernelError>,
)
    requires
        percentile_steps(unit, src, p, sorted, fraction, last, rank, 0, 0, r),
        is_first_least(src, at),
    ensures
        r == Ok::<u64, KernelError>(src[at]),
{
    sorted_starts_with_minimum(src, sorted, at);
}

/// Interpolation agrees with the upper end: wherever the steps of a
/// percentile place the rank on the last position, they come to the
/// maximum of the sequence, the very item that `array_max` picks.
pub proof fn percentile_at_last_rank_is_maximum<U: Fn(FloatOp, u64, u64) -> u64>(
    unit: &U,
    src: Seq<u64>,
    p: u64,
    sorted: Seq<u64>,
    fraction: u64,
    last: u64,
    rank: u64,
    end: u64,
    at: int,
    r: Result<u64, KernelError>,
)
    requires
        end == src.len() - 1,
        percentile_steps(unit, src, p, sorted, fraction, last, rank, end, end, r),
        is_last_greatest(src, at),
    ensures
        r == Ok::<u64, KernelError>(src[at]),
{
    sorted_ends_with_maximum(src, sorted, at);
}

} // verus!
