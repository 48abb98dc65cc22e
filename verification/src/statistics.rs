//! Descriptive statistics: sum, mean, extremes, variance, standard deviation.
//!
//! A statistic that is undefined on its input is reported as an error,
//! never as a NaN.

use crate::error::KernelError;
use crate::pattern::{key, order_key, ONE, POSITIVE_ZERO};
use crate::unit::{accepts_all, accumulates, ask, gives, reduces_to, FloatOp};
use vstd::prelude::*;

verus! {

/// `m` is a mean of `s` reached through the sum `total` and the length as
/// the number `count`.
pub open spec fn mean_steps<U: Fn(FloatOp, u64, u64) -> u64>(
    unit: &U,
    s: Seq<u64>,
    total: u64,
    count: u64,
    m: u64,
) -> bool {
    &&& reduces_to(unit, FloatOp::Add, POSITIVE_ZERO, s, total)
    &&& gives(unit, FloatOp::FromCount, s.len() as u64, POSITIVE_ZERO, count)
    &&& gives(unit, FloatOp::Div, total, count, m)
}

/// `m` is what the unit may give for the sum of `s` divided by its length.
pub open spec fn means_to<U: Fn(FloatOp, u64, u64) -> u64>(unit: &U, s: Seq<u64>, m: u64) -> bool {
    exists|total: u64, count: u64| #[trigger] mean_steps(unit, s, total, count, m)
}

/// `squares` holds, for each item of `s`, the square of its deviation from
/// `m`; `deviations` holds the deviations themselves.
pub open spec fn squares_deviations<U: Fn(FloatOp, u64, u64) -> u64>(
    unit: &U,
    s: Seq<u64>,
    m: u64,
    deviations: Seq<u64>,
    squares: Seq<u64>,
) -> bool {
    &&& deviations.len() == s.len()
    &&& squares.len() == s.len()
    &&& forall|i: int|
        0 <= i < s.len() ==> gives(unit, FloatOp::Sub, s[i], m, #[trigger] deviations[i])
    &&& forall|i: int|
        0 <= i < s.len() ==> gives(
            unit,
            FloatOp::Mul,
            deviations[i],
            deviations[i],
            #[trigger] squares[i],
        )
}

/// `v` is a sample variance of `s` reached through the mean `m`, the squared
/// deviations and their sum `total`, and the length less one as the number
/// `divisor`.
pub open spec fn variance_steps<U: Fn(FloatOp, u64, u64) -> u64>(
    unit: &U,
    s: Seq<u64>,
    m: u64,
    deviations: Seq<u64>,
    squares: Seq<u64>,
    total: u64,
    count: u64,
    divisor: u64,
    v: u64,
) -> bool {
    &&& means_to(unit, s, m)
    &&& squares_deviations(unit, s, m, deviations, squares)
    &&& reduces_to(unit, FloatOp::Add, POSITIVE_ZERO, squares, total)
    &&& gives(unit, FloatOp::FromCount, s.len() as u64, POSITIVE_ZERO, count)
    &&& gives(unit, FloatOp::Sub, count, ONE, divisor)
    &&& gives(unit, FloatOp::Div, total, divisor, v)
}

/// `v` is what the unit may give for the sample variance of `s`: the sum of
/// the squared deviations from the mean, divided by the length less one.
pub open spec fn varies_to<U: Fn(FloatOp, u64, u64) -> u64>(unit: &U, s: Seq<u64>, v: u64) -> bool {
    exists|
        m: u64,
        deviations: Seq<u64>,
        squares: Seq<u64>,
        total: u64,
        count: u64,
        divisor: u64,
    | #[trigger] variance_steps(unit, s, m, deviations, squares, total, count, divisor, v)
}

/// `d` is what the unit may give for the square root of a variance of `s`.
pub open spec fn deviates_to<U: Fn(FloatOp, u64, u64) -> u64>(
    unit: &U,
    s: Seq<u64>,
    d: u64,
) -> bool {
    exists|v: u64| #[trigger]
        varies_to(unit, s, v) && gives(unit, FloatOp::Sqrt, v, POSITIVE_ZERO, d)
}

/// `at` is where the least key of `s` first occurs.
pub open spec fn is_first_least(s: Seq<u64>, at: int) -> bool {
    &&& 0 <= at < s.len()
    &&& forall|j: int| 0 <= j < s.len() ==> order_key(s[at]) <= order_key(#[trigger] s[j])
    &&& forall|j: int| 0 <= j < at ==> order_key(s[at]) < order_key(#[trigger] s[j])
}

/// `at` is where the greatest key of `s` last occurs.
pub open spec fn is_last_greatest(s: Seq<u64>, at: int) -> bool {
    &&& 0 <= at < s.len()
    &&& forall|j: int| 0 <= j < s.len() ==> order_key(#[trigger] s[j]) <= order_key(s[at])
    &&& forall|j: int| at < j < s.len() ==> order_key(#[trigger] s[j]) < order_key(s[at])
}

/// `m` is the minimum of `s`: the first of the items that no item is
/// ordered before.
pub open spec fn is_minimum_of(s: Seq<u64>, m: u64) -> bool {
    exists|at: int| #[trigger] is_first_least(s, at) && m == s[at]
}

/// `m` is the maximum of `s`: the last of the items that no item is ordered
/// after.
pub open spec fn is_maximum_of(s: Seq<u64>, m: u64) -> bool {
    exists|at: int| #[trigger] is_last_greatest(s, at) && m == s[at]
}

/// Adds up all items from left to right, starting from `+0.0`.
pub fn array_sum<U: Fn(FloatOp, u64, u64) -> u64>(a: &[u64], unit: &U) -> (total: u64)
    requires
        accepts_all(unit),
    ensures
        reduces_to(unit, FloatOp::Add, POSITIVE_ZERO, a@, total),
{
    let mut total: u64 = POSITIVE_ZERO;
    let ghost mut partial: Seq<u64> = Seq::empty();
    let mut i: usize = 0;
    while i < a.len()
        invariant
            accepts_all(unit),
            i <= a.len(),
            accumulates(unit, FloatOp::Add, POSITIVE_ZERO, a@.take(i as int), partial),
            total == if i == 0 {
                POSITIVE_ZERO
            } else {
                partial.last()
            },
        decreases a.len() - i,
    {
        total = ask(unit, FloatOp::Add, total, a[i]);
        proof {
            partial = partial.push(total);
        }
        i += 1;
    }
    proof {
        assert(a@.take(i as int) == a@);
        assert(accumulates(unit, FloatOp::Add, POSITIVE_ZERO, a@, partial));
    }
    total
}

/// The sum of all items, as `array_sum` gives it.
pub fn fast_sum<U: Fn(FloatOp, u64, u64) -> u64>(numbers: &[u64], unit: &U) -> (total: u64)
    requires
        accepts_all(unit),
    ensures
        reduces_to(unit, FloatOp::Add, POSITIVE_ZERO, numbers@, total),
{
    array_sum(numbers, unit)
}

fn mean_of<U: Fn(FloatOp, u64, u64) -> u64>(a: &[u64], unit: &U) -> (m: u64)
    requires
        accepts_all(unit),
    ensures
        means_to(unit, a@, m),
{
    let total: u64 = array_sum(a, unit);
    let count: u64 = ask(unit, FloatOp::FromCount, a.len() as u64, POSITIVE_ZERO);
    let m: u64 = ask(unit, FloatOp::Div, total, count);
    proof {
        assert(mean_steps(unit, a@, total, count, m));
    }
    m
}

/// The sum divided by the length. An empty sequence is an error.
pub fn array_mean<U: Fn(FloatOp, u64, u64) -> u64>(a: &[u64], unit: &U) -> (r: Result<
    u64,
    KernelError,
>)
    requires
        accepts_all(unit),
    ensures
        a@.len() == 0 ==> r == Err::<u64, KernelError>(KernelError::EmptyInput),
        a@.len() > 0 ==> r is Ok && means_to(unit, a@, r->Ok_0),
{
    if a.len() == 0 {
        Err(KernelError::EmptyInput)
    } else {
        Ok(mean_of(a, unit))
    }
}

/// The sum divided by the length, and `+0.0` for an empty sequence.
pub fn fast_average<U: Fn(FloatOp, u64, u64) -> u64>(numbers: &[u64], unit: &U) -> (m: u64)
    requires
        accepts_all(unit),
    ensures
        numbers@.len() == 0 ==> m == POSITIVE_ZERO,
        numbers@.len() > 0 ==> means_to(unit, numbers@, m),
{
    if numbers.len() == 0 {
        POSITIVE_ZERO
    } else {
        mean_of(numbers, unit)
    }
}

/// The least item: the first one that no other item is ordered before.
///
/// A NaN is ordered after every number, so the result is a NaN only where
/// every item is one. An empty sequence is an error.
pub fn array_min(a: &[u64]) -> (r: Result<u64, KernelError>)
    ensures
        a@.len() == 0 ==> r == Err::<u64, KernelError>(KernelError::EmptyInput),
        a@.len() > 0 ==> r is Ok && is_minimum_of(a@, r->Ok_0),
{
    if a.len() == 0 {
        return Err(KernelError::EmptyInput);
    }
    let mut at: usize = 0;
    let mut i: usize = 1;
    while i < a.len()
        invariant
            0 <= at < i <= a.len(),
            is_first_least(a@.take(i as int), at as int),
        decreases a.len() - i,
    {
        if key(a[i]) < key(a[at]) {
            at = i;
        }
        i += 1;
        proof {
            assert forall|j: int| 0 <= j < i implies order_key(a@.take(i as int)[at as int])
                <= order_key(#[trigger] a@.take(i as int)[j]) by {
                if j < i - 1 {
                    assert(a@.take(i - 1)[j] == a@[j]);
                }
            }
            assert forall|j: int| 0 <= j < at implies order_key(a@.take(i as int)[at as int])
                < order_key(#[trigger] a@.take(i as int)[j]) by {
                assert(a@.take(i - 1)[j] == a@[j]);
            }
        }
    }
    proof {
        assert(a@.take(i as int) == a@);
    }
    Ok(a[at])
}

/// The greatest item: the last one that no other item is ordered after.
///
/// A NaN is ordered after every number, so the result is a NaN as soon as
/// one item is. An empty sequence is an error.
pub fn array_max(a: &[u64]) -> (r: Result<u64, KernelError>)
    ensures
        a@.len() == 0 ==> r == Err::<u64, KernelError>(KernelError::EmptyInput),
        a@.len() > 0 ==> r is Ok && is_maximum_of(a@, r->Ok_0),
{
    if a.len() == 0 {
        return Err(KernelError::EmptyInput);
    }
    let mut at: usize = 0;
    let mut i: usize = 1;
    while i < a.len()
        invariant
            0 <= at < i <= a.len(),
            is_last_greatest(a@.take(i as int), at as int),
        decreases a.len() - i,
    {
        let ghost was = at;
        if key(a[i]) >= key(a[at]) {
            at = i;
        }
        i += 1;
        proof {
            assert forall|j: int| 0 <= j < i implies order_key(#[trigger] a@.take(i as int)[j])
                <= order_key(a@.take(i as int)[at as int]) by {
                if j < i - 1 {
                    assert(a@.take(i - 1)[j] == a@[j]);
                    assert(a@.take(i - 1)[was as int] == a@[was as int]);
                }
            }
            assert forall|j: int| at < j < i implies order_key(#[trigger] a@.take(i as int)[j])
                < order_key(a@.take(i as int)[at as int]) by {
                if j < i - 1 {
                    assert(a@.take(i - 1)[j] == a@[j]);
                }
            }
        }
    }
    proof {
        assert(a@.take(i as int) == a@);
    }
    Ok(a[at])
}

/// The sample variance: the squared deviations from the mean, summed and
/// divided by the length less one. Fewer than two items are an error.
pub fn array_variance<U: Fn(FloatOp, u64, u64) -> u64>(a: &[u64], unit: &U) -> (r: Result<
    u64,
    KernelError,
>)
    requires
        accepts_all(unit),
    ensures
        a@.len() < 2 ==> r == Err::<u64, KernelError>(KernelError::InsufficientData),
        a@.len() >= 2 ==> r is Ok && varies_to(unit, a@, r->Ok_0),
{
    if a.len() < 2 {
        return Err(KernelError::InsufficientData);
    }
    let m: u64 = mean_of(a, unit);
    let mut squares: Vec<u64> = Vec::with_capacity(a.len());
    let ghost mut deviations: Seq<u64> = Seq::empty();
    let mut i: usize = 0;
    while i < a.len()
        invariant
            accepts_all(unit),
            i <= a.len(),
            squares.len() == i,
            squares_deviations(unit, a@.take(i as int), m, deviations, squares@),
        decreases a.len() - i,
    {
        let d: u64 = ask(unit, FloatOp::Sub, a[i], m);
        let sq: u64 = ask(unit, FloatOp::Mul, d, d);
        squares.push(sq);
        proof {
            deviations = deviations.push(d);
        }
        i += 1;
    }
    let total: u64 = array_sum(squares.as_slice(), unit);
    let count: u64 = ask(unit, FloatOp::FromCount, a.len() as u64, POSITIVE_ZERO);
    let divisor: u64 = ask(unit, FloatOp::Sub, count, ONE);
    let v: u64 = ask(unit, FloatOp::Div, total, divisor);
    proof {
        assert(a@.take(i as int) == a@);
        assert(variance_steps(unit, a@, m, deviations, squares@, total, count, divisor, v));
    }
    Ok(v)
}

/// The sample standard deviation: the square root of the sample variance.
/// Fewer than two items are an error.
pub fn array_std<U: Fn(FloatOp, u64, u64) -> u64>(a: &[u64], unit: &U) -> (r: Result<
    u64,
    KernelError,
>)
    requires
        accepts_all(unit),
    ensures
        a@.len() < 2 ==> r == Err::<u64, KernelError>(KernelError::InsufficientData),
        a@.len() >= 2 ==> r is Ok && deviates_to(unit, a@, r->Ok_0),
{
    match array_variance(a, unit) {
        Ok(v) => Ok(ask(unit, FloatOp::Sqrt, v, POSITIVE_ZERO)),
        Err(e) => Err(e),
    }
}

} // verus!
