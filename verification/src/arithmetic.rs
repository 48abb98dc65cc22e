//! Elementwise arithmetic on two sequences, and on a sequence and a scalar.

use crate::error::KernelError;
use crate::pattern::{is_zero, magnitude, POSITIVE_INFINITY, POSITIVE_ZERO};
use crate::unit::{accepts_all, ask, gives, FloatOp};
use vstd::prelude::*;

verus! {

/// The length over which two sequences of lengths `m` and `n` are combined.
pub open spec fn shared_len(m: nat, n: nat) -> nat {
    if m <= n {
        m
    } else {
        n
    }
}

/// `out` holds, for each index of the shared prefix of `a` and `b`, a result
/// of `op` on the two items at that index.
pub open spec fn combines<U: Fn(FloatOp, u64, u64) -> u64>(
    unit: &U,
    op: FloatOp,
    a: Seq<u64>,
    b: Seq<u64>,
    out: Seq<u64>,
) -> bool {
    &&& out.len() == shared_len(a.len(), b.len())
    &&& forall|i: int| 0 <= i < out.len() ==> gives(unit, op, a[i], b[i], #[trigger] out[i])
}

/// `out` holds, for each index of `a`, a result of `op` on the item there
/// and `scalar`.
pub open spec fn applies<U: Fn(FloatOp, u64, u64) -> u64>(
    unit: &U,
    op: FloatOp,
    a: Seq<u64>,
    scalar: u64,
    out: Seq<u64>,
) -> bool {
    &&& out.len() == a.len()
    &&& forall|i: int| 0 <= i < out.len() ==> gives(unit, op, a[i], scalar, #[trigger] out[i])
}

/// `out` holds the quotients over the shared prefix of `a` and `b`, with
/// positive infinity wherever the divisor is a zero.
pub open spec fn divides<U: Fn(FloatOp, u64, u64) -> u64>(
    unit: &U,
    a: Seq<u64>,
    b: Seq<u64>,
    out: Seq<u64>,
) -> bool {
    &&& out.len() == shared_len(a.len(), b.len())
    &&& forall|i: int|
        0 <= i < out.len() ==> if is_zero(b[i]) {
            #[trigger] out[i] == POSITIVE_INFINITY
        } else {
            gives(unit, FloatOp::Div, a[i], b[i], out[i])
        }
}

fn combine<U: Fn(FloatOp, u64, u64) -> u64>(a: &[u64], b: &[u64], op: FloatOp, unit: &U) -> (out:
    Vec<u64>)
    requires
        accepts_all(unit),
    ensures
        combines(unit, op, a@, b@, out@),
{
    let n: usize = if a.len() <= b.len() {
        a.len()
    } else {
        b.len()
    };
    let mut out: Vec<u64> = Vec::with_capacity(n);
    let mut i: usize = 0;
    while i < n
        invariant
            accepts_all(unit),
            n == shared_len(a@.len(), b@.len()),
            i <= n,
            out.len() == i,
            forall|k: int| 0 <= k < i ==> gives(unit, op, a[k], b[k], #[trigger] out[k]),
        decreases n - i,
    {
        out.push(ask(unit, op, a[i], b[i]));
        i += 1;
    }
    out
}

fn apply<U: Fn(FloatOp, u64, u64) -> u64>(a: &[u64], scalar: u64, op: FloatOp, unit: &U) -> (out:
    Vec<u64>)
    requires
        accepts_all(unit),
    ensures
        applies(unit, op, a@, scalar, out@),
{
    let mut out: Vec<u64> = Vec::with_capacity(a.len());
    let mut i: usize = 0;
    while i < a.len()
        invariant
            accepts_all(unit),
            i <= a.len(),
            out.len() == i,
            forall|k: int| 0 <= k < i ==> gives(unit, op, a[k], scalar, #[trigger] out[k]),
        decreases a.len() - i,
    {
        out.push(ask(unit, op, a[i], scalar));
        i += 1;
    }
    out
}

/// Adds two sequences item by item, over their shared prefix.
pub fn array_add<U: Fn(FloatOp, u64, u64) -> u64>(a: &[u64], b: &[u64], unit: &U) -> (out: Vec<
    u64,
>)
    requires
        accepts_all(unit),
    ensures
        out.len() == shared_len(a@.len(), b@.len()),
        forall|i: int|
            0 <= i < out.len() ==> gives(unit, FloatOp::Add, a[i], b[i], #[trigger] out[i]),
{
    combine(a, b, FloatOp::Add, unit)
}

/// Subtracts the second sequence from the first item by item, over their
/// shared prefix.
pub fn array_subtract<U: Fn(FloatOp, u64, u64) -> u64>(a: &[u64], b: &[u64], unit: &U) -> (out:
    Vec<u64>)
    requires
        accepts_all(unit),
    ensures
        out.len() == shared_len(a@.len(), b@.len()),
        forall|i: int|
            0 <= i < out.len() ==> gives(unit, FloatOp::Sub, a[i], b[i], #[trigger] out[i]),
{
    combine(a, b, FloatOp::Sub, unit)
}

/// Multiplies two sequences item by item, over their shared prefix.
pub fn array_multiply<U: Fn(FloatOp, u64, u64) -> u64>(a: &[u64], b: &[u64], unit: &U) -> (out:
    Vec<u64>)
    requires
        accepts_all(unit),
    ensures
        out.len() == shared_len(a@.len(), b@.len()),
        forall|i: int|
            0 <= i < out.len() ==> gives(unit, FloatOp::Mul, a[i], b[i], #[trigger] out[i]),
{
    combine(a, b, FloatOp::Mul, unit)
}

/// Divides the first sequence by the second item by item, over their shared
/// prefix.
///
/// An empty sequence on either side is an error. A divisor that is a zero
/// gives positive infinity at its index, whatever the dividend; the unit is
/// not asked there.
pub fn array_divide<U: Fn(FloatOp, u64, u64) -> u64>(a: &[u64], b: &[u64], unit: &U) -> (r:
    Result<Vec<u64>, KernelError>)
    requires
        accepts_all(unit),
    ensures
        a@.len() == 0 || b@.len() == 0 ==> r == Err::<Vec<u64>, KernelError>(
            KernelError::EmptyOperand,
        ),
        a@.len() > 0 && b@.len() > 0 ==> r is Ok && divides(unit, a@, b@, r->Ok_0@),
{
    if a.len() == 0 || b.len() == 0 {
        return Err(KernelError::EmptyOperand);
    }
    let n: usize = if a.len() <= b.len() {
        a.len()
    } else {
        b.len()
    };
    let mut out: Vec<u64> = Vec::with_capacity(n);
    let mut i: usize = 0;
    while i < n
        invariant
            accepts_all(unit),
            n == shared_len(a@.len(), b@.len()),
            i <= n,
            out.len() == i,
            forall|k: int|
                0 <= k < i ==> if is_zero(b[k]) {
                    #[trigger] out[k] == POSITIVE_INFINITY
                } else {
                    gives(unit, FloatOp::Div, a[k], b[k], out[k])
                },
        decreases n - i,
    {
        if is_zero(b[i]) {
            out.push(POSITIVE_INFINITY);
        } else {
            out.push(ask(unit, FloatOp::Div, a[i], b[i]));
        }
        i += 1;
    }
    Ok(out)
}

/// Adds a scalar to every item.
pub fn array_add_scalar<U: Fn(FloatOp, u64, u64) -> u64>(a: &[u64], scalar: u64, unit: &U) -> (out:
    Vec<u64>)
    requires
        accepts_all(unit),
    ensures
        out.len() == a@.len(),
        forall|i: int|
            0 <= i < out.len() ==> gives(unit, FloatOp::Add, a[i], scalar, #[trigger] out[i]),
{
    apply(a, scalar, FloatOp::Add, unit)
}

/// Subtracts a scalar from every item.
pub fn array_subtract_scalar<U: Fn(FloatOp, u64, u64) -> u64>(
    a: &[u64],
    scalar: u64,
    unit: &U,
) -> (out: Vec<u64>)
    requires
        accepts_all(unit),
    ensures
        out.len() == a@.len(),
        forall|i: int|
            0 <= i < out.len() ==> gives(unit, FloatOp::Sub, a[i], scalar, #[trigger] out[i]),
{
    apply(a, scalar, FloatOp::Sub, unit)
}

/// Multiplies every item by a scalar.
pub fn array_multiply_scalar<U: Fn(FloatOp, u64, u64) -> u64>(
    a: &[u64],
    scalar: u64,
    unit: &U,
) -> (out: Vec<u64>)
    requires
        accepts_all(unit),
    ensures
        out.len() == a@.len(),
        forall|i: int|
            0 <= i < out.len() ==> gives(unit, FloatOp::Mul, a[i], scalar, #[trigger] out[i]),
{
    apply(a, scalar, FloatOp::Mul, unit)
}

/// Divides every item by a scalar, which must not be a zero.
///
/// A scalar that is `+0.0` or `-0.0` is an error, also for an empty sequence.
pub fn array_divide_scalar<U: Fn(FloatOp, u64, u64) -> u64>(
    a: &[u64],
    scalar: u64,
    unit: &U,
) -> (r: Result<Vec<u64>, KernelError>)
    requires
        accepts_all(unit),
    ensures
        is_zero(scalar) ==> r == Err::<Vec<u64>, KernelError>(KernelError::DivisionByZero),
        !is_zero(scalar) ==> r is Ok && r->Ok_0.len() == a@.len() && forall|i: int|
            0 <= i < a@.len() ==> gives(unit, FloatOp::Div, a[i], scalar, #[trigger] r->Ok_0[i]),
{
    if is_zero(scalar) {
        return Err(KernelError::DivisionByZero);
    }
    Ok(apply(a, scalar, FloatOp::Div, unit))
}

/// The absolute value of every item: the pattern with its sign bit cleared,
/// for a NaN as for a number.
pub fn array_abs(a: &[u64]) -> (out: Vec<u64>)
    ensures
        out.len() == a@.len(),
        forall|i: int| 0 <= i < a@.len() ==> #[trigger] out@[i] == magnitude(a@[i]),
{
    let mut out: Vec<u64> = Vec::with_capacity(a.len());
    let mut i: usize = 0;
    while i < a.len()
        invariant
            i <= a.len(),
            out.len() == i,
            forall|k: int| 0 <= k < i ==> #[trigger] out@[k] == magnitude(a@[k]),
        decreases a.len() - i,
    {
        out.push(magnitude(a[i]));
        i += 1;
    }
    out
}

/// The square root of every item.
pub fn array_sqrt<U: Fn(FloatOp, u64, u64) -> u64>(a: &[u64], unit: &U) -> (out: Vec<u64>)
    requires
        accepts_all(unit),
    ensures
        out.len() == a@.len(),
        forall|i: int|
            0 <= i < out.len() ==> gives(
                unit,
                FloatOp::Sqrt,
                a@[i],
                POSITIVE_ZERO,
                #[trigger] out@[i],
            ),
{
    apply(a, POSITIVE_ZERO, FloatOp::Sqrt, unit)
}

/// The natural logarithm of every item.
pub fn array_log<U: Fn(FloatOp, u64, u64) -> u64>(a: &[u64], unit: &U) -> (out: Vec<u64>)
    requires
        accepts_all(unit),
    ensures
        out.len() == a@.len(),
        forall|i: int|
            0 <= i < out.len() ==> gives(
                unit,
                FloatOp::Ln,
                a@[i],
                POSITIVE_ZERO,
                #[trigger] out@[i],
            ),
{
    apply(a, POSITIVE_ZERO, FloatOp::Ln, unit)
}

/// The exponential of every item.
pub fn array_exp<U: Fn(FloatOp, u64, u64) -> u64>(a: &[u64], unit: &U) -> (out: Vec<u64>)
    requires
        accepts_all(unit),
    ensures
        out.len() == a@.len(),
        forall|i: int|
            0 <= i < out.len() ==> gives(
                unit,
                FloatOp::Exp,
                a@[i],
                POSITIVE_ZERO,
                #[trigger] out@[i],
            ),
{
    apply(a, POSITIVE_ZERO, FloatOp::Exp, unit)
}

} // verus!
