//! The arithmetic unit: the rounded operations that a caller supplies.
//!
//! A unit is any function from an operation and two operands to a result.
//! The kernels never look inside a result that a unit hands back where the
//! operation yields a pattern; where it yields a count, they test it
//! against the sequence before they index with it.

use vstd::prelude::*;

verus! {

/// An operation asked of the arithmetic unit.
///
/// The operands and the result are patterns unless said otherwise. An
/// operation of one operand is handed `+0.0` as its second.
#[derive(Clone, Copy, Debug, PartialEq, Eq, Hash)]
pub enum FloatOp {
    /// The sum of the two operands.
    Add,
    /// The first operand less the second.
    Sub,
    /// The product of the two operands.
    Mul,
    /// The first operand divided by the second.
    Div,
    /// The square root of the first operand.
    Sqrt,
    /// The natural logarithm of the first operand.
    Ln,
    /// The exponential of the first operand.
    Exp,
    /// The pattern of the number nearest to the first operand, which is a count.
    FromCount,
    /// The largest count not above the first operand; the result is a count.
    Floor,
    /// The smallest count not below the first operand; the result is a count.
    Ceil,
}

/// The unit can be asked for any operation on any operands.
pub open spec fn accepts_all<U: Fn(FloatOp, u64, u64) -> u64>(unit: &U) -> bool {
    forall|op: FloatOp, x: u64, y: u64| unit.requires((op, x, y))
}

/// `r` is a result that the unit may hand back for `op` on `x` and `y`.
pub open spec fn gives<U: Fn(FloatOp, u64, u64) -> u64>(
    unit: &U,
    op: FloatOp,
    x: u64,
    y: u64,
    r: u64,
) -> bool {
    unit.ensures((op, x, y), r)
}

/// `partial` holds what folding `op` over `s` from `seed` may give after
/// each item: every entry is a result of `op` on the entry before it, or on
/// `seed` for the first, and the item of `s` at its index.
pub open spec fn accumulates<U: Fn(FloatOp, u64, u64) -> u64>(
    unit: &U,
    op: FloatOp,
    seed: u64,
    s: Seq<u64>,
    partial: Seq<u64>,
) -> bool {
    &&& partial.len() == s.len()
    &&& forall|i: int|
        0 <= i < s.len() ==> gives(
            unit,
            op,
            if i == 0 {
                seed
            } else {
                partial[i - 1]
            },
            s[i],
            #[trigger] partial[i],
        )
}

/// `total` is what folding `op` over `s` from `seed`, left to right, may
/// give: the last of such partial results, or `seed` itself where `s` is
/// empty.
pub open spec fn reduces_to<U: Fn(FloatOp, u64, u64) -> u64>(
    unit: &U,
    op: FloatOp,
    seed: u64,
    s: Seq<u64>,
    total: u64,
) -> bool {
    exists|partial: Seq<u64>| #[trigger]
        accumulates(unit, op, seed, s, partial) && total == if s.len() == 0 {
            seed
        } else {
            partial.last()
        }
}

/// Asks the unit for one operation.
pub(crate) fn ask<U: Fn(FloatOp, u64, u64) -> u64>(unit: &U, op: FloatOp, x: u64, y: u64) -> (r:
    u64)
    requires
        accepts_all(unit),
    ensures
        gives(unit, op, x, y, r),
{
    unit(op, x, y)
}

} // verus!
