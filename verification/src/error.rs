//! The failures that a kernel can report.

use vstd::prelude::*;

verus! {

/// Why a kernel returned no value.
#[derive(Clone, Copy, Debug, PartialEq, Eq, Hash)]
pub enum KernelError {
    /// An elementwise division was given an empty sequence on either side.
    EmptyOperand,
    /// A sequence was to be divided by a scalar that is zero.
    DivisionByZero,
    /// A statistic was asked of an empty sequence.
    EmptyInput,
    /// A statistic that needs two items was asked of fewer.
    InsufficientData,
    /// A percentile was asked for outside of 0 to 100.
    PercentileOutOfRange,
    /// The arithmetic unit placed a rank outside of the sequence.
    RankOutOfRange,
}

} // verus!
