//! Array kernels over IEEE-754 doubles, held as their 64-bit patterns.
//!
//! Every kernel reads one or two sequences of patterns and returns a new
//! sequence or a single value. What depends only on order, sign, zero and
//! NaN is computed here on the patterns. Rounded arithmetic is asked of an
//! arithmetic unit that the caller passes in; each contract then states
//! which operation was applied to which operands, and in which order.

pub mod arithmetic;
pub mod error;
pub mod missing;
pub mod order;
pub mod pattern;
pub mod quantile;
pub mod select;
pub mod shape;
pub mod statistics;
pub mod unit;

pub use crate::arithmetic::{
    array_abs, array_add, array_add_scalar, array_divide, array_divide_scalar, array_exp, array_log,
    array_multiply, array_multiply_scalar, array_sqrt, array_subtract, array_subtract_scalar,
};
pub use crate::error::KernelError;
pub use crate::missing::{array_count_nan, array_dropna, array_fillna, array_unique_count};
pub use crate::order::{array_sort, array_sort_desc, fast_sort};
pub use crate::quantile::{array_median, array_percentile, interpolate, is_percent};
pub use crate::select::{array_filter_gt, array_filter_lt, array_where_gt};
pub use crate::shape::{
    array_concat, array_cumprod, array_cumsum, array_diff, array_repeat, array_slice,
};
pub use crate::statistics::{
    array_max, array_mean, array_min, array_std, array_sum, array_variance, fast_average, fast_sum,
};
pub use crate::unit::FloatOp;
