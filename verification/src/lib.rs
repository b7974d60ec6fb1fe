//! Timestamp ranges: a pair of bounds over UTC instants, the bracketed text
//! literal that encodes such a range, and the predicates a query layer can
//! build over range-typed columns.

pub mod bound;
pub mod error;
pub mod instant;
pub mod literal;
pub mod predicate;
pub mod range;
pub mod rfc3339;
pub mod scalar;

pub use crate::bound::Bound;
pub use crate::error::RangeError;
pub use crate::instant::Instant;
pub use crate::predicate::{RangeOperator, RangeOps, RangePredicate};
pub use crate::range::TstzRange;
pub use crate::scalar::Scalar;
