//! The ways in which decoding a range can fail.

use vstd::prelude::*;

verus! {

/// Why a value could not be turned into a range.
#[derive(Clone, Copy, Debug, PartialEq, Eq, Structural)]
pub enum RangeError {
    /// The text is not a range literal: it does not split into two parts at
    /// one comma, a bound delimiter is none of `(`, `)`, `[`, `]`, or the text
    /// of an instant does not parse.
    MalformedLiteral,
    /// The scalar is not a text value: it has another shape, or it is null
    /// where a range is required.
    UnsupportedScalar,
}

} // verus!
