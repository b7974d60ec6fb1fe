//! One side of a range, and the delimiter characters that mark it in text.

use crate::error::RangeError;
use vstd::prelude::*;

verus! {

/// One side of a range.
#[derive(Clone, Copy, Debug, PartialEq, Eq, Structural)]
pub enum Bound<T> {
    /// The side ends at the value, which belongs to the range.
    Included(T),
    /// The side ends at the value, which does not belong to the range.
    Excluded(T),
    /// The side has no end.
    Unbounded,
}

impl<T: View> View for Bound<T> {
    type V = Bound<T::V>;

    open spec fn view(&self) -> Bound<T::V> {
        match *self {
            Bound::Included(v) => Bound::Included(v@),
            Bound::Excluded(v) => Bound::Excluded(v@),
            Bound::Unbounded => Bound::Unbounded,
        }
    }
}

impl<T> Bound<T> {
    /// The value the side ends at, whether or not it belongs to the range.
    pub open spec fn spec_value(self) -> Option<T> {
        match self {
            Bound::Included(v) | Bound::Excluded(v) => Some(v),
            Bound::Unbounded => None,
        }
    }

    /// Whether the side ends at a value that belongs to the range.
    pub open spec fn spec_is_included(self) -> bool {
        self is Included
    }
}

/// A square bracket: the bound next to it belongs to the range.
pub open spec fn is_inclusive_delimiter(ch: char) -> bool {
    ch == '[' || ch == ']'
}

/// A round bracket: the bound next to it does not belong to the range.
pub open spec fn is_exclusive_delimiter(ch: char) -> bool {
    ch == '(' || ch == ')'
}

/// One of the four brackets that can mark a bound.
pub open spec fn is_delimiter(ch: char) -> bool {
    is_inclusive_delimiter(ch) || is_exclusive_delimiter(ch)
}

/// The bound that a delimiter and the value beside it stand for. Without a
/// value the side is unbounded, whatever the delimiter; with one, the
/// delimiter has to be a bracket.
pub open spec fn bound_of<T>(ch: char, value: Option<T>) -> Option<Bound<T>> {
    match value {
        None => Some(Bound::Unbounded),
        Some(v) => if is_exclusive_delimiter(ch) {
            Some(Bound::Excluded(v))
        } else if is_inclusive_delimiter(ch) {
            Some(Bound::Included(v))
        } else {
            None
        },
    }
}

/// Makes a bound of a delimiter character and the value read beside it.
pub fn parse_bound<T>(ch: char, value: Option<T>) -> (r: Result<Bound<T>, RangeError>)
    ensures
        match bound_of(ch, value) {
            Some(b) => r == Ok::<Bound<T>, RangeError>(b),
            None => r == Err::<Bound<T>, RangeError>(RangeError::MalformedLiteral),
        },
{
    match value {
        None => Ok(Bound::Unbounded),
        Some(v) => {
            if ch == '(' || ch == ')' {
                Ok(Bound::Excluded(v))
            } else if ch == '[' || ch == ']' {
                Ok(Bound::Included(v))
            } else {
                Err(RangeError::MalformedLiteral)
            }
        },
    }
}

/// A value gets a bound exactly where the character beside it is a
/// bracket: round for an excluded bound, square for an included one.
pub proof fn lemma_bound_needs_delimiter<T>(ch: char, value: T)
    ensures
        bound_of(ch, Some(value)) is Some <==> is_delimiter(ch),
        is_exclusive_delimiter(ch) ==> bound_of(ch, Some(value)) == Some(Bound::Excluded(value)),
        is_inclusive_delimiter(ch) ==> bound_of(ch, Some(value)) == Some(Bound::Included(value)),
{
}

} // verus!
