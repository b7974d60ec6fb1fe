//! The range as a database scalar: a nullable text value that holds the
//! literal, and the names under which the column type is known.

use crate::error::RangeError;
use crate::literal::{decode_range, encode_range};
use crate::range::TstzRange;
use vstd::prelude::*;

verus! {

/// A scalar as the persistence layer hands it over.
#[derive(Clone, Debug, PartialEq, Eq)]
pub enum Scalar {
    /// A text value, or the null of a text column.
    Text(Option<String>),
    /// A value of any other shape.
    Other,
}

/// The upper-case form of an ASCII letter; any other character as it is.
pub open spec fn ascii_upper(c: char) -> char {
    if 'a' <= c && c <= 'z' {
        ((c as u8) - 32) as char
    } else {
        c
    }
}

/// The name of the range type in the database.
pub open spec fn sql_type_text() -> Seq<char> {
    seq!['t', 's', 't', 'z', 'r', 'a', 'n', 'g', 'e']
}

/// The tag of the custom column type: the type's name in upper case.
pub open spec fn column_type_text() -> Seq<char> {
    sql_type_text().map_values(|c: char| ascii_upper(c))
}

impl TstzRange {
    /// The scalar that stands for an absent range.
    pub fn null() -> (r: Scalar)
        ensures
            r == Scalar::Text(None),
    {
        Scalar::Text(None)
    }

    /// The name of the range type in the database: `tstzrange`.
    pub fn sql_type() -> (r: String)
        ensures
            r@ == sql_type_text(),
    {
        proof {
            reveal_strlit("tstzrange");
        }
        let name = "tstzrange".to_owned();
        assert(name@ =~= sql_type_text());
        name
    }

    /// The tag of the custom column type: `TSTZRANGE`.
    pub fn column_type() -> (r: String)
        ensures
            r@ == column_type_text(),
    {
        proof {
            reveal_strlit("TSTZRANGE");
        }
        let tag = "TSTZRANGE".to_owned();
        assert(tag@ =~= column_type_text());
        tag
    }

    /// The range as a scalar: a text value that holds its literal.
    pub fn to_scalar(&self) -> (r: Scalar)
        ensures
            r matches Scalar::Text(Some(text)) && text@ == encode_range(self@) && decode_range(
                text@,
            ) == Some(self@),
    {
        Scalar::Text(Some(self.to_string()))
    }

    /// A range that may be absent as a scalar: the null of a text column
    /// where there is none.
    pub fn nullable_to_scalar(range: Option<TstzRange>) -> (r: Scalar)
        ensures
            match range {
                Some(present) => r matches Scalar::Text(Some(text)) && text@ == encode_range(
                    present@,
                ) && decode_range(text@) == Some(present@),
                None => r == Scalar::Text(None),
            },
    {
        match range {
            Some(present) => present.to_scalar(),
            None => TstzRange::null(),
        }
    }

    /// The range that a scalar holds. A text value is decoded as a literal;
    /// a null and any other shape are refused.
    pub fn from_scalar(value: &Scalar) -> (r: Result<TstzRange, RangeError>)
        ensures
            match *value {
                Scalar::Text(Some(text)) => match decode_range(text@) {
                    Some(range) => r matches Ok(decoded) && decoded@ == range,
                    None => r == Err::<TstzRange, RangeError>(RangeError::MalformedLiteral),
                },
                _ => r == Err::<TstzRange, RangeError>(RangeError::UnsupportedScalar),
            },
    {
        match value {
            Scalar::Text(Some(text)) => TstzRange::from_string(text.as_str()),
            _ => Err(RangeError::UnsupportedScalar),
        }
    }

    /// The range in a column read as nullable text. A null is an error,
    /// not an empty range.
    pub fn from_nullable_text(value: Option<String>) -> (r: Result<TstzRange, RangeError>)
        ensures
            match value {
                Some(text) => match decode_range(text@) {
                    Some(range) => r matches Ok(decoded) && decoded@ == range,
                    None => r == Err::<TstzRange, RangeError>(RangeError::MalformedLiteral),
                },
                None => r == Err::<TstzRange, RangeError>(RangeError::UnsupportedScalar),
            },
    {
        match value {
            Some(text) => TstzRange::from_string(text.as_str()),
            None => Err(RangeError::UnsupportedScalar),
        }
    }
}

} // verus!
