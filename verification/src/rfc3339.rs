//! Date-time text, as `chrono` reads and writes it.
//!
//! Nothing in this module is proved. Each function states what the `chrono`
//! call in its body does, and the rest of the crate is verified against those
//! statements.

use crate::instant::valid_timestamp;
use vstd::prelude::*;

verus! {

/// The error `chrono` reports for text that is no date and time.
#[verifier::external_type_specification]
#[verifier::external_body]
pub struct ExParseError(chrono::format::ParseError);

/// The timestamp that `chrono` reads from `text` as a date and time in the
/// relaxed RFC 3339 form with a UTC offset, or `None` where it rejects the
/// text.
pub uninterp spec fn rfc3339_timestamp(text: Seq<char>) -> Option<(int, int)>;

/// The RFC 3339 text that `chrono` writes for a timestamp in UTC.
pub uninterp spec fn rfc3339_text(seconds: int, nanos: int) -> Seq<char>;

/// The characters of a rendered date and time: digits, the separators of the
/// date and of the time, the decimal point and the sign.
pub open spec fn is_rfc3339_char(c: char) -> bool {
    ('0' <= c && c <= '9') || c == '-' || c == ':' || c == 'T' || c == '.' || c == '+'
}

/// What holds of every rendered date and time in UTC: it is made of
/// date-time characters, is at least as long as `YYYY-MM-DDTHH:MM:SS+00:00`,
/// and ends with the offset in full.
pub open spec fn is_rendered(text: Seq<char>) -> bool {
    &&& text.len() >= 25
    &&& forall|i: int| 0 <= i < text.len() ==> is_rfc3339_char(#[trigger] text[i])
    &&& text.subrange(text.len() - 6, text.len() as int) == seq!['+', '0', '0', ':', '0', '0']
}

/// Parses `text` with `chrono`'s `FromStr` for `DateTime<Utc>`, and gives the
/// result as seconds since the epoch (`DateTime::timestamp`) and nanoseconds
/// past the second (`DateTime::timestamp_subsec_nanos`).
///
/// Trusted: the parse depends on the text alone; and what it accepts is a
/// date and time that `chrono` can represent, so the pair is a valid
/// timestamp.
#[verifier::external_body]
pub(crate) fn parse_timestamp(text: &str) -> (r: Result<(i64, u32), chrono::format::ParseError>)
    ensures
        rfc3339_timestamp(text@) == match r {
            Ok(p) => Some((p.0 as int, p.1 as int)),
            Err(_) => None,
        },
        r matches Ok(p) ==> valid_timestamp(p.0 as int, p.1 as int),
{
    match text.parse::<chrono::DateTime<chrono::Utc>>() {
        Ok(dt) => Ok((dt.timestamp(), dt.timestamp_subsec_nanos())),
        Err(e) => Err(e),
    }
}

/// Renders a timestamp with `chrono`'s `DateTime::to_rfc3339`, on the
/// `DateTime<Utc>` that `DateTime::from_timestamp` makes of it.
///
/// Trusted: the text depends on the timestamp alone; it has the shape
/// `is_rendered` describes (year, month, day, `T`, hour, minute, second, an
/// optional fraction, and `+00:00`; a year outside 0 to 9999 carries a sign);
/// and `chrono` parses it back to the same timestamp.
#[verifier::external_body]
pub(crate) fn render_timestamp(seconds: i64, nanos: u32) -> (s: String)
    requires
        valid_timestamp(seconds as int, nanos as int),
    ensures
        s@ == rfc3339_text(seconds as int, nanos as int),
        is_rendered(s@),
        rfc3339_timestamp(s@) == Some((seconds as int, nanos as int)),
{
    chrono::DateTime::from_timestamp(seconds, nanos).unwrap().to_rfc3339()
}

} // verus!
