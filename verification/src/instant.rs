//! Instants: absolute points in time, counted from the Unix epoch in UTC.

use crate::error::RangeError;
use crate::rfc3339::{
    is_rendered, parse_timestamp, render_timestamp, rfc3339_text, rfc3339_timestamp,
};
use vstd::prelude::*;

verus! {

/// Seconds from the epoch to the first second of the earliest calendar day
/// an instant can fall on (1 January of the year -262143).
pub const MIN_SECONDS: i64 = -8_334_601_228_800;

/// Seconds from the epoch to the last second of the latest calendar day an
/// instant can fall on (31 December of the year 262142).
pub const MAX_SECONDS: i64 = 8_210_266_876_799;

/// Nanoseconds in one second.
pub const NANOS_PER_SECOND: u32 = 1_000_000_000;

/// Whether `seconds` and `nanos` denote an instant: the second lies on a
/// representable calendar day, and the nanosecond part is below one second,
/// or below two seconds in the last second of a minute, where it stands for
/// a leap second.
pub open spec fn valid_timestamp(seconds: int, nanos: int) -> bool {
    &&& MIN_SECONDS <= seconds <= MAX_SECONDS
    &&& 0 <= nanos < 2 * NANOS_PER_SECOND
    &&& nanos >= NANOS_PER_SECOND ==> seconds % 60 == 59
}

/// Strict order on timestamps: by the second, then by the nanosecond part.
pub open spec fn before(a: (int, int), b: (int, int)) -> bool {
    a.0 < b.0 || (a.0 == b.0 && a.1 < b.1)
}

/// Non-strict order on timestamps.
pub open spec fn at_or_before(a: (int, int), b: (int, int)) -> bool {
    a == b || before(a, b)
}

/// An absolute point in time: whole seconds since 1970-01-01T00:00:00 UTC,
/// and the nanoseconds past that second. Every instant is a valid timestamp;
/// equality and order are exact.
#[derive(Clone, Copy, Debug, PartialEq, Eq, Structural)]
pub struct Instant {
    seconds: i64,
    nanos: u32,
}

impl View for Instant {
    type V = (int, int);

    closed spec fn view(&self) -> (int, int) {
        (self.seconds as int, self.nanos as int)
    }
}

impl Instant {
    #[verifier::type_invariant]
    spec fn valid(self) -> bool {
        valid_timestamp(self.seconds as int, self.nanos as int)
    }

    /// The instant `nanos` nanoseconds past the second `seconds`, where the
    /// two denote one.
    pub fn new(seconds: i64, nanos: u32) -> (r: Option<Instant>)
        ensures
            r is Some <==> valid_timestamp(seconds as int, nanos as int),
            r matches Some(t) ==> t@ == (seconds as int, nanos as int),
    {
        if seconds < MIN_SECONDS || seconds > MAX_SECONDS || nanos >= 2 * NANOS_PER_SECOND {
            return None;
        }
        if nanos >= NANOS_PER_SECOND {
            let offset: i64 = seconds - MIN_SECONDS;
            assert(offset % 60 == seconds as int % 60) by {
                assert(MIN_SECONDS as int == 60 * (-138_910_020_480int));
                vstd::arithmetic::div_mod::lemma_mod_multiples_vanish(
                    138_910_020_480int,
                    seconds as int,
                    60,
                );
            }
            if offset % 60 != 59 {
                return None;
            }
        }
        Some(Instant { seconds, nanos })
    }

    /// Whole seconds since the epoch.
    pub fn seconds(&self) -> (r: i64)
        ensures
            r as int == self@.0,
            valid_timestamp(self@.0, self@.1),
    {
        proof {
            use_type_invariant(self);
        }
        self.seconds
    }

    /// Nanoseconds past the whole second.
    pub fn nanos(&self) -> (r: u32)
        ensures
            r as int == self@.1,
    {
        self.nanos
    }

    /// Reads an instant from date-time text with a UTC offset, such as
    /// `2024-01-01T00:00:00+00:00`.
    pub fn parse_rfc3339(text: &str) -> (r: Result<Instant, RangeError>)
        ensures
            match rfc3339_timestamp(text@) {
                Some(stamp) => r matches Ok(t) && t@ == stamp,
                None => r == Err::<Instant, RangeError>(RangeError::MalformedLiteral),
            },
    {
        match parse_timestamp(text) {
            Ok(stamp) => Ok(Instant { seconds: stamp.0, nanos: stamp.1 }),
            Err(_) => Err(RangeError::MalformedLiteral),
        }
    }

    /// Writes the instant as date-time text with the offset `+00:00`.
    pub fn to_rfc3339(&self) -> (s: String)
        ensures
            s@ == rfc3339_text(self@.0, self@.1),
            is_rendered(s@),
            rfc3339_timestamp(s@) == Some(self@),
    {
        proof {
            use_type_invariant(self);
        }
        render_timestamp(self.seconds, self.nanos)
    }

    /// Whether this instant comes strictly before `other`.
    pub fn is_before(&self, other: &Instant) -> (r: bool)
        ensures
            r == before(self@, other@),
    {
        self.seconds < other.seconds || (self.seconds == other.seconds && self.nanos
            < other.nanos)
    }

    /// Whether this instant is `other` or comes before it.
    pub fn is_at_or_before(&self, other: &Instant) -> (r: bool)
        ensures
            r == at_or_before(self@, other@),
    {
        self.seconds < other.seconds || (self.seconds == other.seconds && self.nanos
            <= other.nanos)
    }

}

/// The order of timestamps is total and exact: of two timestamps, one comes
/// before the other or they are the same, and never two of these at once.
pub proof fn lemma_order_is_total(a: (int, int), b: (int, int))
    ensures
        before(a, b) || a == b || before(b, a),
        !(before(a, b) && before(b, a)),
        !(before(a, b) && a == b),
        at_or_before(a, b) <==> !before(b, a),
{
}

/// The order of timestamps is transitive.
pub proof fn lemma_order_is_transitive(a: (int, int), b: (int, int), c: (int, int))
    requires
        before(a, b),
        before(b, c),
    ensures
        before(a, c),
{
}

/// Instants with the same timestamp are the same instant.
pub proof fn lemma_view_injective(a: Instant, b: Instant)
    requires
        a@ == b@,
    ensures
        a == b,
{
}

} // verus!
