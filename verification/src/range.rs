//! The range value: two bounds over instants.

use crate::bound::Bound;
use crate::instant::{at_or_before, before, lemma_view_injective, Instant};
use vstd::prelude::*;

verus! {

/// A range of instants: a start bound and an end bound, each of them
/// unbounded, included or excluded. The order of the two is not checked: a
/// range whose start lies after its end holds no instant.
#[derive(Clone, Copy, Debug, PartialEq, Eq, Structural)]
pub struct TstzRange {
    pub start: Bound<Instant>,
    pub end: Bound<Instant>,
}

impl View for TstzRange {
    type V = (Bound<(int, int)>, Bound<(int, int)>);

    open spec fn view(&self) -> (Bound<(int, int)>, Bound<(int, int)>) {
        (self.start@, self.end@)
    }
}

/// Whether the start bound admits the timestamp `t`.
pub open spec fn admits_from(start: Bound<(int, int)>, t: (int, int)) -> bool {
    match start {
        Bound::Included(s) => at_or_before(s, t),
        Bound::Excluded(s) => before(s, t),
        Bound::Unbounded => true,
    }
}

/// Whether the end bound admits the timestamp `t`.
pub open spec fn admits_until(end: Bound<(int, int)>, t: (int, int)) -> bool {
    match end {
        Bound::Included(e) => at_or_before(t, e),
        Bound::Excluded(e) => before(t, e),
        Bound::Unbounded => true,
    }
}

/// Membership: a timestamp belongs to a range when both bounds admit it.
pub open spec fn range_contains(range: (Bound<(int, int)>, Bound<(int, int)>), t: (int, int)) -> bool {
    admits_from(range.0, t) && admits_until(range.1, t)
}

impl TstzRange {
    /// The range between two bounds.
    pub fn new(start: Bound<Instant>, end: Bound<Instant>) -> (r: TstzRange)
        ensures
            r.start == start,
            r.end == end,
    {
        TstzRange { start, end }
    }

    /// The half-open range `[start, end)`.
    pub fn from_datetime_pair(start: Instant, end: Instant) -> (r: TstzRange)
        ensures
            r.start == Bound::Included(start),
            r.end == Bound::Excluded(end),
    {
        TstzRange::new(Bound::Included(start), Bound::Excluded(end))
    }

    /// Whether the instant belongs to the range.
    pub fn contains_timestamp(&self, timestamp: &Instant) -> (r: bool)
        ensures
            r == range_contains(self@, timestamp@),
    {
        match (&self.start, &self.end) {
            (Bound::Included(start), Bound::Included(end)) => start.is_at_or_before(timestamp)
                && timestamp.is_at_or_before(end),
            (Bound::Included(start), Bound::Excluded(end)) => start.is_at_or_before(timestamp)
                && timestamp.is_before(end),
            (Bound::Excluded(start), Bound::Included(end)) => start.is_before(timestamp)
                && timestamp.is_at_or_before(end),
            (Bound::Excluded(start), Bound::Excluded(end)) => start.is_before(timestamp)
                && timestamp.is_before(end),
            (Bound::Included(start), Bound::Unbounded) => start.is_at_or_before(timestamp),
            (Bound::Excluded(start), Bound::Unbounded) => start.is_before(timestamp),
            (Bound::Unbounded, Bound::Included(end)) => timestamp.is_at_or_before(end),
            (Bound::Unbounded, Bound::Excluded(end)) => timestamp.is_before(end),
            (Bound::Unbounded, Bound::Unbounded) => true,
        }
    }

    /// The instant the range starts at, if that side is bounded.
    pub fn start(&self) -> (r: Option<Instant>)
        ensures
            r == self.start.spec_value(),
    {
        match &self.start {
            Bound::Included(t) | Bound::Excluded(t) => Some(*t),
            Bound::Unbounded => None,
        }
    }

    /// The instant the range ends at, if that side is bounded.
    pub fn end(&self) -> (r: Option<Instant>)
        ensures
            r == self.end.spec_value(),
    {
        match &self.end {
            Bound::Included(t) | Bound::Excluded(t) => Some(*t),
            Bound::Unbounded => None,
        }
    }

    /// Whether the start instant belongs to the range.
    pub fn is_start_inclusive(&self) -> (r: bool)
        ensures
            r == self.start.spec_is_included(),
    {
        matches!(&self.start, Bound::Included(_))
    }

    /// Whether the end instant belongs to the range.
    pub fn is_end_inclusive(&self) -> (r: bool)
        ensures
            r == self.end.spec_is_included(),
    {
        matches!(&self.end, Bound::Included(_))
    }
}

/// Ranges with the same bounds over the same timestamps are the same range.
pub proof fn lemma_range_view_injective(a: TstzRange, b: TstzRange)
    requires
        a@ == b@,
    ensures
        a == b,
{
    match (a.start, b.start) {
        (Bound::Included(x), Bound::Included(y)) | (Bound::Excluded(x), Bound::Excluded(y)) => {
            lemma_view_injective(x, y);
        },
        _ => {},
    }
    match (a.end, b.end) {
        (Bound::Included(x), Bound::Included(y)) | (Bound::Excluded(x), Bound::Excluded(y)) => {
            lemma_view_injective(x, y);
        },
        _ => {},
    }
}

/// The half-open range `[a, b)` as a pair of bounds.
pub open spec fn half_open(a: (int, int), b: (int, int)) -> (Bound<(int, int)>, Bound<(int, int)>) {
    (Bound::Included(a), Bound::Excluded(b))
}

/// The edges of a half-open range: `[a, b)` with `a` before `b` holds `a`,
/// does not hold `b`, and holds every instant strictly between the two.
pub proof fn lemma_half_open_edges(a: (int, int), b: (int, int))
    requires
        before(a, b),
    ensures
        range_contains(half_open(a, b), a),
        !range_contains(half_open(a, b), b),
        forall|t: (int, int)| before(a, t) && before(t, b) ==> range_contains(half_open(a, b), t),
{
}

/// A half-open range holds exactly the instants from its start on that come
/// before its end.
pub proof fn lemma_half_open_members(a: (int, int), b: (int, int), t: (int, int))
    ensures
        range_contains(half_open(a, b), t) <==> at_or_before(a, t) && before(t, b),
{
}

/// A range without bounds holds every instant.
pub proof fn lemma_unbounded_holds_all(t: (int, int))
    ensures
        range_contains((Bound::Unbounded, Bound::Unbounded), t),
{
}

/// A range whose start lies after its end holds no instant, whatever the
/// kinds of its bounds.
pub proof fn lemma_inverted_is_empty(
    range: (Bound<(int, int)>, Bound<(int, int)>),
    t: (int, int),
)
    requires
        range.0.spec_value() matches Some(start) && range.1.spec_value() matches Some(end)
            && before(end, start),
    ensures
        !range_contains(range, t),
{
}

} // verus!
