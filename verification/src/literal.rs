//! The range literal: two bound tokens around one comma.
//!
//! A start token is `(` for an unbounded start, or `[` or `(` followed by
//! the text of an instant. An end token is `)` for an unbounded end, or the
//! text of an instant followed by `]` or `)`. On input, the text of an instant
//! may stand in double quotes and may give the UTC offset as a bare `+00`.

use crate::bound::{bound_of, is_delimiter, parse_bound, Bound};
use crate::error::RangeError;
use crate::instant::Instant;
use crate::range::TstzRange;
use crate::rfc3339::{is_rendered, is_rfc3339_char, rfc3339_text, rfc3339_timestamp};
use vstd::prelude::*;

verus! {

/// `k` is the one place in `s` that holds `c`.
pub open spec fn sole_occurrence(s: Seq<char>, c: char, k: int) -> bool {
    &&& 0 <= k < s.len()
    &&& s[k] == c
    &&& forall|j: int| 0 <= j < s.len() && j != k ==> #[trigger] s[j] != c
}

/// `c` stands in `s` exactly once.
pub open spec fn occurs_once(s: Seq<char>, c: char) -> bool {
    exists|k: int| sole_occurrence(s, c, k)
}

/// The two parts of a literal: what stands before its one comma and what
/// stands after it. Text with no comma, or with more than one, has no parts.
pub open spec fn split_at_comma(s: Seq<char>) -> Option<(Seq<char>, Seq<char>)> {
    if occurs_once(s, ',') {
        let k = choose|k: int| sole_occurrence(s, ',', k);
        Some((s.subrange(0, k), s.subrange(k + 1, s.len() as int)))
    } else {
        None
    }
}

/// `t` without one leading double quote.
pub open spec fn strip_leading_quote(t: Seq<char>) -> Seq<char> {
    if t.len() > 0 && t[0] == '"' {
        t.subrange(1, t.len() as int)
    } else {
        t
    }
}

/// `t` without one trailing double quote.
pub open spec fn strip_trailing_quote(t: Seq<char>) -> Seq<char> {
    if t.len() > 0 && t.last() == '"' {
        t.subrange(0, t.len() - 1)
    } else {
        t
    }
}

/// `t` without one leading and one trailing double quote, each taken off
/// where it is there.
pub open spec fn strip_quotes(t: Seq<char>) -> Seq<char> {
    strip_trailing_quote(strip_leading_quote(t))
}

/// The compact offset: the text's only `+` begins a final `+00`.
pub open spec fn has_compact_offset(t: Seq<char>) -> bool {
    &&& occurs_once(t, '+')
    &&& t.len() >= 3
    &&& t.subrange(t.len() - 3, t.len() as int) == seq!['+', '0', '0']
}

/// `t` with a compact offset written out as `+00:00`.
pub open spec fn expand_offset(t: Seq<char>) -> Seq<char> {
    if has_compact_offset(t) {
        t + seq![':', '0', '0']
    } else {
        t
    }
}

/// The text handed to the date-time parser for the instant substring `t`.
pub open spec fn instant_text(t: Seq<char>) -> Seq<char> {
    expand_offset(strip_quotes(t))
}

/// The timestamp that the instant substring `t` stands for.
pub open spec fn decode_instant(t: Seq<char>) -> Option<(int, int)> {
    rfc3339_timestamp(instant_text(t))
}

/// The bound that a start token stands for.
pub open spec fn decode_start(part: Seq<char>) -> Option<Bound<(int, int)>> {
    if part == seq!['('] {
        Some(Bound::Unbounded)
    } else if part.len() == 0 {
        None
    } else {
        match decode_instant(part.subrange(1, part.len() as int)) {
            Some(t) => bound_of(part[0], Some(t)),
            None => None,
        }
    }
}

/// The bound that an end token stands for.
pub open spec fn decode_end(part: Seq<char>) -> Option<Bound<(int, int)>> {
    if part == seq![')'] {
        Some(Bound::Unbounded)
    } else if part.len() == 0 {
        None
    } else {
        match decode_instant(part.subrange(0, part.len() - 1)) {
            Some(t) => bound_of(part.last(), Some(t)),
            None => None,
        }
    }
}

/// The range that a literal stands for, or `None` where the text is no
/// literal.
pub open spec fn decode_range(s: Seq<char>) -> Option<(Bound<(int, int)>, Bound<(int, int)>)> {
    match split_at_comma(s) {
        Some((first, second)) => match (decode_start(first), decode_end(second)) {
            (Some(start), Some(end)) => Some((start, end)),
            _ => None,
        },
        None => None,
    }
}

/// The start token of a bound.
pub open spec fn encode_start(bound: Bound<(int, int)>) -> Seq<char> {
    match bound {
        Bound::Included(t) => seq!['['] + rfc3339_text(t.0, t.1),
        Bound::Excluded(t) => seq!['('] + rfc3339_text(t.0, t.1),
        Bound::Unbounded => seq!['('],
    }
}

/// The end token of a bound.
pub open spec fn encode_end(bound: Bound<(int, int)>) -> Seq<char> {
    match bound {
        Bound::Included(t) => rfc3339_text(t.0, t.1) + seq![']'],
        Bound::Excluded(t) => rfc3339_text(t.0, t.1) + seq![')'],
        Bound::Unbounded => seq![')'],
    }
}

/// The literal of a range.
pub open spec fn encode_range(range: (Bound<(int, int)>, Bound<(int, int)>)) -> Seq<char> {
    encode_start(range.0) + seq![','] + encode_end(range.1)
}

/// The characters of a string, in order.
pub fn chars_of(s: &str) -> (r: Vec<char>)
    ensures
        r@ == s@,
{
    let mut out: Vec<char> = Vec::new();
    for c in it: s.chars()
        invariant
            it.seq() == s@,
            out@ == it.seq().take(it.index() as int),
    {
        out.push(c);
    }
    out
}

/// Two places that hold `c` rule out that it occurs once.
proof fn lemma_twice_is_not_once(s: Seq<char>, c: char, p: int, q: int)
    requires
        0 <= p < q < s.len(),
        s[p] == c,
        s[q] == c,
    ensures
        !occurs_once(s, c),
{
    assert forall|k: int| !sole_occurrence(s, c, k) by {
        if sole_occurrence(s, c, k) {
            if k == p {
                assert(s[q] != c);
            } else {
                assert(s[p] != c);
            }
        }
    }
}

/// The place of `c` among `chars[lo..hi]`, counted from the start of
/// `chars`, where it stands there exactly once.
pub fn find_sole(chars: &Vec<char>, lo: usize, hi: usize, c: char) -> (r: Option<usize>)
    requires
        lo <= hi <= chars.len(),
    ensures
        match r {
            Some(k) => lo <= k < hi && sole_occurrence(
                chars@.subrange(lo as int, hi as int),
                c,
                k - lo,
            ),
            None => !occurs_once(chars@.subrange(lo as int, hi as int), c),
        },
{
    let ghost part = chars@.subrange(lo as int, hi as int);
    let mut found: Option<usize> = None;
    let mut i: usize = lo;
    while i < hi
        invariant
            lo <= i <= hi <= chars.len(),
            part == chars@.subrange(lo as int, hi as int),
            match found {
                Some(k) => lo <= k < i && chars[k as int] == c && forall|j: int|
                    lo <= j < i && j != k ==> chars[j] != c,
                None => forall|j: int| lo <= j < i ==> chars[j] != c,
            },
        decreases hi - i,
    {
        if chars[i] == c {
            match found {
                Some(k) => {
                    proof {
                        lemma_twice_is_not_once(part, c, k - lo, i - lo);
                    }
                    return None;
                },
                None => {
                    found = Some(i);
                },
            }
        }
        i = i + 1;
    }
    proof {
        match found {
            Some(k) => {
                assert(sole_occurrence(part, c, k - lo));
            },
            None => {
                assert forall|k: int| !sole_occurrence(part, c, k) by {
                    if 0 <= k < part.len() {
                        assert(part[k] == chars[lo + k]);
                    }
                }
            },
        }
    }
    found
}

/// Prepares the text of an instant for the date-time parser: takes off one
/// leading and one trailing double quote, then writes a compact `+00`
/// offset out in full.
pub fn normalize_instant_text(text: &str) -> (r: String)
    ensures
        r@ == instant_text(text@),
{
    let chars = chars_of(text);
    let mut lo: usize = 0;
    let mut hi: usize = chars.len();
    if lo < hi && chars[lo] == '"' {
        lo = 1;
    }
    assert(chars@.subrange(lo as int, hi as int) =~= strip_leading_quote(text@));
    if lo < hi && chars[hi - 1] == '"' {
        hi = hi - 1;
    }
    let ghost stripped = chars@.subrange(lo as int, hi as int);
    assert(stripped =~= strip_quotes(text@));
    let mut out = text.substring_char(lo, hi).to_owned();
    let compact = hi - lo >= 3 && chars[hi - 3] == '+' && chars[hi - 2] == '0' && chars[hi - 1]
        == '0' && find_sole(&chars, lo, hi, '+').is_some();
    proof {
        if stripped.len() >= 3 {
            let tail = stripped.subrange(stripped.len() - 3, stripped.len() as int);
            assert(tail[0] == chars[hi - 3] && tail[1] == chars[hi - 2] && tail[2] == chars[hi
                - 1]);
            if compact {
                assert(tail =~= seq!['+', '0', '0']);
            }
        }
        assert(compact == has_compact_offset(stripped));
    }
    if compact {
        proof {
            reveal_strlit(":00");
        }
        out.append(":00");
        assert(out@ =~= stripped + seq![':', '0', '0']);
    }
    out
}

/// Reads the instant that an instant substring of a literal stands for.
pub fn clean_and_parse(text: &str) -> (r: Result<Instant, RangeError>)
    ensures
        match decode_instant(text@) {
            Some(stamp) => r matches Ok(t) && t@ == stamp,
            None => r == Err::<Instant, RangeError>(RangeError::MalformedLiteral),
        },
{
    let cleaned = normalize_instant_text(text);
    Instant::parse_rfc3339(cleaned.as_str())
}

/// The view of the bound made of a delimiter and an instant.
proof fn lemma_bound_of_view(ch: char, t: Instant)
    ensures
        match bound_of(ch, Some(t)) {
            Some(b) => bound_of(ch, Some(t@)) == Some(b@),
            None => bound_of(ch, Some(t@)) is None,
        },
{
}

/// Reads the bound that a start token stands for.
pub fn parse_start(part: &str) -> (r: Result<Bound<Instant>, RangeError>)
    ensures
        match decode_start(part@) {
            Some(bound) => r matches Ok(b) && b@ == bound,
            None => r == Err::<Bound<Instant>, RangeError>(RangeError::MalformedLiteral),
        },
{
    let len = part.unicode_len();
    if len == 0 {
        assert(part@ != seq!['(']);
        return Err(RangeError::MalformedLiteral);
    }
    let first = part.get_char(0);
    if len == 1 && first == '(' {
        assert(part@ =~= seq!['(']);
        return Ok(Bound::Unbounded);
    }
    assert(part@ != seq!['(']) by {
        if part@ == seq!['('] {
            assert(seq!['('].len() == 1 && seq!['('][0] == '(');
        }
    }
    match clean_and_parse(part.substring_char(1, len)) {
        Ok(t) => {
            proof {
                lemma_bound_of_view(first, t);
            }
            parse_bound(first, Some(t))
        },
        Err(e) => Err(e),
    }
}

/// Reads the bound that an end token stands for.
pub fn parse_end(part: &str) -> (r: Result<Bound<Instant>, RangeError>)
    ensures
        match decode_end(part@) {
            Some(bound) => r matches Ok(b) && b@ == bound,
            None => r == Err::<Bound<Instant>, RangeError>(RangeError::MalformedLiteral),
        },
{
    let len = part.unicode_len();
    if len == 0 {
        assert(part@ != seq![')']);
        return Err(RangeError::MalformedLiteral);
    }
    let last = part.get_char(len - 1);
    if len == 1 && last == ')' {
        assert(part@ =~= seq![')']);
        return Ok(Bound::Unbounded);
    }
    assert(part@ != seq![')']) by {
        if part@ == seq![')'] {
            assert(seq![')'].len() == 1 && seq![')'][0] == ')');
        }
    }
    match clean_and_parse(part.substring_char(0, len - 1)) {
        Ok(t) => {
            proof {
                lemma_bound_of_view(last, t);
            }
            parse_bound(last, Some(t))
        },
        Err(e) => Err(e),
    }
}

impl TstzRange {
    /// Decodes a range literal. Text that is no literal gives
    /// `MalformedLiteral`; no part of a range is ever returned for it.
    pub fn from_string(s: &str) -> (r: Result<TstzRange, RangeError>)
        ensures
            match decode_range(s@) {
                Some(range) => r matches Ok(decoded) && decoded@ == range,
                None => r == Err::<TstzRange, RangeError>(RangeError::MalformedLiteral),
            },
    {
        let chars = chars_of(s);
        let len = chars.len();
        assert(chars@.subrange(0, len as int) =~= s@);
        let comma = match find_sole(&chars, 0, len, ',') {
            Some(k) => k,
            None => {
                return Err(RangeError::MalformedLiteral);
            },
        };
        assert(split_at_comma(s@) == Some(
            (s@.subrange(0, comma as int), s@.subrange(comma + 1, len as int)),
        ));
        let start = match parse_start(s.substring_char(0, comma)) {
            Ok(b) => b,
            Err(e) => {
                return Err(e);
            },
        };
        let end = match parse_end(s.substring_char(comma + 1, len)) {
            Ok(b) => b,
            Err(e) => {
                return Err(e);
            },
        };
        Ok(TstzRange::new(start, end))
    }
}

/// The text written for the timestamp `t` has the rendered shape and reads
/// back as `t`.
pub open spec fn renders_faithfully(t: (int, int)) -> bool {
    &&& is_rendered(rfc3339_text(t.0, t.1))
    &&& rfc3339_timestamp(rfc3339_text(t.0, t.1)) == Some(t)
}

/// The instant of the bound, if it has one, renders faithfully.
pub open spec fn bound_renders_faithfully(bound: Bound<(int, int)>) -> bool {
    match bound {
        Bound::Included(t) | Bound::Excluded(t) => renders_faithfully(t),
        Bound::Unbounded => true,
    }
}

/// Rendered date-time text passes the defensive steps of decoding
/// unchanged, and holds no comma.
pub proof fn lemma_rendered_is_plain(t: Seq<char>)
    requires
        is_rendered(t),
    ensures
        instant_text(t) == t,
        forall|i: int| 0 <= i < t.len() ==> t[i] != ',',
{
    assert(is_rfc3339_char(t[0]));
    assert(is_rfc3339_char(t.last()));
    assert(strip_quotes(t) == t);
    let offset = t.subrange(t.len() - 6, t.len() as int);
    assert(offset[3] == ':');
    assert(t[t.len() - 3] == ':');
    if has_compact_offset(t) {
        let tail = t.subrange(t.len() - 3, t.len() as int);
        assert(tail[0] == '+');
    }
    assert forall|i: int| 0 <= i < t.len() implies t[i] != ',' by {
        assert(is_rfc3339_char(t[i]));
    }
}

/// Two texts without a comma, joined by one, split back into the two.
pub proof fn lemma_split_joined(first: Seq<char>, second: Seq<char>)
    requires
        forall|i: int| 0 <= i < first.len() ==> first[i] != ',',
        forall|i: int| 0 <= i < second.len() ==> second[i] != ',',
    ensures
        split_at_comma(first + seq![','] + second) == Some((first, second)),
{
    let s = first + seq![','] + second;
    let at = first.len() as int;
    assert(s[at] == ',');
    assert forall|j: int| 0 <= j < s.len() && j != at implies #[trigger] s[j] != ',' by {
        if j < at {
            assert(s[j] == first[j]);
        } else {
            assert(s[j] == second[j - at - 1]);
        }
    }
    assert(sole_occurrence(s, ',', at));
    let k = choose|k: int| sole_occurrence(s, ',', k);
    assert(k == at);
    assert(s.subrange(0, at) =~= first);
    assert(s.subrange(at + 1, s.len() as int) =~= second);
}

/// A start token decodes to the bound it was written for.
pub proof fn lemma_start_round_trip(bound: Bound<(int, int)>)
    requires
        bound_renders_faithfully(bound),
    ensures
        decode_start(encode_start(bound)) == Some(bound),
        forall|i: int| 0 <= i < encode_start(bound).len() ==> encode_start(bound)[i] != ',',
{
    let token = encode_start(bound);
    match bound {
        Bound::Included(t) | Bound::Excluded(t) => {
            let text = rfc3339_text(t.0, t.1);
            lemma_rendered_is_plain(text);
            assert(token.len() == text.len() + 1);
            assert(token != seq!['(']) by {
                if token == seq!['('] {
                    assert(seq!['('].len() == 1);
                }
            }
            assert(token.subrange(1, token.len() as int) =~= text);
            assert forall|i: int| 0 <= i < token.len() implies token[i] != ',' by {
                if i > 0 {
                    assert(token[i] == text[i - 1]);
                }
            }
        },
        Bound::Unbounded => {},
    }
}

/// An end token decodes to the bound it was written for.
pub proof fn lemma_end_round_trip(bound: Bound<(int, int)>)
    requires
        bound_renders_faithfully(bound),
    ensures
        decode_end(encode_end(bound)) == Some(bound),
        forall|i: int| 0 <= i < encode_end(bound).len() ==> encode_end(bound)[i] != ',',
{
    let token = encode_end(bound);
    match bound {
        Bound::Included(t) | Bound::Excluded(t) => {
            let text = rfc3339_text(t.0, t.1);
            lemma_rendered_is_plain(text);
            assert(token.len() == text.len() + 1);
            assert(token != seq![')']) by {
                if token == seq![')'] {
                    assert(seq![')'].len() == 1);
                }
            }
            assert(token.subrange(0, token.len() - 1) =~= text);
            assert forall|i: int| 0 <= i < token.len() implies token[i] != ',' by {
                if i < text.len() {
                    assert(token[i] == text[i]);
                }
            }
        },
        Bound::Unbounded => {},
    }
}

/// Round trip: the literal written for a range decodes to that range,
/// whatever its bounds, as long as the date-time text of each bounded side
/// reads back as the instant it was written for.
pub proof fn lemma_round_trip(range: (Bound<(int, int)>, Bound<(int, int)>))
    requires
        bound_renders_faithfully(range.0),
        bound_renders_faithfully(range.1),
    ensures
        decode_range(encode_range(range)) == Some(range),
{
    lemma_start_round_trip(range.0);
    lemma_end_round_trip(range.1);
    lemma_split_joined(encode_start(range.0), encode_end(range.1));
}

impl TstzRange {
    /// Encodes the range as its literal, each instant with its offset in
    /// full. Decoding the literal gives the range back.
    pub fn to_string(&self) -> (s: String)
        ensures
            s@ == encode_range(self@),
            decode_range(s@) == Some(self@),
    {
        proof {
            reveal_strlit("[");
            reveal_strlit("(");
            reveal_strlit(",");
            reveal_strlit("]");
            reveal_strlit(")");
        }
        let mut out = String::new();
        match &self.start {
            Bound::Included(t) => {
                out.append("[");
                out.append(t.to_rfc3339().as_str());
            },
            Bound::Excluded(t) => {
                out.append("(");
                out.append(t.to_rfc3339().as_str());
            },
            Bound::Unbounded => {
                out.append("(");
            },
        }
        assert(out@ =~= encode_start(self.start@));
        assert(bound_renders_faithfully(self.start@));
        out.append(",");
        match &self.end {
            Bound::Included(t) => {
                out.append(t.to_rfc3339().as_str());
                out.append("]");
            },
            Bound::Excluded(t) => {
                out.append(t.to_rfc3339().as_str());
                out.append(")");
            },
            Bound::Unbounded => {
                out.append(")");
            },
        }
        assert(out@ =~= encode_range(self@));
        assert(bound_renders_faithfully(self.end@));
        proof {
            lemma_round_trip(self@);
        }
        out
    }
}

/// The token of an unbounded side is the bare round bracket.
pub proof fn lemma_unbounded_tokens()
    ensures
        encode_start(Bound::Unbounded) == seq!['('],
        encode_end(Bound::Unbounded) == seq![')'],
        decode_start(seq!['(']) == Some(Bound::<(int, int)>::Unbounded),
        decode_end(seq![')']) == Some(Bound::<(int, int)>::Unbounded),
{
}

/// Double quotes around the text of an instant are taken off: both, or
/// either one alone.
pub proof fn lemma_quotes_are_stripped(t: Seq<char>)
    ensures
        strip_quotes(seq!['"'] + t + seq!['"']) == t,
        t.len() > 0 && t.last() != '"' ==> strip_quotes(seq!['"'] + t) == t,
        t.len() > 0 && t[0] != '"' ==> strip_quotes(t + seq!['"']) == t,
{
    let both = seq!['"'] + t + seq!['"'];
    assert(both[0] == '"');
    assert(strip_leading_quote(both) =~= t + seq!['"']);
    assert((t + seq!['"']).last() == '"');
    assert(strip_trailing_quote(t + seq!['"']) =~= t);
    if t.len() > 0 && t.last() != '"' {
        let leading = seq!['"'] + t;
        assert(leading[0] == '"');
        assert(strip_leading_quote(leading) =~= t);
    }
    if t.len() > 0 && t[0] != '"' {
        let trailing = t + seq!['"'];
        assert(trailing[0] == t[0]);
        assert(strip_leading_quote(trailing) == trailing);
    }
}

/// The text of an instant decodes to the same instant with double quotes
/// around it as without them.
pub proof fn lemma_quoted_decodes_alike(t: Seq<char>)
    requires
        strip_quotes(t) == t,
    ensures
        decode_instant(seq!['"'] + t + seq!['"']) == decode_instant(t),
{
    lemma_quotes_are_stripped(t);
}

/// The text of an instant decodes to the same instant with the compact
/// offset `+00` as with the offset in full, `+00:00`.
pub proof fn lemma_compact_offset_decodes_alike(t: Seq<char>)
    requires
        forall|i: int| 0 <= i < t.len() ==> t[i] != '+',
    ensures
        instant_text(t + seq!['+', '0', '0']) == instant_text(t + seq!['+', '0', '0', ':', '0', '0']),
        decode_instant(t + seq!['+', '0', '0']) == decode_instant(
            t + seq!['+', '0', '0', ':', '0', '0'],
        ),
{
    let compact = t + seq!['+', '0', '0'];
    let full = t + seq!['+', '0', '0', ':', '0', '0'];
    let head = strip_leading_quote(t);
    assert(compact.last() == '0');
    assert(full.last() == '0');
    if t.len() > 0 {
        assert(compact[0] == t[0]);
        assert(full[0] == t[0]);
    } else {
        assert(compact[0] == '+');
        assert(full[0] == '+');
    }
    let short = head + seq!['+', '0', '0'];
    let long = head + seq!['+', '0', '0', ':', '0', '0'];
    assert(strip_leading_quote(compact) =~= short);
    assert(strip_leading_quote(full) =~= long);
    assert(short.last() == '0');
    assert(long.last() == '0');
    assert(strip_quotes(compact) == short);
    assert(strip_quotes(full) == long);
    let at = head.len() as int;
    assert(short[at] == '+');
    assert forall|j: int| 0 <= j < short.len() && j != at implies #[trigger] short[j] != '+' by {
        if j < at {
            if t.len() > 0 && t[0] == '"' {
                assert(short[j] == t[j + 1]);
            } else {
                assert(short[j] == t[j]);
            }
        }
    }
    assert(sole_occurrence(short, '+', at));
    assert(short.subrange(short.len() - 3, short.len() as int) =~= seq!['+', '0', '0']);
    assert(has_compact_offset(short));
    let tail = long.subrange(long.len() - 3, long.len() as int);
    assert(tail[0] == ':');
    assert(!has_compact_offset(long));
    assert(short + seq![':', '0', '0'] =~= long);
}

/// Text that does not hold exactly one comma is no literal.
pub proof fn lemma_rejects_without_single_comma(s: Seq<char>)
    requires
        !occurs_once(s, ','),
    ensures
        decode_range(s) is None,
{
}

/// A literal whose bounded side is marked by a character other than a
/// bracket is refused.
pub proof fn lemma_rejects_unknown_delimiter(first: Seq<char>, second: Seq<char>)
    requires
        forall|i: int| 0 <= i < first.len() ==> first[i] != ',',
        forall|i: int| 0 <= i < second.len() ==> second[i] != ',',
        (first.len() > 0 && !is_delimiter(first[0])) || (second.len() > 0 && !is_delimiter(
            second.last(),
        )),
    ensures
        decode_range(first + seq![','] + second) is None,
{
    lemma_split_joined(first, second);
    if first.len() > 0 && !is_delimiter(first[0]) {
        assert(first != seq!['(']) by {
            if first == seq!['('] {
                assert(seq!['('][0] == '(');
            }
        }
    } else {
        assert(second != seq![')']) by {
            if second == seq![')'] {
                assert(seq![')'].last() == ')');
            }
        }
    }
}

/// A literal with an empty part, or with a bounded side whose instant
/// text the date-time parser rejects, is refused.
pub proof fn lemma_rejects_unreadable_instant(first: Seq<char>, second: Seq<char>)
    requires
        forall|i: int| 0 <= i < first.len() ==> first[i] != ',',
        forall|i: int| 0 <= i < second.len() ==> second[i] != ',',
        ({
            ||| first.len() == 0
            ||| second.len() == 0
            ||| first != seq!['('] && decode_instant(first.subrange(1, first.len() as int)) is None
            ||| second != seq![')'] && decode_instant(second.subrange(0, second.len() - 1))
                is None
        }),
    ensures
        decode_range(first + seq![','] + second) is None,
{
    lemma_split_joined(first, second);
    if first.len() == 0 {
        assert(first != seq!['(']) by {
            if first == seq!['('] {
                assert(seq!['('].len() == 1);
            }
        }
    }
    if second.len() == 0 {
        assert(second != seq![')']) by {
            if second == seq![')'] {
                assert(seq![')'].len() == 1);
            }
        }
    }
}

} // verus!
