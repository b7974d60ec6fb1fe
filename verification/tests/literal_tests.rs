use chrono::{DateTime, Utc};
use tstzrange::bound::parse_bound;
use tstzrange::literal::{
    chars_of, clean_and_parse, find_sole, normalize_instant_text, parse_end, parse_start,
};
use tstzrange::{Bound, Instant, RangeError, TstzRange};

fn stamp(seconds: i64, nanos: u32) -> Instant {
    Instant::new(seconds, nanos).unwrap()
}

fn moment(text: &str) -> Instant {
    let dt: DateTime<Utc> = text.parse().unwrap();
    Instant::new(dt.timestamp(), dt.timestamp_subsec_nanos()).unwrap()
}

const JAN_1: i64 = 1_704_067_200;
const JAN_2: i64 = 1_704_153_600;
const JUN_1_NOON: i64 = 1_717_243_200;

#[test]
fn half_open_range_has_exact_literal() {
    let start = moment("2024-01-01T00:00:00Z");
    let end = moment("2024-01-02T00:00:00Z");
    assert_eq!(start, stamp(JAN_1, 0));
    assert_eq!(end, stamp(JAN_2, 0));
    let range = TstzRange::from_datetime_pair(start, end);
    let text = range.to_string();
    assert_eq!(text, "[2024-01-01T00:00:00+00:00,2024-01-02T00:00:00+00:00)");
    let decoded = TstzRange::from_string(&text).unwrap();
    assert_eq!(decoded.start, Bound::Included(start));
    assert_eq!(decoded.end, Bound::Excluded(end));
    assert_eq!(decoded, range);
}

#[test]
fn decodes_unbounded_start_with_inclusive_end() {
    let decoded = TstzRange::from_string("(,2024-06-01T12:00:00+00:00]").unwrap();
    assert_eq!(decoded.start, Bound::Unbounded);
    assert_eq!(decoded.end, Bound::Included(stamp(JUN_1_NOON, 0)));
    assert_eq!(decoded.end, Bound::Included(moment("2024-06-01T12:00:00Z")));
    assert_eq!(decoded.start(), None);
    assert!(decoded.is_end_inclusive());
}

#[test]
fn compact_offset_decodes_like_full_offset() {
    let compact = TstzRange::from_string("[2024-01-01T00:00:00+00,)").unwrap();
    let full = TstzRange::from_string("[2024-01-01T00:00:00+00:00,)").unwrap();
    assert_eq!(compact.start(), full.start());
    assert_eq!(compact, full);
    assert_eq!(compact.start, Bound::Included(stamp(JAN_1, 0)));
    assert_eq!(compact.end, Bound::Unbounded);

    let at_end = TstzRange::from_string("(,2024-01-02T00:00:00+00)").unwrap();
    assert_eq!(at_end.end, Bound::Excluded(stamp(JAN_2, 0)));
    let fraction = TstzRange::from_string("(2024-01-01T00:00:00.25+00,)").unwrap();
    assert_eq!(fraction.start, Bound::Excluded(stamp(JAN_1, 250_000_000)));
}

#[test]
fn quoted_instants_decode_like_bare_ones() {
    let bare = TstzRange::from_string("[2024-01-01T00:00:00+00:00,2024-01-02T00:00:00+00:00)")
        .unwrap();
    let quoted = TstzRange::from_string(
        "[\"2024-01-01T00:00:00+00:00\",\"2024-01-02T00:00:00+00:00\")",
    )
    .unwrap();
    assert_eq!(quoted, bare);
    let both = TstzRange::from_string("[\"2024-01-01 00:00:00+00\",\"2024-01-02 00:00:00+00\")")
        .unwrap();
    assert_eq!(both, bare);
    let leading_only = TstzRange::from_string("[\"2024-01-01T00:00:00+00:00,)").unwrap();
    assert_eq!(leading_only.start, Bound::Included(stamp(JAN_1, 0)));
    let trailing_only = TstzRange::from_string("(,2024-01-02T00:00:00+00:00\"]").unwrap();
    assert_eq!(trailing_only.end, Bound::Included(stamp(JAN_2, 0)));
    assert_eq!(
        TstzRange::from_string("[\"\"2024-01-01T00:00:00+00:00\"\",)"),
        Err(RangeError::MalformedLiteral)
    );
}

#[test]
fn other_offsets_are_normalized_to_utc() {
    let shifted = TstzRange::from_string("[2024-01-01T02:00:00+02:00,2024-01-01T19:00:00-05:00)")
        .unwrap();
    assert_eq!(shifted.start, Bound::Included(stamp(JAN_1, 0)));
    assert_eq!(shifted.end, Bound::Excluded(stamp(JAN_2, 0)));
    assert_eq!(
        shifted.to_string(),
        "[2024-01-01T00:00:00+00:00,2024-01-02T00:00:00+00:00)"
    );
    let zulu = TstzRange::from_string("(2024-01-01T00:00:00Z,2024-01-02T00:00:00Z]").unwrap();
    assert_eq!(zulu.start, Bound::Excluded(stamp(JAN_1, 0)));
    assert_eq!(zulu.end, Bound::Included(stamp(JAN_2, 0)));
}

#[test]
fn unbounded_sides_are_bare_brackets() {
    let open = TstzRange::new(Bound::Unbounded, Bound::Unbounded);
    assert_eq!(open.to_string(), "(,)");
    assert_eq!(TstzRange::from_string("(,)"), Ok(open));

    let from = TstzRange::new(Bound::Excluded(stamp(JAN_1, 0)), Bound::Unbounded);
    assert_eq!(from.to_string(), "(2024-01-01T00:00:00+00:00,)");
    assert_eq!(TstzRange::from_string(&from.to_string()), Ok(from));

    let until = TstzRange::new(Bound::Unbounded, Bound::Included(stamp(JAN_2, 0)));
    assert_eq!(until.to_string(), "(,2024-01-02T00:00:00+00:00]");
    assert_eq!(TstzRange::from_string(&until.to_string()), Ok(until));
}

#[test]
fn every_pair_of_bound_kinds_round_trips() {
    let a = stamp(JAN_1, 123_456_789);
    let b = stamp(JAN_2, 500_000);
    let starts = [Bound::Included(a), Bound::Excluded(a), Bound::Unbounded];
    let ends = [Bound::Included(b), Bound::Excluded(b), Bound::Unbounded];
    for start in starts {
        for end in ends {
            let range = TstzRange::new(start, end);
            assert_eq!(TstzRange::from_string(&range.to_string()), Ok(range));
        }
    }
}

#[test]
fn extreme_instants_round_trip() {
    let probes = [
        stamp(tstzrange::instant::MIN_SECONDS, 0),
        stamp(tstzrange::instant::MAX_SECONDS, 999_999_999),
        stamp(tstzrange::instant::MAX_SECONDS, 1_999_999_999),
        stamp(-62_167_219_200, 0),
        stamp(-62_167_219_201, 999_999_999),
        stamp(253_402_300_799, 999_999_999),
        stamp(253_402_300_800, 0),
        stamp(0, 0),
        stamp(-1, 1),
        stamp(-1, 1_000_000_000),
        stamp(1_483_228_799, 1_500_000_000),
        stamp(JAN_1, 1_000),
        stamp(JAN_1, 1_000_000),
        stamp(JAN_1, 100_000_000),
    ];
    for t in probes {
        let text = t.to_rfc3339();
        assert_eq!(Instant::parse_rfc3339(&text), Ok(t));
        assert!(text.len() >= 25);
        assert!(text.ends_with("+00:00"));
        assert!(text.chars().all(|c| c.is_ascii_digit() || "-:T.+".contains(c)));
        let range = TstzRange::new(Bound::Excluded(t), Bound::Included(t));
        assert_eq!(TstzRange::from_string(&range.to_string()), Ok(range));
    }
}

#[test]
fn instants_render_with_full_offset() {
    assert_eq!(stamp(JAN_1, 0).to_rfc3339(), "2024-01-01T00:00:00+00:00");
    assert_eq!(stamp(JUN_1_NOON, 0).to_rfc3339(), "2024-06-01T12:00:00+00:00");
    assert_eq!(stamp(JAN_1, 250_000_000).to_rfc3339(), "2024-01-01T00:00:00.250+00:00");
    assert_eq!(stamp(JAN_1, 1).to_rfc3339(), "2024-01-01T00:00:00.000000001+00:00");
    assert_eq!(stamp(0, 0).to_rfc3339(), "1970-01-01T00:00:00+00:00");
    assert_eq!(
        stamp(1_483_228_799, 1_000_000_000).to_rfc3339(),
        "2016-12-31T23:59:60+00:00"
    );
    assert_eq!(stamp(253_402_300_800, 0).to_rfc3339(), "+10000-01-01T00:00:00+00:00");
    assert_eq!(stamp(-62_167_219_201, 0).to_rfc3339(), "-0001-12-31T23:59:59+00:00");
}

#[test]
fn instants_parse_from_date_time_text() {
    assert_eq!(Instant::parse_rfc3339("2024-01-01T00:00:00+00:00"), Ok(stamp(JAN_1, 0)));
    assert_eq!(Instant::parse_rfc3339("2024-06-01T12:00:00Z"), Ok(stamp(JUN_1_NOON, 0)));
    assert_eq!(
        Instant::parse_rfc3339("2024-01-01 00:00:00.5+00:00"),
        Ok(stamp(JAN_1, 500_000_000))
    );
    assert_eq!(
        Instant::parse_rfc3339("2024-01-01T00:00:00+00"),
        Err(RangeError::MalformedLiteral)
    );
    assert_eq!(Instant::parse_rfc3339(""), Err(RangeError::MalformedLiteral));
    assert_eq!(Instant::parse_rfc3339("2024-01-01"), Err(RangeError::MalformedLiteral));
    assert_eq!(
        Instant::parse_rfc3339("2024-13-01T00:00:00+00:00"),
        Err(RangeError::MalformedLiteral)
    );
}

#[test]
fn rejects_text_without_exactly_one_comma() {
    let malformed = Err(RangeError::MalformedLiteral);
    assert_eq!(TstzRange::from_string(""), malformed);
    assert_eq!(TstzRange::from_string("()"), malformed);
    assert_eq!(TstzRange::from_string("[2024-01-01T00:00:00+00:00)"), malformed);
    assert_eq!(TstzRange::from_string("(,,)"), malformed);
    assert_eq!(
        TstzRange::from_string("[2024-01-01T00:00:00+00:00,2024-01-02T00:00:00+00:00,)"),
        malformed
    );
    assert_eq!(TstzRange::from_string("(,),"), malformed);
}

#[test]
fn rejects_unknown_bound_characters() {
    let malformed = Err(RangeError::MalformedLiteral);
    assert_eq!(
        TstzRange::from_string("{2024-01-01T00:00:00+00:00,2024-01-02T00:00:00+00:00)"),
        malformed
    );
    assert_eq!(
        TstzRange::from_string("[2024-01-01T00:00:00+00:00,2024-01-02T00:00:00+00:00}"),
        malformed
    );
    assert_eq!(TstzRange::from_string("x2024-01-01T00:00:00+00:00,)"), malformed);
    assert_eq!(TstzRange::from_string("(,2024-01-02T00:00:00+00:00"), malformed);
    assert_eq!(TstzRange::from_string("2024-01-01T00:00:00+00:00,)"), malformed);
    assert_eq!(TstzRange::from_string("\u{e9}2024-01-01T00:00:00+00:00,)"), malformed);
}

#[test]
fn rejects_unreadable_instants_and_empty_parts() {
    let malformed = Err(RangeError::MalformedLiteral);
    assert_eq!(TstzRange::from_string("[yesterday,)"), malformed);
    assert_eq!(TstzRange::from_string("(,tomorrow]"), malformed);
    assert_eq!(TstzRange::from_string("[2024-01-01,2024-01-02)"), malformed);
    assert_eq!(TstzRange::from_string("[,)"), malformed);
    assert_eq!(TstzRange::from_string("(,]"), malformed);
    assert_eq!(TstzRange::from_string(","), malformed);
    assert_eq!(TstzRange::from_string(",)"), malformed);
    assert_eq!(TstzRange::from_string("(,"), malformed);
    assert_eq!(TstzRange::from_string("),("), malformed);
    assert_eq!(
        TstzRange::from_string("[2024-01-01T00:00:00+00:00,2024-01-02T00:00:00+01)"),
        malformed
    );
    assert_eq!(
        TstzRange::from_string("[2024-01-01T00:00:00+00:00 ,2024-01-02T00:00:00+00:00x)"),
        malformed
    );
}

#[test]
fn bracket_shape_decides_inclusion() {
    assert_eq!(parse_bound('[', Some(7)), Ok(Bound::Included(7)));
    assert_eq!(parse_bound(']', Some(7)), Ok(Bound::Included(7)));
    assert_eq!(parse_bound('(', Some(7)), Ok(Bound::Excluded(7)));
    assert_eq!(parse_bound(')', Some(7)), Ok(Bound::Excluded(7)));
    assert_eq!(parse_bound('{', Some(7)), Err(RangeError::MalformedLiteral));
    assert_eq!(parse_bound(',', Some(7)), Err(RangeError::MalformedLiteral));
    assert_eq!(parse_bound('[', None::<i32>), Ok(Bound::Unbounded));
    assert_eq!(parse_bound('x', None::<i32>), Ok(Bound::Unbounded));
}

#[test]
fn tokens_decode_one_side_each() {
    assert_eq!(parse_start("("), Ok(Bound::Unbounded));
    assert_eq!(parse_end(")"), Ok(Bound::Unbounded));
    assert_eq!(parse_start("[2024-01-01T00:00:00+00:00"), Ok(Bound::Included(stamp(JAN_1, 0))));
    assert_eq!(parse_start("(2024-01-01T00:00:00+00:00"), Ok(Bound::Excluded(stamp(JAN_1, 0))));
    assert_eq!(parse_end("2024-01-02T00:00:00+00:00]"), Ok(Bound::Included(stamp(JAN_2, 0))));
    assert_eq!(parse_end("2024-01-02T00:00:00+00:00)"), Ok(Bound::Excluded(stamp(JAN_2, 0))));
    assert_eq!(parse_start(""), Err(RangeError::MalformedLiteral));
    assert_eq!(parse_end(""), Err(RangeError::MalformedLiteral));
    assert_eq!(parse_start("["), Err(RangeError::MalformedLiteral));
    assert_eq!(parse_end("]"), Err(RangeError::MalformedLiteral));
    assert_eq!(parse_start(")"), Err(RangeError::MalformedLiteral));
    assert_eq!(parse_end("("), Err(RangeError::MalformedLiteral));
}

#[test]
fn instant_text_is_normalized_before_parsing() {
    assert_eq!(
        normalize_instant_text("2024-01-01T00:00:00+00:00"),
        "2024-01-01T00:00:00+00:00"
    );
    assert_eq!(
        normalize_instant_text("\"2024-01-01T00:00:00+00:00\""),
        "2024-01-01T00:00:00+00:00"
    );
    assert_eq!(normalize_instant_text("2024-01-01T00:00:00+00"), "2024-01-01T00:00:00+00:00");
    assert_eq!(
        normalize_instant_text("\"2024-01-01 00:00:00+00\""),
        "2024-01-01 00:00:00+00:00"
    );
    assert_eq!(normalize_instant_text("\"abc"), "abc");
    assert_eq!(normalize_instant_text("abc\""), "abc");
    assert_eq!(normalize_instant_text("\"\"abc\"\""), "\"abc\"");
    assert_eq!(normalize_instant_text("\""), "");
    assert_eq!(normalize_instant_text("\"\""), "");
    assert_eq!(normalize_instant_text(""), "");
    assert_eq!(normalize_instant_text("+00"), "+00:00");
    assert_eq!(normalize_instant_text("+00\""), "+00:00");
    assert_eq!(normalize_instant_text("1+1+00"), "1+1+00");
    assert_eq!(normalize_instant_text("12:00-00"), "12:00-00");
    assert_eq!(normalize_instant_text("12:00+01"), "12:00+01");
    assert_eq!(normalize_instant_text("12:00+000"), "12:00+000");
    assert_eq!(normalize_instant_text("\u{e9}t\u{e9}+00"), "\u{e9}t\u{e9}+00:00");
}

#[test]
fn cleaned_text_parses_to_the_same_instant() {
    let expected = Ok(stamp(JAN_1, 0));
    assert_eq!(clean_and_parse("2024-01-01T00:00:00+00:00"), expected);
    assert_eq!(clean_and_parse("\"2024-01-01T00:00:00+00:00\""), expected);
    assert_eq!(clean_and_parse("2024-01-01T00:00:00+00"), expected);
    assert_eq!(clean_and_parse("\"2024-01-01 00:00:00+00\""), expected);
    assert_eq!(clean_and_parse("\"2024-01-01T00:00:00Z"), expected);
    assert_eq!(clean_and_parse("2024-01-01T00:00:00"), Err(RangeError::MalformedLiteral));
    assert_eq!(clean_and_parse("\"\""), Err(RangeError::MalformedLiteral));
}

#[test]
fn sole_occurrences_are_found() {
    let chars = chars_of("a,b+c+d");
    assert_eq!(chars, vec!['a', ',', 'b', '+', 'c', '+', 'd']);
    assert_eq!(find_sole(&chars, 0, 7, ','), Some(1));
    assert_eq!(find_sole(&chars, 0, 7, '+'), None);
    assert_eq!(find_sole(&chars, 0, 5, '+'), Some(3));
    assert_eq!(find_sole(&chars, 4, 7, '+'), Some(5));
    assert_eq!(find_sole(&chars, 2, 7, ','), None);
    assert_eq!(find_sole(&chars, 0, 7, 'x'), None);
    assert_eq!(find_sole(&chars, 3, 3, '+'), None);
    assert_eq!(chars_of(""), Vec::<char>::new());
    assert_eq!(chars_of("\u{e9}\u{4e2d}"), vec!['\u{e9}', '\u{4e2d}']);
}
