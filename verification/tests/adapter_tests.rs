use tstzrange::{
    Bound, Instant, RangeError, RangeOperator, RangeOps, RangePredicate, Scalar, TstzRange,
};

fn point(seconds: i64) -> Instant {
    Instant::new(seconds, 0).unwrap()
}

#[test]
fn range_converts_to_text_scalar() {
    let range = TstzRange::from_datetime_pair(point(1_704_067_200), point(1_704_153_600));
    assert_eq!(
        range.to_scalar(),
        Scalar::Text(Some(
            "[2024-01-01T00:00:00+00:00,2024-01-02T00:00:00+00:00)".to_string()
        ))
    );
    assert_eq!(TstzRange::from_scalar(&range.to_scalar()), Ok(range));
}

#[test]
fn absent_range_is_null_text() {
    assert_eq!(TstzRange::null(), Scalar::Text(None));
}

#[test]
fn scalar_conversion_refuses_other_shapes() {
    assert_eq!(
        TstzRange::from_scalar(&Scalar::Text(None)),
        Err(RangeError::UnsupportedScalar)
    );
    assert_eq!(TstzRange::from_scalar(&Scalar::Other), Err(RangeError::UnsupportedScalar));
    assert_eq!(
        TstzRange::from_scalar(&Scalar::Text(Some("nonsense".to_string()))),
        Err(RangeError::MalformedLiteral)
    );
    assert_eq!(
        TstzRange::from_scalar(&Scalar::Text(Some("(,)".to_string()))),
        Ok(TstzRange::new(Bound::Unbounded, Bound::Unbounded))
    );
}

#[test]
fn row_text_decodes_or_fails() {
    assert_eq!(
        TstzRange::from_nullable_text(Some("(,2024-01-02T00:00:00+00]".to_string())),
        Ok(TstzRange::new(Bound::Unbounded, Bound::Included(point(1_704_153_600))))
    );
    assert_eq!(TstzRange::from_nullable_text(None), Err(RangeError::UnsupportedScalar));
    assert_eq!(
        TstzRange::from_nullable_text(Some(String::new())),
        Err(RangeError::MalformedLiteral)
    );
}

#[test]
fn column_type_is_upper_cased_name() {
    assert_eq!(TstzRange::sql_type(), "tstzrange");
    assert_eq!(TstzRange::column_type(), "TSTZRANGE");
    assert_eq!(TstzRange::column_type(), TstzRange::sql_type().to_uppercase());
}

#[test]
fn operators_have_backend_tokens() {
    assert_eq!(RangeOperator::Contains.token(), "@>");
    assert_eq!(RangeOperator::ContainedBy.token(), "<@");
    assert_eq!(RangeOperator::Overlaps.token(), "&&");
}

#[test]
fn predicates_keep_operands_in_order() {
    let column = String::from("during");
    assert_eq!(
        column.contains(7u8),
        RangePredicate { left: String::from("during"), operator: RangeOperator::Contains, right: 7u8 }
    );
    assert_eq!(
        RangeOps::contained_by(&column, "other"),
        RangePredicate {
            left: String::from("during"),
            operator: RangeOperator::ContainedBy,
            right: "other"
        }
    );
    assert_eq!(
        RangeOps::overlaps(&1u8, 2u8),
        RangePredicate { left: 1u8, operator: RangeOperator::Overlaps, right: 2u8 }
    );
    assert_eq!(column, "during");
}

#[test]
fn optional_range_converts_to_nullable_scalar() {
    assert_eq!(TstzRange::nullable_to_scalar(None), Scalar::Text(None));
    let range = TstzRange::new(Bound::Unbounded, Bound::Excluded(point(0)));
    assert_eq!(
        TstzRange::nullable_to_scalar(Some(range)),
        Scalar::Text(Some("(,1970-01-01T00:00:00+00:00)".to_string()))
    );
}
