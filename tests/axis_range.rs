use load_forecast_chart::axis::{range, AxisRange, RangeError, DEFAULT_ROUNDING_UNIT};

#[test]
fn range_rounds_outward() {
    let r = range(&vec![Some(150), Some(320), Some(480)], DEFAULT_ROUNDING_UNIT).unwrap();
    assert_eq!(r, AxisRange { min: 100, max: 500 });
}

#[test]
fn range_of_equal_round_values_is_degenerate() {
    let r = range(&vec![Some(500), Some(500)], 100).unwrap();
    assert_eq!(r, AxisRange { min: 500, max: 500 });
}

#[test]
fn range_skips_absent_values() {
    let r = range(&vec![None, Some(480), None, Some(150), None], 100).unwrap();
    assert_eq!(r, AxisRange { min: 100, max: 500 });
}

#[test]
fn range_of_negative_values_rounds_away_from_data() {
    let r = range(&vec![Some(-150), Some(20)], 100).unwrap();
    assert_eq!(r, AxisRange { min: -200, max: 100 });
    let r = range(&vec![Some(-101), Some(-99)], 100).unwrap();
    assert_eq!(r, AxisRange { min: -200, max: 0 });
}

#[test]
fn range_with_other_unit() {
    let r = range(&vec![Some(7), Some(23)], 5).unwrap();
    assert_eq!(r, AxisRange { min: 5, max: 25 });
    let r = range(&vec![Some(7)], 1).unwrap();
    assert_eq!(r, AxisRange { min: 7, max: 7 });
}

#[test]
fn range_of_nothing_fails() {
    assert_eq!(range(&vec![], 100).unwrap_err(), RangeError::EmptyValues);
    assert_eq!(range(&vec![None, None], 100).unwrap_err(), RangeError::EmptyValues);
}

#[test]
fn range_near_the_limits() {
    let r = range(&vec![Some(i64::MIN + 100), Some(i64::MAX - 100)], 100).unwrap();
    assert!(r.min <= i64::MIN + 100);
    assert!(r.max >= i64::MAX - 100);
    assert_eq!(r.min % 100, 0);
    assert_eq!(r.max % 100, 0);
}
