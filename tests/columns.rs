use load_forecast_chart::adapter::{series_from_columns, series_from_parsed, AdapterError};
use load_forecast_chart::chart::{FORECAST_STAMP_FORMAT, TRUTH_STAMP_FORMAT};

fn texts(v: &[&str]) -> Vec<String> {
    v.iter().map(|s| s.to_string()).collect()
}

#[test]
fn parsed_rows_are_ordered_and_unreadable_ones_dropped() {
    let s = series_from_parsed("x".to_string(), &vec![Some(30), None, Some(10), Some(20)], &vec![3, 9, 1, 2]).unwrap();
    assert_eq!(s.name, "x");
    let got: Vec<(i64, i32)> = s.samples.iter().map(|p| (p.time, p.value)).collect();
    assert_eq!(got, vec![(10, 1), (20, 2), (30, 3)]);
}

#[test]
fn parsed_rows_with_a_repeated_time_fail() {
    let r = series_from_parsed("x".to_string(), &vec![Some(5), Some(7), Some(5)], &vec![1, 2, 3]);
    assert_eq!(r.unwrap_err(), AdapterError::DuplicateTimestamp);
}

#[test]
fn no_rows_give_an_empty_series() {
    let s = series_from_parsed::<i64>("x".to_string(), &vec![], &vec![]).unwrap();
    assert!(s.samples.is_empty());
    let s = series_from_parsed("x".to_string(), &vec![None], &vec![1]).unwrap();
    assert!(s.samples.is_empty());
}

#[test]
fn observed_stamps_are_read_with_seconds() {
    let stamps = texts(&["12/09/2023 09:00:00", "12/09/2023 08:00:00", "not a time"]);
    let s = series_from_columns("Integrated Load".to_string(), &stamps, &vec![200, 100, 7], TRUTH_STAMP_FORMAT)
        .unwrap();
    let got: Vec<(i64, i64)> = s.samples.iter().map(|p| (p.time, p.value)).collect();
    // 2023-12-09T08:00:00Z is 1702108800 seconds after the epoch.
    assert_eq!(got, vec![(1_702_108_800_000, 100), (1_702_112_400_000, 200)]);
}

#[test]
fn forecast_stamps_are_read_without_seconds() {
    let stamps = texts(&["01/01/1970 00:01", "01/01/1970 00:00"]);
    let s = series_from_columns("N.Y.C.".to_string(), &stamps, &vec![2, 1], FORECAST_STAMP_FORMAT).unwrap();
    let got: Vec<(i64, i64)> = s.samples.iter().map(|p| (p.time, p.value)).collect();
    assert_eq!(got, vec![(0, 1), (60_000, 2)]);
}

#[test]
fn stamps_in_the_wrong_pattern_are_dropped() {
    let stamps = texts(&["01/01/1970 00:01", "01/01/1970 00:00:30"]);
    let s = series_from_columns("N.Y.C.".to_string(), &stamps, &vec![2, 1], FORECAST_STAMP_FORMAT).unwrap();
    let got: Vec<(i64, i64)> = s.samples.iter().map(|p| (p.time, p.value)).collect();
    assert_eq!(got, vec![(60_000, 2)]);
}

#[test]
fn repeated_stamp_text_fails() {
    let stamps = texts(&["01/01/1970 00:01", "01/01/1970 00:01"]);
    let r = series_from_columns("N.Y.C.".to_string(), &stamps, &vec![2, 1], FORECAST_STAMP_FORMAT);
    assert_eq!(r.unwrap_err(), AdapterError::DuplicateTimestamp);
}
