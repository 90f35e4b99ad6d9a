use load_forecast_chart::align::{align, AlignError};
use load_forecast_chart::series::{Sample, TimeSeries};

const HOUR: i64 = 3_600_000;
const MINUTE: i64 = 60_000;

fn series(name: &str, points: &[(i64, i64)]) -> TimeSeries<i64> {
    TimeSeries {
        name: name.to_string(),
        samples: points.iter().map(|&(time, value)| Sample { time, value }).collect(),
    }
}

#[test]
fn end_to_end_half_hour_offset() {
    let a = series("Integrated Load", &[(8 * HOUR, 100), (9 * HOUR, 200)]);
    let b = series("N.Y.C.", &[(8 * HOUR + 30 * MINUTE, 150), (9 * HOUR, 250)]);
    let r = align(&a, &b).unwrap();
    assert_eq!(r.timeline, vec![8 * HOUR, 8 * HOUR + 30 * MINUTE, 9 * HOUR]);
    assert_eq!(r.first, vec![Some(100), None, Some(200)]);
    assert_eq!(r.second, vec![None, Some(150), Some(250)]);
}

#[test]
fn disjoint_series_keep_every_sample() {
    let a = series("a", &[(1, 10), (4, 40), (9, 90)]);
    let b = series("b", &[(2, 20), (3, 30)]);
    let r = align(&a, &b).unwrap();
    assert_eq!(r.timeline.len(), 5);
    assert_eq!(r.timeline, vec![1, 2, 3, 4, 9]);
    for k in 0..r.timeline.len() {
        assert!(r.first[k].is_some() != r.second[k].is_some());
    }
    assert_eq!(r.first, vec![Some(10), None, None, Some(40), Some(90)]);
    assert_eq!(r.second, vec![None, Some(20), Some(30), None, None]);
}

#[test]
fn shared_timestamps_give_both_values_everywhere() {
    let a = series("a", &[(5, 1), (6, 2), (7, 3)]);
    let b = series("b", &[(5, 4), (6, 5), (7, 6)]);
    let r = align(&a, &b).unwrap();
    assert_eq!(r.timeline, vec![5, 6, 7]);
    assert_eq!(r.first, vec![Some(1), Some(2), Some(3)]);
    assert_eq!(r.second, vec![Some(4), Some(5), Some(6)]);
}

#[test]
fn timeline_strictly_ascends_for_overlapping_series() {
    let a = series("a", &[(-5, 1), (0, 2), (3, 3), (10, 4)]);
    let b = series("b", &[(-7, 5), (0, 6), (10, 7), (11, 8)]);
    let r = align(&a, &b).unwrap();
    assert_eq!(r.timeline, vec![-7, -5, 0, 3, 10, 11]);
    for k in 1..r.timeline.len() {
        assert!(r.timeline[k - 1] < r.timeline[k]);
    }
    assert_eq!(r.first.len(), 6);
    assert_eq!(r.second.len(), 6);
}

#[test]
fn equal_timestamps_collapse_to_one_entry() {
    let a = series("a", &[(100, 1)]);
    let b = series("b", &[(100, 2)]);
    let r = align(&a, &b).unwrap();
    assert_eq!(r.timeline, vec![100]);
    assert_eq!(r.first, vec![Some(1)]);
    assert_eq!(r.second, vec![Some(2)]);
}

#[test]
fn empty_input_is_rejected() {
    let a = series("a", &[]);
    let b = series("b", &[(1, 1)]);
    assert_eq!(align(&a, &b).unwrap_err(), AlignError::EmptyInput);
    assert_eq!(align(&b, &a).unwrap_err(), AlignError::EmptyInput);
    assert_eq!(align(&a, &a).unwrap_err(), AlignError::EmptyInput);
}

#[test]
fn descending_input_is_rejected() {
    let a = series("a", &[(2 * HOUR, 1), (HOUR, 2)]);
    let b = series("b", &[(HOUR, 1)]);
    assert_eq!(align(&a, &b).unwrap_err(), AlignError::UnsortedInput);
    assert_eq!(align(&b, &a).unwrap_err(), AlignError::UnsortedInput);
}

#[test]
fn repeated_timestamp_is_rejected() {
    let a = series("a", &[(1, 1), (1, 2)]);
    let b = series("b", &[(1, 1)]);
    assert_eq!(align(&a, &b).unwrap_err(), AlignError::UnsortedInput);
}

#[test]
fn empty_wins_over_unsorted() {
    let a = series("a", &[(2, 1), (1, 2)]);
    let b = series("b", &[]);
    assert_eq!(align(&a, &b).unwrap_err(), AlignError::EmptyInput);
}
