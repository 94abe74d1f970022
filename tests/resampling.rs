use gitloc::series::{LocByTime, LocSeries};
use gitloc::window::LocError;

fn series(points: &[(i64, i64)]) -> LocSeries {
    LocSeries(points.iter().map(|&(time, loc)| LocByTime { time, loc }).collect())
}

#[test]
fn even_span_gives_requested_window_count() {
    let s = series(&[(0, 1), (15, 2), (50, 3), (100, 4)]);
    let r = s.resample(10).unwrap();
    assert_eq!(r.len(), 10);
    assert_eq!(r, vec![1, 2, 2, 2, 2, 3, 3, 3, 3, 4]);
}

#[test]
fn empty_windows_carry_forward() {
    let s = series(&[(0, 5), (25, 9)]);
    assert_eq!(s.resample(5).unwrap(), vec![5, 5, 5, 5, 9]);
}

#[test]
fn mean_is_truncated() {
    let s = series(&[(0, 3), (1, 4), (10, 8)]);
    assert_eq!(s.resample(2).unwrap(), vec![3, 8]);
}

#[test]
fn negative_mean_is_truncated_toward_zero() {
    let s = series(&[(0, -3), (1, -4), (10, 0)]);
    assert_eq!(s.resample(2).unwrap(), vec![-3, 0]);
}

#[test]
fn empty_series_is_refused() {
    let s = series(&[]);
    assert_eq!(s.resample(10), Err(LocError::EmptySeries));
    assert_eq!(s.resample(0), Err(LocError::EmptySeries));
    assert_eq!(s.resample_with_duration(5), Err(LocError::EmptySeries));
}

#[test]
fn non_positive_window_config_is_refused() {
    let s = series(&[(0, 1), (10, 2)]);
    assert_eq!(s.resample(0), Err(LocError::InvalidWindowConfig));
    assert_eq!(s.resample(-3), Err(LocError::InvalidWindowConfig));
    assert_eq!(s.resample_with_duration(0), Err(LocError::InvalidWindowConfig));
    assert_eq!(s.resample_with_duration(-1), Err(LocError::InvalidWindowConfig));
}

#[test]
fn single_sample_gives_single_window() {
    let s = series(&[(1_600_000_000, 42)]);
    assert_eq!(s.resample(1).unwrap(), vec![42]);
    assert_eq!(s.resample(80).unwrap(), vec![42]);
    assert_eq!(s.resample_with_duration(7).unwrap(), vec![42]);
}

#[test]
fn span_shorter_than_slice_count_gives_one_window() {
    let s = series(&[(0, 2), (3, 4), (5, 9)]);
    assert_eq!(s.resample(10).unwrap(), vec![5]);
}

#[test]
fn uneven_span_keeps_trailing_partial_window() {
    let s = series(&[(0, 1), (103, 2)]);
    let r = s.resample(10).unwrap();
    assert_eq!(r.len(), 11);
    assert_eq!(r[9], 1);
    assert_eq!(r[10], 2);
}

#[test]
fn last_window_keeps_its_closing_edge() {
    let s = series(&[(0, 10), (20, 20), (40, 30)]);
    assert_eq!(s.resample_with_duration(20).unwrap(), vec![10, 25]);
}

#[test]
fn all_samples_at_one_time() {
    let s = series(&[(9, 1), (9, 2), (9, 4)]);
    assert_eq!(s.resample(3).unwrap(), vec![2]);
}

#[test]
fn extreme_times_and_values() {
    let s = series(&[(i64::MIN, i64::MAX), (i64::MIN, i64::MAX), (i64::MAX, i64::MIN)]);
    assert_eq!(s.resample(1).unwrap(), vec![3074457345618258602]);
    assert_eq!(s.resample(2).unwrap(), vec![i64::MAX, i64::MAX, i64::MIN]);
}

#[test]
fn cursor_hands_out_windows_in_order() {
    let s = series(&[(0, 1), (1, 2), (5, 3), (12, 4)]);
    let mut w = s.window(0, 5);
    assert_eq!(w.next().unwrap().iter().map(|x| x.loc).collect::<Vec<_>>(), vec![1, 2]);
    assert_eq!(w.next().unwrap().iter().map(|x| x.loc).collect::<Vec<_>>(), vec![3]);
    assert_eq!(w.next().unwrap().iter().map(|x| x.loc).collect::<Vec<_>>(), vec![4]);
    assert!(w.next().is_none());
}

#[test]
fn cursor_gives_empty_windows_in_gaps() {
    let s = series(&[(0, 1), (20, 2)]);
    let mut w = s.window(0, 5);
    assert_eq!(w.next().unwrap().len(), 1);
    assert_eq!(w.next().unwrap().len(), 0);
    assert_eq!(w.next().unwrap().len(), 0);
    assert_eq!(w.next().unwrap().len(), 1);
    assert!(w.next().is_none());
}
