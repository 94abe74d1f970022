use gitloc::render::{Options, RenderMode, Rendered};
use gitloc::series::{LocByTime, LocSeries};
use gitloc::window::LocError;

fn series(points: &[(i64, i64)]) -> LocSeries {
    LocSeries(points.iter().map(|&(time, loc)| LocByTime { time, loc }).collect())
}

fn options(format: RenderMode, width: Option<usize>, height: Option<usize>) -> Options {
    Options { format, width, height }
}

#[test]
fn default_mode_is_chart() {
    assert_eq!(RenderMode::default(), RenderMode::Chart);
}

#[test]
fn chart_uses_terminal_width_for_windows() {
    let s = series(&[(0, 5), (25, 9)]);
    let c = s.chart_for_terminal(&options(RenderMode::Chart, None, None), Some((5, 40))).unwrap();
    assert_eq!(c.values, vec![5, 5, 5, 5, 9]);
    assert_eq!(c.width, 0);
    assert_eq!(c.height, 30);
}

#[test]
fn chart_size_from_options() {
    let s = series(&[(0, 5), (25, 9)]);
    let c = s
        .chart_for_terminal(&options(RenderMode::Chart, Some(60), Some(12)), Some((100, 50)))
        .unwrap();
    assert_eq!(c.width, 60);
    assert_eq!(c.height, 12);
    assert_eq!(c.values, vec![7]);
    let c = s.chart_for_terminal(&options(RenderMode::Chart, None, None), Some((100, 50))).unwrap();
    assert_eq!(c.width, 90);
    assert_eq!(c.height, 40);
}

#[test]
fn chart_errors() {
    let s = series(&[(0, 5), (25, 9)]);
    let o = options(RenderMode::Chart, None, None);
    assert_eq!(s.chart_for_terminal(&o, None).unwrap_err(), LocError::TerminalSizeUnavailable);
    assert_eq!(s.chart_for_terminal(&o, Some((0, 20))).unwrap_err(), LocError::InvalidWindowConfig);
    let e = series(&[]);
    assert_eq!(e.chart_for_terminal(&o, Some((80, 24))).unwrap_err(), LocError::EmptySeries);
    assert_eq!(e.chart_for_terminal(&o, None).unwrap_err(), LocError::EmptySeries);
}

#[test]
fn empty_series_chart_is_refused() {
    let o = options(RenderMode::Chart, Some(80), Some(20));
    assert!(matches!(series(&[]).render(&o), Err(LocError::EmptySeries)));
    assert!(matches!(series(&[]).render_chart(&o), Err(LocError::EmptySeries)));
}

#[test]
fn ndjson_hands_out_every_sample() {
    let s = series(&[(3, 1), (2, 4)]);
    match s.render(&options(RenderMode::Ndjson, None, None)) {
        Ok(Rendered::Ndjson(x)) => {
            assert_eq!(x.0, vec![LocByTime { time: 3, loc: 1 }, LocByTime { time: 2, loc: 4 }])
        }
        other => panic!("unexpected {:?}", other),
    }
}
