use vstd::prelude::*;
use crate::series::{LocSeries, time_ordered};
use crate::window::{LocError, resampled, slice_duration};

verus! {

/// What the series is rendered into.
#[derive(Clone, Copy, Debug, PartialEq, Eq, Structural)]
pub enum RenderMode {
    /// A line chart of the resampled series.
    Chart,
    /// One record per sample.
    Ndjson,
}

impl Default for RenderMode {
    fn default() -> (r: RenderMode)
        ensures
            r == RenderMode::Chart,
    {
        RenderMode::Chart
    }
}

/// How to render a series: the mode, and the chart's size where it is not
/// to come from the terminal.
#[derive(Clone, Copy, Debug, PartialEq, Eq, Structural)]
pub struct Options {
    pub format: RenderMode,
    pub width: Option<usize>,
    pub height: Option<usize>,
}

/// What a chart plots: one value per window, and the size to draw it at.
#[derive(Debug)]
pub struct ChartData {
    pub values: Vec<i64>,
    pub width: usize,
    pub height: usize,
}

/// A rendered series, ready for the plotting or record-writing step.
#[derive(Debug)]
pub enum Rendered {
    Chart(ChartData),
    Ndjson(LocSeries),
}

/// Margin left between the chart and the terminal's edges.
pub const CHART_MARGIN: usize = 10;

/// A terminal size less the chart margin, or zero where it is smaller.
pub open spec fn less_margin(n: usize) -> usize {
    if n >= CHART_MARGIN {
        (n - CHART_MARGIN) as usize
    } else {
        0
    }
}

/// Relies on term_size::dimensions: the terminal's width and height in
/// characters, or `None` where there is no terminal. Nothing is promised of
/// the values, which depend on the terminal.
#[verifier::external_body]
fn terminal_dimensions() -> (r: Option<(usize, usize)>) {
    term_size::dimensions()
}

impl LocSeries {
    /// Renders the series as the options ask: a chart, or the samples as
    /// records.
    pub fn render(self, options: &Options) -> (r: Result<Rendered, LocError>)
        requires
            options.format == RenderMode::Chart ==> time_ordered(self@),
        ensures
            options.format == RenderMode::Ndjson ==> (r matches Ok(Rendered::Ndjson(x)) && x@
                == self@),
            options.format == RenderMode::Chart && self@.len() == 0 ==> r == Err::<
                Rendered,
                LocError,
            >(LocError::EmptySeries),
            options.format == RenderMode::Chart && self@.len() > 0 ==> match r {
                Ok(Rendered::Chart(c)) => exists|w: usize, h: usize|
                    w > 0 && #[trigger] chart_matches(&self, options, (w, h), &c),
                Err(e) => e == LocError::TerminalSizeUnavailable || e == LocError::InvalidWindowConfig,
                _ => false,
            },
    {
        match options.format {
            RenderMode::Chart => self.render_chart(options),
            RenderMode::Ndjson => Ok(self.render_ndjson(options)),
        }
    }

    /// Renders a chart sized from the terminal. Fails on an empty series
    /// before asking the terminal anything.
    pub fn render_chart(self, options: &Options) -> (r: Result<Rendered, LocError>)
        requires
            time_ordered(self@),
        ensures
            self@.len() == 0 ==> r == Err::<Rendered, LocError>(LocError::EmptySeries),
            self@.len() > 0 ==> match r {
                Ok(Rendered::Chart(c)) => exists|w: usize, h: usize|
                    w > 0 && #[trigger] chart_matches(&self, options, (w, h), &c),
                Err(e) => e == LocError::TerminalSizeUnavailable || e == LocError::InvalidWindowConfig,
                _ => false,
            },
    {
        if self.0.len() == 0 {
            return Err(LocError::EmptySeries);
        }
        let dims = terminal_dimensions();
        match self.chart_for_terminal(options, dims) {
            Ok(c) => {
                let ghost size = dims->0;
                assert(chart_matches(&self, options, (size.0, size.1), &c));
                let r: Result<Rendered, LocError> = Ok(Rendered::Chart(c));
                assert(r->Ok_0->Chart_0 == c);
                r
            },
            Err(e) => Err(e),
        }
    }

    /// The chart for a terminal of the given size: the series resampled into
    /// as many windows as the terminal is wide, drawn at the size the options
    /// give, else at the terminal's size less the margin.
    pub fn chart_for_terminal(&self, options: &Options, dims: Option<(usize, usize)>) -> (r:
        Result<ChartData, LocError>)
        requires
            time_ordered(self@),
        ensures
            self@.len() == 0 ==> r == Err::<ChartData, LocError>(LocError::EmptySeries),
            self@.len() > 0 && dims is None ==> r == Err::<ChartData, LocError>(
                LocError::TerminalSizeUnavailable,
            ),
            self@.len() > 0 && (dims matches Some((w, _)) && w == 0) ==> r == Err::<
                ChartData,
                LocError,
            >(LocError::InvalidWindowConfig),
            self@.len() > 0 && (dims matches Some((w, _)) && w > 0) ==> (r matches Ok(c)
                && chart_matches(self, options, dims->0, &c)),
    {
        if self.0.len() == 0 {
            return Err(LocError::EmptySeries);
        }
        let (t_w, t_h) = match dims {
            Some(d) => d,
            None => {
                return Err(LocError::TerminalSizeUnavailable);
            },
        };
        if t_w == 0 {
            return Err(LocError::InvalidWindowConfig);
        }
        let values = self.resample_slices(t_w as u64);
        let width = match options.width {
            Some(w) => w,
            None => if t_w >= CHART_MARGIN {
                t_w - CHART_MARGIN
            } else {
                0
            },
        };
        let height = match options.height {
            Some(h) => h,
            None => if t_h >= CHART_MARGIN {
                t_h - CHART_MARGIN
            } else {
                0
            },
        };
        Ok(ChartData { values, width, height })
    }

    /// The samples themselves, each to be written as one record.
    pub fn render_ndjson(self, _options: &Options) -> (r: Rendered)
        ensures
            r matches Rendered::Ndjson(x) && x@ == self@,
    {
        Rendered::Ndjson(self)
    }
}

/// Whether `c` is the chart of `s` for a terminal of size `dims`: one value
/// per window of `s` cut into as many windows as the terminal is wide, drawn
/// at the size that the options give, else at the terminal's less the margin.
pub open spec fn chart_matches(s: &LocSeries, options: &Options, dims: (usize, usize), c: &ChartData) -> bool {
    &&& c.values@ == resampled(s@, slice_duration(s@, dims.0 as int))
    &&& c.width == match options.width {
        Some(w) => w,
        None => less_margin(dims.0),
    }
    &&& c.height == match options.height {
        Some(h) => h,
        None => less_margin(dims.1),
    }
}

} // verus!
