use vstd::prelude::*;
use vstd::arithmetic::div_mod::{
    lemma_div_by_multiple, lemma_div_is_ordered, lemma_fundamental_div_mod,
    lemma_fundamental_div_mod_converse_div,
};
use vstd::slice::slice_subrange;
use crate::series::{LocByTime, LocSeries, RawTime, time_ordered};

verus! {

/// Why a series could not be resampled or rendered.
#[derive(Clone, Copy, Debug, PartialEq, Eq, Structural)]
pub enum LocError {
    /// The series holds no sample.
    EmptySeries,
    /// A window count or duration that is not positive was asked for.
    InvalidWindowConfig,
    /// The chart size could not be found from the terminal.
    TerminalSizeUnavailable,
}

/// How many windows of `duration` seconds cover a span of `span` seconds: a
/// degenerate duration or span gives a single window.
pub open spec fn window_count(span: int, duration: int) -> int {
    if duration <= 0 || span <= 0 {
        1
    } else {
        (span + duration - 1) / duration
    }
}

/// Whether time `t` falls in window `k` of `count` windows that start at
/// `first`: window `k` is `[first + k * duration, first + (k + 1) * duration)`,
/// and the last one also holds everything after its start.
pub open spec fn in_window(t: int, first: int, duration: int, count: int, k: int) -> bool {
    t >= first + k * duration && (k == count - 1 || t < first + (k + 1) * duration)
}

/// Time from the first sample to the last.
pub open spec fn span_of(s: Seq<LocByTime>) -> int {
    s.last().time - s[0].time
}

/// Number of windows of `duration` that cover the series.
pub open spec fn windows_of(s: Seq<LocByTime>, duration: int) -> int {
    window_count(span_of(s), duration)
}

/// Whether sample `i` of `s` belongs to window `k`.
pub open spec fn sample_in(s: Seq<LocByTime>, duration: int, i: int, k: int) -> bool {
    in_window(s[i].time as int, s[0].time as int, duration, windows_of(s, duration), k)
}

/// Sum of the values of the samples among the first `n` that belong to window `k`.
pub open spec fn window_sum(s: Seq<LocByTime>, duration: int, k: int, n: nat) -> int
    decreases n,
{
    if n == 0 || n > s.len() {
        0
    } else {
        window_sum(s, duration, k, (n - 1) as nat) + if sample_in(s, duration, n - 1, k) {
            s[n - 1].loc as int
        } else {
            0
        }
    }
}

/// Number of the samples among the first `n` that belong to window `k`.
pub open spec fn window_len(s: Seq<LocByTime>, duration: int, k: int, n: nat) -> int
    decreases n,
{
    if n == 0 || n > s.len() {
        0
    } else {
        window_len(s, duration, k, (n - 1) as nat) + if sample_in(s, duration, n - 1, k) {
            1int
        } else {
            0
        }
    }
}

/// Integer division that rounds toward zero.
pub open spec fn trunc_div(a: int, b: int) -> int {
    if a >= 0 {
        a / b
    } else {
        -((-a) / b)
    }
}

/// The value that window `k` stands for: the truncated mean of its samples,
/// or, when it holds none, the value of the window before it.
pub open spec fn window_value(s: Seq<LocByTime>, duration: int, k: nat) -> int
    decreases k,
{
    let n = window_len(s, duration, k as int, s.len());
    if n > 0 {
        trunc_div(window_sum(s, duration, k as int, s.len()), n)
    } else if k == 0 {
        0
    } else {
        window_value(s, duration, (k - 1) as nat)
    }
}

/// The series resampled into windows of `duration`: one value per window.
pub open spec fn resampled(s: Seq<LocByTime>, duration: int) -> Seq<i64> {
    Seq::new(windows_of(s, duration) as nat, |k: int| window_value(s, duration, k as nat) as i64)
}

/// The window duration used when `slices` windows are asked for.
pub open spec fn slice_duration(s: Seq<LocByTime>, slices: int) -> int {
    span_of(s) / slices
}

/// A cursor over a series that hands out one window of samples at a time.
pub struct LocSeriesWindow<'a> {
    /// The samples being walked.
    pub series: &'a [LocByTime],
    /// The first sample not yet handed out.
    pub index: usize,
    /// Where the next window starts.
    pub start: RawTime,
    /// How long each window lasts.
    pub duration: u64,
}

impl<'a> LocSeriesWindow<'a> {
    /// Whether the window that starts at the cursor is the last one: its
    /// duration is zero or its end is at or past the last sample's time.
    pub open spec fn is_last(&self) -> bool {
        self.duration == 0 || self.start + self.duration >= self.series@.last().time
    }

    /// The samples of the next window, from the first one not yet handed out
    /// up to the first one at or past the window's end; the last window takes
    /// all the rest. `None` once every sample has been handed out.
    pub fn next(&mut self) -> (r: Option<&'a [LocByTime]>)
        requires
            old(self).index <= old(self).series@.len(),
        ensures
            final(self).series == old(self).series,
            final(self).duration == old(self).duration,
            old(self).index >= old(self).series@.len() ==> r is None && *final(self) == *old(self),
            old(self).index < old(self).series@.len() ==> {
                let s = old(self).series@;
                let i = old(self).index as int;
                let j = final(self).index as int;
                let end = old(self).start + old(self).duration;
                &&& r is Some
                &&& i <= j <= s.len()
                &&& r->0@ == s.subrange(i, j)
                &&& old(self).is_last() ==> j == s.len() && final(self).start == old(self).start
                &&& !old(self).is_last() ==> {
                    &&& final(self).start == end
                    &&& forall|x: int| i <= x < j ==> s[x].time < end
                    &&& j < s.len() ==> s[j].time >= end
                }
            },
    {
        let series = self.series;
        let n = series.len();
        if self.index >= n {
            return None;
        }
        let lo = self.index;
        let end: i128 = self.start as i128 + self.duration as i128;
        let mut j: usize = lo;
        if self.duration == 0 || end >= series[n - 1].time as i128 {
            j = n;
        } else {
            let end_time = end as i64;
            while j < n && series[j].time < end_time
                invariant
                    lo <= j <= n,
                    n == series@.len(),
                    end_time == end,
                    forall|x: int| lo <= x < j ==> series@[x].time < end,
                decreases n - j,
            {
                j = j + 1;
            }
            self.start = end_time;
        }
        self.index = j;
        Some(slice_subrange(series, lo, j))
    }
}

impl LocSeries {
    /// A cursor whose first window starts at `start` and whose windows last
    /// `duration` seconds each.
    pub fn window<'a>(&'a self, start: RawTime, duration: u64) -> (r: LocSeriesWindow<'a>)
        ensures
            r.series@ == self@,
            r.index == 0,
            r.start == start,
            r.duration == duration,
    {
        LocSeriesWindow { series: self.0.as_slice(), index: 0, start, duration }
    }
}

impl LocSeries {
    /// Resamples a non-empty ordered series into windows of `duration`
    /// seconds that start at its first sample.
    fn resample_by(&self, duration: u64) -> (r: Vec<i64>)
        requires
            self@.len() > 0,
            time_ordered(self@),
        ensures
            r@ == resampled(self@, duration as int),
    {
        let ghost s = self@;
        let ghost d = duration as int;
        let ghost w = windows_of(s, d);
        let n = self.0.len();
        let first = self.0[0].time;
        let mut cursor = self.window(first, duration);
        proof {
            lemma_count_positive(span_of(s), d);
        }
        let mut out: Vec<i64> = Vec::new();
        let mut prev: i64 = 0;
        assert(0 * d == 0);
        while cursor.index < n
            invariant
                s == self@,
                n == s.len(),
                n > 0,
                time_ordered(s),
                d == duration as int,
                w == windows_of(s, d),
                first == s[0].time,
                cursor.series@ == s,
                cursor.duration == duration,
                cursor.index <= n,
                cursor.index < n ==> cursor.start == first + out.len() * d,
                out.len() == 0 ==> prev == 0,
                cursor.index < n ==> out.len() < w && (out.len() == 0 || out.len() * d < span_of(s)),
                cursor.index < n ==> s[cursor.index as int].time >= cursor.start,
                cursor.index < n ==> forall|x: int| 0 <= x < cursor.index ==> s[x].time < cursor.start,
                cursor.index == n ==> out.len() == w,
                out@ == resampled(s, d).take(out.len() as int),
                out.len() > 0 ==> prev == window_value(s, d, (out.len() - 1) as nat),
            decreases n - cursor.index, s.last().time - cursor.start,
        {
            let ghost k = out.len() as int;
            let ghost i = cursor.index as int;
            let ghost before = cursor;
            let win = cursor.next().unwrap();
            let j = cursor.index;
            proof {
                let start = before.start as int;
                assert((k + 1) * d == k * d + d) by (nonlinear_arith);
                assert(k == 0 ==> k * d == 0) by (nonlinear_arith);
                if before.is_last() {
                    if d > 0 && span_of(s) > 0 {
                        lemma_count_when_last(span_of(s), d, k);
                    } else {
                        assert(w == 1);
                    }
                    assert(k == w - 1);
                } else {
                    lemma_count_when_not_last(span_of(s), d, k);
                    assert forall|x: int| j <= x < n implies !sample_in(s, d, x, k) by {
                        assert(s[x].time >= s[j as int].time);
                    }
                }
                assert forall|x: int| i <= x < j implies sample_in(s, d, x, k) by {
                    assert(s[x].time >= s[i].time);
                }
                assert forall|x: int| 0 <= x < i implies !sample_in(s, d, x, k) by {
                }
                lemma_window_unchanged(s, d, k, 0, i as nat);
                lemma_window_unchanged(s, d, k, j as nat, n as nat);
            }
            let mut acc: i128 = 0;
            let mut cnt: usize = 0;
            while cnt < win.len()
                invariant
                    win@ == s.subrange(i, j as int),
                    n == s.len(),
                    0 <= i,
                    i + win@.len() == j <= n,
                    forall|x: int| i <= x < j ==> sample_in(s, d, x, k),
                    cnt <= win@.len(),
                    acc == window_sum(s, d, k, (i + cnt) as nat),
                    cnt == window_len(s, d, k, (i + cnt) as nat),
                    -(cnt as int) * 0x8000_0000_0000_0000 <= acc <= cnt * 0x7fff_ffff_ffff_ffff,
                decreases win@.len() - cnt,
            {
                proof {
                    let x = (i + cnt) as int;
                    assert(win@[cnt as int] == s[x]);
                    assert(sample_in(s, d, x, k));
                    assert(window_sum(s, d, k, (x + 1) as nat) == window_sum(s, d, k, x as nat)
                        + s[x].loc);
                    assert(window_len(s, d, k, (x + 1) as nat) == window_len(s, d, k, x as nat) + 1);
                }
                acc = acc + win[cnt].loc as i128;
                cnt = cnt + 1;
            }
            if cnt > 0 {
                proof {
                    lemma_mean_fits(acc as int, cnt as int);
                }
                let mean: i128 = if acc >= 0 {
                    (acc as u128 / cnt as u128) as i128
                } else {
                    -(((-acc) as u128 / cnt as u128) as i128)
                };
                prev = mean as i64;
            }
            out.push(prev);
            proof {
                assert(prev == window_value(s, d, k as nat));
                assert(out@ =~= resampled(s, d).take(out.len() as int));
            }
        }
        out
    }

    /// Resamples the series into `slices` windows: each lasts the span from
    /// the first sample to the last divided by `slices`, rounded down.
    /// Fails on an empty series, then on a slice count that is not positive.
    pub fn resample(&self, slices: i64) -> (r: Result<Vec<i64>, LocError>)
        requires
            time_ordered(self@),
        ensures
            self@.len() == 0 <==> r == Err::<Vec<i64>, LocError>(LocError::EmptySeries),
            self@.len() > 0 && slices <= 0 <==> r == Err::<Vec<i64>, LocError>(
                LocError::InvalidWindowConfig,
            ),
            self@.len() > 0 && slices > 0 ==> (r matches Ok(v) && v@ == resampled(
                self@,
                slice_duration(self@, slices as int),
            )),
    {
        if self.0.len() == 0 {
            return Err(LocError::EmptySeries);
        }
        if slices <= 0 {
            return Err(LocError::InvalidWindowConfig);
        }
        Ok(self.resample_slices(slices as u64))
    }

    /// Resamples a non-empty ordered series into `slices` windows.
    pub(crate) fn resample_slices(&self, slices: u64) -> (r: Vec<i64>)
        requires
            self@.len() > 0,
            time_ordered(self@),
            slices > 0,
        ensures
            r@ == resampled(self@, slice_duration(self@, slices as int)),
    {
        let n = self.0.len();
        let span: i128 = self.0[n - 1].time as i128 - self.0[0].time as i128;
        assert(span >= 0);
        let duration: u64 = (span as u64) / slices;
        self.resample_by(duration)
    }

    /// Resamples the series into windows of `duration` seconds that start at
    /// its first sample. Fails on an empty series, then on a duration that is
    /// not positive.
    pub fn resample_with_duration(&self, duration: i64) -> (r: Result<Vec<i64>, LocError>)
        requires
            time_ordered(self@),
        ensures
            self@.len() == 0 <==> r == Err::<Vec<i64>, LocError>(LocError::EmptySeries),
            self@.len() > 0 && duration <= 0 <==> r == Err::<Vec<i64>, LocError>(
                LocError::InvalidWindowConfig,
            ),
            self@.len() > 0 && duration > 0 ==> (r matches Ok(v) && v@ == resampled(
                self@,
                duration as int,
            )),
    {
        if self.0.len() == 0 {
            return Err(LocError::EmptySeries);
        }
        if duration <= 0 {
            return Err(LocError::InvalidWindowConfig);
        }
        Ok(self.resample_by(duration as u64))
    }
}

/// A series of one sample, resampled into any positive number of windows,
/// gives exactly one window, whose value is that sample's.
pub proof fn single_sample_gives_one_window(s: Seq<LocByTime>, slices: int)
    requires
        s.len() == 1,
        slices > 0,
    ensures
        resampled(s, slice_duration(s, slices)) == seq![s[0].loc],
{
    let d = slice_duration(s, slices);
    assert(span_of(s) == 0);
    assert(d == 0);
    assert(windows_of(s, d) == 1);
    assert(0 * d == 0);
    assert(sample_in(s, d, 0, 0));
    assert(window_len(s, d, 0, 0) == 0);
    assert(window_sum(s, d, 0, 0) == 0);
    assert(window_len(s, d, 0, 1) == window_len(s, d, 0, 0) + 1);
    assert(window_sum(s, d, 0, 1) == window_sum(s, d, 0, 0) + s[0].loc);
    assert(trunc_div(s[0].loc as int, 1) == s[0].loc);
    assert(resampled(s, d) =~= seq![s[0].loc]);
}

/// When the span from the first sample to the last is a positive multiple of
/// `slices`, resampling into `slices` windows gives exactly `slices` values,
/// each window lasting the span divided by `slices`.
pub proof fn even_span_gives_requested_windows(s: Seq<LocByTime>, slices: int)
    requires
        s.len() > 0,
        slices > 0,
        span_of(s) > 0,
        span_of(s) % slices == 0,
    ensures
        slice_duration(s, slices) * slices == span_of(s),
        resampled(s, slice_duration(s, slices)).len() == slices,
{
    let span = span_of(s);
    let d = slice_duration(s, slices);
    lemma_fundamental_div_mod(span, slices);
    assert(d * slices == span) by (nonlinear_arith)
        requires
            span == slices * d + span % slices,
            span % slices == 0,
    ;
    assert(d > 0) by (nonlinear_arith)
        requires
            d * slices == span,
            span > 0,
            slices > 0,
    ;
    lemma_fundamental_div_mod_converse_div(span + d - 1, d, slices, d - 1);
}

/// A window that holds no sample takes the value of the window before it.
pub proof fn empty_window_carries_forward(s: Seq<LocByTime>, duration: int, k: int)
    requires
        0 < k < windows_of(s, duration),
        window_len(s, duration, k, s.len()) == 0,
    ensures
        resampled(s, duration)[k] == resampled(s, duration)[k - 1],
{
}

proof fn lemma_count_positive(span: int, d: int)
    ensures
        window_count(span, d) >= 1,
{
    if d > 0 && span > 0 {
        lemma_div_is_ordered(d, span + d - 1, d);
        lemma_div_by_multiple(1, d);
    }
}

proof fn lemma_count_when_last(span: int, d: int, k: int)
    requires
        d > 0,
        span > 0,
        k >= 0,
        k * d < span <= (k + 1) * d,
    ensures
        window_count(span, d) == k + 1,
{
    assert((k + 1) * d == k * d + d) by (nonlinear_arith);
    lemma_fundamental_div_mod_converse_div(span + d - 1, d, k + 1, span - 1 - k * d);
}

proof fn lemma_count_when_not_last(span: int, d: int, k: int)
    requires
        d > 0,
        k >= 0,
        (k + 1) * d < span,
    ensures
        window_count(span, d) > k + 1,
{
    assert((k + 2) * d == (k + 1) * d + d) by (nonlinear_arith);
    lemma_div_is_ordered((k + 2) * d, span + d - 1, d);
    lemma_div_by_multiple(k + 2, d);
}

proof fn lemma_window_unchanged(s: Seq<LocByTime>, d: int, k: int, a: nat, b: nat)
    requires
        a <= b <= s.len(),
        forall|x: int| a <= x < b ==> !sample_in(s, d, x, k),
    ensures
        window_sum(s, d, k, b) == window_sum(s, d, k, a),
        window_len(s, d, k, b) == window_len(s, d, k, a),
    decreases b - a,
{
    if b > a {
        lemma_window_unchanged(s, d, k, a, (b - 1) as nat);
    }
}

proof fn lemma_mean_fits(acc: int, cnt: int)
    requires
        cnt >= 1,
        -cnt * 0x8000_0000_0000_0000 <= acc <= cnt * 0x7fff_ffff_ffff_ffff,
    ensures
        i64::MIN <= trunc_div(acc, cnt) <= i64::MAX,
{
    if acc >= 0 {
        lemma_div_is_ordered(acc, cnt * 0x7fff_ffff_ffff_ffff, cnt);
        lemma_div_by_multiple(0x7fff_ffff_ffff_ffff, cnt);
        assert(cnt * 0x7fff_ffff_ffff_ffff == 0x7fff_ffff_ffff_ffff * cnt) by (nonlinear_arith);
        lemma_div_is_ordered(0, acc, cnt);
    } else {
        lemma_div_is_ordered(-acc, cnt * 0x8000_0000_0000_0000, cnt);
        lemma_div_by_multiple(0x8000_0000_0000_0000, cnt);
        assert(cnt * 0x8000_0000_0000_0000 == 0x8000_0000_0000_0000 * cnt) by (nonlinear_arith);
        lemma_div_is_ordered(0, -acc, cnt);
    }
}

} // verus!
