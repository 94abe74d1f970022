use vstd::prelude::*;

verus! {

/// Seconds since the Unix epoch.
pub type RawTime = i64;

/// One point of the line-count series: the cumulative count after a commit.
#[derive(Clone, Copy, Debug, PartialEq, Eq, Structural)]
pub struct LocByTime {
    pub time: RawTime,
    pub loc: i64,
}

/// What the commit history tells about one commit: when it was made and how
/// many lines its diff against the previous commit adds and removes.
#[derive(Clone, Copy, Debug, PartialEq, Eq, Structural)]
pub struct CommitStat {
    pub time: RawTime,
    pub insertions: u64,
    pub deletions: u64,
}

/// A series of samples in the order the commits came in.
#[derive(Debug)]
pub struct LocSeries(pub Vec<LocByTime>);

/// Net change in lines over the first `n` commits.
pub open spec fn net_prefix(commits: Seq<CommitStat>, n: nat) -> int
    decreases n,
{
    if n == 0 || n > commits.len() {
        0
    } else {
        net_prefix(commits, (n - 1) as nat) + commits[n - 1].insertions - commits[n - 1].deletions
    }
}

/// Every running total over `commits` fits in an `i64`.
pub open spec fn totals_fit(commits: Seq<CommitStat>) -> bool {
    forall|n: nat|
        1 <= n <= commits.len() ==> i64::MIN <= #[trigger] net_prefix(commits, n) <= i64::MAX
}

/// The series built from `commits`: sample `i` carries the time of commit `i`
/// and the net change over commits `0..=i`.
pub open spec fn built_series(commits: Seq<CommitStat>) -> Seq<LocByTime> {
    Seq::new(
        commits.len(),
        |i: int| LocByTime { time: commits[i].time, loc: net_prefix(commits, (i + 1) as nat) as i64 },
    )
}

/// Samples are in non-decreasing order of time.
pub open spec fn time_ordered(s: Seq<LocByTime>) -> bool {
    forall|i: int, j: int| 0 <= i <= j < s.len() ==> s[i].time <= s[j].time
}

impl LocSeries {
    pub open spec fn view(&self) -> Seq<LocByTime> {
        self.0@
    }

    /// Whether the samples are ordered by time, as resampling needs.
    pub fn is_time_ordered(&self) -> (r: bool)
        ensures
            r == time_ordered(self@),
    {
        let n = self.0.len();
        if n == 0 {
            return true;
        }
        let mut i: usize = 1;
        while i < n
            invariant
                1 <= i <= n,
                n == self@.len(),
                forall|a: int, b: int| 0 <= a <= b < i ==> self@[a].time <= self@[b].time,
            decreases n - i,
        {
            if self.0[i - 1].time > self.0[i].time {
                return false;
            }
            i = i + 1;
        }
        true
    }
}

/// Whether every running total over `commits` fits in an `i64`, which
/// `count_loc` needs.
pub fn totals_fit_i64(commits: &Vec<CommitStat>) -> (r: bool)
    ensures
        r == totals_fit(commits@),
{
    let mut loc: i128 = 0;
    let mut i: usize = 0;
    while i < commits.len()
        invariant
            i <= commits@.len(),
            loc == net_prefix(commits@, i as nat),
            i64::MIN <= loc <= i64::MAX,
            forall|n: nat| 1 <= n <= i ==> i64::MIN <= #[trigger] net_prefix(commits@, n) <= i64::MAX,
        decreases commits@.len() - i,
    {
        let c = commits[i];
        loc = loc + c.insertions as i128 - c.deletions as i128;
        if loc < i64::MIN as i128 || loc > i64::MAX as i128 {
            assert(!(i64::MIN <= net_prefix(commits@, (i + 1) as nat) <= i64::MAX));
            return false;
        }
        i = i + 1;
        assert forall|n: nat| 1 <= n <= i implies i64::MIN <= #[trigger] net_prefix(commits@, n) <= i64::MAX by {
            if n < i {
            }
        }
    }
    true
}

/// Builds the series of cumulative line counts: one sample per commit, in the
/// order given, each carrying the running total of insertions minus deletions.
pub fn count_loc(commits: &Vec<CommitStat>) -> (r: LocSeries)
    requires
        totals_fit(commits@),
    ensures
        r@ == built_series(commits@),
        r@.len() == commits@.len(),
        forall|i: int|
            0 <= i < commits@.len() ==> (#[trigger] r@[i]).time == commits@[i].time && r@[i].loc
                == net_prefix(commits@, (i + 1) as nat),
        time_ordered(r@) <==> forall|i: int, j: int|
            0 <= i <= j < commits@.len() ==> commits@[i].time <= commits@[j].time,
{
    let mut loc: i64 = 0;
    let mut locs: Vec<LocByTime> = Vec::new();
    let mut i: usize = 0;
    while i < commits.len()
        invariant
            i <= commits@.len(),
            totals_fit(commits@),
            loc == net_prefix(commits@, i as nat),
            locs@ == built_series(commits@).take(i as int),
        decreases commits@.len() - i,
    {
        let c = commits[i];
        assert(i64::MIN <= net_prefix(commits@, (i + 1) as nat) <= i64::MAX);
        loc = (loc as i128 + c.insertions as i128 - c.deletions as i128) as i64;
        locs.push(LocByTime { time: c.time, loc });
        i = i + 1;
        assert(locs@ =~= built_series(commits@).take(i as int));
    }
    assert(locs@ =~= built_series(commits@));
    let r = LocSeries(locs);
    assert forall|i: int| 0 <= i < commits@.len() implies (#[trigger] r@[i]).time == commits@[i].time && r@[i].loc
        == net_prefix(commits@, (i + 1) as nat) by {
        assert(i64::MIN <= net_prefix(commits@, (i + 1) as nat) <= i64::MAX);
    }
    assert(time_ordered(r@) <==> forall|i: int, j: int|
        0 <= i <= j < commits@.len() ==> commits@[i].time <= commits@[j].time) by {
        assert(forall|i: int| 0 <= i < commits@.len() ==> r@[i].time == commits@[i].time);
    }
    r
}

/// Building the series is a function of the commit records alone: two runs
/// over the same records give the same samples.
pub proof fn replay_gives_same_series(a: Seq<CommitStat>, b: Seq<CommitStat>)
    requires
        a == b,
    ensures
        built_series(a) == built_series(b),
{
}

} // verus!
