//! The Monte Carlo aggregator: per-driver tallies over many runs.
use vstd::prelude::*;
use crate::results::Classified;

verus! {

/// What a tally counts.
#[derive(Debug, Clone, Copy, PartialEq, Eq)]
pub enum Stat {
    /// Points scored.
    Points,
    /// Runs won.
    Wins,
    /// Top-three finishes.
    Podiums,
    /// Runs not finished.
    Dnfs,
    /// Runs classified at the given position.
    AtPosition(u32),
}

/// What one classification line adds to driver `d`'s tally of `stat`.
pub open spec fn line_stat(c: Classified, d: int, stat: Stat) -> int {
    if c.driver != d {
        0
    } else {
        match stat {
            Stat::Points => c.points as int,
            Stat::Wins => if c.position == 1 { 1 } else { 0 },
            Stat::Podiums => if c.position <= 3 { 1 } else { 0 },
            Stat::Dnfs => if !c.finished { 1 } else { 0 },
            Stat::AtPosition(p) => if c.position == p { 1 } else { 0 },
        }
    }
}

/// Driver `d`'s tally of `stat` over one run.
pub open spec fn run_stat(run: Seq<Classified>, d: int, stat: Stat) -> int
    decreases run.len(),
{
    if run.len() == 0 { 0 } else { run_stat(run.drop_last(), d, stat) + line_stat(run.last(), d, stat) }
}

/// Driver `d`'s tally of `stat` over many runs.
pub open spec fn runs_stat(runs: Seq<Seq<Classified>>, d: int, stat: Stat) -> int
    decreases runs.len(),
{
    if runs.len() == 0 { 0 } else { runs_stat(runs.drop_last(), d, stat) + run_stat(runs.last(), d, stat) }
}

/// Tallies add up: the tally over two batches of runs, one after the
/// other, is the sum of the two batches' tallies.
pub proof fn lemma_runs_stat_append(a: Seq<Seq<Classified>>, b: Seq<Seq<Classified>>, d: int, stat: Stat)
    ensures
        runs_stat(a + b, d, stat) == runs_stat(a, d, stat) + runs_stat(b, d, stat),
    decreases b.len(),
{
    if b.len() == 0 {
        assert(a + b =~= a);
    } else {
        lemma_runs_stat_append(a, b.drop_last(), d, stat);
        assert((a + b).drop_last() =~= a + b.drop_last());
    }
}

proof fn lemma_run_stat_nonneg(run: Seq<Classified>, d: int, stat: Stat)
    ensures
        run_stat(run, d, stat) >= 0,
    decreases run.len(),
{
    if run.len() > 0 {
        lemma_run_stat_nonneg(run.drop_last(), d, stat);
    }
}

/// One driver's counters.
#[derive(Debug, Clone)]
pub struct DriverTally {
    /// Runs classified at each position, index 0 for first place.
    pub positions: Vec<u64>,
    pub dnfs: u64,
    pub wins: u64,
    pub podiums: u64,
    pub points: u64,
}

/// Counters for every driver, by driver index, with the number of runs.
#[derive(Debug, Clone)]
pub struct AggregateStats {
    pub runs: u64,
    pub tallies: Vec<DriverTally>,
}

impl DriverTally {
    /// The counter of `stat`; positions beyond the histogram count zero.
    pub open spec fn stat(&self, stat: Stat) -> int {
        match stat {
            Stat::Points => self.points as int,
            Stat::Wins => self.wins as int,
            Stat::Podiums => self.podiums as int,
            Stat::Dnfs => self.dnfs as int,
            Stat::AtPosition(p) => if 1 <= p <= self.positions@.len() { self.positions@[p - 1] as int } else { 0 },
        }
    }
}

/// The histogram only keeps positions `1..=n`.
pub open spec fn counted(stat: Stat, n: int) -> bool {
    match stat {
        Stat::AtPosition(p) => 1 <= p <= n,
        _ => true,
    }
}

impl AggregateStats {
    /// One tally per driver, each histogram as long as the field.
    pub open spec fn wf(&self) -> bool {
        &&& self.tallies@.len() < 0xffff_ffff
        &&& forall|d: int| 0 <= d < self.tallies@.len() ==> (#[trigger] self.tallies@[d]).positions@.len() == self.tallies@.len()
    }

    /// Number of drivers.
    pub open spec fn size(&self) -> int {
        self.tallies@.len() as int
    }

    /// Driver `d`'s counter of `stat`.
    pub open spec fn stat(&self, d: int, stat: Stat) -> int {
        self.tallies@[d].stat(stat)
    }

    /// This aggregate holds exactly the tallies of `runs`.
    pub open spec fn models(&self, runs: Seq<Seq<Classified>>) -> bool {
        &&& self.wf()
        &&& self.runs == runs.len()
        &&& forall|d: int, stat: Stat| 0 <= d < self.size() && counted(stat, self.size())
            ==> #[trigger] self.stat(d, stat) == runs_stat(runs, d, stat)
    }

    /// An empty aggregate for `n` drivers.
    pub fn new(n: usize) -> (r: AggregateStats)
        requires
            n < 0xffff_ffff,
        ensures
            r.size() == n,
            r.models(Seq::empty()),
    {
        let mut tallies: Vec<DriverTally> = Vec::new();
        let mut d: usize = 0;
        while d < n
            invariant
                d <= n,
                tallies@.len() == d,
                forall|k: int| 0 <= k < d ==> {
                    let t = #[trigger] tallies@[k];
                    &&& t.positions@.len() == n
                    &&& t.dnfs == 0 && t.wins == 0 && t.podiums == 0 && t.points == 0
                    &&& forall|p: int| 0 <= p < n ==> t.positions@[p] == 0
                },
            decreases n - d,
        {
            let mut positions: Vec<u64> = Vec::new();
            let mut p: usize = 0;
            while p < n
                invariant
                    p <= n,
                    positions@.len() == p,
                    forall|q: int| 0 <= q < p ==> positions@[q] == 0,
                decreases n - p,
            {
                positions.push(0);
                p = p + 1;
            }
            tallies.push(DriverTally { positions, dnfs: 0, wins: 0, podiums: 0, points: 0 });
            d = d + 1;
        }
        let r = AggregateStats { runs: 0, tallies };
        assert forall|d: int, stat: Stat| 0 <= d < r.size() && counted(stat, r.size())
            implies #[trigger] r.stat(d, stat) == runs_stat(Seq::<Seq<Classified>>::empty(), d, stat) by {
            let t = r.tallies@[d];
            assert(t.positions@.len() == n);
        }
        r
    }

    /// Folds one run's classification into the tallies: its position, a
    /// retirement, a win, a podium and its points, for each line whose
    /// driver is counted.
    pub fn record_run(&mut self, run: &Vec<Classified>)
        requires
            old(self).wf(),
            old(self).runs < 0xffff_ffff_ffff_ffff,
            forall|d: int, stat: Stat| 0 <= d < old(self).size() && counted(stat, old(self).size())
                ==> #[trigger] old(self).stat(d, stat) + run_stat(run@, d, stat) <= 0xffff_ffff_ffff_ffff,
        ensures
            final(self).wf(),
            final(self).size() == old(self).size(),
            final(self).runs == old(self).runs + 1,
            forall|d: int, stat: Stat| 0 <= d < old(self).size() && counted(stat, old(self).size())
                ==> #[trigger] final(self).stat(d, stat) == old(self).stat(d, stat) + run_stat(run@, d, stat),
    {
        let ghost start = *self;
        let n = self.tallies.len();
        let mut i: usize = 0;
        while i < run.len()
            invariant
                self.wf(),
                self.size() == n,
                start.size() == n,
                self.runs == start.runs,
                i <= run@.len(),
                forall|d: int, stat: Stat| 0 <= d < n && counted(stat, n as int)
                    ==> #[trigger] start.stat(d, stat) + run_stat(run@, d, stat) <= 0xffff_ffff_ffff_ffff,
                forall|d: int, stat: Stat| 0 <= d < n && counted(stat, n as int)
                    ==> #[trigger] self.stat(d, stat) == start.stat(d, stat) + run_stat(run@.subrange(0, i as int), d, stat),
            decreases run@.len() - i,
        {
            let c = run[i];
            let ghost before = *self;
            assert(run@.subrange(0, i + 1).drop_last() == run@.subrange(0, i as int));
            proof {
                // the prefix tallies stay below the whole run's
                assert forall|d: int, stat: Stat| 0 <= d < n && counted(stat, n as int)
                    implies #[trigger] before.stat(d, stat) + line_stat(c, d, stat) <= 0xffff_ffff_ffff_ffff by {
                    lemma_run_stat_prefix(run@, (i + 1) as int, d, stat);
                }
            }
            if c.driver < n {
                let d = c.driver;
                let mut t = self.tallies[d].clone_tally();
                if 1 <= c.position && (c.position as usize) <= n {
                    proof {
                        assert(before.stat(d as int, Stat::AtPosition(c.position)) + line_stat(c, d as int, Stat::AtPosition(c.position)) <= 0xffff_ffff_ffff_ffff);
                    }
                    let k = (c.position - 1) as usize;
                    let v = t.positions[k];
                    t.positions.set(k, v + 1);
                }
                proof {
                    assert(before.stat(d as int, Stat::Dnfs) + line_stat(c, d as int, Stat::Dnfs) <= 0xffff_ffff_ffff_ffff);
                    assert(before.stat(d as int, Stat::Wins) + line_stat(c, d as int, Stat::Wins) <= 0xffff_ffff_ffff_ffff);
                    assert(before.stat(d as int, Stat::Podiums) + line_stat(c, d as int, Stat::Podiums) <= 0xffff_ffff_ffff_ffff);
                    assert(before.stat(d as int, Stat::Points) + line_stat(c, d as int, Stat::Points) <= 0xffff_ffff_ffff_ffff);
                }
                if !c.finished {
                    t.dnfs = t.dnfs + 1;
                }
                if c.position == 1 {
                    t.wins = t.wins + 1;
                }
                if c.position <= 3 {
                    t.podiums = t.podiums + 1;
                }
                t.points = t.points + c.points as u64;
                self.tallies.set(d, t);
            }
            assert forall|d: int, stat: Stat| 0 <= d < n && counted(stat, n as int)
                implies #[trigger] self.stat(d, stat) == start.stat(d, stat) + run_stat(run@.subrange(0, i + 1), d, stat) by {
                assert(before.stat(d, stat) == start.stat(d, stat) + run_stat(run@.subrange(0, i as int), d, stat));
                if d != c.driver {
                    assert(self.tallies@[d] == before.tallies@[d]);
                }
            }
            i = i + 1;
        }
        assert(run@.subrange(0, run@.len() as int) == run@);
        let ghost mid = *self;
        self.runs = self.runs + 1;
        assert forall|d: int, stat: Stat| 0 <= d < n && counted(stat, n as int)
            implies #[trigger] self.stat(d, stat) == start.stat(d, stat) + run_stat(run@, d, stat) by {
            assert(self.tallies@ == mid.tallies@);
            assert(mid.stat(d, stat) == start.stat(d, stat) + run_stat(run@.subrange(0, run@.len() as int), d, stat));
        }
    }

    /// Adds another aggregate over the same drivers into this one: counters
    /// and run counts add.
    pub fn merge(&mut self, other: &AggregateStats)
        requires
            old(self).wf(),
            other.wf(),
            other.size() == old(self).size(),
            old(self).runs + other.runs <= 0xffff_ffff_ffff_ffff,
            forall|d: int, stat: Stat| 0 <= d < old(self).size() && counted(stat, old(self).size())
                ==> #[trigger] old(self).stat(d, stat) + other.stat(d, stat) <= 0xffff_ffff_ffff_ffff,
        ensures
            final(self).wf(),
            final(self).size() == old(self).size(),
            final(self).runs == old(self).runs + other.runs,
            forall|d: int, stat: Stat| 0 <= d < old(self).size() && counted(stat, old(self).size())
                ==> #[trigger] final(self).stat(d, stat) == old(self).stat(d, stat) + other.stat(d, stat),
    {
        let ghost start = *self;
        let n = self.tallies.len();
        let mut d: usize = 0;
        while d < n
            invariant
                self.wf(),
                other.wf(),
                start.wf(),
                self.size() == n,
                other.size() == n,
                start.size() == n,
                self.runs == start.runs,
                d <= n,
                forall|e: int, stat: Stat| 0 <= e < n && counted(stat, n as int)
                    ==> #[trigger] start.stat(e, stat) + other.stat(e, stat) <= 0xffff_ffff_ffff_ffff,
                forall|e: int, stat: Stat| 0 <= e < d && counted(stat, n as int)
                    ==> #[trigger] self.stat(e, stat) == start.stat(e, stat) + other.stat(e, stat),
                forall|e: int| d <= e < n ==> #[trigger] self.tallies@[e] == start.tallies@[e],
            decreases n - d,
        {
            let ghost before = *self;
            let o = &other.tallies[d];
            let mut t = self.tallies[d].clone_tally();
            assert forall|q: int| 0 <= q < n implies start.tallies@[d as int].positions@[q] + o.positions@[q] <= 0xffff_ffff_ffff_ffff by {
                let st = Stat::AtPosition((q + 1) as u32);
                assert(counted(st, n as int));
                assert(start.stat(d as int, st) + other.stat(d as int, st) <= 0xffff_ffff_ffff_ffff);
            }
            let mut p: usize = 0;
            while p < n
                invariant
                    p <= n,
                    d < n,
                    start.wf(),
                    other.wf(),
                    other.tallies@.len() == n,
                    start.tallies@.len() == n,
                    *o == other.tallies@[d as int],
                    t.positions@.len() == n,
                    o.positions@.len() == n,
                    forall|q: int| 0 <= q < n ==> start.tallies@[d as int].positions@[q] + o.positions@[q] <= 0xffff_ffff_ffff_ffff,
                    forall|q: int| 0 <= q < p ==> t.positions@[q] == start.tallies@[d as int].positions@[q] + o.positions@[q],
                    forall|q: int| p <= q < n ==> t.positions@[q] == start.tallies@[d as int].positions@[q],
                    t.dnfs == start.tallies@[d as int].dnfs,
                    t.wins == start.tallies@[d as int].wins,
                    t.podiums == start.tallies@[d as int].podiums,
                    t.points == start.tallies@[d as int].points,
                decreases n - p,
                {
                    let v = t.positions[p] + o.positions[p];
                    t.positions.set(p, v);
                    p = p + 1;
                }
            proof {
                assert(start.stat(d as int, Stat::Dnfs) + other.stat(d as int, Stat::Dnfs) <= 0xffff_ffff_ffff_ffff);
                assert(start.stat(d as int, Stat::Wins) + other.stat(d as int, Stat::Wins) <= 0xffff_ffff_ffff_ffff);
                assert(start.stat(d as int, Stat::Podiums) + other.stat(d as int, Stat::Podiums) <= 0xffff_ffff_ffff_ffff);
                assert(start.stat(d as int, Stat::Points) + other.stat(d as int, Stat::Points) <= 0xffff_ffff_ffff_ffff);
            }
            t.dnfs = t.dnfs + o.dnfs;
            t.wins = t.wins + o.wins;
            t.podiums = t.podiums + o.podiums;
            t.points = t.points + o.points;
            let ghost tg = t;
            self.tallies.set(d, t);
            assert(self.tallies@[d as int] == tg);
            assert forall|e: int, stat: Stat| 0 <= e < d + 1 && counted(stat, n as int)
                implies #[trigger] self.stat(e, stat) == start.stat(e, stat) + other.stat(e, stat) by {
                if e < d {
                    assert(self.tallies@[e] == before.tallies@[e]);
                    assert(before.stat(e, stat) == start.stat(e, stat) + other.stat(e, stat));
                } else {
                    let t2 = self.tallies@[e];
                    assert(t2 == tg);
                    assert(start.tallies@[e] == before.tallies@[e]);
                    match stat {
                        Stat::AtPosition(p) => {
                            assert(t2.positions@[p - 1] == start.tallies@[e].positions@[p - 1] + other.tallies@[e].positions@[p - 1]);
                        },
                        _ => {},
                    }
                }
            }
            d = d + 1;
        }
        let ghost mid = *self;
        self.runs = self.runs + other.runs;
        assert forall|e: int, stat: Stat| 0 <= e < n && counted(stat, n as int)
            implies #[trigger] self.stat(e, stat) == start.stat(e, stat) + other.stat(e, stat) by {
            assert(self.tallies@ == mid.tallies@);
            assert(mid.stat(e, stat) == start.stat(e, stat) + other.stat(e, stat));
        }
    }
}

proof fn lemma_run_stat_prefix(run: Seq<Classified>, k: int, d: int, stat: Stat)
    requires
        0 <= k <= run.len(),
    ensures
        run_stat(run.subrange(0, k), d, stat) <= run_stat(run, d, stat),
    decreases run.len() - k,
{
    if k < run.len() {
        lemma_run_stat_prefix(run, k + 1, d, stat);
        assert(run.subrange(0, k + 1).drop_last() == run.subrange(0, k));
        assert(run.subrange(0, k + 1).last() == run[k]);
        assert(line_stat(run[k], d, stat) >= 0);
    } else {
        assert(run.subrange(0, k) == run);
    }
}

impl DriverTally {
    /// A copy of the counters.
    pub fn clone_tally(&self) -> (r: DriverTally)
        ensures
            r.positions@ == self.positions@,
            r.dnfs == self.dnfs,
            r.wins == self.wins,
            r.podiums == self.podiums,
            r.points == self.points,
    {
        let mut positions: Vec<u64> = Vec::new();
        let mut p: usize = 0;
        while p < self.positions.len()
            invariant
                p <= self.positions@.len(),
                positions@ == self.positions@.subrange(0, p as int),
            decreases self.positions@.len() - p,
        {
            positions.push(self.positions[p]);
            p = p + 1;
        }
        assert(positions@ == self.positions@);
        DriverTally { positions, dnfs: self.dnfs, wins: self.wins, podiums: self.podiums, points: self.points }
    }
}

/// Aggregation does not depend on how runs are batched: merging the
/// aggregate of one batch into that of another gives the aggregate of all
/// the runs together, so every average and probability agrees too.
pub proof fn lemma_merge_is_aggregate_of_union(
    x: AggregateStats,
    y: AggregateStats,
    merged: AggregateStats,
    a: Seq<Seq<Classified>>,
    b: Seq<Seq<Classified>>,
)
    requires
        x.models(a),
        y.models(b),
        y.size() == x.size(),
        merged.wf(),
        merged.size() == x.size(),
        merged.runs == x.runs + y.runs,
        forall|d: int, stat: Stat| 0 <= d < x.size() && counted(stat, x.size())
            ==> #[trigger] merged.stat(d, stat) == x.stat(d, stat) + y.stat(d, stat),
    ensures
        merged.models(a + b),
{
    assert forall|d: int, stat: Stat| 0 <= d < merged.size() && counted(stat, merged.size())
        implies #[trigger] merged.stat(d, stat) == runs_stat(a + b, d, stat) by {
        lemma_runs_stat_append(a, b, d, stat);
        assert(x.stat(d, stat) == runs_stat(a, d, stat));
        assert(y.stat(d, stat) == runs_stat(b, d, stat));
    }
}

/// Each line of a run scores at most 26 points.
pub open spec fn points_capped(run: Seq<Classified>) -> bool {
    forall|i: int| 0 <= i < run.len() ==> (#[trigger] run[i]).points <= 26
}

/// A run adds at most 26 per line to any counter.
pub proof fn lemma_run_stat_bounded(run: Seq<Classified>, d: int, stat: Stat)
    requires
        points_capped(run),
    ensures
        0 <= run_stat(run, d, stat) <= 26 * run.len(),
    decreases run.len(),
{
    if run.len() > 0 {
        let t = run.drop_last();
        assert(points_capped(t)) by {
            assert forall|i: int| 0 <= i < t.len() implies (#[trigger] t[i]).points <= 26 by {
                assert(t[i] == run[i]);
            }
        }
        lemma_run_stat_bounded(t, d, stat);
        assert(run.last() == run[run.len() - 1]);
    }
}

impl AggregateStats {
    /// Average points of driver `d` in thousandths of a point, rounded down.
    pub fn average_points_thousandths(&self, d: usize) -> (r: u128)
        requires
            d < self.size(),
            self.runs > 0,
        ensures
            r == self.stat(d as int, Stat::Points) * 1000 / self.runs as int,
    {
        let points = self.tallies[d].points as u128;
        points * 1000 / self.runs as u128
    }

    /// Share of runs, in parts per million and rounded down, in which driver
    /// `d` won.
    pub fn win_probability_ppm(&self, d: usize) -> (r: u128)
        requires
            d < self.size(),
            self.runs > 0,
        ensures
            r == self.stat(d as int, Stat::Wins) * 1_000_000 / self.runs as int,
    {
        (self.tallies[d].wins as u128) * 1_000_000 / self.runs as u128
    }

    /// Share of runs, in parts per million and rounded down, in which driver
    /// `d` finished in the top three.
    pub fn podium_probability_ppm(&self, d: usize) -> (r: u128)
        requires
            d < self.size(),
            self.runs > 0,
        ensures
            r == self.stat(d as int, Stat::Podiums) * 1_000_000 / self.runs as int,
    {
        (self.tallies[d].podiums as u128) * 1_000_000 / self.runs as u128
    }
}

/// Over `k` runs of at most `n` capped lines each, no counter exceeds `26 * n * k`.
pub proof fn lemma_runs_stat_bounded(runs: Seq<Seq<Classified>>, n: int, d: int, stat: Stat)
    requires
        n >= 0,
        forall|k: int| 0 <= k < runs.len() ==> points_capped(#[trigger] runs[k]) && runs[k].len() <= n,
    ensures
        0 <= runs_stat(runs, d, stat) <= 26 * n * runs.len(),
    decreases runs.len(),
{
    if runs.len() > 0 {
        let t = runs.drop_last();
        assert forall|k: int| 0 <= k < t.len() implies points_capped(#[trigger] t[k]) && t[k].len() <= n by {
            assert(t[k] == runs[k]);
        }
        lemma_runs_stat_bounded(t, n, d, stat);
        assert(runs.last() == runs[runs.len() - 1]);
        lemma_run_stat_bounded(runs.last(), d, stat);
        assert(26 * runs.last().len() <= 26 * n);
        assert(26 * n * t.len() + 26 * n == 26 * n * runs.len()) by (nonlinear_arith)
            requires t.len() + 1 == runs.len();
    }
}

/// Drivers ranked by total points, most first, ties by driver index.
pub open spec fn ranked_before(points: Seq<u64>, a: usize, b: usize) -> bool {
    points[a as int] > points[b as int] || (points[a as int] == points[b as int] && a < b)
}

impl AggregateStats {
    /// Total points of every driver.
    pub open spec fn points_view(&self) -> Seq<u64> {
        Seq::new(self.tallies@.len(), |d: int| self.tallies@[d].points)
    }

    /// The drivers ordered by average points (the same order as total
    /// points, all drivers having the same number of runs), highest first,
    /// ties by driver index. Every driver appears once.
    pub fn ranking(&self) -> (r: Vec<usize>)
        ensures
            r@.len() == self.size(),
            forall|i: int| 0 <= i < r@.len() ==> (#[trigger] r@[i]) < self.size(),
            forall|i: int, j: int| 0 <= i < j < r@.len() ==> ranked_before(self.points_view(), #[trigger] r@[i], #[trigger] r@[j]),
            forall|d: int| 0 <= d < self.size() ==> #[trigger] r@.contains(d as usize),
    {
        let n = self.tallies.len();
        let ghost pts = self.points_view();
        let mut order: Vec<usize> = Vec::new();
        let mut d: usize = 0;
        while d < n
            invariant
                n == self.tallies@.len(),
                pts == self.points_view(),
                d <= n,
                order@.len() == d,
                forall|i: int| 0 <= i < order@.len() ==> (#[trigger] order@[i]) < d,
                forall|i: int, j: int| 0 <= i < j < order@.len() ==> ranked_before(pts, #[trigger] order@[i], #[trigger] order@[j]),
                forall|e: int| 0 <= e < d ==> #[trigger] order@.contains(e as usize),
            decreases n - d,
        {
            let pd = self.tallies[d].points;
            let mut p: usize = 0;
            while p < order.len() && self.tallies[order[p]].points >= pd
                invariant
                    n == self.tallies@.len(),
                    pts == self.points_view(),
                    d < n,
                    p <= order@.len(),
                    pd == pts[d as int],
                    forall|i: int| 0 <= i < order@.len() ==> (#[trigger] order@[i]) < d,
                    forall|i: int| 0 <= i < p ==> ranked_before(pts, #[trigger] order@[i], d),
                decreases order@.len() - p,
            {
                p = p + 1;
            }
            let ghost before = order@;
            assert forall|i: int| p <= i < before.len() implies ranked_before(pts, d, #[trigger] before[i]) by {
                if i > p {
                    assert(ranked_before(pts, before[p as int], before[i]));
                }
            }
            order.insert(p, d);
            assert forall|i: int, j: int| 0 <= i < j < order@.len() implies ranked_before(pts, #[trigger] order@[i], #[trigger] order@[j]) by {
                let i2 = if i < p { i } else { i - 1 };
                let j2 = if j < p { j } else { j - 1 };
                if i != p && j != p {
                    assert(order@[i] == before[i2] && order@[j] == before[j2]);
                } else if i == p {
                    assert(order@[j] == before[j2]);
                } else {
                    assert(order@[i] == before[i2]);
                }
            }
            assert forall|e: int| 0 <= e < d + 1 implies #[trigger] order@.contains(e as usize) by {
                if e == d {
                    assert(order@[p as int] == d);
                } else {
                    assert(before.contains(e as usize));
                    let i0 = choose|i: int| 0 <= i < before.len() && before[i] == e as usize;
                    if i0 < p {
                        assert(order@[i0] == e as usize);
                    } else {
                        assert(order@[i0 + 1] == e as usize);
                    }
                }
            }
            assert forall|i: int| 0 <= i < order@.len() implies (#[trigger] order@[i]) < d + 1 by {
                if i != p {
                    let i2 = if i < p { i } else { i - 1 };
                    assert(order@[i] == before[i2]);
                }
            }
            d = d + 1;
        }
        order
    }
}

} // verus!
