//! Whole-race evaluation for forecasting: one score per driver for the
//! whole race, mechanical failures, and the classification.
use vstd::prelude::*;
use crate::models::{Circuit, Driver, PositionState, RaceResult, SimulationParameters};
use crate::performance::{
    apply_variation, base_performance, calculate_driver_base_performance, lap_time, lap_time_ns,
    varied_performance, RACE_SPREAD,
};
use crate::grid::{in_grid_order, insert_in_grid_order};
use crate::incidents::{
    base_reliability, fails_mechanically, incident_catalog, incident_description, mechanical_failure_occurs,
    team_reliability,
};
use crate::results::{classification, classify, holds_driver, Classified};
use crate::text::{clock_text, format_duration_ns};
use crate::aggregate::{
    counted, lemma_run_stat_bounded, lemma_runs_stat_bounded, points_capped, run_stat, runs_stat, AggregateStats, Stat,
};
use crate::results::lemma_classification_points_capped;

verus! {

/// Longest race, in laps, whose total time fits the clock.
pub const MAX_RACE_LAPS: u32 = 100_000_000;

/// The draws of one whole-race evaluation, each indexed by driver: score
/// noise, failure draw, the draw that places a retirement lap, and the
/// description draw.
#[derive(Debug, Clone)]
pub struct RunDraws {
    pub noise: Vec<i32>,
    pub failure: Vec<u32>,
    pub retire_lap: Vec<u32>,
    pub cause: Vec<u32>,
}

impl RunDraws {
    /// Every list has one draw per driver.
    pub open spec fn fits(&self, n: int) -> bool {
        &&& self.noise@.len() == n
        &&& self.failure@.len() == n
        &&& self.retire_lap@.len() == n
        &&& self.cause@.len() == n
    }
}

/// Driver `d`'s whole-race entry: its score varied by its noise, total time
/// over all laps at the race spread, and out if its car fails (when
/// incidents are enabled).
pub open spec fn race_entry(drivers: Seq<Driver>, circuit: Circuit, params: SimulationParameters, draws: RunDraws, d: int) -> PositionState {
    let perf = varied_performance(
        base_performance(drivers[d].name@, drivers[d].team@, params.weather_factor as int),
        draws.noise@[d] as int,
    );
    PositionState {
        driver: d as usize,
        performance: perf as u32,
        time_ns: (lap_time(perf, RACE_SPREAD as int) * circuit.laps) as u64,
        active: !(params.random_incidents && fails_mechanically(
            team_reliability(drivers[d].team@), params.reliability_factor as int, draws.failure@[d] as int)),
    }
}

/// The whole-race entries of all drivers in order of total time, ties by
/// driver index.
pub open spec fn is_race_order(o: Seq<PositionState>, drivers: Seq<Driver>, circuit: Circuit, params: SimulationParameters, draws: RunDraws) -> bool {
    &&& o.len() == drivers.len()
    &&& forall|i: int| 0 <= i < o.len() ==> (#[trigger] o[i]).driver < drivers.len()
        && o[i] == race_entry(drivers, circuit, params, draws, o[i].driver as int)
    &&& in_grid_order(o)
    &&& forall|d: int| 0 <= d < drivers.len() ==> #[trigger] holds_driver(o, d)
}

fn race_entry_of(drivers: &[Driver], circuit: &Circuit, params: &SimulationParameters, draws: &RunDraws, d: usize) -> (r: PositionState)
    requires
        d < drivers@.len(),
        draws.fits(drivers@.len() as int),
        circuit.laps <= MAX_RACE_LAPS,
    ensures
        r == race_entry(drivers@, *circuit, *params, *draws, d as int),
{
    let base = calculate_driver_base_performance(&drivers[d], params);
    let perf = apply_variation(base, draws.noise[d]);
    let lap = lap_time_ns(perf, RACE_SPREAD);
    assert(lap as u64 * circuit.laps as u64 <= 108_000_000_000 * 100_000_000) by (nonlinear_arith)
        requires lap <= 108_000_000_000, circuit.laps <= 100_000_000;
    let total = lap * circuit.laps as u64;
    let failed = params.random_incidents && mechanical_failure_occurs(
        base_reliability(drivers[d].team.as_str()), params.reliability_factor, draws.failure[d]);
    PositionState { driver: d, performance: perf, time_ns: total, active: !failed }
}

/// One whole-race evaluation: every driver gets one score for the race
/// (base varied by its noise), a total time, and may retire from a failure
/// draw; drivers are ordered by total time and classified, finishers first.
/// No fastest-lap bonus is given in this mode.
pub fn run_single_simulation(drivers: &[Driver], circuit: &Circuit, params: &SimulationParameters, draws: &RunDraws) -> (r: Vec<Classified>)
    requires
        draws.fits(drivers@.len() as int),
        circuit.laps <= MAX_RACE_LAPS,
        drivers@.len() < 0xffff_ffff,
    ensures
        exists|o: Seq<PositionState>| is_race_order(o, drivers@, *circuit, *params, *draws)
            && r@ == classification(o, None),
{
    let n = drivers.len();
    let mut order: Vec<PositionState> = Vec::new();
    let mut d: usize = 0;
    while d < n
        invariant
            n == drivers@.len(),
            draws.fits(n as int),
            circuit.laps <= MAX_RACE_LAPS,
            d <= n,
            order@.len() == d,
            forall|i: int| 0 <= i < order@.len() ==> (#[trigger] order@[i]).driver < d
                && order@[i] == race_entry(drivers@, *circuit, *params, *draws, order@[i].driver as int),
            in_grid_order(order@),
            forall|e: int| 0 <= e < d ==> #[trigger] holds_driver(order@, e),
        decreases n - d,
    {
        let entry = race_entry_of(drivers, circuit, params, draws, d);
        let ghost before = order@;
        let p = insert_in_grid_order(&mut order, entry);
        assert forall|e: int| 0 <= e < d + 1 implies #[trigger] holds_driver(order@, e) by {
            if e == d {
                assert(order@[p as int].driver == e);
            } else {
                assert(holds_driver(before, e));
                let i0 = choose|i: int| 0 <= i < before.len() && #[trigger] before[i].driver == e;
                if i0 < p {
                    assert(order@[i0].driver == e);
                } else {
                    assert(order@[i0 + 1].driver == e);
                }
            }
        }
        d = d + 1;
    }
    classify(&order, None)
}

/// The lap on which a retirement is placed: uniformly in
/// `[laps / 3, laps - 3)` by the draw, or `laps / 3` when that range is empty.
pub open spec fn retirement_lap_of(laps: int, draw: int) -> int {
    let lo = laps / 3;
    let hi = laps - 3;
    if hi > lo { lo + draw % (hi - lo) } else { lo }
}

/// Places a retirement lap from a draw.
pub fn retirement_lap(laps: u32, draw: u32) -> (r: u32)
    ensures
        r == retirement_lap_of(laps as int, draw as int),
        r <= laps,
{
    let lo = laps / 3;
    if laps >= 3 && laps - 3 > lo {
        lo + draw % (laps - 3 - lo)
    } else {
        lo
    }
}

/// Builds the line shown for one classified driver.
pub fn race_result_of(driver: &Driver, c: &Classified, laps: u32, cause: u32) -> (r: RaceResult)
    ensures
        r.position == c.position,
        r.points == c.points,
        r.laps == laps,
        c.finished ==> r.status@ == "Finished"@ && r.time is Some
            && r.time.unwrap()@ == clock_text(
            (c.time_ns / 60_000_000_000) as nat, ((c.time_ns / 1_000_000_000) % 60) as nat,
            ((c.time_ns / 1_000_000) % 1000) as nat),
        !c.finished ==> r.status@ == incident_catalog()[(cause % 12) as int] && r.time is None,
{
    let (time, status) = if c.finished {
        (Some(format_duration_ns(c.time_ns)), String::from_str("Finished"))
    } else {
        (None, String::from_str(incident_description(cause as usize)))
    };
    RaceResult { position: c.position, driver: driver.clone(), time, points: c.points, laps, status }
}

/// The classification of a whole-race evaluation as result lines: each
/// retiree's laps placed by its retirement-lap draw and its status by its
/// description draw.
pub fn results_for_run(drivers: &[Driver], circuit: &Circuit, draws: &RunDraws, run: &Vec<Classified>) -> (r: Vec<RaceResult>)
    requires
        draws.fits(drivers@.len() as int),
        forall|i: int| 0 <= i < run@.len() ==> (#[trigger] run@[i]).driver < drivers@.len(),
    ensures
        r@.len() == run@.len(),
        forall|i: int| 0 <= i < run@.len() ==> {
            let c = #[trigger] run@[i];
            &&& r@[i].position == c.position
            &&& r@[i].points == c.points
            &&& r@[i].laps == (if c.finished { circuit.laps as int }
                else { retirement_lap_of(circuit.laps as int, draws.retire_lap@[c.driver as int] as int) })
            &&& (c.finished ==> r@[i].status@ == "Finished"@)
            &&& (!c.finished ==> r@[i].status@ == incident_catalog()[(draws.cause@[c.driver as int] % 12) as int])
        },
{
    let mut out: Vec<RaceResult> = Vec::new();
    let mut i: usize = 0;
    while i < run.len()
        invariant
            i <= run@.len(),
            out@.len() == i,
            draws.fits(drivers@.len() as int),
            forall|k: int| 0 <= k < run@.len() ==> (#[trigger] run@[k]).driver < drivers@.len(),
            forall|k: int| 0 <= k < i ==> {
                let c = #[trigger] run@[k];
                &&& out@[k].position == c.position
                &&& out@[k].points == c.points
                &&& out@[k].laps == (if c.finished { circuit.laps as int }
                    else { retirement_lap_of(circuit.laps as int, draws.retire_lap@[c.driver as int] as int) })
                &&& (c.finished ==> out@[k].status@ == "Finished"@)
                &&& (!c.finished ==> out@[k].status@ == incident_catalog()[(draws.cause@[c.driver as int] % 12) as int])
            },
        decreases run@.len() - i,
    {
        let c = run[i];
        let laps = if c.finished { circuit.laps } else { retirement_lap(circuit.laps, draws.retire_lap[c.driver]) };
        out.push(race_result_of(&drivers[c.driver], &c, laps, draws.cause[c.driver]));
        i = i + 1;
    }
    out
}

/// `out` is the classification of a whole-race evaluation with these draws.
pub open spec fn is_run_outcome(out: Seq<Classified>, drivers: Seq<Driver>, circuit: Circuit, params: SimulationParameters, draws: RunDraws) -> bool {
    exists|o: Seq<PositionState>| is_race_order(o, drivers, circuit, params, draws) && out == classification(o, None)
}

/// Runs one whole-race evaluation per entry of `runs` and aggregates the
/// classifications: the result holds exactly the tallies of those runs.
pub fn monte_carlo(drivers: &[Driver], circuit: &Circuit, params: &SimulationParameters, runs: &Vec<RunDraws>) -> (r: AggregateStats)
    requires
        forall|k: int| 0 <= k < runs@.len() ==> (#[trigger] runs@[k]).fits(drivers@.len() as int),
        circuit.laps <= MAX_RACE_LAPS,
        drivers@.len() < 0xffff_ffff,
        runs@.len() * 26 * drivers@.len() < 0xffff_ffff_ffff_ffff,
    ensures
        r.size() == drivers@.len(),
        exists|outs: Seq<Seq<Classified>>| outs.len() == runs@.len()
            && (forall|k: int| 0 <= k < outs.len() ==> is_run_outcome(#[trigger] outs[k], drivers@, *circuit, *params, runs@[k]))
            && r.models(outs),
{
    let n = drivers.len();
    let mut agg = AggregateStats::new(n);
    let ghost mut outs: Seq<Seq<Classified>> = Seq::empty();
    let mut k: usize = 0;
    while k < runs.len()
        invariant
            n == drivers@.len(),
            n < 0xffff_ffff,
            circuit.laps <= MAX_RACE_LAPS,
            forall|j: int| 0 <= j < runs@.len() ==> (#[trigger] runs@[j]).fits(n as int),
            runs@.len() * 26 * n < 0xffff_ffff_ffff_ffff,
            k <= runs@.len(),
            agg.size() == n,
            outs.len() == k,
            forall|j: int| 0 <= j < k ==> is_run_outcome(#[trigger] outs[j], drivers@, *circuit, *params, runs@[j]),
            forall|j: int| 0 <= j < k ==> points_capped(#[trigger] outs[j]) && outs[j].len() <= n,
            agg.models(outs),
        decreases runs@.len() - k,
    {
        let run = run_single_simulation(drivers, circuit, params, &runs[k]);
        let ghost o = choose|o: Seq<PositionState>| is_race_order(o, drivers@, *circuit, *params, runs@[k as int])
            && run@ == classification(o, None);
        proof {
            lemma_classification_points_capped(o, None);
            assert(points_capped(run@));
            assert forall|d: int, stat: Stat| 0 <= d < agg.size() && counted(stat, agg.size())
                implies #[trigger] agg.stat(d, stat) + run_stat(run@, d, stat) <= 0xffff_ffff_ffff_ffff by {
                lemma_runs_stat_bounded(outs, n as int, d, stat);
                lemma_run_stat_bounded(run@, d, stat);
                assert(26 * n * k + 26 * n <= runs@.len() * 26 * n) by (nonlinear_arith)
                    requires k + 1 <= runs@.len();
            }
        }
        agg.record_run(&run);
        proof {
            let next = outs.push(run@);
            assert forall|d: int, stat: Stat| 0 <= d < agg.size() && counted(stat, agg.size())
                implies #[trigger] agg.stat(d, stat) == runs_stat(next, d, stat) by {
                assert(next.drop_last() == outs);
            }
            assert forall|j: int| 0 <= j < k + 1 implies is_run_outcome(#[trigger] next[j], drivers@, *circuit, *params, runs@[j]) by {
                if j == k {
                    assert(next[j] == run@);
                } else {
                    assert(next[j] == outs[j]);
                }
            }
            assert forall|j: int| 0 <= j < k + 1 implies points_capped(#[trigger] next[j]) && next[j].len() <= n by {
                if j < k {
                    assert(next[j] == outs[j]);
                }
            }
            outs = next;
        }
        k = k + 1;
    }
    agg
}

} // verus!
