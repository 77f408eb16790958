//! A whole race run lap by lap: grid, laps with incidents, fastest lap.
use vstd::prelude::*;
use crate::models::{Circuit, Driver, PositionState, RaceResult, SimulationParameters};
use crate::performance::{base_performance, calculate_driver_base_performance};
use crate::grid::{initialize_driver_positions, is_grid};
use crate::lap::{fastest_after, lap_keeps, lap_pass, lemma_lap_pass_keeps, scores_in_range, update_fastest_lap, update_race_positions};
use crate::incidents::{
    after_incidents, check_for_incidents, drivers_known, incident_catalog, incident_description, new_retirements,
    Retirement,
};
use crate::results::{classification, classified_order, classify, distinct_drivers, finishers, retirees, Classified};
use crate::results::{holds_driver, lemma_split_len, lemma_split_members};
use crate::text::{decimal, decimal_string, padded_decimal, zero_padded};

verus! {

/// Laps before this one see no incidents.
pub const WARM_UP_LAPS: u32 = 5;

/// The draws one lap consumes, each indexed by running-order slot: the
/// score noise and the overtake draw of the resampling pass, and the
/// failure, incident and description draws of the incident model.
#[derive(Debug, Clone)]
pub struct LapDraws {
    pub noise: Vec<i32>,
    pub overtake: Vec<u32>,
    pub failure: Vec<u32>,
    pub crash: Vec<u32>,
    pub cause: Vec<u32>,
}

impl LapDraws {
    /// Every list has one draw per slot.
    pub open spec fn fits(&self, n: int) -> bool {
        &&& self.noise@.len() == n
        &&& self.overtake@.len() == n
        &&& self.failure@.len() == n
        &&& self.crash@.len() == n
        &&& self.cause@.len() == n
    }
}

/// The state of a race between laps.
#[derive(Debug, Clone)]
pub struct RaceState {
    pub positions: Vec<PositionState>,
    pub retirements: Vec<Retirement>,
    pub fastest_lap: Option<(usize, u64)>,
}

/// The mathematical state of a race: running order, retirements, record.
pub type RaceModel = (Seq<PositionState>, Seq<Retirement>, Option<(usize, u64)>);

impl RaceState {
    pub open spec fn model(&self) -> RaceModel {
        (self.positions@, self.retirements@, self.fastest_lap)
    }
}

/// Incidents are checked when enabled and past the warm-up laps.
pub open spec fn incidents_on(params: SimulationParameters, lap: u32) -> bool {
    params.random_incidents && lap > WARM_UP_LAPS
}

/// One lap: resampling and overtakes, then incidents, then the record.
pub open spec fn lap_result(
    drivers: Seq<Driver>,
    params: SimulationParameters,
    base: Seq<u32>,
    st: RaceModel,
    lap: u32,
    d: LapDraws,
) -> RaceModel {
    let moved = lap_pass(st.0, st.0.len(), base, d.noise@, d.overtake@);
    let (after, retired) = if incidents_on(params, lap) {
        (after_incidents(drivers, params, moved, d.failure@, d.crash@),
         st.1 + new_retirements(drivers, params, moved, moved.len(), lap, d.failure@, d.crash@, d.cause@))
    } else {
        (moved, st.1)
    };
    (after, retired, fastest_after(after, after.len(), st.2))
}

/// The state after the first `k` laps, lap numbers counting from one.
pub open spec fn race_after(
    drivers: Seq<Driver>,
    params: SimulationParameters,
    base: Seq<u32>,
    init: RaceModel,
    draws: Seq<LapDraws>,
    k: nat,
) -> RaceModel
    decreases k,
{
    if k == 0 {
        init
    } else {
        lap_result(drivers, params, base,
            race_after(drivers, params, base, init, draws, (k - 1) as nat), k as u32, draws[k - 1])
    }
}

/// What any stretch of a race keeps: the number of entries, every retired
/// entry frozen in place, and no entry becoming active again.
pub open spec fn race_keeps(s: Seq<PositionState>, t: Seq<PositionState>) -> bool {
    &&& t.len() == s.len()
    &&& forall|i: int| 0 <= i < s.len() && !s[i].active ==> #[trigger] t[i] == s[i]
    &&& forall|i: int| 0 <= i < s.len() && (#[trigger] t[i]).active ==> s[i].active
    &&& distinct_drivers(s) ==> distinct_drivers(t)
    &&& scores_in_range(s) ==> scores_in_range(t)
}

/// State that a race run can continue from.
pub open spec fn race_ready(st: RaceModel, n: int) -> bool {
    &&& drivers_known(st.0, n)
    &&& scores_in_range(st.0)
}

proof fn lemma_lap_keeps_known(s: Seq<PositionState>, t: Seq<PositionState>, n: int)
    requires
        lap_keeps(s, t),
        drivers_known(s, n),
    ensures
        drivers_known(t, n),
{
    assert forall|i: int| 0 <= i < t.len() implies (#[trigger] t[i]).driver < n by {
        assert(holds_driver(s, t[i].driver as int));
        let j = choose|j: int| 0 <= j < s.len() && #[trigger] s[j].driver == t[i].driver as int;
        assert(s[j].driver < n);
    }
}

proof fn lemma_lap_result_keeps(
    drivers: Seq<Driver>,
    params: SimulationParameters,
    base: Seq<u32>,
    st: RaceModel,
    lap: u32,
    d: LapDraws,
)
    requires
        race_ready(st, drivers.len() as int),
        d.fits(st.0.len() as int),
    ensures
        race_keeps(st.0, lap_result(drivers, params, base, st, lap, d).0),
        race_ready(lap_result(drivers, params, base, st, lap, d), drivers.len() as int),
{
    let moved = lap_pass(st.0, st.0.len(), base, d.noise@, d.overtake@);
    lemma_lap_pass_keeps(st.0, st.0.len(), base, d.noise@, d.overtake@);
    lemma_lap_keeps_known(st.0, moved, drivers.len() as int);
    if incidents_on(params, lap) {
        let after = after_incidents(drivers, params, moved, d.failure@, d.crash@);
        assert forall|i: int| 0 <= i < after.len() implies (#[trigger] after[i]).driver == moved[i].driver
            && after[i].performance == moved[i].performance
            && (after[i].active ==> moved[i].active)
            && (!moved[i].active ==> after[i] == moved[i]) by {
        }
        if distinct_drivers(st.0) {
            assert forall|a: int, b: int| 0 <= a < after.len() && 0 <= b < after.len() && a != b
                implies #[trigger] after[a].driver != #[trigger] after[b].driver by {
                assert(after[a].driver == moved[a].driver && after[b].driver == moved[b].driver);
            }
        }
        assert forall|i: int| 0 <= i < after.len() implies 1 <= (#[trigger] after[i]).performance <= 1_000_000 by {
            assert(after[i].performance == moved[i].performance);
        }
        assert forall|i: int| 0 <= i < after.len() implies (#[trigger] after[i]).driver < drivers.len() by {
            assert(after[i].driver == moved[i].driver);
        }
    }
}

/// Any stretch of laps keeps the number of entries, freezes retired
/// entries and never brings one back: the state after lap `k` relates so
/// to the state after any earlier lap `j`.
pub proof fn lemma_race_keeps(
    drivers: Seq<Driver>,
    params: SimulationParameters,
    base: Seq<u32>,
    init: RaceModel,
    draws: Seq<LapDraws>,
    j: nat,
    k: nat,
)
    requires
        race_ready(init, drivers.len() as int),
        j <= k <= draws.len(),
        forall|l: int| 0 <= l < draws.len() ==> (#[trigger] draws[l]).fits(init.0.len() as int),
    ensures
        race_keeps(race_after(drivers, params, base, init, draws, j).0, race_after(drivers, params, base, init, draws, k).0),
        race_ready(race_after(drivers, params, base, init, draws, k), drivers.len() as int),
        race_after(drivers, params, base, init, draws, k).0.len() == init.0.len(),
    decreases k,
{
    let sj = race_after(drivers, params, base, init, draws, j).0;
    if k == 0 {
        assert(race_keeps(sj, sj));
    } else {
        let prev = race_after(drivers, params, base, init, draws, (k - 1) as nat);
        lemma_race_keeps(drivers, params, base, init, draws, (k - 1) as nat, (k - 1) as nat);
        assert(draws[k - 1].fits(init.0.len() as int));
        lemma_lap_result_keeps(drivers, params, base, prev, k as u32, draws[k - 1]);
        if j == k {
            let sk = race_after(drivers, params, base, init, draws, k).0;
            assert(race_keeps(sk, sk));
        } else {
            lemma_race_keeps(drivers, params, base, init, draws, j, (k - 1) as nat);
        }
    }
}

/// Plays one lap on a race state: resampling and overtakes, then, when
/// incidents are enabled and the warm-up is over, the incident model, then
/// the fastest-lap record.
pub fn advance_lap(
    drivers: &[Driver],
    state: &mut RaceState,
    base: &Vec<u32>,
    lap: u32,
    params: &SimulationParameters,
    draws: &LapDraws,
)
    requires
        race_ready(old(state).model(), drivers@.len() as int),
        draws.fits(old(state).positions@.len() as int),
    ensures
        final(state).model() == lap_result(drivers@, *params, base@, old(state).model(), lap, *draws),
        race_ready(final(state).model(), drivers@.len() as int),
        race_keeps(old(state).positions@, final(state).positions@),
{
    proof {
        lemma_lap_result_keeps(drivers@, *params, base@, state.model(), lap, *draws);
    }
    let ghost moved = lap_pass(state.positions@, state.positions@.len(), base@, draws.noise@, draws.overtake@);
    proof {
        lemma_lap_pass_keeps(state.positions@, state.positions@.len(), base@, draws.noise@, draws.overtake@);
        lemma_lap_keeps_known(state.positions@, moved, drivers@.len() as int);
    }
    update_race_positions(&mut state.positions, base, &draws.noise, &draws.overtake);
    if params.random_incidents && lap > WARM_UP_LAPS {
        check_for_incidents(drivers, &mut state.positions, &mut state.retirements, lap, params,
            &draws.failure, &draws.crash, &draws.cause);
    }
    update_fastest_lap(&state.positions, lap, &mut state.fastest_lap);
}

/// Base scores of all drivers, by driver index.
pub fn base_performances(drivers: &[Driver], params: &SimulationParameters) -> (r: Vec<u32>)
    ensures
        r@.len() == drivers@.len(),
        forall|d: int| 0 <= d < drivers@.len() ==> #[trigger] r@[d]
            == base_performance(drivers@[d].name@, drivers@[d].team@, params.weather_factor as int),
{
    let mut r: Vec<u32> = Vec::new();
    let mut d: usize = 0;
    while d < drivers.len()
        invariant
            d <= drivers@.len(),
            r@.len() == d,
            forall|k: int| 0 <= k < d ==> #[trigger] r@[k]
                == base_performance(drivers@[k].name@, drivers@[k].team@, params.weather_factor as int),
        decreases drivers@.len() - d,
    {
        r.push(calculate_driver_base_performance(&drivers[d], params));
        d = d + 1;
    }
    r
}

/// Runs a race over every lap of the circuit: the grid from the qualifying
/// noise, then for each lap `1..=laps` the lap's draws (`lap_draws[lap - 1]`).
/// The final state is the grid advanced lap by lap; the running order keeps
/// every driver, and retired entries stay frozen.
pub fn run_race(
    drivers: &[Driver],
    circuit: &Circuit,
    params: &SimulationParameters,
    quali_noise: &[i32],
    lap_draws: &Vec<LapDraws>,
) -> (r: RaceState)
    requires
        quali_noise@.len() == drivers@.len(),
        lap_draws@.len() == circuit.laps,
        forall|l: int| 0 <= l < lap_draws@.len() ==> (#[trigger] lap_draws@[l]).fits(drivers@.len() as int),
    ensures
        exists|g: Seq<PositionState>, base: Seq<u32>|
            is_grid(g, drivers@, *params, quali_noise@)
            && base.len() == drivers@.len()
            && (forall|d: int| 0 <= d < drivers@.len() ==> #[trigger] base[d]
                == base_performance(drivers@[d].name@, drivers@[d].team@, params.weather_factor as int))
            && r.model() == race_after(drivers@, *params, base, (g, Seq::empty(), None), lap_draws@, circuit.laps as nat)
            && race_keeps(g, r.positions@),
        r.positions@.len() == drivers@.len(),
        distinct_drivers(r.positions@),
        drivers_known(r.positions@, drivers@.len() as int),
{
    let grid = initialize_driver_positions(drivers, params, quali_noise);
    let base = base_performances(drivers, params);
    let ghost g = grid@;
    let mut state = RaceState { positions: grid, retirements: Vec::new(), fastest_lap: None };
    let ghost init = state.model();
    assert(race_ready(init, drivers@.len() as int));
    let mut lap: u32 = 0;
    while lap < circuit.laps
        invariant
            lap <= circuit.laps,
            lap_draws@.len() == circuit.laps,
            forall|l: int| 0 <= l < lap_draws@.len() ==> (#[trigger] lap_draws@[l]).fits(drivers@.len() as int),
            g.len() == drivers@.len(),
            distinct_drivers(g),
            race_ready(init, drivers@.len() as int),
            init.0 == g,
            state.model() == race_after(drivers@, *params, base@, init, lap_draws@, lap as nat),
        decreases circuit.laps - lap,
    {
        proof {
            lemma_race_keeps(drivers@, *params, base@, init, lap_draws@, 0, lap as nat);
        }
        advance_lap(drivers, &mut state, &base, lap + 1, params, &lap_draws[lap as usize]);
        lap = lap + 1;
    }
    proof {
        lemma_race_keeps(drivers@, *params, base@, init, lap_draws@, 0, lap as nat);
    }
    state
}

/// The first retirement recorded for driver `d`.
pub open spec fn retirement_of(rets: Seq<Retirement>, d: usize) -> Option<Retirement>
    decreases rets.len(),
{
    if rets.len() == 0 {
        None
    } else if rets[0].driver == d {
        Some(rets[0])
    } else {
        retirement_of(rets.subrange(1, rets.len() as int), d)
    }
}

fn find_retirement(rets: &Vec<Retirement>, d: usize) -> (r: Option<Retirement>)
    ensures
        r == retirement_of(rets@, d),
{
    let mut k: usize = 0;
    assert(rets@.subrange(0, rets@.len() as int) == rets@);
    while k < rets.len()
        invariant
            k <= rets@.len(),
            retirement_of(rets@.subrange(k as int, rets@.len() as int), d) == retirement_of(rets@, d),
        decreases rets@.len() - k,
    {
        let ghost rest = rets@.subrange(k as int, rets@.len() as int);
        assert(rest[0] == rets@[k as int]);
        if rets[k].driver == d {
            return Some(rets[k]);
        }
        assert(rest.subrange(1, rest.len() as int) == rets@.subrange(k + 1, rets@.len() as int));
        k = k + 1;
    }
    None
}

/// The gap shown for a finisher: 2.5 s per place behind the winner, as
/// `+s.mmms`.
pub open spec fn gap_text(position: nat) -> Seq<char> {
    let ms: nat = if position == 0 { 0 } else { ((position - 1) * 2500) as nat };
    seq!['+'] + decimal(ms / 1000) + seq!['.'] + zero_padded(decimal(ms % 1000), 3) + seq!['s']
}

fn gap_string(position: u32) -> (r: String)
    ensures
        r@ == gap_text(position as nat),
{
    let ms: u64 = if position == 0 { 0 } else { (position as u64 - 1) * 2500 };
    let mut out = String::from_str("+");
    out.append(decimal_string(ms / 1000).as_str());
    out.append(".");
    out.append(padded_decimal(ms % 1000, 3).as_str());
    out.append("s");
    proof {
        reveal_strlit("+");
        reveal_strlit(".");
        reveal_strlit("s");
    }
    assert(out@ =~= gap_text(position as nat));
    out
}

/// The result line of one classified driver of a lap-by-lap race.
pub open spec fn final_line_ok(r: RaceResult, c: Classified, rets: Seq<Retirement>, laps: u32) -> bool {
    &&& r.position == c.position
    &&& r.points == c.points
    &&& (c.finished ==> r.status@ == "Finished"@ && r.laps == laps
        && r.time is Some && r.time.unwrap()@ == gap_text(c.position as nat))
    &&& (!c.finished ==> r.time is None && match retirement_of(rets, c.driver) {
        Some(ret) => r.status@ == incident_catalog()[(ret.cause % 12) as int] && r.laps == ret.lap,
        None => r.status@ == "Retired"@ && r.laps == 0,
    })
}

/// The final classification of a lap-by-lap race as result lines: finishers
/// ranked in running order with points (and the fastest-lap bonus), their
/// gap to the winner, and the full distance; retirees after them with no
/// time, the lap they stopped on, and the description of their retirement.
pub fn final_results(drivers: &[Driver], state: &RaceState, laps: u32) -> (r: Vec<RaceResult>)
    requires
        drivers_known(state.positions@, drivers@.len() as int),
        state.positions@.len() < 0xffff_ffff,
    ensures
        r@.len() == state.positions@.len(),
        forall|i: int| 0 <= i < r@.len() ==> final_line_ok(#[trigger] r@[i],
            classification(state.positions@, match state.fastest_lap { Some(f) => Some(f.0), None => None })[i],
            state.retirements@, laps),
{
    let holder = match state.fastest_lap { Some(f) => Some(f.0), None => None };
    let lines = classify(&state.positions, holder);
    let mut out: Vec<RaceResult> = Vec::new();
    let mut i: usize = 0;
    while i < lines.len()
        invariant
            lines@ == classification(state.positions@, holder),
            drivers_known(state.positions@, drivers@.len() as int),
            i <= lines@.len(),
            out@.len() == i,
            forall|k: int| 0 <= k < i ==> final_line_ok(#[trigger] out@[k], lines@[k], state.retirements@, laps),
        decreases lines@.len() - i,
    {
        let c = lines[i];
        proof {
            lemma_classified_drivers_known(state.positions@, drivers@.len() as int);
        }
        let line = if c.finished {
            RaceResult {
                position: c.position,
                driver: drivers[c.driver].clone(),
                time: Some(gap_string(c.position)),
                points: c.points,
                laps,
                status: String::from_str("Finished"),
            }
        } else {
            let (status, stopped) = match find_retirement(&state.retirements, c.driver) {
                Some(ret) => (String::from_str(incident_description(ret.cause)), ret.lap),
                None => (String::from_str("Retired"), 0),
            };
            RaceResult { position: c.position, driver: drivers[c.driver].clone(), time: None, points: c.points, laps: stopped, status }
        };
        out.push(line);
        i = i + 1;
    }
    out
}

proof fn lemma_classified_drivers_known(s: Seq<PositionState>, n: int)
    requires
        drivers_known(s, n),
    ensures
        forall|k: int| 0 <= k < s.len() ==> (#[trigger] classified_order(s)[k]).driver < n,
{
    lemma_split_len(s);
    lemma_split_members(s);
    assert forall|k: int| 0 <= k < s.len() implies (#[trigger] classified_order(s)[k]).driver < n by {
        let f = finishers(s);
        let t = retirees(s);
        let x = classified_order(s)[k];
        if k < f.len() {
            assert(x == f[k]);
            assert(s.contains(f[k]));
        } else {
            assert(x == t[k - f.len()]);
            assert(s.contains(t[k - f.len()]));
        }
        let j = choose|j: int| 0 <= j < s.len() && s[j] == x;
        assert(s[j].driver < n);
    }
}

/// How a lap-by-lap display paces itself after a lap.
#[derive(Debug, Clone, Copy, PartialEq, Eq, Structural)]
pub enum Pause {
    /// The race is over: no pause.
    Done,
    /// Wait for the user to continue.
    ForUser,
    /// A short pause for the feel of a race.
    Brief,
}

/// Pacing after `lap` of `total`: the user is asked to continue every tenth
/// lap and before the last one, other laps pause briefly, and the last lap
/// ends the race.
pub fn pause_after_lap(lap: u32, total: u32) -> (r: Pause)
    ensures
        lap >= total ==> r == Pause::Done,
        lap < total && (lap % 10 == 0 || lap + 1 == total) ==> r == Pause::ForUser,
        lap < total && lap % 10 != 0 && lap + 1 != total ==> r == Pause::Brief,
{
    if lap >= total {
        Pause::Done
    } else if lap % 10 == 0 || lap == total - 1 {
        Pause::ForUser
    } else {
        Pause::Brief
    }
}

} // verus!
