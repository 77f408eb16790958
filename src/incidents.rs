//! The incident model: mechanical failures and racing incidents, decided
//! from uniform draws in parts per million.
use vstd::prelude::*;
use crate::models::{Driver, PositionState, SimulationParameters};
use crate::text::{contains, lowercase, lowercase_of, seq_contains};
use rand::Rng;

verus! {

/// Relies on `rand::thread_rng` and `Rng::gen_range` over `0..bound`, which
/// returns a value of that range and panics only on an empty one.
#[verifier::external_body]
pub(crate) fn draw_below(bound: u32) -> (r: u32)
    requires
        bound > 0,
    ensures
        r < bound,
{
    rand::thread_rng().gen_range(0..bound)
}

/// Base reliability of a team, in thousandths, by substring of its
/// lower-cased name; 920 for an unrecognised team.
pub open spec fn reliability_of_lowered(t: Seq<char>) -> int {
    if seq_contains(t, "mercedes"@) { 950 }
    else if seq_contains(t, "red bull"@) { 960 }
    else if seq_contains(t, "ferrari"@) { 940 }
    else if seq_contains(t, "mclaren"@) { 950 }
    else if seq_contains(t, "aston martin"@) { 930 }
    else if seq_contains(t, "alpine"@) { 920 }
    else if seq_contains(t, "williams"@) { 910 }
    else if seq_contains(t, "haas"@) { 900 }
    else if seq_contains(t, "alfa"@) || seq_contains(t, "sauber"@) { 900 }
    else { 920 }
}

/// Base reliability of a team, in thousandths.
pub open spec fn team_reliability(team: Seq<char>) -> int {
    reliability_of_lowered(lowercase_of(team))
}

/// A mechanical failure happens when the draw falls under
/// `(1 - reliability) / reliability_factor`.
pub open spec fn fails_mechanically(reliability: int, reliability_factor: int, draw: int) -> bool {
    draw * reliability_factor < (1000 - reliability) * 1_000_000
}

/// A racing incident happens when the draw falls under
/// `0.0005 * (3 if weather < 0.8 else 1) / reliability_factor`.
pub open spec fn has_racing_incident(weather: int, reliability_factor: int, draw: int) -> bool {
    draw * reliability_factor < 500_000 * (if weather < 800 { 3int } else { 1int })
}

proof fn lemma_product_fits(a: u32, b: u32)
    ensures
        (a as u64) * (b as u64) <= 0xffff_ffff_ffff_ffff,
{
    assert((a as u64) * (b as u64) <= 0xffff_ffff * 0xffff_ffff) by (nonlinear_arith)
        requires a <= 0xffff_ffff, b <= 0xffff_ffff;
}

/// Base reliability of an already lower-cased team name.
pub fn base_reliability_for_lowered(lowered: &str) -> (r: u32)
    ensures
        r == reliability_of_lowered(lowered@),
        900 <= r <= 960,
{
    if contains(lowered, "mercedes") { 950 }
    else if contains(lowered, "red bull") { 960 }
    else if contains(lowered, "ferrari") { 940 }
    else if contains(lowered, "mclaren") { 950 }
    else if contains(lowered, "aston martin") { 930 }
    else if contains(lowered, "alpine") { 920 }
    else if contains(lowered, "williams") { 910 }
    else if contains(lowered, "haas") { 900 }
    else if contains(lowered, "alfa") || contains(lowered, "sauber") { 900 }
    else { 920 }
}

/// Base reliability of a team by name, matched without regard to case.
pub fn base_reliability(team: &str) -> (r: u32)
    ensures
        r == team_reliability(team@),
        900 <= r <= 960,
{
    let lowered = lowercase(team);
    base_reliability_for_lowered(lowered.as_str())
}

/// Whether a draw (parts per million) gives a mechanical failure.
pub fn mechanical_failure_occurs(reliability: u32, reliability_factor: u32, draw: u32) -> (r: bool)
    requires
        reliability <= 1000,
    ensures
        r == fails_mechanically(reliability as int, reliability_factor as int, draw as int),
{
    proof { lemma_product_fits(draw, reliability_factor); }
    (draw as u64) * (reliability_factor as u64) < ((1000 - reliability) as u64) * 1_000_000
}

/// Whether a draw (parts per million) gives a racing incident.
pub fn racing_incident_occurs(weather_factor: u32, reliability_factor: u32, draw: u32) -> (r: bool)
    ensures
        r == has_racing_incident(weather_factor as int, reliability_factor as int, draw as int),
{
    let severity: u64 = if weather_factor < 800 { 3 } else { 1 };
    proof { lemma_product_fits(draw, reliability_factor); }
    (draw as u64) * (reliability_factor as u64) < 500_000 * severity
}

/// Draws whether a driver's car fails on this lap. Whatever the draw, the
/// answer is the one `mechanical_failure_occurs` gives for some uniform
/// draw in parts per million.
pub fn simulate_mechanical_failure(driver: &Driver, reliability_factor: u32) -> (r: bool)
    ensures
        exists|d: int| 0 <= d < 1_000_000
            && r == fails_mechanically(team_reliability(driver.team@), reliability_factor as int, d),
{
    let reliability = base_reliability(driver.team.as_str());
    let draw = draw_below(1_000_000);
    mechanical_failure_occurs(reliability, reliability_factor, draw)
}

/// The catalog of retirement descriptions.
pub open spec fn incident_catalog() -> Seq<Seq<char>> {
    seq![
        "Lost control in the corner"@,
        "Collision with another driver"@,
        "Puncture"@,
        "Engine failure"@,
        "Brake failure"@,
        "Hydraulic issue"@,
        "Electrical problem"@,
        "Gearbox failure"@,
        "Power unit issue"@,
        "Suspension damage"@,
        "Fuel pressure problem"@,
        "Cooling system issue"@,
    ]
}

/// Number of descriptions in the catalog.
pub const INCIDENT_KINDS: usize = 12;

/// The catalog entry chosen by a draw.
pub fn incident_description(draw: usize) -> (r: &'static str)
    ensures
        r@ == incident_catalog()[(draw % 12) as int],
{
    let k = draw % INCIDENT_KINDS;
    if k == 0 { "Lost control in the corner" }
    else if k == 1 { "Collision with another driver" }
    else if k == 2 { "Puncture" }
    else if k == 3 { "Engine failure" }
    else if k == 4 { "Brake failure" }
    else if k == 5 { "Hydraulic issue" }
    else if k == 6 { "Electrical problem" }
    else if k == 7 { "Gearbox failure" }
    else if k == 8 { "Power unit issue" }
    else if k == 9 { "Suspension damage" }
    else if k == 10 { "Fuel pressure problem" }
    else { "Cooling system issue" }
}

/// A random description from the catalog.
pub fn get_random_incident() -> (r: &'static str)
    ensures
        exists|k: int| 0 <= k < 12 && r@ == incident_catalog()[k],
{
    let k = draw_below(INCIDENT_KINDS as u32);
    incident_description(k as usize)
}

/// A retirement: who, on which lap, and the catalog entry that describes it.
#[derive(Debug, Clone, Copy, PartialEq, Eq)]
pub struct Retirement {
    pub driver: usize,
    pub lap: u32,
    pub cause: usize,
}

/// Whether the entry at slot `i` retires on this lap: it is active, and
/// either its car fails or, failing that, it has a racing incident.
pub open spec fn retires_at(
    drivers: Seq<Driver>,
    params: SimulationParameters,
    s: Seq<PositionState>,
    i: int,
    failure: Seq<u32>,
    crash: Seq<u32>,
) -> bool {
    s[i].active && (
        fails_mechanically(team_reliability(drivers[s[i].driver as int].team@), params.reliability_factor as int, failure[i] as int)
        || has_racing_incident(params.weather_factor as int, params.reliability_factor as int, crash[i] as int))
}

/// The retirements recorded over the first `k` slots, in running order.
pub open spec fn new_retirements(
    drivers: Seq<Driver>,
    params: SimulationParameters,
    s: Seq<PositionState>,
    k: nat,
    lap: u32,
    failure: Seq<u32>,
    crash: Seq<u32>,
    cause: Seq<u32>,
) -> Seq<Retirement>
    decreases k,
{
    if k == 0 {
        Seq::empty()
    } else {
        let prev = new_retirements(drivers, params, s, (k - 1) as nat, lap, failure, crash, cause);
        let i = k - 1;
        if retires_at(drivers, params, s, i, failure, crash) {
            prev.push(Retirement { driver: s[i].driver, lap, cause: (cause[i] % 12) as usize })
        } else {
            prev
        }
    }
}

/// The running order after this lap's incidents: retiring entries lose
/// their active flag and stay in place.
pub open spec fn after_incidents(
    drivers: Seq<Driver>,
    params: SimulationParameters,
    s: Seq<PositionState>,
    failure: Seq<u32>,
    crash: Seq<u32>,
) -> Seq<PositionState> {
    Seq::new(s.len(), |i: int|
        if retires_at(drivers, params, s, i, failure, crash) { PositionState { active: false, ..s[i] } } else { s[i] })
}

/// Every entry names a known driver.
pub open spec fn drivers_known(s: Seq<PositionState>, n: int) -> bool {
    forall|i: int| 0 <= i < s.len() ==> (#[trigger] s[i]).driver < n
}

/// Runs the incident model for one lap. For each active entry, in running
/// order: a mechanical failure is decided from `failure_draws` at its slot,
/// then, if the car did not fail, a racing incident from `crash_draws`.
/// An entry that retires is marked inactive in place and recorded with the
/// lap and the catalog entry chosen by `cause_draws`. Retired entries are
/// skipped, so nobody retires twice.
pub fn check_for_incidents(
    drivers: &[Driver],
    positions: &mut Vec<PositionState>,
    dnf_drivers: &mut Vec<Retirement>,
    current_lap: u32,
    params: &SimulationParameters,
    failure_draws: &Vec<u32>,
    crash_draws: &Vec<u32>,
    cause_draws: &Vec<u32>,
)
    requires
        drivers_known(old(positions)@, drivers@.len() as int),
        failure_draws.len() == old(positions).len(),
        crash_draws.len() == old(positions).len(),
        cause_draws.len() == old(positions).len(),
    ensures
        final(positions)@ == after_incidents(drivers@, *params, old(positions)@, failure_draws@, crash_draws@),
        final(dnf_drivers)@ == old(dnf_drivers)@ + new_retirements(drivers@, *params, old(positions)@,
            old(positions)@.len(), current_lap, failure_draws@, crash_draws@, cause_draws@),
{
    let ghost s0 = positions@;
    let ghost d0 = dnf_drivers@;
    let n = positions.len();
    let mut i: usize = 0;
    while i < n
        invariant
            n == s0.len(),
            positions@.len() == n,
            drivers_known(s0, drivers@.len() as int),
            failure_draws@.len() == n,
            crash_draws@.len() == n,
            cause_draws@.len() == n,
            i <= n,
            forall|k: int| 0 <= k < i ==> #[trigger] positions@[k]
                == after_incidents(drivers@, *params, s0, failure_draws@, crash_draws@)[k],
            forall|k: int| i <= k < n ==> #[trigger] positions@[k] == s0[k],
            dnf_drivers@ == d0 + new_retirements(drivers@, *params, s0, i as nat, current_lap, failure_draws@, crash_draws@, cause_draws@),
        decreases n - i,
    {
        let e = positions[i];
        if e.active {
            let reliability = base_reliability(drivers[e.driver].team.as_str());
            let failed = mechanical_failure_occurs(reliability, params.reliability_factor, failure_draws[i]);
            let crashed = !failed && racing_incident_occurs(params.weather_factor, params.reliability_factor, crash_draws[i]);
            if failed || crashed {
                let mut off = e;
                off.active = false;
                positions.set(i, off);
                dnf_drivers.push(Retirement {
                    driver: e.driver,
                    lap: current_lap,
                    cause: (cause_draws[i] % 12) as usize,
                });
            }
        }
        proof {
            let ghost nr = new_retirements(drivers@, *params, s0, (i + 1) as nat, current_lap, failure_draws@, crash_draws@, cause_draws@);
            assert(dnf_drivers@ =~= d0 + nr);
        }
        i = i + 1;
    }
    assert(positions@ =~= after_incidents(drivers@, *params, s0, failure_draws@, crash_draws@));
}

/// With the same draws, a lower reliability factor retires every driver
/// that a higher one retires.
pub proof fn lemma_lower_reliability_retires_more(
    drivers: Seq<Driver>,
    low: SimulationParameters,
    high: SimulationParameters,
    s: Seq<PositionState>,
    i: int,
    failure: Seq<u32>,
    crash: Seq<u32>,
)
    requires
        low.reliability_factor <= high.reliability_factor,
        low.weather_factor == high.weather_factor,
        retires_at(drivers, high, s, i, failure, crash),
    ensures
        retires_at(drivers, low, s, i, failure, crash),
{
    let lo = low.reliability_factor as int;
    let hi = high.reliability_factor as int;
    let f = failure[i] as int;
    let c = crash[i] as int;
    assert(f * lo <= f * hi) by (nonlinear_arith)
        requires f >= 0, lo <= hi;
    assert(c * lo <= c * hi) by (nonlinear_arith)
        requires c >= 0, lo <= hi;
}

} // verus!
