//! Replays of historical sessions: which session was asked for, who did not
//! finish, and a plausible lap-by-lap progression towards a known result.
use vstd::prelude::*;
use crate::models::RaceResult;
use crate::text::{lowercase, lowercase_of, contains, seq_contains, text_eq};

verus! {

/// A session of a race weekend.
#[derive(Debug, Clone, Copy, PartialEq, Eq)]
pub enum Session {
    Race,
    Qualifying,
    Practice(u32),
}

/// The session a (lower-cased) name asks for.
pub open spec fn session_of_lowered(s: Seq<char>) -> Option<Session> {
    if s == "race"@ { Some(Session::Race) }
    else if s == "qualifying"@ { Some(Session::Qualifying) }
    else if s == "practice"@ || s == "fp1"@ || s == "practice1"@ { Some(Session::Practice(1)) }
    else if s == "fp2"@ || s == "practice2"@ { Some(Session::Practice(2)) }
    else if s == "fp3"@ || s == "practice3"@ { Some(Session::Practice(3)) }
    else { None }
}

/// Reads a session name, without regard to case; `None` for an unknown one.
pub fn parse_session(session: &str) -> (r: Option<Session>)
    ensures
        r == session_of_lowered(lowercase_of(session@)),
{
    let lowered = lowercase(session);
    let s = lowered.as_str();
    if text_eq(s, "race") { Some(Session::Race) }
    else if text_eq(s, "qualifying") { Some(Session::Qualifying) }
    else if text_eq(s, "practice") || text_eq(s, "fp1") || text_eq(s, "practice1") { Some(Session::Practice(1)) }
    else if text_eq(s, "fp2") || text_eq(s, "practice2") { Some(Session::Practice(2)) }
    else if text_eq(s, "fp3") || text_eq(s, "practice3") { Some(Session::Practice(3)) }
    else { None }
}

/// A status that marks a driver who did not finish: it mentions neither
/// "Finished" nor a "+" (as in "+1 Lap").
pub open spec fn is_dnf_status(status: Seq<char>) -> bool {
    !seq_contains(status, "Finished"@) && !seq_contains(status, "+"@)
}

/// Indices of the results whose status marks a retirement, in order.
pub open spec fn dnf_indices(results: Seq<RaceResult>, k: nat) -> Seq<usize>
    decreases k,
{
    if k == 0 {
        Seq::empty()
    } else {
        let init = dnf_indices(results, (k - 1) as nat);
        if is_dnf_status(results[k - 1].status@) { init.push((k - 1) as usize) } else { init }
    }
}

/// The drivers of a final classification who did not finish.
pub fn identify_dnfs(results: &[RaceResult]) -> (r: Vec<usize>)
    ensures
        r@ == dnf_indices(results@, results@.len()),
{
    let mut dnfs: Vec<usize> = Vec::new();
    let mut idx: usize = 0;
    while idx < results.len()
        invariant
            idx <= results@.len(),
            dnfs@ == dnf_indices(results@, idx as nat),
        decreases results@.len() - idx,
    {
        let status = results[idx].status.as_str();
        if !contains(status, "Finished") && !contains(status, "+") {
            dnfs.push(idx);
        }
        idx = idx + 1;
    }
    dnfs
}

/// The holder of the fastest lap of a replay: one of the first five of the
/// classification, picked by the draw; none for an empty classification.
pub fn identify_fastest_lap(results: &[RaceResult], draw: usize) -> (r: Option<usize>)
    ensures
        results@.len() == 0 ==> r is None,
        results@.len() > 0 ==> r == Some((draw % (if results@.len() < 5 { results@.len() } else { 5 }) as usize) as usize),
{
    if results.len() == 0 {
        None
    } else {
        let top = if results.len() < 5 { results.len() } else { 5 };
        Some(draw % top)
    }
}

/// The name of the driver of a result line, or "Unknown Driver" past the end.
pub fn get_driver_name(results: &[RaceResult], idx: usize) -> (r: String)
    ensures
        idx < results@.len() ==> r@ == results@[idx as int].driver.name@,
        idx >= results@.len() ==> r@ == "Unknown Driver"@,
{
    if idx < results.len() {
        results[idx].driver.name.clone()
    } else {
        String::from_str("Unknown Driver")
    }
}

/// Descriptions used for retirements in replays.
pub open spec fn replay_incidents() -> Seq<Seq<char>> {
    seq![
        "Engine failure"@, "Hydraulics issue"@, "Gearbox failure"@, "Collision damage"@,
        "Brake failure"@, "Power unit issue"@, "Mechanical failure"@, "Oil pressure drop"@,
        "Electrical issues"@, "Suspension damage"@, "Tire puncture"@, "Overheating"@,
    ]
}

fn replay_incident(k: usize) -> (r: &'static str)
    requires
        k < 12,
    ensures
        r@ == replay_incidents()[k as int],
{
    if k == 0 { "Engine failure" }
    else if k == 1 { "Hydraulics issue" }
    else if k == 2 { "Gearbox failure" }
    else if k == 3 { "Collision damage" }
    else if k == 4 { "Brake failure" }
    else if k == 5 { "Power unit issue" }
    else if k == 6 { "Mechanical failure" }
    else if k == 7 { "Oil pressure drop" }
    else if k == 8 { "Electrical issues" }
    else if k == 9 { "Suspension damage" }
    else if k == 10 { "Tire puncture" }
    else { "Overheating" }
}

/// A description for a driver's retirement in a replay: the driver's index
/// shifted by up to four places by the draw, in the replay catalog.
pub fn random_incident_for_driver(driver_idx: usize, draw: usize) -> (r: String)
    ensures
        r@ == replay_incidents()[((driver_idx as int + draw as int % 5) % 12) as int],
{
    let k = (driver_idx % 12 + draw % 5) % 12;
    assert(k == (driver_idx as int + draw as int % 5) % 12) by (nonlinear_arith)
        requires k == (driver_idx as int % 12 + draw as int % 5) % 12, driver_idx >= 0, draw >= 0;
    String::from_str(replay_incident(k))
}

/// Chance, in parts per million, that a driver due to retire does so on
/// this lap: low in the first tenth and the last tenth, highest mid-race.
pub open spec fn retirement_chance(lap: int, total: int) -> int {
    if 10 * lap < total { 10_000 }
    else if 10 * lap < 3 * total { 30_000 }
    else if 10 * lap < 7 * total { 40_000 }
    else if 10 * lap < 9 * total { 20_000 }
    else { 10_000 }
}

/// Chance, in parts per million, of one step towards the final order:
/// many changes early, few at the end.
pub open spec fn progress_swap_chance(lap: int, total: int) -> int {
    if 10 * lap < total { 300_000 }
    else if 10 * lap < 7 * total { 150_000 }
    else if 10 * lap < 9 * total { 100_000 }
    else { 50_000 }
}

fn chance_by_progress(lap: u32, total: u32, first: u32, early: u32, middle: u32, late: u32, last: u32, early_until: u64) -> (r: u32)
    requires
        early_until <= 10,
    ensures
        r == (if 10 * lap < total { first }
            else if 10 * lap < early_until * total { early }
            else if 10 * lap < 7 * total { middle }
            else if 10 * lap < 9 * total { late }
            else { last }),
{
    let l = 10 * lap as u64;
    let t = total as u64;
    assert(early_until * t <= 10 * 0xffff_ffff) by (nonlinear_arith)
        requires early_until <= 10, t <= 0xffff_ffff;
    if l < t { first }
    else if l < early_until * t { early }
    else if l < 7 * t { middle }
    else if l < 9 * t { late }
    else { last }
}

/// Which of the drivers due to retire do so on this lap: each one whose
/// draw (parts per million, by index in `all_dnfs`) falls under the chance
/// for this point of the race.
pub fn check_for_lap_dnfs(all_dnfs: &[usize], current_lap: u32, total_laps: u32, draws: &[u32]) -> (r: Vec<usize>)
    requires
        draws@.len() == all_dnfs@.len(),
    ensures
        r@ == lap_dnfs(all_dnfs@, draws@, retirement_chance(current_lap as int, total_laps as int), all_dnfs@.len()),
{
    let chance = chance_by_progress(current_lap, total_laps, 10_000, 30_000, 40_000, 20_000, 10_000, 3);
    let mut out: Vec<usize> = Vec::new();
    let mut k: usize = 0;
    while k < all_dnfs.len()
        invariant
            k <= all_dnfs@.len(),
            draws@.len() == all_dnfs@.len(),
            chance == retirement_chance(current_lap as int, total_laps as int),
            out@ == lap_dnfs(all_dnfs@, draws@, chance as int, k as nat),
        decreases all_dnfs@.len() - k,
    {
        if draws[k] < chance {
            out.push(all_dnfs[k]);
        }
        k = k + 1;
    }
    out
}

/// The first `k` drivers due to retire whose draw is under `chance`.
pub open spec fn lap_dnfs(dnfs: Seq<usize>, draws: Seq<u32>, chance: int, k: nat) -> Seq<usize>
    decreases k,
{
    if k == 0 {
        Seq::empty()
    } else {
        let init = lap_dnfs(dnfs, draws, chance, (k - 1) as nat);
        if draws[k - 1] < chance { init.push(dnfs[k - 1]) } else { init }
    }
}

/// Where a driver stands in the final order (its index), or `fallback` when
/// it has none.
pub open spec fn target_slot(driver: usize, n: int, fallback: int) -> int {
    if driver < n { driver as int } else { fallback }
}

/// One step of a replay lap at slot `i`: the driver behind passes when it
/// finished ahead and its draw is under the chance.
pub open spec fn progress_step(g: Seq<usize>, i: int, n: int, chance: int, draws: Seq<u32>) -> Seq<usize> {
    if target_slot(g[i + 1], n, i + 1) < target_slot(g[i], n, i) && draws[i] < chance {
        g.update(i, g[i + 1]).update(i + 1, g[i])
    } else {
        g
    }
}

/// The first `k` steps of a replay lap.
pub open spec fn progress_pass(g: Seq<usize>, k: nat, n: int, chance: int, draws: Seq<u32>) -> Seq<usize>
    decreases k,
{
    if k == 0 { g } else { progress_step(progress_pass(g, (k - 1) as nat, n, chance, draws), k - 1, n, chance, draws) }
}

/// Moves a replay's running order one lap towards the final classification
/// (`n_results` lines, where driver `i` finished at index `i`): front to
/// back, each adjacent pair is exchanged when the second finished ahead of
/// the first and its draw (by slot) falls under the chance for this point
/// of the race.
pub fn update_positions_for_lap(positions: &mut Vec<usize>, n_results: usize, current_lap: u32, total_laps: u32, draws: &[u32])
    requires
        draws@.len() == old(positions)@.len(),
    ensures
        old(positions)@.len() == 0 ==> final(positions)@ == old(positions)@,
        old(positions)@.len() > 0 ==> final(positions)@ == progress_pass(old(positions)@, (old(positions)@.len() - 1) as nat,
            n_results as int, progress_swap_chance(current_lap as int, total_laps as int), draws@),
        final(positions)@.len() == old(positions)@.len(),
{
    let chance = chance_by_progress(current_lap, total_laps, 300_000, 150_000, 150_000, 100_000, 50_000, 7);
    let n = positions.len();
    if n == 0 {
        return;
    }
    let ghost g0 = positions@;
    let mut i: usize = 0;
    while i < n - 1
        invariant
            n == g0.len(),
            n > 0,
            draws@.len() == n,
            i <= n - 1,
            chance == progress_swap_chance(current_lap as int, total_laps as int),
            positions@ == progress_pass(g0, i as nat, n_results as int, chance as int, draws@),
            positions@.len() == n,
        decreases n - 1 - i,
    {
        let current = positions[i];
        let next = positions[i + 1];
        let current_target = if current < n_results { current } else { i };
        let next_target = if next < n_results { next } else { i + 1 };
        if next_target < current_target && draws[i] < chance {
            positions.set(i, next);
            positions.set(i + 1, current);
        }
        i = i + 1;
    }
}

/// One step of the replay grid at slot `i`: a midfield slot (not among the
/// first three or last three) exchanges with its neighbour in the direction
/// drawn, kept inside the midfield, when its draw is under 40%.
pub open spec fn grid_shuffle_step(g: Seq<usize>, i: int, swap: Seq<u32>, forward: Seq<bool>) -> Seq<usize> {
    let n = g.len() as int;
    if 3 <= i && i + 3 < n && swap[i] < 400_000 {
        let target = if forward[i] { i + 1 } else { i - 1 };
        let p = if target < 3 { 3 } else if target > n - 4 { n - 4 } else { target };
        g.update(i, g[p]).update(p, g[i])
    } else {
        g
    }
}

/// The first `k` steps of the replay grid.
pub open spec fn grid_shuffle(g: Seq<usize>, k: nat, swap: Seq<u32>, forward: Seq<bool>) -> Seq<usize>
    decreases k,
{
    if k == 0 { g } else { grid_shuffle_step(grid_shuffle(g, (k - 1) as nat, swap, forward), k - 1, swap, forward) }
}

/// A plausible starting grid for a replay of `n` results: the final order,
/// with midfield drivers shuffled by neighbour exchanges.
pub fn create_starting_grid(n: usize, swap_draws: &[u32], forward_draws: &[bool]) -> (r: Vec<usize>)
    requires
        swap_draws@.len() == n,
        forward_draws@.len() == n,
    ensures
        r@ == grid_shuffle(Seq::new(n as nat, |i: int| i as usize), n as nat, swap_draws@, forward_draws@),
{
    let mut grid: Vec<usize> = Vec::new();
    let mut k: usize = 0;
    while k < n
        invariant
            k <= n,
            grid@ == Seq::new(k as nat, |i: int| i as usize),
        decreases n - k,
    {
        grid.push(k);
        assert(grid@ =~= Seq::new((k + 1) as nat, |i: int| i as usize));
        k = k + 1;
    }
    let ghost g0 = grid@;
    let mut i: usize = 0;
    while i < n
        invariant
            i <= n,
            swap_draws@.len() == n,
            forward_draws@.len() == n,
            g0 == Seq::new(n as nat, |j: int| j as usize),
            grid@ == grid_shuffle(g0, i as nat, swap_draws@, forward_draws@),
            grid@.len() == n,
        decreases n - i,
    {
        if 3 <= i && n >= 3 && i < n - 3 && swap_draws[i] < 400_000 {
            let target = if forward_draws[i] { i + 1 } else { i - 1 };
            let p = if target < 3 { 3 } else if target > n - 4 { n - 4 } else { target };
            let a = grid[i];
            let b = grid[p];
            grid.set(i, b);
            grid.set(p, a);
        }
        i = i + 1;
    }
    grid
}

} // verus!
