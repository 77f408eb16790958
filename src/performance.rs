//! The performance model: base scores, per-evaluation variation, and the
//! conversion of a score to a lap time.
use vstd::prelude::*;
use crate::models::{Driver, SimulationParameters};
use crate::text::text_eq;

verus! {

/// Skill of a driver by name, in thousandths; 900 for an unknown name.
pub open spec fn skill_of(name: Seq<char>) -> int {
    if name == "Max Verstappen"@ { 980 }
    else if name == "Sergio Perez"@ { 920 }
    else if name == "Charles Leclerc"@ { 950 }
    else if name == "Carlos Sainz"@ { 940 }
    else if name == "Lewis Hamilton"@ { 960 }
    else if name == "George Russell"@ { 940 }
    else if name == "Lando Norris"@ { 960 }
    else if name == "Oscar Piastri"@ { 930 }
    else if name == "Fernando Alonso"@ { 950 }
    else if name == "Lance Stroll"@ { 900 }
    else { 900 }
}

/// Performance of a team by name, in thousandths; 850 for an unknown team.
pub open spec fn team_performance_of(team: Seq<char>) -> int {
    if team == "Red Bull Racing"@ { 980 }
    else if team == "Ferrari"@ { 960 }
    else if team == "Mercedes"@ { 950 }
    else if team == "McLaren"@ { 970 }
    else if team == "Aston Martin"@ { 920 }
    else if team == "Alpine"@ { 890 }
    else if team == "Williams"@ { 870 }
    else if team == "RB"@ { 880 }
    else if team == "Haas F1 Team"@ { 860 }
    else if team == "Sauber"@ { 850 }
    else { 850 }
}

/// Wet-weather multiplier in parts per million: `0.7 + 0.3 * weather` below
/// a dry track, one otherwise.
pub open spec fn weather_adjustment(weather: int) -> int {
    if weather < 1000 { 700_000 + weather * 300 } else { 1_000_000 }
}

/// Base performance in parts per million: skill times team performance
/// times the weather adjustment, rounded down.
pub open spec fn base_performance(name: Seq<char>, team: Seq<char>, weather: int) -> int {
    skill_of(name) * team_performance_of(team) * weather_adjustment(weather) / 1_000_000
}

/// A score kept inside `[1, 1_000_000]`, that is inside (0, 1].
pub open spec fn clamp_performance(x: int) -> int {
    if x < 1 { 1 } else if x > 1_000_000 { 1_000_000 } else { x }
}

/// A score multiplied by `1 + noise` (noise in parts per million), then clamped.
pub open spec fn varied_performance(base: int, noise: int) -> int {
    if 1_000_000 + noise <= 0 {
        1
    } else {
        clamp_performance(base * (1_000_000 + noise) / 1_000_000)
    }
}

/// Lap time in nanoseconds: `90 s * (1 + (1 - performance) * spread)`,
/// with the spread in thousandths.
pub open spec fn lap_time(performance: int, spread: int) -> int {
    90_000_000_000 + 90 * ((1_000_000 - performance) * spread)
}

/// Spread of lap times for qualifying and for single laps.
pub const LAP_SPREAD: u32 = 150;

/// Spread of lap times for a whole-race evaluation.
pub const RACE_SPREAD: u32 = 200;

fn skill_lookup(name: &str) -> (r: u32)
    ensures
        r == skill_of(name@),
{
    if text_eq(name, "Max Verstappen") { 980 }
    else if text_eq(name, "Sergio Perez") { 920 }
    else if text_eq(name, "Charles Leclerc") { 950 }
    else if text_eq(name, "Carlos Sainz") { 940 }
    else if text_eq(name, "Lewis Hamilton") { 960 }
    else if text_eq(name, "George Russell") { 940 }
    else if text_eq(name, "Lando Norris") { 960 }
    else if text_eq(name, "Oscar Piastri") { 930 }
    else if text_eq(name, "Fernando Alonso") { 950 }
    else if text_eq(name, "Lance Stroll") { 900 }
    else { 900 }
}

fn team_lookup(team: &str) -> (r: u32)
    ensures
        r == team_performance_of(team@),
{
    if text_eq(team, "Red Bull Racing") { 980 }
    else if text_eq(team, "Ferrari") { 960 }
    else if text_eq(team, "Mercedes") { 950 }
    else if text_eq(team, "McLaren") { 970 }
    else if text_eq(team, "Aston Martin") { 920 }
    else if text_eq(team, "Alpine") { 890 }
    else if text_eq(team, "Williams") { 870 }
    else if text_eq(team, "RB") { 880 }
    else if text_eq(team, "Haas F1 Team") { 860 }
    else if text_eq(team, "Sauber") { 850 }
    else { 850 }
}

/// Every base performance lies in (0, 1], whatever the driver, the team
/// and the weather.
pub proof fn lemma_base_performance_in_range(name: Seq<char>, team: Seq<char>, weather: int)
    requires
        weather >= 0,
    ensures
        0 < base_performance(name, team, weather) <= 1_000_000,
{
    let s = skill_of(name);
    let t = team_performance_of(team);
    let w = weather_adjustment(weather);
    assert(850 <= s <= 980 && 850 <= t <= 980 && 700_000 <= w <= 1_000_000);
    assert(850 * 850 * 700_000 <= s * t * w <= 980 * 980 * 1_000_000) by (nonlinear_arith)
        requires 850 <= s <= 980, 850 <= t <= 980, 700_000 <= w <= 1_000_000;
}

/// Base performance of a driver, in parts per million.
pub fn calculate_driver_base_performance(driver: &Driver, params: &SimulationParameters) -> (r: u32)
    ensures
        r == base_performance(driver.name@, driver.team@, params.weather_factor as int),
        0 < r <= 1_000_000,
{
    let skill = skill_lookup(driver.name.as_str());
    let team = team_lookup(driver.team.as_str());
    let adjustment: u64 = if params.weather_factor < 1000 {
        700_000 + params.weather_factor as u64 * 300
    } else {
        1_000_000
    };
    proof {
        lemma_base_performance_in_range(driver.name@, driver.team@, params.weather_factor as int);
    }
    assert(skill as u64 * team as u64 <= 1_000_000) by (nonlinear_arith)
        requires skill <= 980, team <= 980;
    assert((skill as u64 * team as u64) * adjustment <= 1_000_000_000_000) by (nonlinear_arith)
        requires skill as u64 * team as u64 <= 1_000_000, adjustment <= 1_000_000;
    ((skill as u64 * team as u64) * adjustment / 1_000_000) as u32
}

/// A score with one random variation applied: multiplied by `1 + noise`
/// (noise in parts per million) and kept inside (0, 1].
pub fn apply_variation(base: u32, noise: i32) -> (r: u32)
    ensures
        r == varied_performance(base as int, noise as int),
        1 <= r <= 1_000_000,
{
    let factor: i64 = 1_000_000 + noise as i64;
    if factor <= 0 {
        return 1;
    }
    let f = factor as u64;
    assert(base as u64 * f <= 0xffff_ffff * 3_200_000_000) by (nonlinear_arith)
        requires base <= 0xffff_ffff, f <= 3_200_000_000;
    let x = base as u64 * f / 1_000_000;
    if x < 1 {
        1
    } else if x > 1_000_000 {
        1_000_000
    } else {
        x as u32
    }
}

/// Lap time in nanoseconds for a score, with the spread in thousandths.
pub fn lap_time_ns(performance: u32, spread: u32) -> (r: u64)
    requires
        performance <= 1_000_000,
        spread <= 1000,
    ensures
        r == lap_time(performance as int, spread as int),
{
    let gap = (1_000_000 - performance) as u64;
    assert(gap * spread as u64 <= 1_000_000_000) by (nonlinear_arith)
        requires gap <= 1_000_000, spread <= 1000;
    90_000_000_000 + 90 * (gap * spread as u64)
}

/// A varied score always lies in (0, 1].
pub proof fn lemma_varied_in_range(base: int, noise: int)
    ensures
        1 <= varied_performance(base, noise) <= 1_000_000,
{
}

/// A wet track never raises a base score above its dry value.
pub proof fn lemma_wet_weather_not_faster(name: Seq<char>, team: Seq<char>, weather: int)
    requires
        weather >= 0,
    ensures
        base_performance(name, team, weather) <= base_performance(name, team, 1000),
{
    let st = skill_of(name) * team_performance_of(team);
    let w = weather_adjustment(weather);
    assert(st >= 0);
    assert(w <= 1_000_000);
    assert(st * w <= st * 1_000_000) by (nonlinear_arith)
        requires st >= 0, w <= 1_000_000;
    assert(st * w / 1_000_000 <= st * 1_000_000 / 1_000_000) by (nonlinear_arith)
        requires st * w <= st * 1_000_000;
}

} // verus!
