//! Exact values, general rules on concrete inputs, and race scenarios.

use f1_cli_simulator::aggregate::AggregateStats;
use f1_cli_simulator::catalog::{create_circuit_for_gp, create_current_drivers, estimate_laps_for_circuit, normalize_gp_name, LookupError};
use f1_cli_simulator::data::{classify_data_file, DataFile, get_driver_standings, get_practice_data_path, get_qualifying_data_path, get_race_data_path, get_season_data_path};
use f1_cli_simulator::grid::initialize_driver_positions;
use f1_cli_simulator::historical::{
    check_for_lap_dnfs, create_starting_grid, get_driver_name, identify_dnfs, identify_fastest_lap, parse_session,
    random_incident_for_driver, update_positions_for_lap, Session,
};
use f1_cli_simulator::incidents::{
    Retirement, base_reliability, base_reliability_for_lowered, check_for_incidents, get_random_incident, incident_description,
    mechanical_failure_occurs, racing_incident_occurs, simulate_mechanical_failure,
};
use f1_cli_simulator::lap::{update_fastest_lap, update_race_positions};
use f1_cli_simulator::models::{validate_parameters, Circuit, Driver, ParameterError, PositionState, RaceResult, SimulationParameters};
use f1_cli_simulator::performance::{apply_variation, calculate_driver_base_performance, lap_time_ns};
use f1_cli_simulator::prediction::{monte_carlo, race_result_of, results_for_run, retirement_lap, run_single_simulation, RunDraws};
use f1_cli_simulator::records::{circuit_from_fields, driver_from_fields, practice_from_fields, qualifying_from_fields, result_from_fields};
use f1_cli_simulator::race::{final_results, pause_after_lap, run_race, LapDraws, Pause, RaceState};
use f1_cli_simulator::results::{classify, points_for_position};
use f1_cli_simulator::text::{contains, format_duration_as_lap_time, parse_lap_time, replace_all, text_eq};
use rand::Rng;
use rand_distr::{Distribution, Normal};

fn driver(name: &str, team: &str) -> Driver {
    Driver { id: name.to_lowercase(), code: "XXX".to_string(), name: name.to_string(), team: team.to_string(), number: 1 }
}

fn three_drivers() -> Vec<Driver> {
    vec![
        driver("Max Verstappen", "Red Bull Racing"),
        driver("Lewis Hamilton", "Mercedes"),
        driver("Charles Leclerc", "Ferrari"),
    ]
}

fn params(reliability: u32, weather: u32, incidents: bool) -> SimulationParameters {
    SimulationParameters { reliability_factor: reliability, weather_factor: weather, random_incidents: incidents }
}

fn gaussian_noise(n: usize, sd: f64) -> Vec<i32> {
    let normal = Normal::new(0.0, sd).unwrap();
    let mut rng = rand::thread_rng();
    (0..n).map(|_| (normal.sample(&mut rng) * 1_000_000.0).round() as i32).collect()
}

fn uniform_draws(n: usize) -> Vec<u32> {
    let mut rng = rand::thread_rng();
    (0..n).map(|_| rng.gen_range(0..1_000_000u32)).collect()
}

fn lap_draws(n: usize, weather: u32) -> LapDraws {
    LapDraws {
        noise: gaussian_noise(n, 0.01 * weather as f64 / 1000.0),
        overtake: uniform_draws(n),
        failure: uniform_draws(n),
        crash: uniform_draws(n),
        cause: uniform_draws(n),
    }
}

fn state(driver: usize, performance: u32, active: bool) -> PositionState {
    PositionState { driver, performance, time_ns: 90_000_000_000, active }
}

#[test]
fn base_performance_exact_values() {
    let d = driver("Max Verstappen", "Red Bull Racing");
    assert_eq!(calculate_driver_base_performance(&d, &params(1000, 1000, false)), 960_400);
    assert_eq!(calculate_driver_base_performance(&d, &params(1000, 700, false)), 873_964);
    assert_eq!(calculate_driver_base_performance(&d, &params(1000, 1200, false)), 960_400);
    let unknown = driver("Nobody", "Garage Team");
    assert_eq!(calculate_driver_base_performance(&unknown, &params(1000, 1000, false)), 765_000);
}

#[test]
fn base_performance_in_range_for_all_weather() {
    let drivers = create_current_drivers();
    for w in [0u32, 1, 100, 500, 799, 999, 1000, 5000, u32::MAX] {
        for d in &drivers {
            let p = calculate_driver_base_performance(d, &params(1000, w, true));
            assert!(p > 0 && p <= 1_000_000);
        }
    }
}

#[test]
fn variation_and_clamping() {
    assert_eq!(apply_variation(900_000, 10_000), 909_000);
    assert_eq!(apply_variation(900_000, -10_000), 891_000);
    assert_eq!(apply_variation(900_000, -2_000_000), 1);
    assert_eq!(apply_variation(900_000, 500_000), 1_000_000);
    assert_eq!(apply_variation(0, 0), 1);
}

#[test]
fn lap_time_formula() {
    assert_eq!(lap_time_ns(950_000, 150), 90_675_000_000);
    assert_eq!(lap_time_ns(1_000_000, 150), 90_000_000_000);
    assert_eq!(lap_time_ns(500_000, 200), 99_000_000_000);
}

#[test]
fn grid_breaks_ties_by_driver_order() {
    let drivers = vec![driver("A", "X"), driver("B", "X"), driver("C", "X")];
    let grid = initialize_driver_positions(&drivers, &params(1000, 1000, false), &[0, 0, 0]);
    let order: Vec<usize> = grid.iter().map(|e| e.driver).collect();
    assert_eq!(order, vec![0, 1, 2]);
    let grid = initialize_driver_positions(&drivers, &params(1000, 1000, false), &[0, 20_000, 10_000]);
    let order: Vec<usize> = grid.iter().map(|e| e.driver).collect();
    assert_eq!(order, vec![1, 2, 0]);
}

#[test]
fn overtake_happens_only_under_the_chance() {
    // behind 950_000 vs ahead 900_000: chance 2.5 * 0.05 = 12.5%
    let base = vec![900_000, 950_000];
    let mut positions = vec![state(0, 900_000, true), state(1, 950_000, true)];
    update_race_positions(&mut positions, &base, &vec![0, 0], &vec![0, 124_999]);
    assert_eq!(positions[0].driver, 1);
    let mut positions = vec![state(0, 900_000, true), state(1, 950_000, true)];
    update_race_positions(&mut positions, &base, &vec![0, 0], &vec![0, 125_000]);
    assert_eq!(positions[0].driver, 0);
    // a retired car is never passed nor moved
    let mut positions = vec![state(0, 900_000, false), state(1, 950_000, true)];
    update_race_positions(&mut positions, &base, &vec![0, 0], &vec![0, 0]);
    assert_eq!(positions[0], state(0, 900_000, false));
}

#[test]
fn lap_updates_keep_length_and_retirements() {
    let drivers = three_drivers();
    let p = params(1, 500, true);
    let noise = gaussian_noise(3, 0.015);
    let mut positions = initialize_driver_positions(&drivers, &p, &noise);
    let base: Vec<u32> = drivers.iter().map(|d| calculate_driver_base_performance(d, &p)).collect();
    let mut dnfs = Vec::new();
    let mut retired: Vec<usize> = Vec::new();
    for lap in 1..=50u32 {
        let d = lap_draws(3, 500);
        update_race_positions(&mut positions, &base, &d.noise, &d.overtake);
        check_for_incidents(&drivers, &mut positions, &mut dnfs, lap, &p, &d.failure, &d.crash, &d.cause);
        assert_eq!(positions.len(), 3);
        for r in &retired {
            assert!(positions.iter().any(|e| e.driver == *r && !e.active));
        }
        retired = positions.iter().filter(|e| !e.active).map(|e| e.driver).collect();
    }
    let mut seen: Vec<usize> = dnfs.iter().map(|r| r.driver).collect();
    seen.sort();
    seen.dedup();
    assert_eq!(seen.len(), dnfs.len());
}

#[test]
fn points_schedule() {
    let expected = [25, 18, 15, 12, 10, 8, 6, 4, 2, 1, 0, 0];
    for (i, e) in expected.iter().enumerate() {
        assert_eq!(points_for_position(i as u32 + 1), *e);
    }
    assert_eq!(points_for_position(0), 0);
}

#[test]
fn classification_ranks_finishers_then_retirees() {
    let positions: Vec<PositionState> = (0..12).map(|d| state(d, 900_000, d != 1)).collect();
    let c = classify(&positions, None);
    assert_eq!(c.len(), 12);
    assert_eq!(c[0].driver, 0);
    assert_eq!(c[0].points, 25);
    assert_eq!(c[1].driver, 2);
    assert_eq!(c[1].points, 18);
    assert_eq!(c[10].driver, 11);
    assert_eq!(c[10].position, 11);
    assert_eq!(c[10].points, 0);
    assert_eq!(c[11].driver, 1);
    assert!(!c[11].finished);
    assert_eq!(c[11].points, 0);
}

#[test]
fn fastest_lap_bonus_only_in_top_ten() {
    let positions: Vec<PositionState> = (0..12).map(|d| state(d, 900_000, true)).collect();
    let c = classify(&positions, Some(3));
    assert_eq!(c[3].points, 13);
    let bonus: Vec<_> = c.iter().filter(|l| l.points == points_for_position(l.position) + 1).collect();
    assert_eq!(bonus.len(), 1);
    let c = classify(&positions, Some(11));
    assert_eq!(c[11].points, 0);
    assert!(c.iter().all(|l| l.points == points_for_position(l.position)));
    let c = classify(&positions, Some(0));
    assert_eq!(c[0].points, 26);
}

#[test]
fn fastest_lap_record_keeps_the_minimum() {
    let mut record = Some((7usize, 1u64));
    update_fastest_lap(&vec![state(0, 1_000_000, true)], 1, &mut record);
    assert_eq!(record, Some((7, 1)));
    let mut record = None;
    update_fastest_lap(&vec![state(0, 900_000, false)], 1, &mut record);
    assert_eq!(record, None);
}

#[test]
fn three_car_race_without_incidents() {
    let drivers = three_drivers();
    let p = params(1000, 1000, false);
    let circuit = Circuit {
        id: "test".to_string(),
        name: "Test".to_string(),
        country: "X".to_string(),
        city: "Y".to_string(),
        length_m: 5000,
        laps: 10,
    };
    let draws: Vec<LapDraws> = (0..10).map(|_| lap_draws(3, 1000)).collect();
    let outcome = run_race(&drivers, &circuit, &p, &gaussian_noise(3, 0.015), &draws);
    assert!(outcome.retirements.is_empty());
    let c = classify(&outcome.positions, None);
    assert_eq!(c.len(), 3);
    let mut positions: Vec<u32> = c.iter().map(|l| l.position).collect();
    positions.sort();
    assert_eq!(positions, vec![1, 2, 3]);
    let mut points: Vec<u32> = c.iter().map(|l| l.points).collect();
    points.sort();
    assert_eq!(points, vec![15, 18, 25]);
    assert!(c.iter().all(|l| l.finished));
    let lines: Vec<RaceResult> = c.iter().map(|l| race_result_of(&drivers[l.driver], l, circuit.laps, 0)).collect();
    assert!(lines.iter().all(|r| r.status == "Finished" && r.time.is_some() && r.laps == 10));
    let with_bonus = classify(&outcome.positions, outcome.fastest_lap.map(|f| f.0));
    assert_eq!(with_bonus.iter().map(|l| l.points).sum::<u32>(), 59);
}

fn dnfs_over_runs(reliability: u32, runs: usize) -> usize {
    let drivers = three_drivers();
    let p = params(reliability, 1000, true);
    let mut total = 0;
    for _ in 0..runs {
        let mut positions = vec![state(0, 950_000, true), state(1, 900_000, true), state(2, 850_000, true)];
        let mut dnfs = Vec::new();
        for lap in 6..=50u32 {
            let d = lap_draws(3, 1000);
            check_for_incidents(&drivers, &mut positions, &mut dnfs, lap, &p, &d.failure, &d.crash, &d.cause);
        }
        total += dnfs.len();
    }
    total
}

#[test]
fn low_reliability_factor_gives_more_retirements() {
    let fragile = dnfs_over_runs(1, 50);
    let sturdy = dnfs_over_runs(2000, 50);
    assert!(fragile > sturdy, "{} vs {}", fragile, sturdy);
}

#[test]
fn wet_weather_lowers_average_performance() {
    let d = driver("Lewis Hamilton", "Mercedes");
    let average = |weather: u32| -> f64 {
        let p = params(1000, weather, false);
        let base = calculate_driver_base_performance(&d, &p);
        let noise = gaussian_noise(2000, 0.01 * weather as f64 / 1000.0);
        noise.iter().map(|n| apply_variation(base, *n) as f64).sum::<f64>() / 2000.0
    };
    assert!(average(500) <= average(1000) + 1000.0);
}

#[test]
fn parameter_validation() {
    assert_eq!(validate_parameters(&params(950, 1000, true)), Ok(()));
    assert_eq!(validate_parameters(&params(0, 1000, true)), Err(ParameterError::NonPositiveReliability));
    assert_eq!(validate_parameters(&params(950, 0, true)), Err(ParameterError::NonPositiveWeather));
    let d = SimulationParameters::default();
    assert_eq!((d.reliability_factor, d.weather_factor, d.random_incidents), (950, 1000, true));
}

#[test]
fn reliability_lookup_ignores_case() {
    assert_eq!(base_reliability("RED BULL Racing"), 960);
    assert_eq!(base_reliability("Alfa Romeo"), 900);
    assert_eq!(base_reliability("Kick Sauber"), 900);
    assert_eq!(base_reliability("Unknown"), 920);
    assert_eq!(base_reliability_for_lowered("MERCEDES"), 920);
    assert_eq!(base_reliability_for_lowered("mercedes-amg"), 950);
}

#[test]
fn failure_and_incident_thresholds() {
    // reliability 0.96 at factor 1.0: 4% failure chance
    assert!(mechanical_failure_occurs(960, 1000, 39_999));
    assert!(!mechanical_failure_occurs(960, 1000, 40_000));
    // 0.05% incident chance dry, three times that when wet
    assert!(racing_incident_occurs(1000, 1000, 499));
    assert!(!racing_incident_occurs(1000, 1000, 500));
    assert!(racing_incident_occurs(700, 1000, 1499));
    assert!(!racing_incident_occurs(700, 1000, 1500));
    let sturdy = driver("A", "Red Bull Racing");
    let _ = simulate_mechanical_failure(&sturdy, 1000);
}

#[test]
fn incident_catalog_entries() {
    assert_eq!(incident_description(0), "Lost control in the corner");
    assert_eq!(incident_description(13), "Collision with another driver");
    let all: Vec<&str> = (0..12).map(incident_description).collect();
    assert!(all.contains(&get_random_incident()));
}

#[test]
fn gp_names_and_circuits() {
    assert_eq!(normalize_gp_name("MONZA\t"), "monza");
    assert_eq!(normalize_gp_name("Spain"), "catalunya");
    assert_eq!(normalize_gp_name("Vegas"), "las_vegas");
    assert_eq!(normalize_gp_name("Imola"), "imola");
    assert_eq!(normalize_gp_name("monzagp"), "monza");
    let c = create_circuit_for_gp("Italian").unwrap();
    assert_eq!(c.id, "monza");
    assert_eq!(c.name, "Autodromo Nazionale Monza");
    assert_eq!(c.length_m, 5793);
    assert_eq!(c.laps, 53);
    match create_circuit_for_gp("Atlantis") {
        Err(LookupError::UnknownGp(g)) => assert_eq!(g, "Atlantis"),
        Ok(_) => panic!("unknown GP accepted"),
    }
    assert_eq!(estimate_laps_for_circuit(&c), 53);
    let mut other = c.clone();
    other.id = "portimao".to_string();
    other.laps = 30;
    assert_eq!(estimate_laps_for_circuit(&other), 50);
    other.laps = 66;
    assert_eq!(estimate_laps_for_circuit(&other), 66);
}

#[test]
fn current_field() {
    let drivers = create_current_drivers();
    assert_eq!(drivers.len(), 20);
    assert_eq!(drivers[0].id, "ver");
    assert_eq!(drivers[0].name, "Max Verstappen");
    assert_eq!(drivers[0].team, "Red Bull Racing");
    assert_eq!(drivers[19].code, "ZHO");
    assert_eq!(drivers[19].team, "Sauber");
    assert_eq!(drivers[19].number, 24);
}

#[test]
fn lap_time_text() {
    assert_eq!(format_duration_as_lap_time(90_123), "1:30.123");
    assert_eq!(format_duration_as_lap_time(30_123), "30.123");
    assert_eq!(format_duration_as_lap_time(5), "0.005");
    assert_eq!(parse_lap_time("1:30.123"), Some(90_123));
    assert_eq!(parse_lap_time("30.123"), Some(30_123));
    assert_eq!(parse_lap_time("1:30"), None);
    assert_eq!(parse_lap_time("a:30.1"), None);
    assert_eq!(parse_lap_time("1:2:3.4"), None);
}

#[test]
fn string_helpers() {
    assert!(text_eq("abc", "abc"));
    assert!(!text_eq("abc", "abd"));
    assert!(contains("red bull racing", "bull"));
    assert!(!contains("ferrari", "bull"));
    assert_eq!(replace_all("a b c", " ", "-"), "a-b-c");
    assert_eq!(replace_all("aaa", "aa", "x"), "xa");
}

#[test]
fn data_paths_and_standings() {
    assert_eq!(get_season_data_path(2024), "./data/season_2024.json");
    assert_eq!(get_race_data_path(2023, "monza"), "./data/race_2023_monza.json");
    assert_eq!(get_qualifying_data_path(2023, "spa"), "./data/qualifying_2023_spa.json");
    assert_eq!(get_practice_data_path(2023, "spa", 2), "./data/practice2_2023_spa.json");
    let s = get_driver_standings(2025);
    assert_eq!(s.len(), 5);
    assert_eq!(s[0], ("Max Verstappen".to_string(), 230));
    assert!(get_driver_standings(2024).is_empty());
}

fn result(status: &str, name: &str) -> RaceResult {
    RaceResult { position: 1, driver: driver(name, "T"), time: None, points: 0, laps: 50, status: status.to_string() }
}

#[test]
fn replay_helpers() {
    let results = vec![result("Finished", "A"), result("+1 Lap", "B"), result("Engine", "C"), result("Collision", "D")];
    assert_eq!(identify_dnfs(&results), vec![2, 3]);
    assert_eq!(identify_fastest_lap(&results, 6), Some(2));
    assert_eq!(identify_fastest_lap(&[], 6), None);
    assert_eq!(get_driver_name(&results, 1), "B");
    assert_eq!(get_driver_name(&results, 9), "Unknown Driver");
    assert_eq!(random_incident_for_driver(3, 7), "Power unit issue");
    // lap 30 of 60 is mid-race: 4% chance
    assert_eq!(check_for_lap_dnfs(&[2, 3], 30, 60, &[39_999, 40_000]), vec![2]);
    assert_eq!(check_for_lap_dnfs(&[2, 3], 1, 60, &[9_999, 10_000]), vec![2]);
    let mut order = vec![1, 0, 2];
    update_positions_for_lap(&mut order, 3, 1, 60, &[299_999, 0, 0]);
    assert_eq!(order, vec![0, 1, 2]);
    let mut order = vec![1, 0, 2];
    update_positions_for_lap(&mut order, 3, 59, 60, &[50_000, 0, 0]);
    assert_eq!(order, vec![1, 0, 2]);
    let mut empty: Vec<usize> = vec![];
    update_positions_for_lap(&mut empty, 0, 1, 60, &[]);
    assert!(empty.is_empty());
    assert_eq!(create_starting_grid(8, &[0; 8], &[true; 8]), vec![0, 1, 2, 4, 3, 5, 6, 7]);
    assert_eq!(create_starting_grid(3, &[0; 3], &[true; 3]), vec![0, 1, 2]);
    assert_eq!(parse_session("Race"), Some(Session::Race));
    assert_eq!(parse_session("FP2"), Some(Session::Practice(2)));
    assert_eq!(parse_session("practice"), Some(Session::Practice(1)));
    assert_eq!(parse_session("invalid_session"), None);
}

fn run_draws(n: usize) -> RunDraws {
    RunDraws { noise: gaussian_noise(n, 0.03), failure: uniform_draws(n), retire_lap: uniform_draws(n), cause: uniform_draws(n) }
}

#[test]
fn whole_race_evaluation() {
    let drivers = three_drivers();
    let circuit = create_circuit_for_gp("monza").unwrap();
    let draws = RunDraws { noise: vec![0, 0, 0], failure: vec![0, 999_999, 0], retire_lap: vec![5, 5, 5], cause: vec![3, 3, 3] };
    let run = run_single_simulation(&drivers, &circuit, &params(1000, 1000, true), &draws);
    // Verstappen and Leclerc fail at draw 0; Hamilton finishes alone
    assert_eq!(run.len(), 3);
    assert_eq!(run[0].driver, 1);
    assert_eq!(run[0].points, 25);
    assert_eq!(run[1].driver, 0);
    assert!(!run[1].finished);
    assert_eq!(run[2].driver, 2);
    let lines = results_for_run(&drivers, &circuit, &draws, &run);
    assert_eq!(lines[0].status, "Finished");
    assert_eq!(lines[0].laps, 53);
    // 90 s * (1 + 0.088 * 0.2) per lap over 53 laps
    assert_eq!(lines[0].time.as_deref(), Some("80:53.952"));
    assert_eq!(lines[1].status, "Engine failure");
    assert_eq!(lines[1].laps, 22);
    assert_eq!(retirement_lap(4, 9), 1);
}

#[test]
fn aggregation_does_not_depend_on_batches() {
    let drivers = create_current_drivers();
    let circuit = create_circuit_for_gp("spa").unwrap();
    let p = SimulationParameters::default();
    let all: Vec<RunDraws> = (0..100).map(|_| run_draws(drivers.len())).collect();
    let whole = monte_carlo(&drivers, &circuit, &p, &all);
    let mut first = monte_carlo(&drivers, &circuit, &p, &all[..40].to_vec());
    let second = monte_carlo(&drivers, &circuit, &p, &all[40..].to_vec());
    first.merge(&second);
    assert_eq!(first.runs, 100);
    for d in 0..drivers.len() {
        assert_eq!(first.tallies[d].points, whole.tallies[d].points);
        assert_eq!(first.tallies[d].wins, whole.tallies[d].wins);
        assert_eq!(first.tallies[d].podiums, whole.tallies[d].podiums);
        assert_eq!(first.tallies[d].dnfs, whole.tallies[d].dnfs);
        assert_eq!(first.tallies[d].positions, whole.tallies[d].positions);
        assert_eq!(first.average_points_thousandths(d), whole.average_points_thousandths(d));
        assert_eq!(first.win_probability_ppm(d), whole.win_probability_ppm(d));
    }
    let total_wins: u64 = whole.tallies.iter().map(|t| t.wins).sum();
    assert!(total_wins <= 100);
}

#[test]
fn aggregate_counts_and_ranking() {
    let mut agg = AggregateStats::new(3);
    let run = classify(&vec![state(2, 1, true), state(0, 1, true), state(1, 1, false)], None);
    agg.record_run(&run);
    agg.record_run(&run);
    assert_eq!(agg.runs, 2);
    assert_eq!(agg.tallies[2].wins, 2);
    assert_eq!(agg.tallies[2].points, 50);
    assert_eq!(agg.tallies[0].podiums, 2);
    assert_eq!(agg.tallies[1].dnfs, 2);
    assert_eq!(agg.tallies[1].positions, vec![0, 0, 2]);
    assert_eq!(agg.average_points_thousandths(0), 18_000);
    assert_eq!(agg.win_probability_ppm(2), 1_000_000);
    assert_eq!(agg.podium_probability_ppm(1), 1_000_000);
    assert_eq!(agg.ranking(), vec![2, 0, 1]);
}

#[test]
fn final_result_lines() {
    let drivers = three_drivers();
    let state = RaceState {
        positions: vec![state(0, 900_000, true), state(1, 900_000, false), state(2, 900_000, true)],
        retirements: vec![Retirement { driver: 1, lap: 12, cause: 3 }],
        fastest_lap: Some((2, 90_000_000_000)),
    };
    let lines = final_results(&drivers, &state, 50);
    assert_eq!(lines.len(), 3);
    assert_eq!(lines[0].driver.name, "Max Verstappen");
    assert_eq!((lines[0].position, lines[0].points, lines[0].laps), (1, 25, 50));
    assert_eq!(lines[0].time.as_deref(), Some("+0.000s"));
    assert_eq!(lines[0].status, "Finished");
    assert_eq!((lines[1].position, lines[1].points), (2, 19));
    assert_eq!(lines[1].time.as_deref(), Some("+2.500s"));
    assert_eq!((lines[2].position, lines[2].points, lines[2].laps), (3, 0, 12));
    assert_eq!(lines[2].time, None);
    assert_eq!(lines[2].status, "Engine failure");
}

#[test]
fn records_from_feed_fields() {
    let d = driver_from_fields(Some("max_verstappen"), Some("VER"), Some("Max"), Some("Verstappen"), Some("Red Bull"), Some("33"));
    assert_eq!((d.id.as_str(), d.code.as_str(), d.name.as_str(), d.team.as_str(), d.number), ("max_verstappen", "VER", "Max Verstappen", "Red Bull", 33));
    let d = driver_from_fields(None, None, None, None, None, Some("x"));
    assert_eq!((d.id.as_str(), d.code.as_str(), d.name.as_str(), d.team.as_str(), d.number), ("unknown", "???", "Unknown ", "Unknown Team", 0));
    let c = circuit_from_fields(Some("monza"), None, Some("Italy"), None);
    assert_eq!((c.id.as_str(), c.name.as_str(), c.country.as_str(), c.city.as_str(), c.length_m, c.laps), ("monza", "Unknown Circuit", "Italy", "Unknown", 5000, 50));
    let r = result_from_fields(4, None, d.clone(), Some("1:30:45.123"), Some("25"), Some("53"), None);
    assert_eq!((r.position, r.points, r.laps, r.status.as_str()), (5, 25, 53, "Unknown"));
    assert_eq!(r.time.as_deref(), Some("1:30:45.123"));
    let r = result_from_fields(0, Some("3"), d.clone(), None, Some("-1"), None, Some("Finished"));
    assert_eq!((r.position, r.points, r.laps, r.status.as_str(), r.time), (3, 0, 0, "Finished", None));
    let q = qualifying_from_fields(1, Some("bad"), d.clone(), Some("1:20.123"), None, None);
    assert_eq!((q.position, q.q1.as_deref(), q.q2), (2, Some("1:20.123"), None));
    let p = practice_from_fields(0, Some("7"), d, Some("1:21.123"), Some("25"));
    assert_eq!((p.position, p.laps, p.time.as_deref()), (7, 25, Some("1:21.123")));
}

#[test]
fn pacing_of_interactive_laps() {
    assert_eq!(pause_after_lap(1, 53), Pause::Brief);
    assert_eq!(pause_after_lap(10, 53), Pause::ForUser);
    assert_eq!(pause_after_lap(52, 53), Pause::ForUser);
    assert_eq!(pause_after_lap(53, 53), Pause::Done);
}

#[test]
fn data_file_names() {
    assert!(matches!(classify_data_file("season_2023.json", None), Some(DataFile::Season(2023))));
    assert!(classify_data_file("season_2023.json", Some(2024)).is_none());
    assert!(classify_data_file("season_0.json", None).is_none());
    match classify_data_file("race_2023_red_bull_ring.json", Some(2023)) {
        Some(DataFile::Race(2023, gp)) => assert_eq!(gp, "red_bull_ring"),
        _ => panic!("race file not recognised"),
    }
    assert!(classify_data_file("race_x_monza.json", None).is_none());
    assert!(classify_data_file("race_2023.json", None).is_none());
    assert!(classify_data_file("notes.txt", None).is_none());
}
