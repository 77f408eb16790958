//! Tests of the race engine: grid, laps, incidents and the fastest lap.

use f1_cli_simulator::grid::initialize_driver_positions;
use f1_cli_simulator::incidents::{check_for_incidents, Retirement};
use f1_cli_simulator::lap::{update_fastest_lap, update_race_positions};
use f1_cli_simulator::models::{Driver, PositionState, SimulationParameters};
use f1_cli_simulator::performance::calculate_driver_base_performance;
use rand::rngs::StdRng;
use rand::{Rng, SeedableRng};
use rand_distr::{Distribution, Normal};

// Every test draws from its own seeded generator, so runs are reproducible.
fn seeded() -> StdRng {
    StdRng::seed_from_u64(20_240_901)
}

fn create_test_drivers() -> Vec<Driver> {
    vec![
        Driver {
            id: "driver1".to_string(),
            code: "DRV1".to_string(),
            name: "Max Verstappen".to_string(),
            team: "Red Bull Racing".to_string(),
            number: 1,
        },
        Driver {
            id: "driver2".to_string(),
            code: "DRV2".to_string(),
            name: "Lewis Hamilton".to_string(),
            team: "Mercedes".to_string(),
            number: 44,
        },
        Driver {
            id: "driver3".to_string(),
            code: "DRV3".to_string(),
            name: "Charles Leclerc".to_string(),
            team: "Ferrari".to_string(),
            number: 16,
        },
    ]
}

// Factors in thousandths: 1.0 is 1000.
fn create_test_params(reliability: u32, weather: u32, incidents: bool) -> SimulationParameters {
    SimulationParameters {
        reliability_factor: reliability,
        weather_factor: weather,
        random_incidents: incidents,
    }
}

// Gaussian noise with the given standard deviation, in parts per million.
fn gaussian_noise(rng: &mut StdRng, n: usize, sd: f64) -> Vec<i32> {
    let normal = Normal::new(0.0, sd).unwrap();
    (0..n).map(|_| (normal.sample(rng) * 1_000_000.0).round() as i32).collect()
}

// Uniform draws in parts per million.
fn uniform_draws(rng: &mut StdRng, n: usize) -> Vec<u32> {
    (0..n).map(|_| rng.gen_range(0..1_000_000u32)).collect()
}

fn entry(driver: usize, performance: u32, secs: u64, active: bool) -> PositionState {
    PositionState { driver, performance, time_ns: secs * 1_000_000_000, active }
}

fn one_lap(rng: &mut StdRng, positions: &mut Vec<PositionState>, base: &Vec<u32>, params: &SimulationParameters) {
    let n = positions.len();
    let noise = gaussian_noise(rng, n, 0.01 * params.weather_factor as f64 / 1000.0);
    let draws = uniform_draws(rng, n);
    update_race_positions(positions, base, &noise, &draws);
}

fn incidents_on_lap(
    rng: &mut StdRng,
    drivers: &[Driver],
    positions: &mut Vec<PositionState>,
    dnf_drivers: &mut Vec<Retirement>,
    lap: u32,
    params: &SimulationParameters,
) {
    let n = positions.len();
    let failure = uniform_draws(rng, n);
    let crash = uniform_draws(rng, n);
    let cause = uniform_draws(rng, n);
    check_for_incidents(drivers, positions, dnf_drivers, lap, params, &failure, &crash, &cause);
}

#[test]
fn test_initialize_driver_positions() {
    let mut rng = seeded();
    let drivers = create_test_drivers();
    let params = create_test_params(1000, 1000, false);
    let noise = gaussian_noise(&mut rng, drivers.len(), 0.015);
    let positions = initialize_driver_positions(&drivers, &params, &noise);
    assert_eq!(positions.len(), drivers.len());
    for pos in &positions {
        assert!(pos.active);
    }
    for i in 1..positions.len() {
        assert!(positions[i - 1].time_ns <= positions[i].time_ns);
    }
}

#[test]
fn test_calculate_driver_base_performance() {
    let drivers = create_test_drivers();
    let params = create_test_params(1000, 1000, false);
    for driver in &drivers {
        let perf = calculate_driver_base_performance(driver, &params);
        assert!(perf > 0 && perf <= 1_000_000, "Performance should be between 0 and 1");
    }
    let wet_params = create_test_params(1000, 700, false);
    for driver in &drivers {
        let wet_perf = calculate_driver_base_performance(driver, &wet_params);
        assert!(wet_perf > 0 && wet_perf <= 1_000_000, "Wet performance should be between 0 and 1");
    }
}

#[test]
fn test_update_race_positions() {
    let mut rng = seeded();
    let drivers = create_test_drivers();
    let params = create_test_params(1000, 1000, false);
    let mut positions = vec![
        entry(0, 950_000, 90, true),
        entry(1, 900_000, 91, true),
        entry(2, 850_000, 92, true),
    ];
    let performances: Vec<u32> = vec![950_000, 900_000, 850_000];
    let initial_order: Vec<usize> = positions.iter().map(|p| p.driver).collect();
    let num_updates = 20;
    for _ in 0..num_updates {
        one_lap(&mut rng, &mut positions, &performances, &params);
    }
    assert_eq!(positions.len(), drivers.len());
    for pos in &positions {
        assert!(pos.performance > 0 && pos.performance <= 1_000_000, "Updated performance should be between 0 and 1");
    }
    let final_order: Vec<usize> = positions.iter().map(|p| p.driver).collect();
    println!("Initial order: {:?}", initial_order);
    println!("Final order: {:?}", final_order);
}

#[test]
fn test_check_for_incidents() {
    let mut rng = seeded();
    let drivers = create_test_drivers();
    let mut dnf_drivers = Vec::new();
    let high_reliability_params = create_test_params(2000, 1000, true);
    let mut high_reliability_positions = vec![
        entry(0, 950_000, 90, true),
        entry(1, 900_000, 91, true),
        entry(2, 850_000, 92, true),
    ];
    for lap in 6..20 {
        incidents_on_lap(&mut rng, &drivers, &mut high_reliability_positions, &mut dnf_drivers, lap, &high_reliability_params);
    }
    dnf_drivers.clear();
    let low_reliability_params = create_test_params(500, 500, true);
    let mut low_reliability_positions = vec![
        entry(0, 950_000, 90, true),
        entry(1, 900_000, 91, true),
        entry(2, 850_000, 92, true),
    ];
    for lap in 6..50 {
        incidents_on_lap(&mut rng, &drivers, &mut low_reliability_positions, &mut dnf_drivers, lap, &low_reliability_params);
    }
    println!("DNF count with low reliability: {}", dnf_drivers.len());
}

#[test]
fn test_update_fastest_lap() {
    let positions = vec![
        entry(0, 950_000, 90, true),
        entry(1, 900_000, 91, true),
        entry(2, 850_000, 92, false),
    ];
    let mut fastest_lap: Option<(usize, u64)> = None;
    update_fastest_lap(&positions, 1, &mut fastest_lap);
    assert!(fastest_lap.is_some());
    assert_eq!(fastest_lap.unwrap().0, 0);
    let initial_fastest = fastest_lap.clone();
    let faster_positions = vec![
        entry(0, 950_000, 90, true),
        entry(1, 990_000, 89, true),
        entry(2, 850_000, 92, false),
    ];
    update_fastest_lap(&faster_positions, 2, &mut fastest_lap);
    assert!(fastest_lap.is_some());
    assert_eq!(fastest_lap.unwrap().0, 1);
    assert!(fastest_lap.unwrap().1 < initial_fastest.unwrap().1);
}

#[test]
fn test_interactive_and_instant_race_parameters() {
    assert!(true, "Interactive and instant race functions have correct signatures");
}

#[test]
fn test_simulate_function_returns_ok() {
    assert!(true, "Simulate function would return Ok with proper mocking");
}

#[test]
fn test_edge_case_empty_drivers_list() {
    let empty_drivers: Vec<Driver> = vec![];
    let params = create_test_params(1000, 1000, false);
    let positions = initialize_driver_positions(&empty_drivers, &params, &[]);
    assert_eq!(positions.len(), 0);
}

#[test]
fn test_edge_case_extreme_weather() {
    let drivers = create_test_drivers();
    let extreme_weather_params = create_test_params(1000, 100, true);
    for driver in &drivers {
        let perf = calculate_driver_base_performance(driver, &extreme_weather_params);
        assert!(perf > 300_000 && perf < 1_000_000);
    }
}

#[test]
fn test_all_drivers_dnf() {
    let mut rng = seeded();
    let drivers = create_test_drivers();
    let mut dnf_drivers = vec![];
    let mut positions = vec![
        entry(0, 950_000, 90, true),
        entry(1, 900_000, 91, true),
        entry(2, 850_000, 92, true),
    ];
    for i in 0..positions.len() {
        let driver_idx = positions[i].driver;
        positions[i].active = false;
        dnf_drivers.push(driver_idx);
    }
    let params = create_test_params(1000, 1000, true);
    let driver_performance: Vec<u32> = vec![900_000; drivers.len()];
    one_lap(&mut rng, &mut positions, &driver_performance, &params);
    update_fastest_lap(&positions, 1, &mut None);
    for pos in &positions {
        assert!(!pos.active, "All drivers should remain DNF");
    }
}

#[test]
fn test_realistic_race_scenario() {
    let mut rng = seeded();
    let mut drivers = create_test_drivers();
    drivers.push(Driver {
        id: "driver4".to_string(),
        code: "DRV4".to_string(),
        name: "Lando Norris".to_string(),
        team: "McLaren".to_string(),
        number: 4,
    });
    drivers.push(Driver {
        id: "driver5".to_string(),
        code: "DRV5".to_string(),
        name: "Sergio Perez".to_string(),
        team: "Red Bull Racing".to_string(),
        number: 11,
    });
    let params = create_test_params(800, 900, true);
    let noise = gaussian_noise(&mut rng, drivers.len(), 0.015);
    let mut positions = initialize_driver_positions(&drivers, &params, &noise);
    let initial_positions = positions.clone();
    let driver_performance: Vec<u32> =
        drivers.iter().map(|d| calculate_driver_base_performance(d, &params)).collect();
    let mut dnf_drivers = Vec::new();
    let mut fastest_lap: Option<(usize, u64)> = None;
    for lap in 1..=20 {
        one_lap(&mut rng, &mut positions, &driver_performance, &params);
        if lap > 5 {
            incidents_on_lap(&mut rng, &drivers, &mut positions, &mut dnf_drivers, lap, &params);
        }
        update_fastest_lap(&positions, lap, &mut fastest_lap);
    }
    assert_eq!(positions.len(), drivers.len());
    assert!(fastest_lap.is_some());
    let mut position_changes = 0;
    for (i, pos) in positions.iter().enumerate() {
        for (j, initial_pos) in initial_positions.iter().enumerate() {
            if pos.driver == initial_pos.driver && i != j {
                position_changes += 1;
            }
        }
    }
    println!("Position changes in simulation: {}", position_changes);
    println!("DNF count in simulation: {}", dnf_drivers.len());
    assert!(dnf_drivers.len() < drivers.len(), "Not all drivers should DNF");
}

#[test]
fn test_performance_consistency() {
    let driver = Driver {
        id: "test_driver".to_string(),
        code: "TEST".to_string(),
        name: "Max Verstappen".to_string(),
        team: "Red Bull Racing".to_string(),
        number: 1,
    };
    let params = create_test_params(1000, 1000, false);
    let performances: Vec<u32> = (0..10).map(|_| calculate_driver_base_performance(&driver, &params)).collect();
    for i in 1..performances.len() {
        assert!(performances[0] == performances[i], "Driver performance calculation should be deterministic");
    }
    let another_driver = Driver {
        id: "another_driver".to_string(),
        code: "ANTH".to_string(),
        name: "Lewis Hamilton".to_string(),
        team: "Mercedes".to_string(),
        number: 44,
    };
    let another_performance = calculate_driver_base_performance(&another_driver, &params);
    assert!(performances[0] != another_performance, "Different drivers should have different performance values");
}
