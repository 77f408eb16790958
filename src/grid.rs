//! The grid initializer: one qualifying evaluation per driver, ranked by
//! qualifying time.
use vstd::prelude::*;
use crate::models::{Driver, PositionState, SimulationParameters};
use crate::performance::{
    apply_variation, base_performance, calculate_driver_base_performance, lap_time, lap_time_ns,
    varied_performance, LAP_SPREAD,
};
use crate::results::{distinct_drivers, holds_driver};

verus! {

/// Grid order: by qualifying time, ties by driver index.
pub open spec fn grid_before(a: PositionState, b: PositionState) -> bool {
    a.time_ns < b.time_ns || (a.time_ns == b.time_ns && a.driver < b.driver)
}

/// The qualifying entry of driver `d`, given that driver's qualifying noise.
pub open spec fn qualifying_entry(drivers: Seq<Driver>, params: SimulationParameters, noise: Seq<i32>, d: int) -> PositionState {
    let perf = varied_performance(
        base_performance(drivers[d].name@, drivers[d].team@, params.weather_factor as int),
        noise[d] as int,
    );
    PositionState {
        driver: d as usize,
        performance: perf as u32,
        time_ns: lap_time(perf, LAP_SPREAD as int) as u64,
        active: true,
    }
}

/// A correct starting grid for these drivers and draws: every driver once,
/// each with its qualifying entry, in grid order.
pub open spec fn is_grid(g: Seq<PositionState>, drivers: Seq<Driver>, params: SimulationParameters, noise: Seq<i32>) -> bool {
    &&& g.len() == drivers.len()
    &&& forall|i: int| 0 <= i < g.len() ==> (#[trigger] g[i]).driver < drivers.len()
        && g[i] == qualifying_entry(drivers, params, noise, g[i].driver as int)
    &&& forall|i: int, j: int| 0 <= i < j < g.len() ==> grid_before(#[trigger] g[i], #[trigger] g[j])
    &&& forall|d: int| 0 <= d < drivers.len() ==> #[trigger] holds_driver(g, d)
}

/// Entries in strict grid order.
pub open spec fn in_grid_order(g: Seq<PositionState>) -> bool {
    forall|i: int, j: int| 0 <= i < j < g.len() ==> grid_before(#[trigger] g[i], #[trigger] g[j])
}

/// Inserts an entry whose driver index exceeds every present one at its
/// place in grid order; returns the slot it took.
pub fn insert_in_grid_order(order: &mut Vec<PositionState>, entry: PositionState) -> (p: usize)
    requires
        in_grid_order(old(order)@),
        forall|i: int| 0 <= i < old(order)@.len() ==> (#[trigger] old(order)@[i]).driver < entry.driver,
    ensures
        p <= old(order)@.len(),
        final(order)@ == old(order)@.insert(p as int, entry),
        in_grid_order(final(order)@),
{
    let mut p: usize = 0;
    while p < order.len() && order[p].time_ns <= entry.time_ns
        invariant
            p <= order@.len(),
            forall|i: int| 0 <= i < p ==> grid_before(#[trigger] order@[i], entry),
            forall|i: int| 0 <= i < order@.len() ==> (#[trigger] order@[i]).driver < entry.driver,
        decreases order@.len() - p,
    {
        p = p + 1;
    }
    let ghost old_order = order@;
    assert forall|i: int| p <= i < old_order.len() implies grid_before(entry, #[trigger] old_order[i]) by {
        if i > p {
            assert(grid_before(old_order[p as int], old_order[i]));
        }
    }
    order.insert(p, entry);
    assert forall|i: int, j: int| 0 <= i < j < order@.len() implies grid_before(#[trigger] order@[i], #[trigger] order@[j]) by {
        let i2 = if i < p { i } else { i - 1 };
        let j2 = if j < p { j } else { j - 1 };
        if i != p && j != p {
            assert(order@[i] == old_order[i2] && order@[j] == old_order[j2]);
        } else if i == p {
            assert(order@[j] == old_order[j2]);
        } else {
            assert(order@[i] == old_order[i2]);
        }
    }
    p
}

/// Qualifying entry of one driver.
fn qualifying_entry_of(drivers: &[Driver], params: &SimulationParameters, quali_noise: &[i32], d: usize) -> (r: PositionState)
    requires
        d < drivers@.len(),
        quali_noise@.len() == drivers@.len(),
    ensures
        r == qualifying_entry(drivers@, *params, quali_noise@, d as int),
{
    let base = calculate_driver_base_performance(&drivers[d], params);
    let perf = apply_variation(base, quali_noise[d]);
    let time = lap_time_ns(perf, LAP_SPREAD);
    PositionState { driver: d, performance: perf, time_ns: time, active: true }
}

/// Builds the starting grid: each driver's qualifying score is its base
/// performance varied by its qualifying noise (parts per million, one
/// draw per driver); the grid is ordered by the lap time of that score,
/// fastest first, ties kept in the drivers' order. Every entry is active.
pub fn initialize_driver_positions(drivers: &[Driver], params: &SimulationParameters, quali_noise: &[i32]) -> (r: Vec<PositionState>)
    requires
        quali_noise@.len() == drivers@.len(),
    ensures
        is_grid(r@, drivers@, *params, quali_noise@),
        distinct_drivers(r@),
{
    let n = drivers.len();
    let mut grid: Vec<PositionState> = Vec::new();
    let mut d: usize = 0;
    while d < n
        invariant
            n == drivers@.len(),
            quali_noise@.len() == n,
            d <= n,
            grid@.len() == d,
            forall|i: int| 0 <= i < grid@.len() ==> (#[trigger] grid@[i]).driver < d
                && grid@[i] == qualifying_entry(drivers@, *params, quali_noise@, grid@[i].driver as int),
            forall|i: int, j: int| 0 <= i < j < grid@.len() ==> grid_before(#[trigger] grid@[i], #[trigger] grid@[j]),
            forall|e: int| 0 <= e < d ==> #[trigger] holds_driver(grid@, e),
        decreases n - d,
    {
        let entry = qualifying_entry_of(drivers, params, quali_noise, d);
        let ghost old_grid = grid@;
        let p = insert_in_grid_order(&mut grid, entry);
        assert forall|e: int| 0 <= e < d + 1 implies #[trigger] holds_driver(grid@, e) by {
            if e == d {
                assert(grid@[p as int].driver == e);
            } else {
                assert(holds_driver(old_grid, e));
                let i0 = choose|i: int| 0 <= i < old_grid.len() && #[trigger] old_grid[i].driver == e;
                if i0 < p {
                    assert(grid@[i0].driver == e);
                } else {
                    assert(grid@[i0 + 1].driver == e);
                }
            }
        }
        d = d + 1;
    }
    assert(distinct_drivers(grid@)) by {
        assert forall|i: int, j: int| 0 <= i < grid@.len() && 0 <= j < grid@.len() && i != j
            implies #[trigger] grid@[i].driver != #[trigger] grid@[j].driver by {
            if i < j {
                assert(grid_before(grid@[i], grid@[j]));
            } else {
                assert(grid_before(grid@[j], grid@[i]));
            }
            assert(grid@[i] == qualifying_entry(drivers@, *params, quali_noise@, grid@[i].driver as int));
            assert(grid@[j] == qualifying_entry(drivers@, *params, quali_noise@, grid@[j].driver as int));
        }
    }
    grid
}

} // verus!
