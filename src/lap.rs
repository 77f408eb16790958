//! The lap progression engine: per-lap resampling, overtakes, and the
//! fastest-lap record.
use vstd::prelude::*;
use crate::models::PositionState;
use crate::performance::{apply_variation, lap_time, lap_time_ns, lemma_varied_in_range, varied_performance, LAP_SPREAD};
use crate::results::{distinct_drivers, holds_driver};

verus! {

/// Base performance used for a driver missing from the table of base scores.
pub const DEFAULT_BASE_PERFORMANCE: u32 = 900_000;

/// The anchoring base score of a driver.
pub open spec fn base_of(base: Seq<u32>, driver: usize) -> int {
    if driver < base.len() { base[driver as int] as int } else { DEFAULT_BASE_PERFORMANCE as int }
}

/// The car behind overtakes when it is faster and the uniform draw (parts
/// per million) falls under `2.5 * (behind - ahead)`.
pub open spec fn overtakes(behind: int, ahead: int, draw: int) -> bool {
    behind > ahead && 2 * draw < 5 * (behind - ahead)
}

/// The two entries at `i - 1` and `i` exchanged.
pub open spec fn swap_back(s: Seq<PositionState>, i: int) -> Seq<PositionState> {
    s.update(i - 1, s[i]).update(i, s[i - 1])
}

/// The work of one slot of a lap: an active entry gets its new score, then
/// may pass the active entry in front of it.
pub open spec fn lap_step(s: Seq<PositionState>, i: int, base: Seq<u32>, noise: Seq<i32>, draws: Seq<u32>) -> Seq<PositionState> {
    if !s[i].active {
        s
    } else {
        let e = PositionState {
            performance: varied_performance(base_of(base, s[i].driver), noise[i] as int) as u32,
            ..s[i]
        };
        let s1 = s.update(i, e);
        if i > 0 && s1[i - 1].active && overtakes(e.performance as int, s1[i - 1].performance as int, draws[i] as int) {
            swap_back(s1, i)
        } else {
            s1
        }
    }
}

/// The first `k` slots of a lap, processed front to back.
pub open spec fn lap_pass(s: Seq<PositionState>, k: nat, base: Seq<u32>, noise: Seq<i32>, draws: Seq<u32>) -> Seq<PositionState>
    decreases k,
{
    if k == 0 {
        s
    } else {
        lap_step(lap_pass(s, (k - 1) as nat, base, noise, draws), k - 1, base, noise, draws)
    }
}

/// What a lap keeps: the length, each slot's active flag, every retired
/// entry exactly, and distinct drivers.
pub open spec fn lap_keeps(s: Seq<PositionState>, t: Seq<PositionState>) -> bool {
    &&& t.len() == s.len()
    &&& forall|i: int| 0 <= i < s.len() ==> (#[trigger] t[i]).active == s[i].active
    &&& forall|i: int| 0 <= i < s.len() && !s[i].active ==> #[trigger] t[i] == s[i]
    &&& distinct_drivers(s) ==> distinct_drivers(t)
    &&& scores_in_range(s) ==> scores_in_range(t)
    &&& forall|i: int| 0 <= i < t.len() ==> holds_driver(s, (#[trigger] t[i]).driver as int)
}

proof fn lemma_lap_step_keeps(s: Seq<PositionState>, i: int, base: Seq<u32>, noise: Seq<i32>, draws: Seq<u32>)
    requires
        0 <= i < s.len(),
    ensures
        lap_keeps(s, lap_step(s, i, base, noise, draws)),
{
    let t = lap_step(s, i, base, noise, draws);
    if s[i].active {
        lemma_varied_in_range(base_of(base, s[i].driver), noise[i] as int);
        assert forall|k: int| 0 <= k < t.len() implies holds_driver(s, (#[trigger] t[k]).driver as int) by {
            if i > 0 && k == i - 1 {
                if t[k].driver == s[i].driver { assert(s[i].driver == t[k].driver); } else { assert(s[k].driver == t[k].driver); }
            } else if k == i {
                if t[k].driver == s[i].driver { assert(s[i].driver == t[k].driver); } else { assert(s[i - 1].driver == t[k].driver); }
            } else {
                assert(s[k].driver == t[k].driver);
            }
        }
        if distinct_drivers(s) {
            assert forall|a: int, b: int| 0 <= a < t.len() && 0 <= b < t.len() && a != b
                implies #[trigger] t[a].driver != #[trigger] t[b].driver by {
                let ma = if t[a].driver == s[a].driver { a } else if a == i { i - 1 } else { i };
                let mb = if t[b].driver == s[b].driver { b } else if b == i { i - 1 } else { i };
                assert(t[a].driver == s[ma].driver);
                assert(t[b].driver == s[mb].driver);
            }
        }
    }
}

proof fn lemma_lap_keeps_trans(a: Seq<PositionState>, b: Seq<PositionState>, c: Seq<PositionState>)
    requires
        lap_keeps(a, b),
        lap_keeps(b, c),
    ensures
        lap_keeps(a, c),
{
    assert forall|i: int| 0 <= i < c.len() implies holds_driver(a, (#[trigger] c[i]).driver as int) by {
        assert(holds_driver(b, c[i].driver as int));
        let k = choose|k: int| 0 <= k < b.len() && #[trigger] b[k].driver == c[i].driver as int;
        assert(holds_driver(a, b[k].driver as int));
    }
}

/// A lap never creates, removes or revives an entry: any number of slots
/// processed keep the length, every active flag in place, and every
/// retired entry frozen.
pub proof fn lemma_lap_pass_keeps(s: Seq<PositionState>, k: nat, base: Seq<u32>, noise: Seq<i32>, draws: Seq<u32>)
    requires
        k <= s.len(),
    ensures
        lap_keeps(s, lap_pass(s, k, base, noise, draws)),
    decreases k,
{
    if k == 0 {
        assert forall|i: int| 0 <= i < s.len() implies holds_driver(s, (#[trigger] s[i]).driver as int) by {
            assert(s[i].driver == s[i].driver);
        }
    } else {
        let prev = lap_pass(s, (k - 1) as nat, base, noise, draws);
        lemma_lap_pass_keeps(s, (k - 1) as nat, base, noise, draws);
        lemma_lap_step_keeps(prev, k - 1, base, noise, draws);
        lemma_lap_keeps_trans(s, prev, lap_pass(s, k, base, noise, draws));
    }
}

/// Advances the running order by one lap. Front to back, every active
/// entry gets its base score (from `driver_performance`, by driver index)
/// varied by the slot's noise; then, if the entry in front is active too,
/// it passes that entry when `overtake_draws` at its slot (uniform in
/// parts per million) is under 2.5 times the score difference. One
/// attempt per adjacent pair per lap; retired entries never move.
pub fn update_race_positions(
    positions: &mut Vec<PositionState>,
    driver_performance: &Vec<u32>,
    lap_noise: &Vec<i32>,
    overtake_draws: &Vec<u32>,
)
    requires
        lap_noise.len() == old(positions).len(),
        overtake_draws.len() == old(positions).len(),
    ensures
        final(positions)@ == lap_pass(old(positions)@, old(positions)@.len(), driver_performance@, lap_noise@, overtake_draws@),
        lap_keeps(old(positions)@, final(positions)@),
{
    let ghost s0 = positions@;
    let n = positions.len();
    let mut i: usize = 0;
    while i < n
        invariant
            n == s0.len(),
            lap_noise@.len() == n,
            overtake_draws@.len() == n,
            i <= n,
            positions@ == lap_pass(s0, i as nat, driver_performance@, lap_noise@, overtake_draws@),
        decreases n - i,
    {
        proof {
            lemma_lap_pass_keeps(s0, i as nat, driver_performance@, lap_noise@, overtake_draws@);
        }
        if positions[i].active {
            let d = positions[i].driver;
            let base = if d < driver_performance.len() { driver_performance[d] } else { DEFAULT_BASE_PERFORMANCE };
            let perf = apply_variation(base, lap_noise[i]);
            let mut e = positions[i];
            e.performance = perf;
            positions.set(i, e);
            if i > 0 && positions[i - 1].active {
                let ahead = positions[i - 1].performance;
                if perf > ahead && (overtake_draws[i] as u64) * 2 < ((perf - ahead) as u64) * 5 {
                    let front = positions[i - 1];
                    positions.set(i - 1, e);
                    positions.set(i, front);
                }
            }
        }
        i = i + 1;
    }
    proof {
        lemma_lap_pass_keeps(s0, n as nat, driver_performance@, lap_noise@, overtake_draws@);
    }
}

/// The fastest-lap record after the first `k` entries of `s`: an active
/// entry takes the record when its lap time is strictly lower.
pub open spec fn fastest_after(s: Seq<PositionState>, k: nat, init: Option<(usize, u64)>) -> Option<(usize, u64)>
    decreases k,
{
    if k == 0 {
        init
    } else {
        let prev = fastest_after(s, (k - 1) as nat, init);
        let e = s[k - 1];
        let t = lap_time(e.performance as int, LAP_SPREAD as int);
        if !e.active {
            prev
        } else {
            match prev {
                Some(rec) => if t < rec.1 { Some((e.driver, t as u64)) } else { prev },
                None => Some((e.driver, t as u64)),
            }
        }
    }
}

/// Scores in (0, 1].
pub open spec fn scores_in_range(s: Seq<PositionState>) -> bool {
    forall|i: int| 0 <= i < s.len() ==> 1 <= (#[trigger] s[i]).performance <= 1_000_000
}

/// Updates the fastest-lap record from the current scores of the active
/// entries: each one's lap time is derived from its score, and the record
/// moves to a strictly faster one.
pub fn update_fastest_lap(positions: &Vec<PositionState>, lap: u32, fastest_lap: &mut Option<(usize, u64)>)
    requires
        scores_in_range(positions@),
    ensures
        *final(fastest_lap) == fastest_after(positions@, positions@.len(), *old(fastest_lap)),
        (*old(fastest_lap)) is Some ==> (*final(fastest_lap)) is Some
            && (*final(fastest_lap)).unwrap().1 <= (*old(fastest_lap)).unwrap().1,
        forall|i: int| 0 <= i < positions@.len() && (#[trigger] positions@[i]).active ==> (*final(fastest_lap)) is Some
            && (*final(fastest_lap)).unwrap().1 <= lap_time(positions@[i].performance as int, LAP_SPREAD as int),
{
    let ghost init = *fastest_lap;
    let mut i: usize = 0;
    while i < positions.len()
        invariant
            scores_in_range(positions@),
            i <= positions@.len(),
            *fastest_lap == fastest_after(positions@, i as nat, init),
        decreases positions@.len() - i,
    {
        let e = positions[i];
        if e.active {
            let t = lap_time_ns(e.performance, LAP_SPREAD);
            match *fastest_lap {
                Some(rec) => {
                    if t < rec.1 {
                        *fastest_lap = Some((e.driver, t));
                    }
                },
                None => {
                    *fastest_lap = Some((e.driver, t));
                },
            }
        }
        i = i + 1;
    }
    proof {
        lemma_fastest_is_minimum(positions@, positions@.len(), init);
    }
}

/// The record never gets slower, and it ends at or below every active
/// entry's lap time.
pub proof fn lemma_fastest_is_minimum(s: Seq<PositionState>, k: nat, init: Option<(usize, u64)>)
    requires
        k <= s.len(),
        scores_in_range(s),
    ensures
        init is Some ==> fastest_after(s, k, init) is Some
            && fastest_after(s, k, init).unwrap().1 <= init.unwrap().1,
        forall|i: int| 0 <= i < k && (#[trigger] s[i]).active ==> fastest_after(s, k, init) is Some
            && fastest_after(s, k, init).unwrap().1 <= lap_time(s[i].performance as int, LAP_SPREAD as int),
    decreases k,
{
    if k > 0 {
        lemma_fastest_is_minimum(s, (k - 1) as nat, init);
    }
}

} // verus!
