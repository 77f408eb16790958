//! The results assembler: from a final running order to a classification
//! with positions and points.
use vstd::prelude::*;
use crate::models::PositionState;

verus! {

/// Championship points for a finishing position (1-based).
pub open spec fn points_for(position: int) -> int {
    if position == 1 { 25 }
    else if position == 2 { 18 }
    else if position == 3 { 15 }
    else if position == 4 { 12 }
    else if position == 5 { 10 }
    else if position == 6 { 8 }
    else if position == 7 { 6 }
    else if position == 8 { 4 }
    else if position == 9 { 2 }
    else if position == 10 { 1 }
    else { 0 }
}

/// The entries still racing, in running order.
pub open spec fn finishers(s: Seq<PositionState>) -> Seq<PositionState>
    decreases s.len(),
{
    if s.len() == 0 {
        Seq::empty()
    } else if s.last().active {
        finishers(s.drop_last()).push(s.last())
    } else {
        finishers(s.drop_last())
    }
}

/// The retired entries, in running order.
pub open spec fn retirees(s: Seq<PositionState>) -> Seq<PositionState>
    decreases s.len(),
{
    if s.len() == 0 {
        Seq::empty()
    } else if !s.last().active {
        retirees(s.drop_last()).push(s.last())
    } else {
        retirees(s.drop_last())
    }
}

/// Finishers first, then retirees.
pub open spec fn classified_order(s: Seq<PositionState>) -> Seq<PositionState> {
    finishers(s) + retirees(s)
}

/// One line of a classification, keyed by driver index.
#[derive(Debug, Clone, Copy, PartialEq, Eq)]
pub struct Classified {
    pub driver: usize,
    pub position: u32,
    pub points: u32,
    pub finished: bool,
    pub time_ns: u64,
}

/// The fastest-lap bonus: one point to the holder when classified in the top ten
/// as a finisher.
pub open spec fn bonus(driver: usize, position: int, finished: bool, fastest: Option<usize>) -> int {
    if finished && position <= 10 && fastest == Some(driver) { 1 } else { 0 }
}

/// The line at index `k` of the classification of `s`.
pub open spec fn classified_at(s: Seq<PositionState>, k: int, fastest: Option<usize>) -> Classified {
    let e = classified_order(s)[k];
    let finished = k < finishers(s).len();
    Classified {
        driver: e.driver,
        position: (k + 1) as u32,
        points: (if finished { points_for(k + 1) + bonus(e.driver, k + 1, true, fastest) } else { 0 }) as u32,
        finished,
        time_ns: e.time_ns,
    }
}

/// The classification of a final running order.
pub open spec fn classification(s: Seq<PositionState>, fastest: Option<usize>) -> Seq<Classified> {
    Seq::new(s.len(), |k: int| classified_at(s, k, fastest))
}

/// Finishers and retirees split the running order.
pub proof fn lemma_split_len(s: Seq<PositionState>)
    ensures
        finishers(s).len() + retirees(s).len() == s.len(),
        forall|k: int| 0 <= k < finishers(s).len() ==> #[trigger] finishers(s)[k].active,
        forall|k: int| 0 <= k < retirees(s).len() ==> !(#[trigger] retirees(s)[k]).active,
    decreases s.len(),
{
    if s.len() > 0 {
        lemma_split_len(s.drop_last());
    }
}

/// Points for a finishing position, as the schedule gives them.
pub fn points_for_position(position: u32) -> (r: u32)
    ensures
        r == points_for(position as int),
{
    match position {
        1 => 25,
        2 => 18,
        3 => 15,
        4 => 12,
        5 => 10,
        6 => 8,
        7 => 6,
        8 => 4,
        9 => 2,
        10 => 1,
        _ => 0,
    }
}

/// Reorders a running order so that finishers come first, then retirees,
/// each group in running order.
pub fn order_for_classification(positions: &Vec<PositionState>) -> (r: Vec<PositionState>)
    ensures
        r@ == classified_order(positions@),
{
    let mut front: Vec<PositionState> = Vec::new();
    let mut back: Vec<PositionState> = Vec::new();
    let mut i: usize = 0;
    while i < positions.len()
        invariant
            i <= positions.len(),
            front@ == finishers(positions@.subrange(0, i as int)),
            back@ == retirees(positions@.subrange(0, i as int)),
        decreases positions.len() - i,
    {
        let e = positions[i];
        assert(positions@.subrange(0, i + 1).drop_last() == positions@.subrange(0, i as int));
        if e.active {
            front.push(e);
        } else {
            back.push(e);
        }
        i = i + 1;
    }
    assert(positions@.subrange(0, i as int) == positions@);
    front.append(&mut back);
    front
}

/// Assigns positions and points to a final running order: finishers ranked
/// 1.. in running order, retirees after them with no points, and one bonus
/// point to the fastest-lap holder if classified in the top ten.
pub fn classify(positions: &Vec<PositionState>, fastest: Option<usize>) -> (r: Vec<Classified>)
    requires
        positions.len() < 0xffff_ffff,
    ensures
        r@ == classification(positions@, fastest),
{
    let ordered = order_for_classification(positions);
    proof {
        lemma_split_len(positions@);
    }
    let mut n_finishers: usize = 0;
    while n_finishers < ordered.len() && ordered[n_finishers].active
        invariant
            ordered@ == classified_order(positions@),
            finishers(positions@).len() + retirees(positions@).len() == positions@.len(),
            forall|k: int| 0 <= k < finishers(positions@).len() ==> #[trigger] finishers(positions@)[k].active,
            forall|k: int| 0 <= k < retirees(positions@).len() ==> !(#[trigger] retirees(positions@)[k]).active,
            n_finishers <= finishers(positions@).len(),
        decreases ordered.len() - n_finishers,
    {
        proof {
            if n_finishers == finishers(positions@).len() {
                assert(!ordered@[n_finishers as int].active);
            }
        }
        n_finishers = n_finishers + 1;
    }
    proof {
        if n_finishers < finishers(positions@).len() {
            assert(ordered@[n_finishers as int].active);
        }
    }
    let mut out: Vec<Classified> = Vec::new();
    let mut k: usize = 0;
    while k < ordered.len()
        invariant
            ordered@ == classified_order(positions@),
            ordered.len() == positions.len(),
            positions.len() < 0xffff_ffff,
            n_finishers == finishers(positions@).len(),
            k <= ordered.len(),
            out@.len() == k,
            forall|j: int| 0 <= j < k ==> out@[j] == classified_at(positions@, j, fastest),
        decreases ordered.len() - k,
    {
        let e = ordered[k];
        let position = (k + 1) as u32;
        let finished = k < n_finishers;
        let points = if finished {
            let b: u32 = if position <= 10 && fastest == Some(e.driver) { 1 } else { 0 };
            points_for_position(position) + b
        } else {
            0
        };
        out.push(Classified { driver: e.driver, position, points, finished, time_ns: e.time_ns });
        k = k + 1;
    }
    assert(out@ == classification(positions@, fastest));
    out
}

/// Driver `d` has an entry in `g`.
pub open spec fn holds_driver(g: Seq<PositionState>, d: int) -> bool {
    exists|i: int| 0 <= i < g.len() && #[trigger] g[i].driver == d
}

/// No driver appears twice in the sequence.
pub open spec fn distinct_drivers(s: Seq<PositionState>) -> bool {
    forall|i: int, j: int| 0 <= i < s.len() && 0 <= j < s.len() && i != j
        ==> #[trigger] s[i].driver != #[trigger] s[j].driver
}

/// Every finisher and every retiree is an entry of the running order.
pub proof fn lemma_split_members(s: Seq<PositionState>)
    ensures
        forall|k: int| 0 <= k < finishers(s).len() ==> s.contains(#[trigger] finishers(s)[k]),
        forall|k: int| 0 <= k < retirees(s).len() ==> s.contains(#[trigger] retirees(s)[k]),
    decreases s.len(),
{
    if s.len() > 0 {
        let t = s.drop_last();
        lemma_split_members(t);
        assert forall|k: int| 0 <= k < finishers(s).len() implies s.contains(#[trigger] finishers(s)[k]) by {
            if k < finishers(t).len() {
                let j = choose|j: int| 0 <= j < t.len() && t[j] == finishers(t)[k];
                assert(s[j] == finishers(s)[k]);
            } else {
                assert(s[s.len() - 1] == finishers(s)[k]);
            }
        }
        assert forall|k: int| 0 <= k < retirees(s).len() implies s.contains(#[trigger] retirees(s)[k]) by {
            if k < retirees(t).len() {
                let j = choose|j: int| 0 <= j < t.len() && t[j] == retirees(t)[k];
                assert(s[j] == retirees(s)[k]);
            } else {
                assert(s[s.len() - 1] == retirees(s)[k]);
            }
        }
    }
}

/// Reordering finishers before retirees keeps the drivers distinct.
pub proof fn lemma_classified_order_distinct(s: Seq<PositionState>)
    requires
        distinct_drivers(s),
    ensures
        distinct_drivers(classified_order(s)),
        classified_order(s).len() == s.len(),
    decreases s.len(),
{
    lemma_split_len(s);
    if s.len() > 0 {
        let t = s.drop_last();
        let x = s.last();
        assert(distinct_drivers(t)) by {
            assert forall|i: int, j: int| 0 <= i < t.len() && 0 <= j < t.len() && i != j
                implies #[trigger] t[i].driver != #[trigger] t[j].driver by {
                assert(t[i] == s[i] && t[j] == s[j]);
            }
        }
        lemma_classified_order_distinct(t);
        lemma_split_members(t);
        lemma_split_len(t);
        let c = classified_order(s);
        let ct = classified_order(t);
        // every entry of ct comes from t, so none has the last driver
        assert forall|k: int| 0 <= k < ct.len() implies (#[trigger] ct[k]).driver != x.driver by {
            if k < finishers(t).len() {
                assert(ct[k] == finishers(t)[k]);
                assert(t.contains(finishers(t)[k]));
            } else {
                assert(ct[k] == retirees(t)[k - finishers(t).len()]);
                assert(t.contains(retirees(t)[k - finishers(t).len()]));
            }
            let j = choose|j: int| 0 <= j < t.len() && t[j] == ct[k];
            assert(s[j] == t[j]);
            assert(s[s.len() - 1] == x);
        }
        let nf = finishers(t).len() as int;
        if x.active {
            // c is ct with x inserted at nf
            assert(c =~= ct.insert(nf, x));
        } else {
            assert(c =~= ct.push(x));
        }
        assert forall|i: int, j: int| 0 <= i < c.len() && 0 <= j < c.len() && i != j
            implies #[trigger] c[i].driver != #[trigger] c[j].driver by {
            if x.active {
                if i != nf && j != nf {
                    let i2 = if i < nf { i } else { i - 1 };
                    let j2 = if j < nf { j } else { j - 1 };
                    assert(c[i] == ct[i2] && c[j] == ct[j2]);
                } else if i == nf {
                    let j2 = if j < nf { j } else { j - 1 };
                    assert(c[j] == ct[j2]);
                } else {
                    let i2 = if i < nf { i } else { i - 1 };
                    assert(c[i] == ct[i2]);
                }
            } else {
                if i < ct.len() && j < ct.len() {
                    assert(c[i] == ct[i] && c[j] == ct[j]);
                } else if i < ct.len() {
                    assert(c[i] == ct[i]);
                } else {
                    assert(c[j] == ct[j]);
                }
            }
        }
    }
}

/// The bonus point shows as one point above the schedule.
pub open spec fn has_bonus(c: Classified) -> bool {
    c.points == points_for(c.position as int) + 1
}

/// Points follow the schedule: with no retirees, the winner scores 25 unless
/// the winner also holds the fastest lap, and nobody from eleventh place on
/// scores.
pub proof fn lemma_points_schedule(s: Seq<PositionState>, fastest: Option<usize>)
    requires
        s.len() >= 1,
        s.len() < 0xffff_ffff,
        forall|k: int| 0 <= k < s.len() ==> #[trigger] s[k].active,
    ensures
        classification(s, fastest)[0].position == 1,
        fastest != Some(classification(s, fastest)[0].driver) ==> classification(s, fastest)[0].points == 25,
        forall|k: int| 0 <= k < s.len() && #[trigger] classification(s, fastest)[k].position >= 11
            ==> classification(s, fastest)[k].points == 0,
{
    lemma_split_len(s);
    lemma_all_finish(s);
}

proof fn lemma_all_finish(s: Seq<PositionState>)
    requires
        forall|k: int| 0 <= k < s.len() ==> #[trigger] s[k].active,
    ensures
        finishers(s).len() == s.len(),
    decreases s.len(),
{
    if s.len() > 0 {
        let t = s.drop_last();
        assert forall|k: int| 0 <= k < t.len() implies #[trigger] t[k].active by {
            assert(t[k] == s[k]);
        }
        lemma_all_finish(t);
        assert(s[s.len() - 1].active);
    }
}

/// The fastest-lap bonus goes to one line at most: the holder's, classified
/// as a finisher in the top ten.
pub proof fn lemma_fastest_lap_bonus(s: Seq<PositionState>, fastest: Option<usize>)
    requires
        distinct_drivers(s),
        s.len() < 0xffff_ffff,
    ensures
        forall|i: int, j: int| 0 <= i < s.len() && 0 <= j < s.len()
            && has_bonus(#[trigger] classification(s, fastest)[i])
            && has_bonus(#[trigger] classification(s, fastest)[j]) ==> i == j,
        forall|i: int| 0 <= i < s.len() && has_bonus(#[trigger] classification(s, fastest)[i])
            ==> classification(s, fastest)[i].position <= 10
                && classification(s, fastest)[i].finished
                && fastest == Some(classification(s, fastest)[i].driver),
{
    lemma_split_len(s);
    lemma_classified_order_distinct(s);
    let c = classification(s, fastest);
    assert forall|i: int| 0 <= i < s.len() && has_bonus(#[trigger] c[i])
        implies c[i].position <= 10 && c[i].finished && fastest == Some(c[i].driver) by {
        assert(c[i] == classified_at(s, i, fastest));
    }
    assert forall|i: int, j: int| 0 <= i < s.len() && 0 <= j < s.len()
        && has_bonus(#[trigger] c[i]) && has_bonus(#[trigger] c[j]) implies i == j by {
        assert(c[i] == classified_at(s, i, fastest));
        assert(c[j] == classified_at(s, j, fastest));
        if i != j {
            assert(classified_order(s)[i].driver != classified_order(s)[j].driver);
        }
    }
}

/// No line of a classification scores more than 26 points.
pub proof fn lemma_classification_points_capped(s: Seq<PositionState>, fastest: Option<usize>)
    ensures
        forall|k: int| 0 <= k < s.len() ==> (#[trigger] classification(s, fastest)[k]).points <= 26,
{
}

} // verus!
