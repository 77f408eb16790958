//! Where historical data lives, which seasons to fetch, and standings.
use vstd::prelude::*;
use crate::text::{
    decimal, decimal_string, ends_with, parse_unsigned, parsed_unsigned, replace_all, replaced, seq_ends_with,
    seq_starts_with, split_at_char, split_on, starts_with, trim, trimmed_of,
};

verus! {

/// The season the data sources call current.
pub const CURRENT_SEASON: u32 = 2025;

/// First season of the championship.
pub const FIRST_SEASON: u32 = 1950;

/// The collaborator that loads historical data from disk or the network.
pub struct DataManager;

/// `prefix` + decimal number + `suffix`, as text.
fn joined(prefix: &str, number: u32, suffix: &str) -> (r: String)
    ensures
        r@ == prefix@ + decimal(number as nat) + suffix@,
{
    let mut out = String::from_str(prefix);
    out.append(decimal_string(number as u64).as_str());
    out.append(suffix);
    out
}

/// File of a season's circuit list: `./data/season_<season>.json`.
pub fn get_season_data_path(season: u32) -> (r: String)
    ensures
        r@ == "./data/season_"@ + decimal(season as nat) + ".json"@,
{
    joined("./data/season_", season, ".json")
}

/// File of a race's results: `./data/race_<season>_<gp>.json`.
pub fn get_race_data_path(season: u32, gp_name: &str) -> (r: String)
    ensures
        r@ == "./data/race_"@ + decimal(season as nat) + "_"@ + gp_name@ + ".json"@,
{
    let mut out = joined("./data/race_", season, "_");
    out.append(gp_name);
    out.append(".json");
    out
}

/// File of a qualifying session: `./data/qualifying_<season>_<gp>.json`.
pub fn get_qualifying_data_path(season: u32, gp_name: &str) -> (r: String)
    ensures
        r@ == "./data/qualifying_"@ + decimal(season as nat) + "_"@ + gp_name@ + ".json"@,
{
    let mut out = joined("./data/qualifying_", season, "_");
    out.append(gp_name);
    out.append(".json");
    out
}

/// File of a practice session: `./data/practice<n>_<season>_<gp>.json`.
pub fn get_practice_data_path(season: u32, gp_name: &str, practice_number: u32) -> (r: String)
    ensures
        r@ == "./data/practice"@ + decimal(practice_number as nat) + "_"@ + decimal(season as nat) + "_"@
            + gp_name@ + ".json"@,
{
    let mut out = joined("./data/practice", practice_number, "_");
    out.append(decimal_string(season as u64).as_str());
    out.append("_");
    out.append(gp_name);
    out.append(".json");
    out
}

/// The seasons `lo..=hi` in order.
pub open spec fn season_span(lo: int, hi: int) -> Seq<u32> {
    if lo <= hi { Seq::new((hi - lo + 1) as nat, |i: int| (lo + i) as u32) } else { Seq::empty() }
}

/// The seasons written in a comma-separated list; pieces that are not a
/// season number after trimming are skipped.
pub open spec fn listed_seasons(parts: Seq<Seq<char>>) -> Seq<u32>
    decreases parts.len(),
{
    if parts.len() == 0 {
        Seq::empty()
    } else {
        let init = listed_seasons(parts.drop_last());
        match parsed_unsigned(trimmed_of(parts.last()), 0xffff_ffff) {
            Some(v) => init.push(v as u32),
            None => init,
        }
    }
}

/// Which seasons an update fetches: every season since 1950 when `all` is
/// set; else the listed seasons when given; else the current season and
/// `previous` seasons before it; else the current season and the two before.
pub open spec fn seasons_to_fetch(previous: Option<u32>, specific: Option<Seq<char>>, all: Option<bool>, current: u32) -> Seq<u32> {
    if all == Some(true) {
        season_span(FIRST_SEASON as int, current as int)
    } else if specific is Some {
        listed_seasons(split_on(specific.unwrap(), ','))
    } else if previous is Some {
        let start = if previous.unwrap() <= current { current - previous.unwrap() } else { 0 };
        season_span(start, current as int)
    } else {
        seq![(current - 2) as u32, (current - 1) as u32, current]
    }
}

fn span(lo: u32, hi: u32) -> (r: Vec<u32>)
    ensures
        r@ == season_span(lo as int, hi as int),
{
    let mut out: Vec<u32> = Vec::new();
    let mut s: u64 = lo as u64;
    while s <= hi as u64
        invariant
            lo <= s <= hi as u64 + 1 || (lo > hi && s == lo),
            out@ == season_span(lo as int, s as int - 1),
        decreases hi as u64 + 1 - s,
    {
        out.push(s as u32);
        assert(out@ =~= season_span(lo as int, s as int));
        s = s + 1;
    }
    assert(out@ =~= season_span(lo as int, hi as int));
    out
}

/// Decides which seasons an update fetches.
pub fn determine_seasons_to_fetch(previous: Option<u32>, specific: Option<String>, all: Option<bool>, current_season: u32) -> (r: Vec<u32>)
    requires
        current_season >= 2,
    ensures
        r@ == seasons_to_fetch(previous, match specific { Some(s) => Some(s@), None => None }, all, current_season),
{
    if all == Some(true) {
        return span(FIRST_SEASON, current_season);
    }
    match specific {
        Some(list) => {
            let parts = split_at_char(list.as_str(), ',');
            let mut out: Vec<u32> = Vec::new();
            let mut k: usize = 0;
            while k < parts.len()
                invariant
                    k <= parts@.len(),
                    parts@.len() == split_on(list@, ',').len(),
                    forall|j: int| 0 <= j < parts@.len() ==> (#[trigger] parts@[j])@ == split_on(list@, ',')[j],
                    out@ == listed_seasons(split_on(list@, ',').subrange(0, k as int)),
                decreases parts@.len() - k,
            {
                let ghost sp = split_on(list@, ',');
                assert(sp.subrange(0, k + 1).drop_last() == sp.subrange(0, k as int));
                assert(sp.subrange(0, k + 1).last() == parts@[k as int]@);
                let piece = trim(parts[k].as_str());
                match parse_unsigned(piece, 0xffff_ffff) {
                    Some(v) => out.push(v as u32),
                    None => {},
                }
                k = k + 1;
            }
            assert(split_on(list@, ',').subrange(0, parts@.len() as int) == split_on(list@, ','));
            out
        },
        None => {
            match previous {
                Some(n) => {
                    let start = if n <= current_season { current_season - n } else { 0 };
                    span(start, current_season)
                },
                None => {
                    let mut out: Vec<u32> = Vec::new();
                    out.push(current_season - 2);
                    out.push(current_season - 1);
                    out.push(current_season);
                    assert(out@ =~= seq![(current_season - 2) as u32, (current_season - 1) as u32, current_season]);
                    out
                },
            }
        },
    }
}

/// The sample standings: five leaders with their points for the current
/// season, none for any other.
pub open spec fn standings_of(season: u32) -> Seq<(Seq<char>, u32)> {
    if season == CURRENT_SEASON {
        seq![
            ("Max Verstappen"@, 230u32),
            ("Lando Norris"@, 190u32),
            ("Charles Leclerc"@, 186u32),
            ("Carlos Sainz"@, 168u32),
            ("Lewis Hamilton"@, 152u32),
        ]
    } else {
        Seq::empty()
    }
}

/// Driver standings of a season, as (driver name, points), leader first.
pub fn get_driver_standings(season: u32) -> (r: Vec<(String, u32)>)
    ensures
        r@.len() == standings_of(season).len(),
        forall|i: int| 0 <= i < r@.len() ==> (#[trigger] r@[i]).0@ == standings_of(season)[i].0
            && r@[i].1 == standings_of(season)[i].1,
{
    let mut standings: Vec<(String, u32)> = Vec::new();
    if season == CURRENT_SEASON {
        standings.push((String::from_str("Max Verstappen"), 230));
        standings.push((String::from_str("Lando Norris"), 190));
        standings.push((String::from_str("Charles Leclerc"), 186));
        standings.push((String::from_str("Carlos Sainz"), 168));
        standings.push((String::from_str("Lewis Hamilton"), 152));
    }
    standings
}

/// A file of the data directory, as the listing sees it.
#[derive(Debug, Clone)]
pub enum DataFile {
    /// A season's circuit list.
    Season(u32),
    /// A race of a season, with its circuit identifier.
    Race(u32, String),
}

/// The pieces joined back with `_` between them.
pub open spec fn underscore_joined(parts: Seq<Seq<char>>) -> Seq<char>
    decreases parts.len(),
{
    if parts.len() <= 1 {
        if parts.len() == 0 { Seq::empty() } else { parts[0] }
    } else {
        underscore_joined(parts.drop_last()) + seq!['_'] + parts.last()
    }
}

/// The file name with every `prefix` and every ".json" removed.
pub open spec fn stripped_name(name: Seq<char>, prefix: Seq<char>) -> Seq<char> {
    replaced(replaced(name, prefix, Seq::empty()), ".json"@, Seq::empty())
}

/// What the listing makes of a file name, given an optional season filter,
/// as a season and, for a race, its circuit: `season_<n>.json` for a
/// positive season `n`, `race_<n>_<gp>.json` for a season `n` and a circuit
/// `gp` (which may hold `_`), each only when the filter admits the season;
/// anything else is not listed.
pub open spec fn listed_file(name: Seq<char>, filter: Option<u32>) -> Option<(u32, Option<Seq<char>>)> {
    if seq_starts_with(name, "season_"@) && seq_ends_with(name, ".json"@) {
        let season = match parsed_unsigned(stripped_name(name, "season_"@), 0xffff_ffff) {
            Some(v) => v,
            None => 0,
        };
        if season > 0 && (filter is None || filter == Some(season as u32)) {
            Some((season as u32, None))
        } else {
            None
        }
    } else if seq_starts_with(name, "race_"@) && seq_ends_with(name, ".json"@) {
        let parts = split_on(stripped_name(name, "race_"@), '_');
        if parts.len() >= 2 {
            match parsed_unsigned(parts[0], 0xffff_ffff) {
                Some(v) => if filter is None || filter == Some(v as u32) {
                    Some((v as u32, Some(underscore_joined(parts.subrange(1, parts.len() as int)))))
                } else {
                    None
                },
                None => None,
            }
        } else {
            None
        }
    } else {
        None
    }
}

fn strip_name(name: &str, prefix: &str) -> (r: String)
    requires
        prefix@.len() > 0,
    ensures
        r@ == stripped_name(name@, prefix@),
{
    proof {
        reveal_strlit(".json");
        reveal_strlit("");
        assert(""@ =~= Seq::<char>::empty());
    }
    let without_prefix = replace_all(name, prefix, "");
    replace_all(without_prefix.as_str(), ".json", "")
}

/// Reads a file name of the data directory for the listing.
pub fn classify_data_file(file_name: &str, filter: Option<u32>) -> (r: Option<DataFile>)
    ensures
        match r {
            None => listed_file(file_name@, filter) is None,
            Some(DataFile::Season(n)) => listed_file(file_name@, filter) == Some((n, None::<Seq<char>>)),
            Some(DataFile::Race(n, gp)) => listed_file(file_name@, filter) == Some((n, Some(gp@))),
        },
{
    proof {
        reveal_strlit("season_");
        reveal_strlit("race_");
    }
    if starts_with(file_name, "season_") && ends_with(file_name, ".json") {
        let stripped = strip_name(file_name, "season_");
        let season = match parse_unsigned(stripped.as_str(), 0xffff_ffff) {
            Some(v) => v as u32,
            None => 0,
        };
        if season > 0 && (filter.is_none() || filter == Some(season)) {
            Some(DataFile::Season(season))
        } else {
            None
        }
    } else if starts_with(file_name, "race_") && ends_with(file_name, ".json") {
        let stripped = strip_name(file_name, "race_");
        let parts = split_at_char(stripped.as_str(), '_');
        if parts.len() < 2 {
            return None;
        }
        match parse_unsigned(parts[0].as_str(), 0xffff_ffff) {
            Some(v) => {
                let season = v as u32;
                if filter.is_none() || filter == Some(season) {
                    let ghost sp = split_on(stripped@, '_');
                    let mut gp = String::new();
                    let mut k: usize = 1;
                    while k < parts.len()
                        invariant
                            1 <= k <= parts@.len(),
                            parts@.len() == sp.len(),
                            forall|j: int| 0 <= j < parts@.len() ==> (#[trigger] parts@[j])@ == sp[j],
                            gp@ == underscore_joined(sp.subrange(1, k as int)),
                        decreases parts@.len() - k,
                    {
                        let ghost before = sp.subrange(1, k as int);
                        let ghost after = sp.subrange(1, k + 1);
                        assert(after.drop_last() == before);
                        assert(after.last() == sp[k as int]);
                        if k > 1 {
                            gp.append("_");
                            proof {
                                reveal_strlit("_");
                            }
                        }
                        gp.append(parts[k].as_str());
                        assert(gp@ =~= underscore_joined(after));
                        k = k + 1;
                    }
                    Some(DataFile::Race(season, gp))
                } else {
                    None
                }
            },
            None => None,
        }
    } else {
        None
    }
}

} // verus!
