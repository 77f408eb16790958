//! Building domain records from the optional text fields of a results feed,
//! with the defaults that stand in for missing fields.
use vstd::prelude::*;
use crate::models::{Circuit, Driver, PracticeResult, QualifyingResult, RaceResult};
use crate::text::{parse_unsigned, parsed_unsigned};

verus! {

/// The characters of an optional field.
pub open spec fn field(f: Option<&str>) -> Option<Seq<char>> {
    match f {
        Some(s) => Some(s@),
        None => None,
    }
}

/// A field's text, or the default when it is missing.
pub open spec fn text_or(f: Option<&str>, default: Seq<char>) -> Seq<char> {
    match f {
        Some(s) => s@,
        None => default,
    }
}

/// A field read as an unsigned 32-bit number, or the default when it is
/// missing or not such a number.
pub open spec fn number_or(f: Option<&str>, default: int) -> int {
    match f {
        Some(s) => match parsed_unsigned(s@, 0xffff_ffff) {
            Some(v) => v,
            None => default,
        },
        None => default,
    }
}

fn owned_or(f: Option<&str>, default: &str) -> (r: String)
    ensures
        r@ == text_or(f, default@),
{
    match f {
        Some(s) => String::from_str(s),
        None => String::from_str(default),
    }
}

fn number_field_or(f: Option<&str>, default: u32) -> (r: u32)
    ensures
        r == number_or(f, default as int),
{
    match f {
        Some(s) => match parse_unsigned(s, 0xffff_ffff) {
            Some(v) => v as u32,
            None => default,
        },
        None => default,
    }
}

/// A driver from its feed fields: id "unknown", code "???", given name
/// "Unknown", family name empty, team "Unknown Team" and number 0 when
/// missing; the name is the given and family names joined by a space.
pub fn driver_from_fields(
    id: Option<&str>,
    code: Option<&str>,
    given_name: Option<&str>,
    family_name: Option<&str>,
    team: Option<&str>,
    number: Option<&str>,
) -> (r: Driver)
    ensures
        r.id@ == text_or(id, "unknown"@),
        r.code@ == text_or(code, "???"@),
        r.name@ == text_or(given_name, "Unknown"@) + " "@ + text_or(family_name, ""@),
        r.team@ == text_or(team, "Unknown Team"@),
        r.number == number_or(number, 0),
{
    let mut name = owned_or(given_name, "Unknown");
    name.append(" ");
    let family = owned_or(family_name, "");
    name.append(family.as_str());
    Driver {
        id: owned_or(id, "unknown"),
        code: owned_or(code, "???"),
        name,
        team: owned_or(team, "Unknown Team"),
        number: number_field_or(number, 0),
    }
}

/// A circuit from its feed fields: id "unknown", name "Unknown Circuit",
/// country and city "Unknown" when missing. The feed gives no length or
/// distance, so every such circuit is 5 km long with 50 laps.
pub fn circuit_from_fields(id: Option<&str>, name: Option<&str>, country: Option<&str>, city: Option<&str>) -> (r: Circuit)
    ensures
        r.id@ == text_or(id, "unknown"@),
        r.name@ == text_or(name, "Unknown Circuit"@),
        r.country@ == text_or(country, "Unknown"@),
        r.city@ == text_or(city, "Unknown"@),
        r.length_m == 5000,
        r.laps == 50,
{
    Circuit {
        id: owned_or(id, "unknown"),
        name: owned_or(name, "Unknown Circuit"),
        country: owned_or(country, "Unknown"),
        city: owned_or(city, "Unknown"),
        length_m: 5000,
        laps: 50,
    }
}

/// The `index`-th line (from zero) of a race classification from its feed
/// fields: position `index + 1`, no points, no laps and status "Unknown"
/// when missing or unreadable; the time is kept as given.
pub fn result_from_fields(
    index: usize,
    position: Option<&str>,
    driver: Driver,
    time: Option<&str>,
    points: Option<&str>,
    laps: Option<&str>,
    status: Option<&str>,
) -> (r: RaceResult)
    requires
        index < 0xffff_ffff,
    ensures
        r.position == number_or(position, index + 1),
        r.driver == driver,
        field(time) is None ==> r.time is None,
        field(time) matches Some(t) ==> r.time is Some && r.time.unwrap()@ == t,
        r.points == number_or(points, 0),
        r.laps == number_or(laps, 0),
        r.status@ == text_or(status, "Unknown"@),
{
    let time = owned_field(time);
    RaceResult {
        position: number_field_or(position, (index + 1) as u32),
        driver,
        time,
        points: number_field_or(points, 0),
        laps: number_field_or(laps, 0),
        status: owned_or(status, "Unknown"),
    }
}

fn owned_field(f: Option<&str>) -> (r: Option<String>)
    ensures
        field(f) is None ==> r is None,
        field(f) matches Some(t) ==> r is Some && r.unwrap()@ == t,
{
    match f {
        Some(t) => Some(String::from_str(t)),
        None => None,
    }
}

/// The `index`-th line (from zero) of a qualifying classification from its
/// feed fields: position `index + 1` when missing or unreadable; session
/// times kept as given.
pub fn qualifying_from_fields(
    index: usize,
    position: Option<&str>,
    driver: Driver,
    q1: Option<&str>,
    q2: Option<&str>,
    q3: Option<&str>,
) -> (r: QualifyingResult)
    requires
        index < 0xffff_ffff,
    ensures
        r.position == number_or(position, index + 1),
        r.driver == driver,
        field(q1) is None ==> r.q1 is None,
        field(q1) matches Some(t) ==> r.q1 is Some && r.q1.unwrap()@ == t,
        field(q2) is None ==> r.q2 is None,
        field(q2) matches Some(t) ==> r.q2 is Some && r.q2.unwrap()@ == t,
        field(q3) is None ==> r.q3 is None,
        field(q3) matches Some(t) ==> r.q3 is Some && r.q3.unwrap()@ == t,
{
    QualifyingResult {
        position: number_field_or(position, (index + 1) as u32),
        driver,
        q1: owned_field(q1),
        q2: owned_field(q2),
        q3: owned_field(q3),
    }
}

/// The `index`-th line (from zero) of a practice classification from its
/// feed fields: position `index + 1` and no laps when missing or
/// unreadable; the time kept as given.
pub fn practice_from_fields(
    index: usize,
    position: Option<&str>,
    driver: Driver,
    time: Option<&str>,
    laps: Option<&str>,
) -> (r: PracticeResult)
    requires
        index < 0xffff_ffff,
    ensures
        r.position == number_or(position, index + 1),
        r.driver == driver,
        field(time) is None ==> r.time is None,
        field(time) matches Some(t) ==> r.time is Some && r.time.unwrap()@ == t,
        r.laps == number_or(laps, 0),
{
    PracticeResult {
        position: number_field_or(position, (index + 1) as u32),
        driver,
        time: owned_field(time),
        laps: number_field_or(laps, 0),
    }
}

} // verus!
