//! The catalog of circuits and drivers, and the normalisation of Grand
//! Prix names.
use vstd::prelude::*;
use crate::models::{Circuit, Driver};
use crate::text::{lowercase, lowercase_of, replace_all, replaced, text_eq, trim, trimmed_of};

verus! {

/// The circuit identifier that a cleaned-up name stands for; other names
/// stand for themselves.
pub open spec fn gp_alias(t: Seq<char>) -> Seq<char> {
    if t == "monaco"@ { "monaco"@ }
    else if t == "monza"@ || t == "italian"@ { "monza"@ }
    else if t == "spa"@ || t == "belgian"@ { "spa"@ }
    else if t == "silverstone"@ || t == "british"@ { "silverstone"@ }
    else if t == "barcelona"@ || t == "spanish"@ || t == "spain"@ { "catalunya"@ }
    else if t == "melbourne"@ || t == "australia"@ || t == "australian"@ { "albert_park"@ }
    else if t == "montreal"@ || t == "canada"@ || t == "canadian"@ { "villeneuve"@ }
    else if t == "baku"@ || t == "azerbaijan"@ { "baku"@ }
    else if t == "hungaroring"@ || t == "hungary"@ || t == "hungarian"@ { "hungaroring"@ }
    else if t == "suzuka"@ || t == "japan"@ || t == "japanese"@ { "suzuka"@ }
    else if t == "singapore"@ { "marina_bay"@ }
    else if t == "austin"@ || t == "usa"@ || t == "us"@ { "americas"@ }
    else if t == "mexico"@ || t == "mexican"@ { "rodriguez"@ }
    else if t == "brazil"@ || t == "brazilian"@ || t == "interlagos"@ { "interlagos"@ }
    else if t == "abu-dhabi"@ || t == "abu dhabi"@ || t == "abudhabi"@ { "yas_marina"@ }
    else if t == "bahrain"@ { "bahrain"@ }
    else if t == "jeddah"@ || t == "saudi"@ || t == "saudi arabia"@ || t == "saudi-arabia"@ { "jeddah"@ }
    else if t == "imola"@ || t == "emilia romagna"@ { "imola"@ }
    else if t == "miami"@ { "miami"@ }
    else if t == "zandvoort"@ || t == "dutch"@ || t == "netherlands"@ { "zandvoort"@ }
    else if t == "las-vegas"@ || t == "las vegas"@ || t == "vegas"@ { "las_vegas"@ }
    else if t == "qatar"@ || t == "losail"@ { "losail"@ }
    else { t }
}

fn alias_of(t: &str) -> (r: String)
    ensures
        r@ == gp_alias(t@),
{
    if text_eq(t, "monaco") {
        String::from_str("monaco")
    } else if text_eq(t, "monza") || text_eq(t, "italian") {
        String::from_str("monza")
    } else if text_eq(t, "spa") || text_eq(t, "belgian") {
        String::from_str("spa")
    } else if text_eq(t, "silverstone") || text_eq(t, "british") {
        String::from_str("silverstone")
    } else if text_eq(t, "barcelona") || text_eq(t, "spanish") || text_eq(t, "spain") {
        String::from_str("catalunya")
    } else if text_eq(t, "melbourne") || text_eq(t, "australia") || text_eq(t, "australian") {
        String::from_str("albert_park")
    } else if text_eq(t, "montreal") || text_eq(t, "canada") || text_eq(t, "canadian") {
        String::from_str("villeneuve")
    } else if text_eq(t, "baku") || text_eq(t, "azerbaijan") {
        String::from_str("baku")
    } else if text_eq(t, "hungaroring") || text_eq(t, "hungary") || text_eq(t, "hungarian") {
        String::from_str("hungaroring")
    } else if text_eq(t, "suzuka") || text_eq(t, "japan") || text_eq(t, "japanese") {
        String::from_str("suzuka")
    } else if text_eq(t, "singapore") {
        String::from_str("marina_bay")
    } else if text_eq(t, "austin") || text_eq(t, "usa") || text_eq(t, "us") {
        String::from_str("americas")
    } else if text_eq(t, "mexico") || text_eq(t, "mexican") {
        String::from_str("rodriguez")
    } else if text_eq(t, "brazil") || text_eq(t, "brazilian") || text_eq(t, "interlagos") {
        String::from_str("interlagos")
    } else if text_eq(t, "abu-dhabi") || text_eq(t, "abu dhabi") || text_eq(t, "abudhabi") {
        String::from_str("yas_marina")
    } else if text_eq(t, "bahrain") {
        String::from_str("bahrain")
    } else if text_eq(t, "jeddah") || text_eq(t, "saudi") || text_eq(t, "saudi arabia") || text_eq(t, "saudi-arabia") {
        String::from_str("jeddah")
    } else if text_eq(t, "imola") || text_eq(t, "emilia romagna") {
        String::from_str("imola")
    } else if text_eq(t, "miami") {
        String::from_str("miami")
    } else if text_eq(t, "zandvoort") || text_eq(t, "dutch") || text_eq(t, "netherlands") {
        String::from_str("zandvoort")
    } else if text_eq(t, "las-vegas") || text_eq(t, "las vegas") || text_eq(t, "vegas") {
        String::from_str("las_vegas")
    } else if text_eq(t, "qatar") || text_eq(t, "losail") {
        String::from_str("losail")
    } else {
        String::from_str(t)
    }
}

/// A Grand Prix name cleaned up: lower-cased, spaces turned into dashes,
/// "grand prix" and "gp" removed, surrounding whitespace trimmed.
pub open spec fn cleaned_gp(gp: Seq<char>) -> Seq<char> {
    trimmed_of(replaced(replaced(replaced(lowercase_of(gp), " "@, "-"@), "grand prix"@, ""@), "gp"@, ""@))
}

/// The circuit identifier of a Grand Prix name.
pub open spec fn normalized_gp(gp: Seq<char>) -> Seq<char> {
    gp_alias(cleaned_gp(gp))
}

/// Converts a Grand Prix name as users type it into a circuit identifier.
pub fn normalize_gp_name(gp: &str) -> (r: String)
    ensures
        r@ == normalized_gp(gp@),
{
    proof {
        reveal_strlit(" ");
        reveal_strlit("grand prix");
        reveal_strlit("gp");
    }
    let lowered = lowercase(gp);
    let dashed = replace_all(lowered.as_str(), " ", "-");
    let no_gp_words = replace_all(dashed.as_str(), "grand prix", "");
    let no_gp = replace_all(no_gp_words.as_str(), "gp", "");
    let cleaned = trim(no_gp.as_str());
    alias_of(cleaned)
}

/// The catalog entry of a circuit identifier: name, country, city, length
/// in metres and laps.
pub open spec fn circuit_entry(id: Seq<char>) -> Option<(Seq<char>, Seq<char>, Seq<char>, u32, u32)> {
    if id == "monaco"@ { Some(("Circuit de Monaco"@, "Monaco"@, "Monte Carlo"@, 3337u32, 78u32)) }
    else if id == "monza"@ || id == "italian"@ { Some(("Autodromo Nazionale Monza"@, "Italy"@, "Monza"@, 5793u32, 53u32)) }
    else if id == "spa"@ || id == "belgian"@ { Some(("Circuit de Spa-Francorchamps"@, "Belgium"@, "Spa"@, 7004u32, 44u32)) }
    else if id == "silverstone"@ || id == "british"@ { Some(("Silverstone Circuit"@, "UK"@, "Silverstone"@, 5891u32, 52u32)) }
    else if id == "catalunya"@ || id == "spanish"@ { Some(("Circuit de Barcelona-Catalunya"@, "Spain"@, "Barcelona"@, 4675u32, 66u32)) }
    else if id == "albert_park"@ || id == "australian"@ { Some(("Albert Park Circuit"@, "Australia"@, "Melbourne"@, 5278u32, 58u32)) }
    else if id == "villeneuve"@ || id == "canadian"@ { Some(("Circuit Gilles Villeneuve"@, "Canada"@, "Montreal"@, 4361u32, 70u32)) }
    else if id == "baku"@ || id == "azerbaijan"@ { Some(("Baku City Circuit"@, "Azerbaijan"@, "Baku"@, 6003u32, 51u32)) }
    else if id == "hungaroring"@ || id == "hungarian"@ { Some(("Hungaroring"@, "Hungary"@, "Budapest"@, 4381u32, 70u32)) }
    else if id == "suzuka"@ || id == "japanese"@ { Some(("Suzuka International Racing Course"@, "Japan"@, "Suzuka"@, 5807u32, 53u32)) }
    else if id == "marina_bay"@ || id == "singapore"@ { Some(("Marina Bay Street Circuit"@, "Singapore"@, "Singapore"@, 5063u32, 61u32)) }
    else if id == "americas"@ || id == "us"@ { Some(("Circuit of the Americas"@, "USA"@, "Austin"@, 5513u32, 56u32)) }
    else if id == "rodriguez"@ || id == "mexican"@ { Some(("Autódromo Hermanos Rodríguez"@, "Mexico"@, "Mexico City"@, 4304u32, 71u32)) }
    else if id == "interlagos"@ || id == "brazilian"@ { Some(("Autódromo José Carlos Pace"@, "Brazil"@, "São Paulo"@, 4309u32, 71u32)) }
    else if id == "yas_marina"@ || id == "abu_dhabi"@ { Some(("Yas Marina Circuit"@, "UAE"@, "Abu Dhabi"@, 5554u32, 55u32)) }
    else if id == "bahrain"@ { Some(("Bahrain International Circuit"@, "Bahrain"@, "Sakhir"@, 5412u32, 57u32)) }
    else if id == "jeddah"@ || id == "saudi"@ { Some(("Jeddah Corniche Circuit"@, "Saudi Arabia"@, "Jeddah"@, 6174u32, 50u32)) }
    else if id == "imola"@ { Some(("Autodromo Enzo e Dino Ferrari"@, "Italy"@, "Imola"@, 4909u32, 63u32)) }
    else if id == "miami"@ { Some(("Miami International Autodrome"@, "USA"@, "Miami"@, 5412u32, 57u32)) }
    else if id == "zandvoort"@ || id == "dutch"@ { Some(("Circuit Zandvoort"@, "Netherlands"@, "Zandvoort"@, 4259u32, 72u32)) }
    else if id == "las_vegas"@ { Some(("Las Vegas Strip Circuit"@, "USA"@, "Las Vegas"@, 6120u32, 50u32)) }
    else if id == "losail"@ || id == "qatar"@ { Some(("Losail International Circuit"@, "Qatar"@, "Lusail"@, 5380u32, 57u32)) }
    else { None }
}

fn circuit_lookup(id: &str) -> (r: Option<(&'static str, &'static str, &'static str, u32, u32)>)
    ensures
        r matches Some(e) ==> circuit_entry(id@) == Some((e.0@, e.1@, e.2@, e.3, e.4)),
        r is None ==> circuit_entry(id@) is None,
{
    if text_eq(id, "monaco") {
        Some(("Circuit de Monaco", "Monaco", "Monte Carlo", 3337, 78))
    } else if text_eq(id, "monza") || text_eq(id, "italian") {
        Some(("Autodromo Nazionale Monza", "Italy", "Monza", 5793, 53))
    } else if text_eq(id, "spa") || text_eq(id, "belgian") {
        Some(("Circuit de Spa-Francorchamps", "Belgium", "Spa", 7004, 44))
    } else if text_eq(id, "silverstone") || text_eq(id, "british") {
        Some(("Silverstone Circuit", "UK", "Silverstone", 5891, 52))
    } else if text_eq(id, "catalunya") || text_eq(id, "spanish") {
        Some(("Circuit de Barcelona-Catalunya", "Spain", "Barcelona", 4675, 66))
    } else if text_eq(id, "albert_park") || text_eq(id, "australian") {
        Some(("Albert Park Circuit", "Australia", "Melbourne", 5278, 58))
    } else if text_eq(id, "villeneuve") || text_eq(id, "canadian") {
        Some(("Circuit Gilles Villeneuve", "Canada", "Montreal", 4361, 70))
    } else if text_eq(id, "baku") || text_eq(id, "azerbaijan") {
        Some(("Baku City Circuit", "Azerbaijan", "Baku", 6003, 51))
    } else if text_eq(id, "hungaroring") || text_eq(id, "hungarian") {
        Some(("Hungaroring", "Hungary", "Budapest", 4381, 70))
    } else if text_eq(id, "suzuka") || text_eq(id, "japanese") {
        Some(("Suzuka International Racing Course", "Japan", "Suzuka", 5807, 53))
    } else if text_eq(id, "marina_bay") || text_eq(id, "singapore") {
        Some(("Marina Bay Street Circuit", "Singapore", "Singapore", 5063, 61))
    } else if text_eq(id, "americas") || text_eq(id, "us") {
        Some(("Circuit of the Americas", "USA", "Austin", 5513, 56))
    } else if text_eq(id, "rodriguez") || text_eq(id, "mexican") {
        Some(("Autódromo Hermanos Rodríguez", "Mexico", "Mexico City", 4304, 71))
    } else if text_eq(id, "interlagos") || text_eq(id, "brazilian") {
        Some(("Autódromo José Carlos Pace", "Brazil", "São Paulo", 4309, 71))
    } else if text_eq(id, "yas_marina") || text_eq(id, "abu_dhabi") {
        Some(("Yas Marina Circuit", "UAE", "Abu Dhabi", 5554, 55))
    } else if text_eq(id, "bahrain") {
        Some(("Bahrain International Circuit", "Bahrain", "Sakhir", 5412, 57))
    } else if text_eq(id, "jeddah") || text_eq(id, "saudi") {
        Some(("Jeddah Corniche Circuit", "Saudi Arabia", "Jeddah", 6174, 50))
    } else if text_eq(id, "imola") {
        Some(("Autodromo Enzo e Dino Ferrari", "Italy", "Imola", 4909, 63))
    } else if text_eq(id, "miami") {
        Some(("Miami International Autodrome", "USA", "Miami", 5412, 57))
    } else if text_eq(id, "zandvoort") || text_eq(id, "dutch") {
        Some(("Circuit Zandvoort", "Netherlands", "Zandvoort", 4259, 72))
    } else if text_eq(id, "las_vegas") {
        Some(("Las Vegas Strip Circuit", "USA", "Las Vegas", 6120, 50))
    } else if text_eq(id, "losail") || text_eq(id, "qatar") {
        Some(("Losail International Circuit", "Qatar", "Lusail", 5380, 57))
    } else {
        None
    }
}

/// Why a lookup in the catalog failed.
#[derive(Debug, Clone)]
pub enum LookupError {
    /// No circuit for this Grand Prix name (as the user typed it).
    UnknownGp(String),
}

/// The circuit of a Grand Prix, looked up by its normalised name.
pub fn create_circuit_for_gp(gp: &str) -> (r: Result<Circuit, LookupError>)
    ensures
        r is Ok <==> circuit_entry(normalized_gp(gp@)) is Some,
        r matches Ok(c) ==> {
            let e = circuit_entry(normalized_gp(gp@)).unwrap();
            &&& c.id@ == normalized_gp(gp@)
            &&& c.name@ == e.0
            &&& c.country@ == e.1
            &&& c.city@ == e.2
            &&& c.length_m == e.3
            &&& c.laps == e.4
        },
        r matches Err(LookupError::UnknownGp(g)) ==> g@ == gp@,
{
    let id = normalize_gp_name(gp);
    match circuit_lookup(id.as_str()) {
        Some((name, country, city, length_m, laps)) => Ok(Circuit {
            id,
            name: String::from_str(name),
            country: String::from_str(country),
            city: String::from_str(city),
            length_m,
            laps,
        }),
        None => Err(LookupError::UnknownGp(String::from_str(gp))),
    }
}

/// Known race distances, in laps, by circuit identifier.
pub open spec fn known_laps(id: Seq<char>) -> Option<u32> {
    if id == "monza"@ { Some(53u32) }
    else if id == "monaco"@ { Some(78u32) }
    else if id == "spa"@ { Some(44u32) }
    else if id == "silverstone"@ { Some(52u32) }
    else if id == "bahrain"@ { Some(57u32) }
    else if id == "jeddah"@ { Some(50u32) }
    else if id == "albert_park"@ { Some(58u32) }
    else if id == "baku"@ { Some(51u32) }
    else if id == "miami"@ { Some(57u32) }
    else if id == "imola"@ { Some(63u32) }
    else if id == "catalunya"@ { Some(66u32) }
    else if id == "villeneuve"@ { Some(70u32) }
    else if id == "red_bull_ring"@ { Some(71u32) }
    else if id == "hungaroring"@ { Some(70u32) }
    else if id == "zandvoort"@ { Some(72u32) }
    else if id == "marina_bay"@ { Some(62u32) }
    else if id == "suzuka"@ { Some(53u32) }
    else if id == "losail"@ { Some(57u32) }
    else if id == "americas"@ { Some(56u32) }
    else if id == "rodriguez"@ { Some(71u32) }
    else if id == "interlagos"@ { Some(71u32) }
    else if id == "vegas"@ { Some(50u32) }
    else if id == "yas_marina"@ { Some(58u32) }
    else { None }
}

fn known_laps_lookup(id: &str) -> (r: Option<u32>)
    ensures
        r == known_laps(id@),
{
    if text_eq(id, "monza") {
        Some(53)
    } else if text_eq(id, "monaco") {
        Some(78)
    } else if text_eq(id, "spa") {
        Some(44)
    } else if text_eq(id, "silverstone") {
        Some(52)
    } else if text_eq(id, "bahrain") {
        Some(57)
    } else if text_eq(id, "jeddah") {
        Some(50)
    } else if text_eq(id, "albert_park") {
        Some(58)
    } else if text_eq(id, "baku") {
        Some(51)
    } else if text_eq(id, "miami") {
        Some(57)
    } else if text_eq(id, "imola") {
        Some(63)
    } else if text_eq(id, "catalunya") {
        Some(66)
    } else if text_eq(id, "villeneuve") {
        Some(70)
    } else if text_eq(id, "red_bull_ring") {
        Some(71)
    } else if text_eq(id, "hungaroring") {
        Some(70)
    } else if text_eq(id, "zandvoort") {
        Some(72)
    } else if text_eq(id, "marina_bay") {
        Some(62)
    } else if text_eq(id, "suzuka") {
        Some(53)
    } else if text_eq(id, "losail") {
        Some(57)
    } else if text_eq(id, "americas") {
        Some(56)
    } else if text_eq(id, "rodriguez") {
        Some(71)
    } else if text_eq(id, "interlagos") {
        Some(71)
    } else if text_eq(id, "vegas") {
        Some(50)
    } else if text_eq(id, "yas_marina") {
        Some(58)
    } else {
        None
    }
}

/// Race distance of a circuit for a replay: the known distance of its
/// identifier, else its own lap count but at least 50.
pub fn estimate_laps_for_circuit(circuit: &Circuit) -> (r: u32)
    ensures
        r == match known_laps(circuit.id@) {
            Some(l) => l,
            None => if circuit.laps > 50 { circuit.laps } else { 50 },
        },
{
    match known_laps_lookup(circuit.id.as_str()) {
        Some(l) => l,
        None => if circuit.laps > 50 { circuit.laps } else { 50 },
    }
}

/// The current field: code, name, car number and team of each driver, two
/// drivers per team.
pub open spec fn current_field() -> Seq<(Seq<char>, Seq<char>, u32, Seq<char>)> {
    seq![
        ("VER"@, "Max Verstappen"@, 1u32, "Red Bull Racing"@),
        ("PER"@, "Sergio Perez"@, 11u32, "Red Bull Racing"@),
        ("LEC"@, "Charles Leclerc"@, 16u32, "Ferrari"@),
        ("SAI"@, "Carlos Sainz"@, 55u32, "Ferrari"@),
        ("HAM"@, "Lewis Hamilton"@, 44u32, "Mercedes"@),
        ("RUS"@, "George Russell"@, 63u32, "Mercedes"@),
        ("NOR"@, "Lando Norris"@, 4u32, "McLaren"@),
        ("PIA"@, "Oscar Piastri"@, 81u32, "McLaren"@),
        ("ALO"@, "Fernando Alonso"@, 14u32, "Aston Martin"@),
        ("STR"@, "Lance Stroll"@, 18u32, "Aston Martin"@),
        ("GAS"@, "Pierre Gasly"@, 10u32, "Alpine"@),
        ("OCO"@, "Esteban Ocon"@, 31u32, "Alpine"@),
        ("ALB"@, "Alexander Albon"@, 23u32, "Williams"@),
        ("SAR"@, "Logan Sargeant"@, 2u32, "Williams"@),
        ("TSU"@, "Yuki Tsunoda"@, 22u32, "RB"@),
        ("LAW"@, "Liam Lawson"@, 40u32, "RB"@),
        ("MAG"@, "Kevin Magnussen"@, 20u32, "Haas F1 Team"@),
        ("HUL"@, "Nico Hulkenberg"@, 27u32, "Haas F1 Team"@),
        ("BOT"@, "Valtteri Bottas"@, 77u32, "Sauber"@),
        ("ZHO"@, "Guanyu Zhou"@, 24u32, "Sauber"@),
    ]
}

fn field_entry(i: usize) -> (r: (&'static str, &'static str, u32, &'static str))
    requires
        i < 20,
    ensures
        current_field()[i as int] == (r.0@, r.1@, r.2, r.3@),
{
    if i == 0 {
        ("VER", "Max Verstappen", 1, "Red Bull Racing")
    } else if i == 1 {
        ("PER", "Sergio Perez", 11, "Red Bull Racing")
    } else if i == 2 {
        ("LEC", "Charles Leclerc", 16, "Ferrari")
    } else if i == 3 {
        ("SAI", "Carlos Sainz", 55, "Ferrari")
    } else if i == 4 {
        ("HAM", "Lewis Hamilton", 44, "Mercedes")
    } else if i == 5 {
        ("RUS", "George Russell", 63, "Mercedes")
    } else if i == 6 {
        ("NOR", "Lando Norris", 4, "McLaren")
    } else if i == 7 {
        ("PIA", "Oscar Piastri", 81, "McLaren")
    } else if i == 8 {
        ("ALO", "Fernando Alonso", 14, "Aston Martin")
    } else if i == 9 {
        ("STR", "Lance Stroll", 18, "Aston Martin")
    } else if i == 10 {
        ("GAS", "Pierre Gasly", 10, "Alpine")
    } else if i == 11 {
        ("OCO", "Esteban Ocon", 31, "Alpine")
    } else if i == 12 {
        ("ALB", "Alexander Albon", 23, "Williams")
    } else if i == 13 {
        ("SAR", "Logan Sargeant", 2, "Williams")
    } else if i == 14 {
        ("TSU", "Yuki Tsunoda", 22, "RB")
    } else if i == 15 {
        ("LAW", "Liam Lawson", 40, "RB")
    } else if i == 16 {
        ("MAG", "Kevin Magnussen", 20, "Haas F1 Team")
    } else if i == 17 {
        ("HUL", "Nico Hulkenberg", 27, "Haas F1 Team")
    } else if i == 18 {
        ("BOT", "Valtteri Bottas", 77, "Sauber")
    } else {
        ("ZHO", "Guanyu Zhou", 24, "Sauber")
    }
}

/// The current field of twenty drivers, in catalog order; each driver's
/// id is its code in lower case.
pub fn create_current_drivers() -> (r: Vec<Driver>)
    ensures
        r@.len() == 20,
        forall|i: int| 0 <= i < 20 ==> {
            let e = #[trigger] current_field()[i];
            &&& r@[i].code@ == e.0
            &&& r@[i].name@ == e.1
            &&& r@[i].number == e.2
            &&& r@[i].team@ == e.3
            &&& r@[i].id@ == lowercase_of(e.0)
        },
{
    let mut drivers: Vec<Driver> = Vec::new();
    let mut i: usize = 0;
    while i < 20
        invariant
            i <= 20,
            drivers@.len() == i,
            forall|k: int| 0 <= k < i ==> {
                let e = #[trigger] current_field()[k];
                &&& drivers@[k].code@ == e.0
                &&& drivers@[k].name@ == e.1
                &&& drivers@[k].number == e.2
                &&& drivers@[k].team@ == e.3
                &&& drivers@[k].id@ == lowercase_of(e.0)
            },
        decreases 20 - i,
    {
        let (code, name, number, team) = field_entry(i);
        drivers.push(Driver {
            id: lowercase(code),
            code: String::from_str(code),
            name: String::from_str(name),
            team: String::from_str(team),
            number,
        });
        i = i + 1;
    }
    drivers
}

} // verus!
