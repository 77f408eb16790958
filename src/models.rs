//! The data that a simulation reads and produces.
use vstd::prelude::*;

verus! {

/// A competitor.
#[derive(Debug, Clone)]
pub struct Driver {
    pub id: String,
    pub code: String,
    pub name: String,
    pub team: String,
    pub number: u32,
}

/// A race track; its length is in metres.
#[derive(Debug, Clone)]
pub struct Circuit {
    pub id: String,
    pub name: String,
    pub country: String,
    pub city: String,
    pub length_m: u32,
    pub laps: u32,
}

/// One line of a race classification.
#[derive(Debug, Clone)]
pub struct RaceResult {
    pub position: u32,
    pub driver: Driver,
    pub time: Option<String>,
    pub points: u32,
    pub laps: u32,
    pub status: String,
}

/// One line of a qualifying classification.
#[derive(Debug, Clone)]
pub struct QualifyingResult {
    pub position: u32,
    pub driver: Driver,
    pub q1: Option<String>,
    pub q2: Option<String>,
    pub q3: Option<String>,
}

/// One line of a practice classification.
#[derive(Debug, Clone)]
pub struct PracticeResult {
    pub position: u32,
    pub driver: Driver,
    pub time: Option<String>,
    pub laps: u32,
}

/// A race weekend with its final classification.
#[derive(Debug, Clone)]
pub struct Race {
    pub season: u32,
    pub round: u32,
    pub name: String,
    pub circuit: Circuit,
    pub date: String,
    pub results: Vec<RaceResult>,
}

/// The knobs of a simulation, in thousandths.
///
/// `reliability_factor` divides failure and incident chances (higher means
/// fewer retirements); `weather_factor` is 1000 for a dry race and lower for
/// a wetter one.
#[derive(Debug, Clone, Copy, PartialEq, Eq)]
pub struct SimulationParameters {
    pub reliability_factor: u32,
    pub weather_factor: u32,
    pub random_incidents: bool,
}

impl SimulationParameters {
    /// Reliability 0.95, dry weather, incidents on.
    pub fn default() -> (r: SimulationParameters)
        ensures
            r.reliability_factor == 950,
            r.weather_factor == 1000,
            r.random_incidents,
    {
        SimulationParameters { reliability_factor: 950, weather_factor: 1000, random_incidents: true }
    }

    /// Parameters are usable when both factors are positive: the incident
    /// model divides by the reliability factor.
    pub open spec fn valid(&self) -> bool {
        self.reliability_factor > 0 && self.weather_factor > 0
    }
}

/// Why a set of parameters was refused.
#[derive(Debug, Clone, Copy, PartialEq, Eq)]
pub enum ParameterError {
    NonPositiveReliability,
    NonPositiveWeather,
}

/// Checks parameters before any simulation work starts.
pub fn validate_parameters(params: &SimulationParameters) -> (r: Result<(), ParameterError>)
    ensures
        r is Ok <==> params.valid(),
        params.reliability_factor == 0 ==> r == Err::<(), ParameterError>(ParameterError::NonPositiveReliability),
        params.reliability_factor > 0 && params.weather_factor == 0
            ==> r == Err::<(), ParameterError>(ParameterError::NonPositiveWeather),
{
    if params.reliability_factor == 0 {
        Err(ParameterError::NonPositiveReliability)
    } else if params.weather_factor == 0 {
        Err(ParameterError::NonPositiveWeather)
    } else {
        Ok(())
    }
}

/// One entry of the running order: which driver, the current performance
/// score, the representative lap time, and whether the driver still races.
#[derive(Debug, Clone, Copy, PartialEq, Eq)]
pub struct PositionState {
    pub driver: usize,
    pub performance: u32,
    pub time_ns: u64,
    pub active: bool,
}

} // verus!
