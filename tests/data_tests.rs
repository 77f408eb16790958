use f1_cli_simulator::data::determine_seasons_to_fetch;
use std::collections::HashSet;
use std::sync::{Arc, Mutex};

// Records which seasons a fetch would request.
#[derive(Clone)]
struct MockClient {
    requested_seasons: Arc<Mutex<HashSet<u32>>>,
}

impl MockClient {
    fn new() -> Self {
        MockClient {
            requested_seasons: Arc::new(Mutex::new(HashSet::new())),
        }
    }

    fn record_season(&self, season: u32) {
        self.requested_seasons.lock().unwrap().insert(season);
    }

    fn get_requested_seasons(&self) -> HashSet<u32> {
        self.requested_seasons.lock().unwrap().clone()
    }
}

#[test]
fn test_default_season_fetch() {
    let mock_client = MockClient::new();
    let current_season = 2025;
    let seasons_to_fetch = determine_seasons_to_fetch(None, None, None, current_season);
    for season in &seasons_to_fetch {
        mock_client.record_season(*season);
    }
    assert_eq!(seasons_to_fetch.len(), 3);
    let expected_seasons: HashSet<u32> = [2023, 2024, 2025].into_iter().collect();
    assert_eq!(mock_client.get_requested_seasons(), expected_seasons);
}

#[test]
fn test_fetch_previous_n_seasons() {
    let mock_client = MockClient::new();
    let current_season = 2025;
    let seasons_to_fetch = determine_seasons_to_fetch(Some(5), None, None, current_season);
    for season in &seasons_to_fetch {
        mock_client.record_season(*season);
    }
    assert_eq!(seasons_to_fetch.len(), 6);
    let expected_seasons: HashSet<u32> = [2020, 2021, 2022, 2023, 2024, 2025].into_iter().collect();
    assert_eq!(mock_client.get_requested_seasons(), expected_seasons);
}

#[test]
fn test_fetch_specific_seasons() {
    let mock_client = MockClient::new();
    let seasons_to_fetch = determine_seasons_to_fetch(None, Some("2010,2015,2020".to_string()), None, 2025);
    for season in &seasons_to_fetch {
        mock_client.record_season(*season);
    }
    assert_eq!(seasons_to_fetch.len(), 3);
    let expected_seasons: HashSet<u32> = [2010, 2015, 2020].into_iter().collect();
    assert_eq!(mock_client.get_requested_seasons(), expected_seasons);
}

#[test]
fn test_fetch_all_seasons() {
    let current_season = 2025;
    let seasons_to_fetch = determine_seasons_to_fetch(None, None, Some(true), current_season);
    assert_eq!(seasons_to_fetch.len(), (current_season - 1950 + 1) as usize);
    assert!(seasons_to_fetch.contains(&1950));
    assert!(seasons_to_fetch.contains(&current_season));
    let sample_seasons = [1950, 1960, 1970, 1980, 1990, 2000, 2010, 2020, current_season];
    for season in sample_seasons {
        assert!(seasons_to_fetch.contains(&season));
    }
}

#[test]
fn test_specific_overrides_previous() {
    let mock_client = MockClient::new();
    let seasons_to_fetch = determine_seasons_to_fetch(Some(5), Some("2010,2015".to_string()), None, 2025);
    for season in &seasons_to_fetch {
        mock_client.record_season(*season);
    }
    assert_eq!(seasons_to_fetch.len(), 2);
    let expected_seasons: HashSet<u32> = [2010, 2015].into_iter().collect();
    assert_eq!(mock_client.get_requested_seasons(), expected_seasons);
}

#[test]
fn test_all_overrides_others() {
    let current_season = 2025;
    let seasons_to_fetch = determine_seasons_to_fetch(Some(2), Some("2010,2015".to_string()), Some(true), current_season);
    assert_eq!(seasons_to_fetch.len(), (current_season - 1950 + 1) as usize);
    assert!(seasons_to_fetch.contains(&1950));
    assert!(seasons_to_fetch.contains(&current_season));
}

#[test]
fn seasons_list_is_trimmed_and_skips_bad_pieces() {
    let seasons = determine_seasons_to_fetch(None, Some(" 2010 ,x, 2015,+2016,,99999999999".to_string()), None, 2025);
    assert_eq!(seasons, vec![2010, 2015, 2016]);
}

#[test]
fn previous_beyond_current_starts_at_zero() {
    let seasons = determine_seasons_to_fetch(Some(10), None, None, 5);
    assert_eq!(seasons, vec![0, 1, 2, 3, 4, 5]);
}
