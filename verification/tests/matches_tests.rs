use creator_event_manager::event::EventError;
use creator_event_manager::matches::list_event_matches;
use creator_event_manager::storage::{found_or_not_found, next_counter_value, StorageError};
use creator_event_manager::storage_types::Match;

fn m(id: u64, time: u64) -> Match {
    Match::new(id, 1, format!("A{}", id).into_bytes(), format!("B{}", id).into_bytes(), time, 1)
}

fn ids(v: &[Match]) -> Vec<u64> {
    v.iter().map(|x| x.match_id).collect()
}

#[test]
fn list_event_matches_sorts_by_time() {
    let fetched = vec![Some(m(1, 300)), Some(m(2, 100)), Some(m(3, 200))];
    let listed = list_event_matches(true, fetched).unwrap();
    assert_eq!(ids(&listed), vec![2, 3, 1]);
    assert!(listed.windows(2).all(|w| w[0].match_time <= w[1].match_time));
}

#[test]
fn list_event_matches_skips_missing_records() {
    let fetched = vec![None, Some(m(4, 50)), None, Some(m(5, 10))];
    let listed = list_event_matches(true, fetched).unwrap();
    assert_eq!(ids(&listed), vec![5, 4]);
}

#[test]
fn list_event_matches_is_stable_for_equal_times() {
    let fetched = vec![
        Some(m(1, 500)),
        Some(m(2, 100)),
        Some(m(3, 500)),
        Some(m(4, 100)),
        Some(m(5, 300)),
    ];
    let listed = list_event_matches(true, fetched).unwrap();
    assert_eq!(ids(&listed), vec![2, 4, 5, 1, 3]);
}

#[test]
fn list_event_matches_empty_and_missing_event() {
    assert_eq!(list_event_matches(true, Vec::new()), Ok(Vec::new()));
    assert_eq!(list_event_matches(true, vec![None, None]), Ok(Vec::new()));
    assert_eq!(
        list_event_matches(false, vec![Some(m(1, 1))]),
        Err(EventError::EventNotFound)
    );
}

#[test]
fn list_event_matches_reverse_order_input() {
    let fetched: Vec<Option<Match>> = (0..8u64).map(|i| Some(m(i, 1_000 - i * 10))).collect();
    let listed = list_event_matches(true, fetched).unwrap();
    assert_eq!(ids(&listed), vec![7, 6, 5, 4, 3, 2, 1, 0]);
}

#[test]
fn storage_lookup_and_counters() {
    assert_eq!(found_or_not_found(Some(5u64)), Ok(5));
    assert_eq!(found_or_not_found::<u64>(None), Err(StorageError::NotFound));
    assert_eq!(next_counter_value(None), 1);
    assert_eq!(next_counter_value(Some(1)), 2);
    assert_eq!(next_counter_value(Some(41)), 42);
    assert_eq!(next_counter_value(Some(u64::MAX - 1)), u64::MAX);
}
