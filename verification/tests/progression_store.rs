use std::collections::HashMap;
use levelbot::level::level;
use levelbot::store::{Data, UserData};

fn fresh_record(id: u64, name: &str, xp: u64, ts: i64) -> UserData {
    UserData {
        id,
        name: name.to_string(),
        last_message_timestamp: ts,
        xp,
        level: level(xp),
        user_data: Vec::new(),
    }
}

#[test]
fn first_event_creates_record() {
    let mut store = Data::new(0);
    let (rec, granted) = store.apply_event(7, "Alice".to_string(), 1000);
    assert!(granted);
    assert_eq!(rec.id, 7);
    assert_eq!(rec.name, "Alice");
    assert_eq!(rec.xp, 1);
    assert_eq!(rec.level, level(1));
    assert_eq!(rec.level, 0);
    assert_eq!(rec.last_message_timestamp, 1000);
    assert_eq!(store.last_timestamp, 1000);
    assert!(store.changed);
}

#[test]
fn cooldown_scenario_one_thirty_sixtyfive() {
    let mut store = Data::new(0);
    let (_, g1) = store.apply_event(7, "Alice".to_string(), 1000);
    assert!(g1);
    let (r2, g2) = store.apply_event(7, "Alice".to_string(), 1030);
    assert!(!g2);
    assert_eq!(r2.xp, 1);
    let (r3, g3) = store.apply_event(7, "Alice".to_string(), 1065);
    assert!(g3);
    assert_eq!(r3.xp, 2);
    assert_eq!(r3.last_message_timestamp, 1065);
}

#[test]
fn display_name_updates_without_grant() {
    let mut store = Data::new(0);
    store.apply_event(7, "Alice".to_string(), 1000);
    let (rec, granted) = store.apply_event(7, "Alicia".to_string(), 1010);
    assert!(!granted);
    assert_eq!(rec.name, "Alicia");
    assert_eq!(rec.xp, 1);
}

#[test]
fn level_tracks_experience_across_events() {
    let mut store = Data::new(0);
    let mut ts: i64 = 0;
    for _ in 0..12 {
        ts += 100;
        let (rec, granted) = store.apply_event(5, "Bob".to_string(), ts);
        assert!(granted);
        assert_eq!(rec.level, level(rec.xp));
    }
    let rec = store.read(5).unwrap();
    assert_eq!(rec.xp, 12);
    assert_eq!(rec.level, 1);
}

#[test]
fn high_water_mark_never_falls() {
    let mut store = Data::new(0);
    store.apply_event(1, "A".to_string(), 5000);
    assert_eq!(store.last_timestamp, 5000);
    let (_, granted) = store.apply_event(2, "B".to_string(), 4000);
    assert!(granted);
    assert_eq!(store.last_timestamp, 5000);
    store.apply_event(3, "C".to_string(), 6000);
    assert_eq!(store.last_timestamp, 6000);
}

#[test]
fn read_unknown_user_is_none() {
    let store = Data::new(0);
    assert!(store.read(42).is_none());
}

#[test]
fn snapshot_is_a_deep_copy() {
    let mut store = Data::new(0);
    store.apply_event(7, "Alice".to_string(), 1000);
    let copy = store.snapshot();
    store.apply_event(7, "Alice".to_string(), 2000);
    let frozen = copy.read(7).unwrap();
    assert_eq!(frozen.xp, 1);
    assert_eq!(copy.last_timestamp, 1000);
    let live = store.read(7).unwrap();
    assert_eq!(live.xp, 2);
}

#[test]
fn dirty_flag_follows_grants_and_persistence() {
    let mut store = Data::new(0);
    assert!(!store.changed);
    store.apply_event(7, "Alice".to_string(), 1000);
    assert!(store.changed);
    store.mark_clean();
    assert!(!store.changed);
    let (_, granted) = store.apply_event(7, "Alice".to_string(), 1010);
    assert!(!granted);
    assert!(!store.changed);
}

#[test]
fn insert_record_checks_level_consistency() {
    let mut store = Data::new(0);
    let good = fresh_record(1, "A", 55, 900);
    assert!(store.insert_record(good));
    assert_eq!(store.read(1).unwrap().level, 2);

    let mut bad = fresh_record(2, "B", 55, 900);
    bad.level = 7;
    assert!(!store.insert_record(bad));
    assert!(store.read(2).is_none());
}

#[test]
fn experience_counter_saturates_at_machine_limit() {
    let mut store = Data::new(0);
    let capped = fresh_record(9, "Max", u64::MAX, 0);
    assert!(store.insert_record(capped));
    let (rec, granted) = store.apply_event(9, "Max".to_string(), 1_000_000);
    assert!(!granted);
    assert_eq!(rec.xp, u64::MAX);
}

#[test]
fn from_data_wraps_existing_records() {
    let mut map: HashMap<u64, UserData> = HashMap::new();
    map.insert(3, fresh_record(3, "C", 10, 800));
    let store = Data::from_data(map, 800);
    assert_eq!(store.last_timestamp, 800);
    assert!(!store.changed);
    let rec = store.read(3).unwrap();
    assert_eq!(rec.xp, 10);
    assert_eq!(rec.level, 1);
}

#[test]
fn user_storage_round_trip() {
    let mut store = Data::new(0);
    assert!(!store.set_user_storage(7, "color".to_string(), "blue".to_string()));
    store.apply_event(7, "Alice".to_string(), 1000);
    assert!(store.set_user_storage(7, "color".to_string(), "blue".to_string()));
    assert_eq!(store.get_user_storage(7, "color".to_string()), Some("blue".to_string()));
    assert_eq!(store.get_user_storage(7, "tone".to_string()), None);
    assert!(store.set_user_storage(7, "color".to_string(), "red".to_string()));
    assert_eq!(store.get_user_storage(7, "color".to_string()), Some("red".to_string()));
}
