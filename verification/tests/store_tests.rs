use reventor::store::{EventStore, StoreError};

fn pairs(store: &EventStore, telegram_id: i64) -> Vec<(String, String)> {
    store.list_events(telegram_id).into_iter().map(|e| (e.event_time, e.text)).collect()
}

fn due(store: &EventStore, now: &str) -> Vec<(i64, String, String)> {
    store.find_due(now).into_iter().map(|e| (e.telegram_id, e.text, e.event_time)).collect()
}

fn add(store: &mut EventStore, telegram_id: i64, text: &str, time: &str) {
    let id = store.ensure_user(telegram_id, None).unwrap();
    store.create_event(id, text.to_string(), time.to_string()).unwrap();
}

#[test]
fn ensure_user_is_idempotent() {
    let mut store = EventStore::new();
    let first = store.ensure_user(555, Some("ann".to_string())).unwrap();
    let second = store.ensure_user(555, Some("other".to_string())).unwrap();
    assert_eq!(first, 1);
    assert_eq!(second, 1);
    assert_eq!(store.user_count(), 1);
    assert_eq!(store.find_user(555), Some(1));
}

#[test]
fn users_are_numbered_in_order() {
    let mut store = EventStore::new();
    assert_eq!(store.ensure_user(-7, None), Ok(1));
    assert_eq!(store.ensure_user(9, None), Ok(2));
    assert_eq!(store.ensure_user(-7, None), Ok(1));
    assert_eq!(store.ensure_user(0, None), Ok(3));
    assert_eq!(store.user_count(), 3);
    assert_eq!(store.find_user(9), Some(2));
    assert_eq!(store.find_user(10), None);
}

#[test]
fn event_needs_a_known_user() {
    let mut store = EventStore::new();
    assert_eq!(
        store.create_event(1, "x".to_string(), "01.05.2024 09:30".to_string()),
        Err(StoreError::UnknownUser)
    );
    store.ensure_user(5, None).unwrap();
    assert_eq!(store.create_event(0, "x".to_string(), "t".to_string()), Err(StoreError::UnknownUser));
    assert_eq!(store.create_event(2, "x".to_string(), "t".to_string()), Err(StoreError::UnknownUser));
    assert_eq!(store.create_event(-1, "x".to_string(), "t".to_string()), Err(StoreError::UnknownUser));
    assert_eq!(store.event_count(), 0);
    assert_eq!(store.create_event(1, "x".to_string(), "t".to_string()), Ok(()));
    assert_eq!(store.event_count(), 1);
}

#[test]
fn equal_events_may_be_created_twice() {
    let mut store = EventStore::new();
    add(&mut store, 5, "same", "01.05.2024 09:30");
    add(&mut store, 5, "same", "01.05.2024 09:30");
    assert_eq!(store.event_count(), 2);
    assert_eq!(pairs(&store, 5).len(), 2);
}

#[test]
fn listing_is_ascending_by_timestamp_text() {
    let mut store = EventStore::new();
    add(&mut store, 5, "c", "20.01.2025 10:00");
    add(&mut store, 5, "a", "01.05.2024 09:30");
    add(&mut store, 6, "other", "02.02.2024 00:00");
    add(&mut store, 5, "b", "01.05.2024 09:05");
    add(&mut store, 5, "d", "03.01.2023 10:00");
    let expected = vec![
        ("01.05.2024 09:05".to_string(), "b".to_string()),
        ("01.05.2024 09:30".to_string(), "a".to_string()),
        ("03.01.2023 10:00".to_string(), "d".to_string()),
        ("20.01.2025 10:00".to_string(), "c".to_string()),
    ];
    assert_eq!(pairs(&store, 5), expected);
    assert_eq!(pairs(&store, 6), vec![("02.02.2024 00:00".to_string(), "other".to_string())]);
}

#[test]
fn listing_of_a_user_without_events_is_empty() {
    let mut store = EventStore::new();
    assert!(pairs(&store, 5).is_empty());
    store.ensure_user(5, None).unwrap();
    add(&mut store, 6, "x", "01.05.2024 09:30");
    assert!(pairs(&store, 5).is_empty());
}

#[test]
fn due_events_match_the_minute_exactly() {
    let mut store = EventStore::new();
    add(&mut store, 555, "@09:30 dentist", "01.05.2024 09:30");
    add(&mut store, 556, "later", "01.05.2024 09:31");
    add(&mut store, 557, "also", "01.05.2024 09:30");
    assert_eq!(
        due(&store, "01.05.2024 09:30"),
        vec![
            (555, "@09:30 dentist".to_string(), "01.05.2024 09:30".to_string()),
            (557, "also".to_string(), "01.05.2024 09:30".to_string()),
        ]
    );
    assert!(due(&store, "01.05.2024 09:29").is_empty());
    assert!(due(&store, "01.05.2024 09:3").is_empty());
    assert!(due(&store, "").is_empty());
}

#[test]
fn delivered_event_is_never_due_again() {
    let mut store = EventStore::new();
    add(&mut store, 555, "@09:30 dentist", "01.05.2024 09:30");
    assert_eq!(due(&store, "01.05.2024 09:30").len(), 1);
    store.mark_delivered(555, "01.05.2024 09:30");
    assert!(due(&store, "01.05.2024 09:30").is_empty());
    assert!(due(&store, "done").is_empty());
    assert_eq!(pairs(&store, 555), vec![("done".to_string(), "@09:30 dentist".to_string())]);
    store.mark_delivered(555, "01.05.2024 09:30");
    store.mark_delivered(555, "done");
    add(&mut store, 555, "new", "02.05.2024 09:30");
    assert!(due(&store, "01.05.2024 09:30").is_empty());
    assert!(due(&store, "done").is_empty());
    assert_eq!(store.event_count(), 2);
}

#[test]
fn same_minute_events_are_delivered_together() {
    let mut store = EventStore::new();
    add(&mut store, 555, "one", "01.05.2024 09:30");
    add(&mut store, 555, "two", "01.05.2024 09:30");
    add(&mut store, 555, "later", "01.05.2024 09:31");
    add(&mut store, 777, "theirs", "01.05.2024 09:30");
    store.mark_delivered(555, "01.05.2024 09:30");
    assert_eq!(
        pairs(&store, 555),
        vec![
            ("01.05.2024 09:31".to_string(), "later".to_string()),
            ("done".to_string(), "one".to_string()),
            ("done".to_string(), "two".to_string()),
        ]
    );
    assert_eq!(
        due(&store, "01.05.2024 09:30"),
        vec![(777, "theirs".to_string(), "01.05.2024 09:30".to_string())]
    );
}

#[test]
fn marking_nothing_changes_nothing() {
    let mut store = EventStore::new();
    add(&mut store, 555, "one", "01.05.2024 09:30");
    store.mark_delivered(556, "01.05.2024 09:30");
    store.mark_delivered(555, "01.05.2024 09:31");
    assert_eq!(due(&store, "01.05.2024 09:30").len(), 1);
}
