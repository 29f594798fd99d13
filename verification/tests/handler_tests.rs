use reventor::handler::{
    handle_message, handle_update, render_listing, reply_text, save_event, Reply, SaveError,
};
use reventor::marker::parse_event;
use reventor::scanner::{notification_text, scan_tick, settle};
use reventor::stamp::{LocalDate, Moment};
use reventor::store::{EventStore, NotificationEvent, UserEvent};

fn may_first() -> LocalDate {
    LocalDate { year: 2024, month: 5, day: 1 }
}

fn say(store: &mut EventStore, sender: i64, text: &str) -> String {
    reply_text(&handle_message(store, sender, Some("ann".to_string()), text, may_first()))
}

#[test]
fn message_with_marker_is_stored_with_its_whole_text() {
    let mut store = EventStore::new();
    let reply = say(&mut store, 555, "@09:30 dentist");
    assert_eq!(reply, "Сохранено событие на сегодня в 09:30\nТекст события: @09:30 dentist");
    let events = store.list_events(555);
    assert_eq!(events.len(), 1);
    assert_eq!(events[0].text, "@09:30 dentist");
    assert_eq!(events[0].event_time, "01.05.2024 09:30");
    assert_eq!(store.find_user(555), Some(1));
}

#[test]
fn reply_echoes_the_date_of_the_marker() {
    let mut store = EventStore::new();
    let reply = handle_message(&mut store, 555, None, "gifts @24.12 18:00", may_first());
    match &reply {
        Reply::Saved { date, time, text, event_time } => {
            assert_eq!(date.as_deref(), Some("24.12"));
            assert_eq!(time, "18:00");
            assert_eq!(text, "gifts @24.12 18:00");
            assert_eq!(event_time, "24.12.2024 18:00");
        }
        other => panic!("not saved: {:?}", other),
    }
    let reply = reply_text(&reply);
    assert_eq!(reply, "Сохранено событие на 24.12 в 18:00\nТекст события: gifts @24.12 18:00");
    assert_eq!(store.list_events(555)[0].event_time, "24.12.2024 18:00");
}

#[test]
fn date_without_time_gets_the_help() {
    let mut store = EventStore::new();
    let reply = handle_message(&mut store, 555, None, "@24.12 gift shopping", may_first());
    assert!(matches!(reply, Reply::Help));
    assert_eq!(store.user_count(), 0);
    assert_eq!(store.event_count(), 0);
    let text = reply_text(&reply);
    assert!(text.starts_with("Привет! Чтобы создать событие, используйте форматы:\n@ЧЧ:ММ"));
    assert_eq!(text.lines().count(), 4);
}

#[test]
fn invalid_date_gets_an_error_reply_and_no_event() {
    let mut store = EventStore::new();
    let reply = handle_message(&mut store, 555, None, "@31.02.2024 10:00", may_first());
    assert!(matches!(reply, Reply::InvalidTimestamp));
    assert_eq!(reply_text(&reply), "Не удалось распознать дату или время события");
    assert_eq!(store.event_count(), 0);
    assert!(store.list_events(555).is_empty());
}

#[test]
fn listing_without_events_says_so() {
    let mut store = EventStore::new();
    assert_eq!(say(&mut store, 555, "/events"), "У вас пока нет запланированных событий");
    assert_eq!(store.user_count(), 0);
}

#[test]
fn listing_has_one_numbered_line_for_each_event() {
    let mut store = EventStore::new();
    say(&mut store, 555, "@02.05.2024 10:00 second");
    say(&mut store, 555, "@09:30 first");
    say(&mut store, 556, "@09:30 not mine");
    say(&mut store, 555, "@03.01.2025 00:00 third");
    assert_eq!(
        say(&mut store, 555, "/events"),
        "Ваши события:\n1. 01.05.2024 09:30 - @09:30 first\n2. 02.05.2024 10:00 - @02.05.2024 10:00 second\n3. 03.01.2025 00:00 - @03.01.2025 00:00 third"
    );
}

#[test]
fn listing_numbers_go_beyond_nine() {
    let events: Vec<UserEvent> = (0..12)
        .map(|i| UserEvent { text: format!("t{}", i), event_time: format!("01.05.2024 10:{:02}", i) })
        .collect();
    let text = render_listing(&events);
    let lines: Vec<&str> = text.lines().collect();
    assert_eq!(lines.len(), 13);
    assert_eq!(lines[0], "Ваши события:");
    assert_eq!(lines[1], "1. 01.05.2024 10:00 - t0");
    assert_eq!(lines[10], "10. 01.05.2024 10:09 - t9");
    assert_eq!(lines[12], "12. 01.05.2024 10:11 - t11");
}

#[test]
fn listing_command_must_be_the_whole_message() {
    let mut store = EventStore::new();
    let reply = handle_message(&mut store, 555, None, "/events ", may_first());
    assert!(matches!(reply, Reply::Help));
    let reply = handle_message(&mut store, 555, None, "/events @10:00", may_first());
    assert!(matches!(reply, Reply::Saved { .. }));
}

#[test]
fn save_event_reports_its_errors() {
    let mut store = EventStore::new();
    let event = parse_event("@09:30 dentist").unwrap();
    assert_eq!(save_event(&mut store, 1, &event, may_first()), Err(SaveError::UnknownUser));
    let id = store.ensure_user(555, None).unwrap();
    let bad = parse_event("@30.02 09:30 dentist").unwrap();
    assert_eq!(save_event(&mut store, id, &bad, may_first()), Err(SaveError::InvalidTimestamp));
    assert_eq!(store.event_count(), 0);
    assert_eq!(save_event(&mut store, id, &event, may_first()), Ok("01.05.2024 09:30".to_string()));
    assert_eq!(store.event_count(), 1);
}

#[test]
fn store_failure_has_a_plain_reply() {
    assert_eq!(reply_text(&Reply::StoreFailure), "Не удалось сохранить событие, попробуйте позже");
}

#[test]
fn notification_names_text_and_time() {
    let event = NotificationEvent {
        telegram_id: 555,
        text: "@09:30 dentist".to_string(),
        event_time: "01.05.2024 09:30".to_string(),
    };
    assert_eq!(notification_text(&event), "🔔 Напоминание!\n@09:30 dentist\nВремя: 01.05.2024 09:30");
}

#[test]
fn scan_tick_delivers_once() {
    let mut store = EventStore::new();
    say(&mut store, 555, "@09:30 dentist");
    let now = Moment { year: 2024, month: 5, day: 1, hour: 9, minute: 30 };
    let found = scan_tick(&mut store, now).unwrap();
    assert_eq!(found.len(), 1);
    assert_eq!(found[0].telegram_id, 555);
    assert_eq!(found[0].text, "@09:30 dentist");
    assert_eq!(found[0].event_time, "01.05.2024 09:30");
    assert_eq!(store.list_events(555)[0].event_time, "done");
    assert!(scan_tick(&mut store, now).unwrap().is_empty());
    assert!(store.find_due("01.05.2024 09:30").is_empty());
}

#[test]
fn scan_tick_delivers_every_event_of_the_minute() {
    let mut store = EventStore::new();
    say(&mut store, 555, "@09:30 one");
    say(&mut store, 555, "@09:30 two");
    say(&mut store, 556, "@09:30 three");
    say(&mut store, 555, "@09:31 later");
    let now = Moment { year: 2024, month: 5, day: 1, hour: 9, minute: 30 };
    let found = scan_tick(&mut store, now).unwrap();
    assert_eq!(found.len(), 3);
    assert!(scan_tick(&mut store, now).unwrap().is_empty());
    let next = Moment { year: 2024, month: 5, day: 1, hour: 9, minute: 31 };
    assert_eq!(scan_tick(&mut store, next).unwrap().len(), 1);
}

#[test]
fn scan_tick_refuses_a_moment_it_cannot_write() {
    let mut store = EventStore::new();
    say(&mut store, 555, "@09:30 one");
    let now = Moment { year: 20240, month: 5, day: 1, hour: 9, minute: 30 };
    assert!(scan_tick(&mut store, now).is_none());
    assert_eq!(store.find_due("01.05.2024 09:30").len(), 1);
}

#[test]
fn settle_marks_what_was_found() {
    let mut store = EventStore::new();
    say(&mut store, 555, "@09:30 one");
    say(&mut store, 556, "@09:30 two");
    let found = store.find_due("01.05.2024 09:30");
    assert_eq!(found.len(), 2);
    settle(&mut store, &found[..1].iter().map(|e| NotificationEvent {
        telegram_id: e.telegram_id,
        text: e.text.clone(),
        event_time: e.event_time.clone(),
    }).collect());
    let left = store.find_due("01.05.2024 09:30");
    assert_eq!(left.len(), 1);
    assert_eq!(left[0].telegram_id, 556);
}

#[test]
fn message_without_text_does_nothing() {
    let mut store = EventStore::new();
    assert!(handle_update(&mut store, 555, None, None, may_first()).is_none());
    assert_eq!(store.user_count(), 0);
    let reply = handle_update(&mut store, 555, None, Some("@09:30 x"), may_first());
    assert!(matches!(reply, Some(Reply::Saved { .. })));
    assert_eq!(store.event_count(), 1);
}

#[test]
fn display_name_is_kept_from_the_first_message() {
    let mut store = EventStore::new();
    handle_message(&mut store, 555, Some("ann".to_string()), "@09:30 a", may_first());
    handle_message(&mut store, 555, Some("bob".to_string()), "@09:31 b", may_first());
    assert_eq!(store.user_count(), 1);
    assert_eq!(store.event_count(), 2);
}
