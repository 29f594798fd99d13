use reventor::marker::parse_event;

fn tokens(text: &str) -> Option<(Option<String>, String)> {
    parse_event(text).map(|e| (e.date, e.time))
}

#[test]
fn time_only_marker_is_found() {
    let event = parse_event("@09:30 dentist").expect("a marker");
    assert_eq!(event.text, "@09:30 dentist");
    assert_eq!(event.time, "09:30");
    assert_eq!(event.date, None);
}

#[test]
fn date_without_time_is_no_marker() {
    assert!(parse_event("@24.12 gift shopping").is_none());
}

#[test]
fn day_and_month_marker_is_found() {
    let event = parse_event("see you @24.12 18:00 ok").expect("a marker");
    assert_eq!(event.text, "see you @24.12 18:00 ok");
    assert_eq!(event.date, Some("24.12".to_string()));
    assert_eq!(event.time, "18:00");
}

#[test]
fn full_date_marker_is_found() {
    let event = parse_event("@31.02.2024 10:00").expect("a marker");
    assert_eq!(event.date, Some("31.02.2024".to_string()));
    assert_eq!(event.time, "10:00");
}

#[test]
fn grammar_does_not_judge_the_calendar() {
    assert_eq!(tokens("@25:99"), Some((None, "25:99".to_string())));
    assert_eq!(tokens("@99.99 25:99"), Some((Some("99.99".to_string()), "25:99".to_string())));
}

#[test]
fn only_the_first_marker_counts() {
    assert_eq!(tokens("a @10:00 b @01.02 11:00"), Some((None, "10:00".to_string())));
    assert_eq!(tokens("@ @1:00 @12:3 @12:34"), Some((None, "12:34".to_string())));
}

#[test]
fn any_run_of_white_space_parts_date_and_time() {
    assert_eq!(tokens("@01.05 \t \n09:30"), Some((Some("01.05".to_string()), "09:30".to_string())));
    assert_eq!(
        tokens("@01.05.2024\u{a0}\u{2003}09:30"),
        Some((Some("01.05.2024".to_string()), "09:30".to_string()))
    );
}

#[test]
fn date_needs_white_space_before_the_time() {
    assert_eq!(tokens("@01.0509:30"), None);
    assert_eq!(tokens("@01.05.24 09:30"), None);
    assert_eq!(tokens("@01.05.2024x 09:30"), None);
    assert_eq!(tokens("@01.05."), None);
}

#[test]
fn plain_chat_has_no_marker() {
    assert_eq!(tokens(""), None);
    assert_eq!(tokens("@"), None);
    assert_eq!(tokens("hello at 09:30"), None);
    assert_eq!(tokens("@9:30"), None);
    assert_eq!(tokens("мама @ 10:00"), None);
}

#[test]
fn marker_after_text_of_several_bytes_per_character() {
    let event = parse_event("встреча @07.03 08:15 утром").expect("a marker");
    assert_eq!(event.text, "встреча @07.03 08:15 утром");
    assert_eq!(event.date, Some("07.03".to_string()));
    assert_eq!(event.time, "08:15");
}

#[test]
fn marker_agrees_with_the_pattern() {
    let pattern = regex::Regex::new(r"@(?:(\d{2}\.\d{2}(?:\.\d{4})?)\s+)?(\d{2}:\d{2})").unwrap();
    let samples = [
        "@09:30 dentist",
        "@24.12 gift shopping",
        "@24.12 18:00",
        "@24.12.2024 18:00",
        "@24.12.2024  \t18:00 and @10:00",
        "@24.12.202 18:00",
        "x@10:00",
        "@10:0 @10:00",
        "@01.02.2024.03 10:00",
        "@01.02 10:00:00",
        "@@01.02 10:00",
        "@01.02 @10:00",
        "@01.0510:00",
        "no marker at all",
        "@12.34.5678 90:12",
        "@12.34.5678\n90:12",
    ];
    for text in samples {
        let expected = pattern.captures(text).map(|c| {
            (c.get(1).map(|m| m.as_str().to_string()), c.get(2).unwrap().as_str().to_string())
        });
        assert_eq!(tokens(text), expected, "on {:?}", text);
    }
}

#[test]
fn digits_of_other_scripts_make_no_marker() {
    assert_eq!(tokens("@٠٩:٣٠"), None);
    assert_eq!(tokens("@０９:３０ and @10:45"), Some((None, "10:45".to_string())));
}
