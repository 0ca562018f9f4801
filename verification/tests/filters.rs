use snapchat_analyzer::{analyze_messages, is_applicable, ChatData, FilterConfig, Message};

fn message(sender: &str, media_type: &str, created: &str, is_sender: bool, is_saved: bool) -> Message {
    Message {
        sender: sender.to_string(),
        media_type: media_type.to_string(),
        created: created.to_string(),
        content: None,
        conversation_title: None,
        is_sender,
        created_microseconds: 0,
        is_saved,
    }
}

fn sample() -> ChatData {
    let mut data = ChatData::new();
    data.insert(
        "Alice & Bob".to_string(),
        vec![
            message("Bob", "TEXT", "2021-01-01 10:00:00 UTC", false, true),
            message("Bob", "MEDIA", "2021-01-15 08:30:00 UTC", true, false),
            message("Bob", "TEXT", "2021-02-01 00:00:00 UTC", true, true),
        ],
    );
    data.insert(
        "Alice & Carol".to_string(),
        vec![
            message("Carol", "NOTE", "2021-01-31 23:59:59 UTC", false, false),
            message("Carol", "TEXT", "2021-03-04 10:15:22 UTC", true, false),
        ],
    );
    data
}

fn with_dates(from: Option<&str>, to: Option<&str>) -> FilterConfig {
    let mut filter = FilterConfig::new();
    filter.from_date = from.map(|d| d.to_string());
    filter.to_date = to.map(|d| d.to_string());
    filter
}

#[test]
fn no_criteria_keep_every_message() {
    let filter = FilterConfig::new();
    assert!(filter.user.is_none());
    assert!(filter.from_date.is_none());
    assert!(filter.to_date.is_none());
    assert!(!filter.saved_only);
    assert!(filter.media_type.is_none());
    let stats = analyze_messages(&sample(), &filter);
    assert_eq!(stats.total_messages(), 5);
    assert_eq!(stats.messages_sent(), 2);
    assert_eq!(stats.messages_received(), 3);
    assert_eq!(stats.saved_messages(), 2);
}

#[test]
fn accepts_agrees_with_the_totals() {
    let mut filter = FilterConfig::new();
    filter.saved_only = true;
    assert!(filter.accepts(&message("Bob", "TEXT", "2021-01-01 10:00:00 UTC", false, true)));
    assert!(!filter.accepts(&message("Bob", "TEXT", "2021-01-01 10:00:00 UTC", false, false)));
    filter.media_type = Some("TEXT".to_string());
    assert!(filter.accepts(&message("Bob", "TEXT", "2021-01-01 10:00:00 UTC", true, true)));
    assert!(!filter.accepts(&message("Bob", "MEDIA", "2021-01-01 10:00:00 UTC", true, true)));
    assert!(!filter.accepts(&message("Bob", "text", "2021-01-01 10:00:00 UTC", true, true)));
}

#[test]
fn lower_bound_is_inclusive() {
    let stats = analyze_messages(&sample(), &with_dates(Some("2021-01-15"), None));
    assert_eq!(stats.total_messages(), 4);
    let stats = analyze_messages(&sample(), &with_dates(Some("2021-01-16"), None));
    assert_eq!(stats.total_messages(), 3);
}

#[test]
fn upper_bound_is_inclusive() {
    let stats = analyze_messages(&sample(), &with_dates(None, Some("2021-01-31")));
    assert_eq!(stats.total_messages(), 3);
    let stats = analyze_messages(&sample(), &with_dates(None, Some("2021-01-30")));
    assert_eq!(stats.total_messages(), 2);
}

#[test]
fn both_bounds_select_a_range() {
    let stats = analyze_messages(&sample(), &with_dates(Some("2021-01-15"), Some("2021-02-01")));
    assert_eq!(stats.total_messages(), 3);
    assert_eq!(stats.media_type_count("MEDIA"), 1);
    assert_eq!(stats.media_type_count("NOTE"), 1);
    assert_eq!(stats.media_type_count("TEXT"), 1);
    let stats = analyze_messages(&sample(), &with_dates(Some("2021-02-02"), Some("2021-02-01")));
    assert_eq!(stats.total_messages(), 0);
}

#[test]
fn bounds_are_compared_as_text() {
    // A bound that is a proper prefix of a date is less than that date.
    let stats = analyze_messages(&sample(), &with_dates(Some("2021-02"), None));
    assert_eq!(stats.total_messages(), 2);
    let stats = analyze_messages(&sample(), &with_dates(None, Some("2021-02")));
    assert_eq!(stats.total_messages(), 3);
    // "2021-1-20" is greater than every date of the form "2021-0…", whatever the calendar says.
    let stats = analyze_messages(&sample(), &with_dates(Some("2021-1-20"), None));
    assert_eq!(stats.total_messages(), 0);
    let stats = analyze_messages(&sample(), &with_dates(None, Some("2021-1-20")));
    assert_eq!(stats.total_messages(), 5);
    // The empty bound is less than every date.
    let stats = analyze_messages(&sample(), &with_dates(Some(""), None));
    assert_eq!(stats.total_messages(), 5);
    let stats = analyze_messages(&sample(), &with_dates(None, Some("")));
    assert_eq!(stats.total_messages(), 0);
}

#[test]
fn only_the_date_portion_is_compared() {
    let mut data = ChatData::new();
    data.insert(
        "a".to_string(),
        vec![message("Bob", "TEXT", "2021-01-01 23:59:59 UTC", false, false)],
    );
    let stats = analyze_messages(&data, &with_dates(None, Some("2021-01-01")));
    assert_eq!(stats.total_messages(), 1);
    let stats = analyze_messages(&data, &with_dates(Some("2021-01-01"), Some("2021-01-01")));
    assert_eq!(stats.total_messages(), 1);
}

#[test]
fn correspondent_criterion_excludes_nothing() {
    let mut filter = FilterConfig::new();
    filter.user = Some("Carol".to_string());
    let stats = analyze_messages(&sample(), &filter);
    assert_eq!(stats.total_messages(), 5);
    assert_eq!(stats.user_interaction("Bob"), (1, 2));
    assert_eq!(stats.user_interaction("Carol"), (1, 1));
    filter.user = Some("Nobody".to_string());
    let stats = analyze_messages(&sample(), &filter);
    assert_eq!(stats.total_messages(), 5);
    for is_sender in [false, true] {
        for sender in ["Carol", "Bob"] {
            assert!(filter.accepts(&message(sender, "TEXT", "2021-01-01 10:00:00 UTC", is_sender, false)));
        }
    }
}

#[test]
fn saved_only_never_raises_the_total() {
    for media_type in [None, Some("TEXT"), Some("MEDIA"), Some("NOTE"), Some("OTHER")] {
        for from in [None, Some("2021-01-15"), Some("2021-02-01")] {
            let mut lax = with_dates(from, None);
            lax.media_type = media_type.map(|t| t.to_string());
            let mut strict = lax.clone();
            strict.saved_only = true;
            let all = analyze_messages(&sample(), &lax);
            let saved = analyze_messages(&sample(), &strict);
            assert!(saved.total_messages() <= all.total_messages());
            assert_eq!(saved.saved_messages(), saved.total_messages());
            assert_eq!(saved.total_messages(), all.saved_messages());
        }
    }
}

#[test]
fn media_type_criterion_leaves_one_key_or_none() {
    for wanted in ["TEXT", "MEDIA", "NOTE", "OTHER", ""] {
        let mut filter = FilterConfig::new();
        filter.media_type = Some(wanted.to_string());
        let stats = analyze_messages(&sample(), &filter);
        for found in stats.media_types() {
            assert_eq!(found, wanted);
        }
        assert!(stats.media_types().len() <= 1);
        assert_eq!(stats.media_type_count(wanted), stats.total_messages());
    }
    let mut filter = FilterConfig::new();
    filter.media_type = Some("TEXT".to_string());
    assert_eq!(analyze_messages(&sample(), &filter).total_messages(), 3);
    filter.media_type = Some("OTHER".to_string());
    assert!(analyze_messages(&sample(), &filter).media_types().is_empty());
}

#[test]
fn date_bound_needs_a_delimited_stamp() {
    let mut data = sample();
    assert!(is_applicable(&data, &FilterConfig::new()));
    assert!(is_applicable(&data, &with_dates(Some("2021-01-01"), None)));
    assert!(is_applicable(&data, &with_dates(None, Some("2021-01-01"))));
    data.insert(
        "Alice & Dave".to_string(),
        vec![message("Dave", "TEXT", "not-a-date", false, false)],
    );
    assert!(is_applicable(&data, &FilterConfig::new()));
    assert!(!is_applicable(&data, &with_dates(Some("2021-01-01"), None)));
    assert!(!is_applicable(&data, &with_dates(None, Some("2021-01-01"))));
    assert!(!is_applicable(&data, &with_dates(Some("2021-01-01"), Some("2021-12-31"))));
    let mut filter = FilterConfig::new();
    filter.saved_only = true;
    filter.media_type = Some("TEXT".to_string());
    filter.user = Some("Dave".to_string());
    assert!(is_applicable(&data, &filter));
}

#[test]
fn stamp_without_a_time_still_has_a_date_when_delimited() {
    let mut data = ChatData::new();
    data.insert(
        "a".to_string(),
        vec![
            message("Bob", "TEXT", "2021-05-05 ", false, false),
            message("Bob", "TEXT", " 2021-05-05", false, false),
        ],
    );
    let filter = with_dates(Some("2021-01-01"), None);
    assert!(is_applicable(&data, &filter));
    // The second stamp starts with a space: its date portion is empty, and less than the bound.
    assert_eq!(analyze_messages(&data, &filter).total_messages(), 1);
    let filter = with_dates(None, Some("2021-01-01"));
    assert_eq!(analyze_messages(&data, &filter).total_messages(), 1);
}
