use snapchat_analyzer::statistics::positive_days;
use snapchat_analyzer::{Statistics, Timestamp};

fn at(secs: i64) -> Timestamp {
    Timestamp { secs, nanos: 0 }
}

const NEW_YEAR_2021: i64 = 1_609_459_200;
const DAY: i64 = 86_400;

#[test]
fn stamp_is_read_as_utc() {
    assert_eq!(Timestamp::parse("2021-01-01 00:00:00 UTC"), Some(at(NEW_YEAR_2021)));
    assert_eq!(Timestamp::parse("2021-01-01 10:00:00 UTC"), Some(at(1_609_495_200)));
    assert_eq!(Timestamp::parse("2021-03-04 10:15:22 UTC"), Some(at(1_614_852_922)));
    assert_eq!(Timestamp::parse("1970-01-01 00:00:00 UTC"), Some(at(0)));
    assert_eq!(Timestamp::parse("1969-12-31 23:59:59 UTC"), Some(at(-1)));
}

#[test]
fn zone_abbreviation_is_passed_over() {
    assert_eq!(Timestamp::parse("2021-01-01 10:00:00 CEST"), Some(at(1_609_495_200)));
    assert_eq!(Timestamp::parse("2021-01-01 10:00:00 PST"), Some(at(1_609_495_200)));
}

#[test]
fn stamp_of_another_shape_is_not_read() {
    assert_eq!(Timestamp::parse("not-a-date"), None);
    assert_eq!(Timestamp::parse(""), None);
    assert_eq!(Timestamp::parse("2021-01-01"), None);
    assert_eq!(Timestamp::parse("2021-13-01 10:00:00 UTC"), None);
    assert_eq!(Timestamp::parse("2021-02-30 10:00:00 UTC"), None);
    assert_eq!(Timestamp::parse("2021-01-01 24:00:00 UTC"), None);
    assert_eq!(Timestamp::parse("2021-01-01T10:00:00Z"), None);
    assert_eq!(Timestamp::parse("2021-01-01 10:00:00 UTC and more"), None);
}

#[test]
fn leap_second_keeps_the_second_before_it() {
    assert_eq!(
        Timestamp::parse("2016-12-31 23:59:60 UTC"),
        Some(Timestamp { secs: 1_483_228_799, nanos: 1_000_000_000 })
    );
    let before = Timestamp::parse("2016-12-31 23:59:59 UTC").unwrap();
    let leap = Timestamp::parse("2016-12-31 23:59:60 UTC").unwrap();
    let after = Timestamp::parse("2017-01-01 00:00:00 UTC").unwrap();
    assert!(before.before(&leap));
    assert!(leap.before(&after));
    assert!(!after.before(&leap));
}

#[test]
fn order_goes_by_seconds_then_nanoseconds() {
    assert!(at(1).before(&at(2)));
    assert!(!at(2).before(&at(1)));
    assert!(!at(2).before(&at(2)));
    assert!(at(-5).before(&at(0)));
    let early = Timestamp { secs: 7, nanos: 1 };
    let late = Timestamp { secs: 7, nanos: 2 };
    assert!(early.before(&late));
    assert!(!late.before(&early));
    assert!(Timestamp { secs: 6, nanos: 999_999_999 }.before(&early));
    assert!(!Timestamp { secs: 8, nanos: 0 }.before(&late));
}

#[test]
fn first_instant_sets_both_ends() {
    let mut stats = Statistics::new();
    assert_eq!(stats.earliest_message(), None);
    assert_eq!(stats.latest_message(), None);
    stats.extend_time_range(at(100));
    assert_eq!(stats.earliest_message(), Some(at(100)));
    assert_eq!(stats.latest_message(), Some(at(100)));
    assert_eq!(stats.total_messages(), 0);
}

#[test]
fn later_instants_move_an_end_only_when_beyond_it() {
    let mut stats = Statistics::new();
    stats.extend_time_range(at(100));
    stats.extend_time_range(at(150));
    assert_eq!(stats.earliest_message(), Some(at(100)));
    assert_eq!(stats.latest_message(), Some(at(150)));
    stats.extend_time_range(at(120));
    assert_eq!(stats.earliest_message(), Some(at(100)));
    assert_eq!(stats.latest_message(), Some(at(150)));
    stats.extend_time_range(at(50));
    assert_eq!(stats.earliest_message(), Some(at(50)));
    assert_eq!(stats.latest_message(), Some(at(150)));
    stats.extend_time_range(at(150));
    stats.extend_time_range(at(50));
    assert_eq!(stats.earliest_message(), Some(at(50)));
    assert_eq!(stats.latest_message(), Some(at(150)));
}

#[test]
fn update_reads_the_stamp_or_leaves_the_range() {
    let mut stats = Statistics::new();
    stats.update_time_range("not-a-date");
    assert_eq!(stats.earliest_message(), None);
    assert_eq!(stats.latest_message(), None);
    stats.update_time_range("2021-01-03 10:00:00 UTC");
    stats.update_time_range("2021-01-01 10:00:00 UTC");
    stats.update_time_range("garbage 2021");
    stats.update_time_range("2021-01-02 10:00:00 UTC");
    assert_eq!(stats.earliest_message(), Some(at(1_609_495_200)));
    assert_eq!(stats.latest_message(), Some(at(1_609_495_200 + 2 * DAY)));
    assert_eq!(stats.date_range_days(), Some(2));
}

fn span(from: Timestamp, to: Timestamp) -> Option<i64> {
    let mut stats = Statistics::new();
    stats.extend_time_range(from);
    stats.extend_time_range(to);
    stats.date_range_days()
}

#[test]
fn span_counts_whole_days() {
    let start = at(NEW_YEAR_2021);
    assert_eq!(span(start, at(NEW_YEAR_2021 + DAY)), Some(1));
    assert_eq!(span(start, at(NEW_YEAR_2021 + 2 * DAY - 1)), Some(1));
    assert_eq!(span(start, at(NEW_YEAR_2021 + 2 * DAY)), Some(2));
    assert_eq!(span(start, at(NEW_YEAR_2021 + 365 * DAY + 12 * 3600)), Some(365));
    assert_eq!(span(at(-DAY), at(3 * DAY + 5)), Some(4));
}

#[test]
fn span_under_a_day_is_not_shown() {
    let start = at(NEW_YEAR_2021);
    assert_eq!(span(start, start), None);
    assert_eq!(span(start, at(NEW_YEAR_2021 + 1)), None);
    assert_eq!(span(start, at(NEW_YEAR_2021 + DAY - 1)), None);
    // 23:00 on one day to 01:00 on the next: two calendar dates, no whole day.
    assert_eq!(span(at(NEW_YEAR_2021 + 23 * 3600), at(NEW_YEAR_2021 + 25 * 3600)), None);
    assert_eq!(Statistics::new().date_range_days(), None);
}

#[test]
fn span_does_not_depend_on_the_order_of_arrival() {
    assert_eq!(span(at(NEW_YEAR_2021 + 3 * DAY), at(NEW_YEAR_2021)), Some(3));
    assert_eq!(span(at(NEW_YEAR_2021), at(NEW_YEAR_2021 + 3 * DAY)), Some(3));
}

#[test]
fn span_of_instants_outside_the_calendar_is_not_shown() {
    assert_eq!(span(at(i64::MIN), at(i64::MAX)), None);
    assert_eq!(span(at(0), at(i64::MAX)), None);
    assert_eq!(span(Timestamp { secs: 0, nanos: 2_000_000_000 }, at(10 * DAY)), None);
}

#[test]
fn only_positive_day_counts_are_kept() {
    assert_eq!(positive_days(Some(1)), Some(1));
    assert_eq!(positive_days(Some(i64::MAX)), Some(i64::MAX));
    assert_eq!(positive_days(Some(0)), None);
    assert_eq!(positive_days(Some(-1)), None);
    assert_eq!(positive_days(Some(i64::MIN)), None);
    assert_eq!(positive_days(None), None);
}
