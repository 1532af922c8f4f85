use wisprfree::dates::{date_fields_present, days_in_month, format_date, format_timestamp, parse_date, prev_day, yesterday_date_str};
use wisprfree::history::{count_words, dashboard_input_checked, get_dashboard_data, Entry};

fn entry(ts: &str, words: usize) -> Entry<u32> {
    Entry { timestamp: ts.to_string(), text: String::new(), word_count: words, extra: 7 }
}

#[test]
fn totals_and_today() {
    let es = vec![
        entry("2026-03-01T10:00:00", 3),
        entry("2026-03-02T09:00:00", 4),
        entry("2026-03-02T11:30:00", 5),
    ];
    let d = get_dashboard_data(es, "2026-03-02");
    assert_eq!(d.analytics.total_entries, 3);
    assert_eq!(d.analytics.total_words, 12);
    assert_eq!(d.analytics.today_words, 9);
    assert_eq!(d.analytics.today_entries, 2);
    assert!(d.analytics.today_words <= d.analytics.total_words);
}

#[test]
fn daily_is_newest_first() {
    let es = vec![
        entry("2026-03-02T09:00:00", 4),
        entry("2026-03-01T10:00:00", 3),
        entry("2026-03-02T11:30:00", 5),
    ];
    let d = get_dashboard_data(es, "2026-03-02");
    let daily = &d.analytics.daily;
    assert_eq!(daily.len(), 2);
    assert_eq!(daily[0].date, "2026-03-02");
    assert_eq!(daily[0].words, 9);
    assert_eq!(daily[0].entries, 2);
    assert_eq!(daily[1].date, "2026-03-01");
    assert_eq!(daily[1].words, 3);
}

#[test]
fn daily_keeps_thirty_days() {
    let mut es = Vec::new();
    for day in 1..=31 {
        es.push(entry(&format!("2026-01-{:02}T08:00:00", day), 1));
    }
    let d = get_dashboard_data(es, "2026-01-31");
    assert_eq!(d.analytics.daily.len(), 30);
    assert_eq!(d.analytics.daily[0].date, "2026-01-31");
    assert_eq!(d.analytics.daily[29].date, "2026-01-02");
    assert_eq!(d.analytics.streak_days, 31);
}

#[test]
fn daily_covers_only_the_last_thirty_calendar_days() {
    let es = vec![
        entry("2025-06-01T08:00:00", 4),
        entry("2026-03-01T08:00:00", 2),
        entry("2026-02-01T08:00:00", 1),
        entry("2026-01-31T08:00:00", 5),
        entry("2026-03-05T08:00:00", 3),
    ];
    let d = get_dashboard_data(es, "2026-03-02");
    let dates: Vec<&str> = d.analytics.daily.iter().map(|s| s.date.as_str()).collect();
    assert_eq!(dates, vec!["2026-03-01", "2026-02-01"]);
}

#[test]
fn a_future_day_does_not_hide_todays_streak() {
    let es = vec![
        entry("2026-03-01T08:00:00", 1),
        entry("2026-03-02T08:00:00", 1),
        entry("2026-04-09T08:00:00", 1),
    ];
    assert_eq!(get_dashboard_data(es, "2026-03-02").analytics.streak_days, 2);
}

#[test]
fn short_timestamps_have_no_day() {
    let es = vec![entry("2026-03", 2)];
    let d = get_dashboard_data(es, "2026-03-02");
    assert_eq!(d.analytics.daily.len(), 0);
    assert_eq!(d.analytics.total_words, 2);
    assert_eq!(d.analytics.streak_days, 0);
}

#[test]
fn streak_counts_back_from_today() {
    let es = vec![
        entry("2026-02-27T10:00:00", 1),
        entry("2026-02-28T10:00:00", 1),
        entry("2026-03-01T10:00:00", 1),
    ];
    assert_eq!(get_dashboard_data(es, "2026-03-01").analytics.streak_days, 3);
}

#[test]
fn streak_may_end_yesterday() {
    let es = vec![entry("2025-12-30T10:00:00", 1), entry("2025-12-31T10:00:00", 1)];
    assert_eq!(get_dashboard_data(es, "2026-01-01").analytics.streak_days, 2);
}

#[test]
fn streak_is_zero_after_a_gap() {
    let es = vec![entry("2026-02-27T10:00:00", 1)];
    assert_eq!(get_dashboard_data(es, "2026-03-01").analytics.streak_days, 0);
}

#[test]
fn streak_stops_at_a_missing_day() {
    let es = vec![
        entry("2026-02-25T10:00:00", 1),
        entry("2026-02-27T10:00:00", 1),
        entry("2026-02-28T10:00:00", 1),
    ];
    assert_eq!(get_dashboard_data(es, "2026-02-28").analytics.streak_days, 2);
}

#[test]
fn recent_entries_are_newest_first_and_capped() {
    let mut es = Vec::new();
    for i in 0..250u32 {
        let mut e = entry("2026-03-01T10:00:00", 1);
        e.extra = i;
        es.push(e);
    }
    let d = get_dashboard_data(es, "2026-03-01");
    assert_eq!(d.entries.len(), 200);
    assert_eq!(d.entries[0].extra, 249);
    assert_eq!(d.entries[199].extra, 50);
}

#[test]
fn empty_history() {
    let d = get_dashboard_data(Vec::<Entry<u32>>::new(), "2026-03-01");
    assert_eq!(d.analytics.total_entries, 0);
    assert_eq!(d.analytics.streak_days, 0);
    assert!(d.entries.is_empty());
}

#[test]
fn word_counting_splits_on_whitespace() {
    assert_eq!(count_words("  hello \t world\nagain "), 3);
    assert_eq!(count_words(""), 0);
    assert_eq!(count_words("   "), 0);
    let e = Entry::new("2026-01-01T00:00:00".to_string(), "one two", ());
    assert_eq!(e.word_count, 2);
}

#[test]
fn dates_parse_and_format() {
    assert_eq!(parse_date("2024-02-29"), (2024, 2, 29));
    assert_eq!(parse_date("x-y-z"), (2026, 1, 1));
    assert_eq!(parse_date("+7-+8-09"), (7, 8, 9));
    assert_eq!(format_date((7, 8, 9)), "0007-08-09");
    assert_eq!(format_date((-1, 12, 31)), "-001-12-31");
    assert_eq!(format_date(parse_date("2026-11-05")), "2026-11-05");
}

#[test]
fn formatted_dates_read_back() {
    for d in [(0, 0, 0), (7, 8, 9), (2024, 2, 29), (12345, 123, 4567), (i32::MAX, u32::MAX, 1)] {
        assert_eq!(parse_date(&format_date(d)), d);
    }
    assert_eq!(parse_date(&format_date((-5, 1, 1))), (2026, 5, 1));
}

#[test]
fn month_lengths() {
    assert_eq!(days_in_month(2024, 2), 29);
    assert_eq!(days_in_month(1900, 2), 28);
    assert_eq!(days_in_month(2000, 2), 29);
    assert_eq!(days_in_month(2023, 4), 30);
    assert_eq!(days_in_month(2023, 12), 31);
    assert_eq!(days_in_month(2023, 13), 30);
}

#[test]
fn previous_days() {
    assert_eq!(prev_day((2026, 3, 1)), (2026, 2, 28));
    assert_eq!(prev_day((2024, 3, 1)), (2024, 2, 29));
    assert_eq!(prev_day((2026, 1, 1)), (2025, 12, 31));
    assert_eq!(prev_day((2026, 5, 17)), (2026, 5, 16));
    assert_eq!(yesterday_date_str("2026-01-01"), "2025-12-31");
}

#[test]
fn timestamps_are_zero_padded() {
    assert_eq!(format_timestamp(2026, 3, 4, 5, 6, 7), "2026-03-04T05:06:07");
}

#[test]
fn dashboard_inputs_are_checked() {
    let ok = vec![entry("2026-03-01T10:00:00", 3), entry("short", 1)];
    assert!(dashboard_input_checked(&ok, "2026-03-02"));
    assert!(!dashboard_input_checked(&ok, "20260302"));
    assert!(dashboard_input_checked(&ok, "-2147483648-01-01"));
    let split = vec![entry("2026-03-0\u{e9}T10", 1)];
    assert!(!dashboard_input_checked(&split, "2026-03-02"));
    let big = vec![entry("2026-03-01", usize::MAX), entry("2026-03-01", 1)];
    assert!(!dashboard_input_checked(&big, "2026-03-02"));
    assert!(date_fields_present("a-b-c"));
    assert!(!date_fields_present("a-b"));
}
