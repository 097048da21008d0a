use people_counter::calendar::{next_day, previous_day};
use people_counter::{
    create_item, format_clock, get_day, get_day_before, get_item, get_past_day,
    get_people_per_hour, parse_date, to_item, CivilDate, EventLog, Item, Observation, QueryError,
    Timestamp,
};

fn at(year: i32, month: u8, day: u8, hour: u8, minute: u8, second: u8) -> Timestamp {
    Timestamp {
        date: CivilDate { year, month, day },
        hour,
        minute,
        second,
        nanosecond: 0,
    }
}

fn record(log: &mut EventLog, t: Timestamp, n: i32, source: Option<&str>) -> Item {
    create_item(log, t, n, source.map(|s| s.to_string()))
}

fn shown(items: &[Item]) -> Vec<(String, i32, Option<String>)> {
    items
        .iter()
        .map(|i| (i.time.clone(), i.nb_people, i.source.clone()))
        .collect()
}

fn sample_log() -> EventLog {
    let mut log = EventLog::new();
    record(&mut log, at(2024, 3, 9, 23, 59, 59), 1, Some("doorA"));
    record(&mut log, at(2024, 3, 10, 9, 5, 0), 4, Some("doorA"));
    record(&mut log, at(2024, 3, 10, 9, 40, 0), 6, None);
    record(&mut log, at(2024, 3, 10, 14, 0, 0), -2, Some("doorB"));
    record(&mut log, at(2024, 3, 11, 0, 0, 0), 8, Some("doorB"));
    log
}

#[test]
fn clock_renders_zero_padded() {
    assert_eq!(format_clock(9, 5), "09:05");
    assert_eq!(format_clock(0, 0), "00:00");
    assert_eq!(format_clock(23, 59), "23:59");
}

#[test]
fn observation_and_bucket_render_hour_nine() {
    let mut log = EventLog::new();
    let item = record(&mut log, at(2024, 3, 10, 9, 5, 0), 3, None);
    assert_eq!(item.time, "09:05");
    let buckets = get_people_per_hour(&log, "2024-03-10").unwrap();
    assert_eq!(shown(&buckets), vec![("09:00".to_string(), 3, None)]);
}

#[test]
fn latest_returns_at_most_n_newest_first() {
    let log = sample_log();
    let items = get_item(&log, 3);
    assert_eq!(
        shown(&items),
        vec![
            ("00:00".to_string(), 8, Some("doorB".to_string())),
            ("14:00".to_string(), -2, Some("doorB".to_string())),
            ("09:40".to_string(), 6, None),
        ]
    );
    assert_eq!(get_item(&log, 100).len(), 5);
}

#[test]
fn latest_with_nonpositive_limit_is_empty() {
    let log = sample_log();
    assert!(get_item(&log, 0).is_empty());
    assert!(get_item(&log, -5).is_empty());
    assert!(get_item(&log, i64::MIN).is_empty());
}

#[test]
fn latest_orders_out_of_order_inserts() {
    let mut log = EventLog::new();
    record(&mut log, at(2024, 1, 1, 12, 0, 0), 1, None);
    record(&mut log, at(2024, 1, 1, 8, 0, 0), 2, None);
    record(&mut log, at(2024, 1, 1, 10, 0, 0), 3, None);
    let counts: Vec<i32> = get_item(&log, 3).iter().map(|i| i.nb_people).collect();
    assert_eq!(counts, vec![1, 3, 2]);
}

#[test]
fn round_trip_latest_one() {
    let mut log = sample_log();
    let created = record(&mut log, at(2024, 3, 11, 7, 30, 0), 7, Some("doorA"));
    assert_eq!(created.nb_people, 7);
    let items = get_item(&log, 1);
    assert_eq!(items.len(), 1);
    assert_eq!(items[0].nb_people, 7);
    assert_eq!(items[0].source.as_deref(), Some("doorA"));
    let t = items[0].time.as_bytes();
    assert_eq!(t.len(), 5);
    assert!(t[0].is_ascii_digit() && t[1].is_ascii_digit());
    assert_eq!(t[2], b':');
    assert!(t[3].is_ascii_digit() && t[4].is_ascii_digit());
}

#[test]
fn day_returns_exactly_that_day_newest_first() {
    let log = sample_log();
    let items = get_day(&log, "2024-03-10").unwrap();
    assert_eq!(
        shown(&items),
        vec![
            ("14:00".to_string(), -2, Some("doorB".to_string())),
            ("09:40".to_string(), 6, None),
            ("09:05".to_string(), 4, Some("doorA".to_string())),
        ]
    );
}

#[test]
fn day_ignores_appends_outside_window() {
    let mut log = sample_log();
    let before = shown(&get_day(&log, "2024-03-10").unwrap());
    record(&mut log, at(2024, 3, 12, 10, 0, 0), 50, None);
    record(&mut log, at(2024, 3, 9, 10, 0, 0), 60, None);
    let after = shown(&get_day(&log, "2024-03-10").unwrap());
    assert_eq!(before, after);
}

#[test]
fn day_of_empty_log_is_empty() {
    let log = EventLog::new();
    assert!(get_day(&log, "2024-03-10").unwrap().is_empty());
}

#[test]
fn day_rejects_malformed_date() {
    let log = sample_log();
    assert_eq!(get_day(&log, "not-a-date").err(), Some(QueryError::InvalidArgument));
    assert_eq!(get_day(&log, "2023-02-29").err(), Some(QueryError::InvalidArgument));
    assert_eq!(get_day(&log, "2024-13-01").err(), Some(QueryError::InvalidArgument));
    assert_eq!(get_day(&log, "2024-3-10").err(), Some(QueryError::InvalidArgument));
    assert_eq!(get_day(&log, "").err(), Some(QueryError::InvalidArgument));
}

#[test]
fn dates_parse_with_leap_years() {
    assert_eq!(parse_date("2024-02-29"), Some(CivilDate { year: 2024, month: 2, day: 29 }));
    assert_eq!(parse_date("2000-02-29"), Some(CivilDate { year: 2000, month: 2, day: 29 }));
    assert_eq!(parse_date("1900-02-29"), None);
    assert_eq!(parse_date("2024-04-31"), None);
    assert_eq!(parse_date("2024-04-30"), Some(CivilDate { year: 2024, month: 4, day: 30 }));
    assert_eq!(parse_date("2024/04/30"), None);
}

#[test]
fn calendar_steps_across_boundaries() {
    let d = CivilDate { year: 2024, month: 3, day: 1 };
    assert_eq!(previous_day(d), CivilDate { year: 2024, month: 2, day: 29 });
    let d = CivilDate { year: 2024, month: 1, day: 1 };
    assert_eq!(previous_day(d), CivilDate { year: 2023, month: 12, day: 31 });
    let d = CivilDate { year: 2023, month: 12, day: 31 };
    assert_eq!(next_day(d), CivilDate { year: 2024, month: 1, day: 1 });
    let d = CivilDate { year: 2023, month: 2, day: 28 };
    assert_eq!(next_day(d), CivilDate { year: 2023, month: 3, day: 1 });
}

#[test]
fn today_and_yesterday_windows() {
    let log = sample_log();
    let now = at(2024, 3, 11, 12, 0, 0);
    assert_eq!(
        shown(&get_past_day(&log, now)),
        vec![("00:00".to_string(), 8, Some("doorB".to_string()))]
    );
    let counts: Vec<i32> = get_day_before(&log, now).iter().map(|i| i.nb_people).collect();
    assert_eq!(counts, vec![-2, 6, 4]);
}

#[test]
fn yesterday_crosses_month_start() {
    let mut log = EventLog::new();
    record(&mut log, at(2024, 2, 29, 18, 15, 0), 5, None);
    record(&mut log, at(2024, 3, 1, 6, 0, 0), 9, None);
    let items = get_day_before(&log, at(2024, 3, 1, 8, 0, 0));
    assert_eq!(shown(&items), vec![("18:15".to_string(), 5, None)]);
}

#[test]
fn today_grows_after_append() {
    let mut log = sample_log();
    let first = shown(&get_past_day(&log, at(2024, 3, 10, 15, 0, 0)));
    record(&mut log, at(2024, 3, 10, 15, 0, 1), 3, Some("doorC"));
    let second = shown(&get_past_day(&log, at(2024, 3, 10, 16, 0, 0)));
    assert_eq!(second.len(), first.len() + 1);
    for item in &first {
        assert!(second.contains(item));
    }
}

#[test]
fn hourly_totals_sum_each_hour_and_skip_empty_hours() {
    let log = sample_log();
    let items = get_people_per_hour(&log, "2024-03-10").unwrap();
    assert_eq!(
        shown(&items),
        vec![("09:00".to_string(), 10, None), ("14:00".to_string(), -2, None)]
    );
}

#[test]
fn hourly_totals_reject_malformed_date() {
    let log = sample_log();
    assert_eq!(
        get_people_per_hour(&log, "2024-02-30").err(),
        Some(QueryError::InvalidArgument)
    );
}

#[test]
fn hourly_total_beyond_32_bits_fails() {
    let mut log = EventLog::new();
    record(&mut log, at(2024, 3, 10, 9, 0, 0), i32::MAX, None);
    record(&mut log, at(2024, 3, 10, 9, 30, 0), 1, None);
    assert_eq!(
        get_people_per_hour(&log, "2024-03-10").err(),
        Some(QueryError::StoreUnavailable)
    );
}

#[test]
fn equal_times_are_all_kept() {
    let mut log = EventLog::new();
    let t = at(2024, 3, 10, 9, 0, 0);
    record(&mut log, t, 1, None);
    record(&mut log, t, 2, None);
    assert_eq!(log.len(), 2);
    let counts: Vec<i32> = get_item(&log, 2).iter().map(|i| i.nb_people).collect();
    assert_eq!(counts, vec![2, 1]);
}

#[test]
fn item_keeps_count_and_source() {
    let o = Observation {
        time: at(2024, 3, 10, 7, 3, 0),
        nb_people: 12,
        source: Some("gate".to_string()),
    };
    let item = to_item(&o);
    assert_eq!(item.time, "07:03");
    assert_eq!(item.nb_people, 12);
    assert_eq!(item.source.as_deref(), Some("gate"));
}
