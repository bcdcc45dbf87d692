use amax_lib::usage::{
    checked_total, count_days_used, daily_usage, requests_logged, timestamp_usable, today_log_count, usage_row, UsageRow,
};

fn row(day: Option<i32>, tokens: i64, input_tokens: i64, output_tokens: i64) -> UsageRow {
    UsageRow { day, tokens, input_tokens, output_tokens }
}

#[test]
fn every_day_of_the_range_gets_one_entry() {
    let rows = vec![
        row(Some(102), 10, 6, 4),
        row(Some(100), 5, 3, 2),
        row(Some(102), 1, 1, 0),
        row(None, 1000, 1000, 0),
        row(Some(90), 7, 7, 0),
    ];
    let (days, used) = daily_usage(&rows, 100, 103);
    assert_eq!(days.len(), 4);
    assert_eq!(days.iter().map(|d| d.day).collect::<Vec<_>>(), vec![100, 101, 102, 103]);
    assert_eq!(days.iter().map(|d| d.tokens).collect::<Vec<_>>(), vec![5, 0, 11, 0]);
    assert_eq!(days[2].input_tokens, 7);
    assert_eq!(days[2].output_tokens, 4);
    assert_eq!(days[2].rows, vec![0, 2]);
    assert!(days[1].rows.is_empty());
    // Distinct days among all rows, the one outside the range included.
    assert_eq!(used, 3);
}

#[test]
fn an_empty_or_reversed_range_has_no_entries() {
    let rows = vec![row(Some(5), 1, 1, 0)];
    let (days, used) = daily_usage(&rows, 6, 5);
    assert!(days.is_empty());
    assert_eq!(used, 1);
    let (days, used) = daily_usage(&[], 1, 1);
    assert_eq!(days.len(), 1);
    assert_eq!(days[0].tokens, 0);
    assert_eq!(used, 0);
    assert_eq!(count_days_used(&[row(None, 1, 1, 1)]), 0);
}

#[test]
fn logged_requests_add_up_and_never_go_below_zero() {
    assert_eq!(requests_logged(&[3, 4, 5]), 12);
    assert_eq!(requests_logged(&[]), 0);
    assert_eq!(requests_logged(&[2, -5]), 0);
}

#[test]
fn usage_row_keeps_the_counts() {
    let made = usage_row(1_700_000_000, 9, 4, 5);
    assert_eq!((made.tokens, made.input_tokens, made.output_tokens), (9, 4, 5));
    // 2023-11-14 UTC is day 738838; the local date is that day or a neighbour.
    let day = made.day.expect("可表示的日期");
    assert!((738_837..=738_839).contains(&day), "{day}");
}

#[test]
fn timestamps_outside_the_calendar_have_no_day() {
    assert!(!timestamp_usable(-8_334_601_228_800));
    assert!(!timestamp_usable(8_210_266_876_799));
    assert!(timestamp_usable(8_210_266_876_800));
    assert!(timestamp_usable(0));
    assert_eq!(usage_row(i64::MAX, 1, 1, 0).day, None);
    assert_eq!(usage_row(i64::MIN, 1, 1, 0).day, None);
    let near_end = usage_row(8_210_266_790_399, 1, 1, 0).day.expect("倒数第二天可表示");
    assert!((95_745_397..=95_745_399).contains(&near_end));
}

#[test]
fn today_log_count_needs_a_read_reply() {
    assert_eq!(today_log_count(None), (None, false));
    assert_eq!(today_log_count(Some(vec![2, 3])), (Some(5), true));
    assert_eq!(today_log_count(Some(vec![-4])), (Some(0), true));
    assert_eq!(today_log_count(Some(Vec::new())), (Some(0), true));
}

#[test]
fn checked_total_adds_the_counts() {
    assert_eq!(checked_total(&[]), Some(0));
    assert_eq!(checked_total(&[3, 4, -2]), Some(5));
    assert_eq!(checked_total(&[i64::MAX, -1]), Some(i64::MAX - 1));
}

#[test]
fn checked_total_refuses_a_running_sum_that_overflows() {
    assert_eq!(checked_total(&[i64::MAX, 1]), None);
    assert_eq!(checked_total(&[i64::MAX, 1, -5]), None);
    assert_eq!(checked_total(&[i64::MIN, -1]), None);
}
