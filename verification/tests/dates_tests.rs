use amax_lib::dates::{
    baseline_query_start, baseline_window, check_date_range, checked_daily_requests, derive_daily_requests, validate_date_range, RequestSample,
};
use amax_lib::error::ErrorCode;
use chrono::{Datelike, Duration, Local, NaiveDate};

fn today() -> NaiveDate {
    Local::now().date_naive()
}

fn ymd(date: NaiveDate) -> String {
    date.format("%Y-%m-%d").to_string()
}

fn snapshot(date: &str, request_count: Option<i64>) -> RequestSample {
    RequestSample {
        date: date.to_string(),
        request_count,
    }
}

#[test]
fn valid_range_passes() {
    let end = today();
    let start = end - Duration::days(6);
    let result = validate_date_range(&ymd(start), &ymd(end));
    assert!(result.is_ok());
    let (s, e) = result.expect("合法区间应通过");
    assert_eq!(e - s, 6);
}

#[test]
fn start_after_end_rejected() {
    let end = today();
    let start = end + Duration::days(0);
    let error = validate_date_range(&ymd(start + Duration::days(1)), &ymd(end))
        .expect_err("start 晚于 end 应拒绝");
    assert_eq!(error.code, ErrorCode::Input);
    assert!(error.message.contains("不能晚于"));
}

#[test]
fn future_end_rejected() {
    let end = today() + Duration::days(1);
    let error = validate_date_range(&ymd(today()), &ymd(end)).expect_err("未来日期应拒绝");
    assert_eq!(error.code, ErrorCode::Input);
    assert!(error.message.contains("不能超过今天"));
}

#[test]
fn span_over_1096_days_rejected() {
    let end = today();
    let start = end - Duration::days(1097);
    let error = validate_date_range(&ymd(start), &ymd(end)).expect_err("超 1096 天应拒绝");
    assert_eq!(error.code, ErrorCode::Input);
    assert!(error.message.contains("1096"));

    let start_ok = end - Duration::days(1096);
    assert!(validate_date_range(&ymd(start_ok), &ymd(end)).is_ok());
}

#[test]
fn invalid_format_rejected() {
    for (start, end) in [
        ("2026/08/01", "2026-08-02"),
        ("2026-02-30", "2026-08-02"),
        ("2026-08-01", "not-a-date"),
    ] {
        let error = validate_date_range(start, end).expect_err("非法日期应拒绝");
        assert_eq!(error.code, ErrorCode::Input, "{start}~{end}");
    }
}

#[test]
fn range_check_against_a_given_day() {
    let day = NaiveDate::from_ymd_opt(2026, 8, 10).unwrap().num_days_from_ce();
    let (s, e) = check_date_range("2026-08-01", "2026-08-10", day).expect("应通过");
    assert_eq!(e, day);
    assert_eq!(e - s, 9);
    assert_eq!(
        check_date_range("2026-08-01", "2026-08-11", day).unwrap_err().message,
        "结束日期不能超过今天"
    );
    assert_eq!(
        check_date_range("x", "2026-08-01", day).unwrap_err().message,
        "起始日期格式无效，应为 YYYY-MM-DD"
    );
    assert_eq!(
        check_date_range("2026-08-01", "x", day).unwrap_err().message,
        "结束日期格式无效，应为 YYYY-MM-DD"
    );
    assert_eq!(
        check_date_range("2026-08-02", "2026-08-01", day).unwrap_err().message,
        "起始日期不能晚于结束日期"
    );
}

#[test]
fn daily_requests_diff_adjacent_days() {
    let rows = vec![
        snapshot("2026-08-01", Some(100)),
        snapshot("2026-08-02", Some(130)),
        snapshot("2026-08-03", Some(200)),
    ];
    assert_eq!(derive_daily_requests(&rows), vec![None, Some(30), Some(70)]);
}

#[test]
fn daily_requests_gap_and_null_yield_none() {
    let rows = vec![
        snapshot("2026-08-01", Some(100)),
        snapshot("2026-08-03", Some(300)),
        snapshot("2026-08-04", None),
        snapshot("2026-08-05", Some(400)),
    ];
    assert_eq!(derive_daily_requests(&rows), vec![None, None, None, None]);
}

#[test]
fn daily_requests_empty_input() {
    assert!(derive_daily_requests(&[]).is_empty());
}

#[test]
fn daily_requests_cross_month_and_bad_dates() {
    let rows = vec![
        snapshot("2026-07-31", Some(10)),
        snapshot("2026-08-01", Some(15)),
        snapshot("bad", Some(20)),
        snapshot("2026-08-03", Some(25)),
    ];
    assert_eq!(derive_daily_requests(&rows), vec![None, Some(5), None, None]);
}

#[test]
fn checked_daily_requests_refuses_an_increase_that_does_not_fit() {
    let rows = vec![snapshot("2026-08-01", Some(i64::MIN)), snapshot("2026-08-02", Some(1))];
    assert_eq!(checked_daily_requests(&rows), None);
    let apart = vec![snapshot("2026-08-01", Some(i64::MIN)), snapshot("2026-08-03", Some(1))];
    assert_eq!(checked_daily_requests(&apart), Some(vec![None, None]));
    let fine = vec![snapshot("2026-08-01", Some(5)), snapshot("2026-08-02", Some(8))];
    assert_eq!(checked_daily_requests(&fine), Some(vec![None, Some(3)]));
}

fn day_number(text: &str) -> i32 {
    NaiveDate::parse_from_str(text, "%Y-%m-%d").unwrap().num_days_from_ce()
}

fn texts(dates: &[&str]) -> Vec<String> {
    dates.iter().map(|date| date.to_string()).collect()
}

#[test]
fn baseline_rejects_unparsable_day() {
    let error = baseline_window("not-a-date", &[], 7).expect_err("非法日期应报错");
    assert_eq!(error.code, ErrorCode::Input);
    assert_eq!(error.message, "告警基准日期无法解析: not-a-date");
}

#[test]
fn baseline_window_takes_days_before_today() {
    let dates = texts(&["2026-09-19", "2026-09-20", "2026-09-21"]);
    let (today, start, days) = baseline_window("2026-09-21", &dates, 7).unwrap();
    assert_eq!(today, day_number("2026-09-21"));
    assert_eq!(start, day_number("2026-09-14"));
    assert_eq!(days, vec![Some(day_number("2026-09-19")), Some(day_number("2026-09-20")), None]);
}

#[test]
fn baseline_window_first_day_is_seven_days_back() {
    let dates = texts(&["2026-09-20", "2026-09-14", "2026-09-13"]);
    let (_, _, days) = baseline_window("2026-09-21", &dates, 7).unwrap();
    assert_eq!(days, vec![Some(day_number("2026-09-20")), Some(day_number("2026-09-14")), None]);
}

#[test]
fn baseline_window_reads_rfc3339_dates_in_their_own_offset() {
    let dates = texts(&["2026-09-20T23:50:00+08:00", "2026-09-20T23:50:00-08:00", "2026-09-21T00:10:00+08:00"]);
    let (_, _, days) = baseline_window("2026-09-21", &dates, 7).unwrap();
    assert_eq!(days, vec![Some(day_number("2026-09-20")), Some(day_number("2026-09-20")), None]);
}

#[test]
fn baseline_window_day_may_be_rfc3339() {
    let (today, start, _) = baseline_window("2026-09-21T08:00:00+08:00", &[], 7).unwrap();
    assert_eq!(today, day_number("2026-09-21"));
    assert_eq!(start, day_number("2026-09-14"));
}

#[test]
fn baseline_window_names_the_first_unreadable_date() {
    let dates = texts(&["2026-09-20", "bad-1", "bad-2"]);
    let error = baseline_window("2026-09-21", &dates, 7).unwrap_err();
    assert_eq!(error.code, ErrorCode::Input);
    assert_eq!(error.message, "告警基准日期无法解析: bad-1");
}

#[test]
fn baseline_window_reads_dates_outside_the_window_too() {
    let dates = texts(&["2020-01-01", "garbage"]);
    let error = baseline_window("2026-09-21", &dates, 7).unwrap_err();
    assert_eq!(error.message, "告警基准日期无法解析: garbage");
}

#[test]
fn baseline_window_of_at_least_one_day() {
    let dates = texts(&["2026-09-20", "2026-09-19"]);
    let (today, start, days) = baseline_window("2026-09-21", &dates, 0).unwrap();
    assert_eq!(start, today - 1);
    assert_eq!(days, vec![Some(day_number("2026-09-20")), None]);
    let (_, start, _) = baseline_window("2026-09-21", &dates, -5).unwrap();
    assert_eq!(start, today - 1);
}

#[test]
fn baseline_window_refuses_a_window_beyond_the_calendar() {
    for window_days in [i64::MAX, i32::MAX as i64 + 1, 200_000_000] {
        let error = baseline_window("2026-09-21", &[], window_days).unwrap_err();
        assert_eq!(error.code, ErrorCode::Input);
        assert_eq!(error.message, "告警基准窗口天数超出可表示范围");
    }
}

#[test]
fn baseline_query_starts_seven_days_back() {
    assert_eq!(baseline_query_start("2026-09-21").unwrap(), "2026-09-14");
    assert_eq!(baseline_query_start("2024-03-01").unwrap(), "2024-02-23");
}

#[test]
fn baseline_query_start_refuses_a_malformed_day() {
    let error = baseline_query_start("2026/09/21").unwrap_err();
    assert_eq!(error.code, ErrorCode::Storage);
    assert_eq!(error.message, "当日日期格式异常: 2026/09/21");
}
