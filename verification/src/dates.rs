//! Calendar dates as day numbers: statistics ranges, per-day request increases and
//! the window of the usage baseline.
//!
//! Dates travel as `YYYY-MM-DD` text (snapshot dates also as RFC 3339 times) and are
//! compared as day numbers (days counted from 0001-01-01 as day 1, as `chrono` counts
//! them).

use vstd::prelude::*;
use vstd::string::*;
use crate::error::{AppError, ErrorCode};
use crate::text::views;
use crate::usage::{FIRST_DAY, LAST_DAY};

verus! {

/// Longest statistics range, in days between its first and last day.
pub const MAX_RANGE_DAYS: i64 = 1096;

/// The day number `chrono::NaiveDate::parse_from_str(text, "%Y-%m-%d")` gives for
/// `text`, or `None` when it refuses the text.
pub uninterp spec fn ymd_day(text: Seq<char>) -> Option<int>;

/// `chrono::NaiveDate::parse_from_str` with the format `%Y-%m-%d`, reduced to the
/// day number of the date (`Datelike::num_days_from_ce`). The result is named as a
/// function of the text alone; being a `NaiveDate`, the date lies between the first
/// and the last representable one.
#[verifier::external_body]
fn parse_ymd(text: &str) -> (res: Option<i32>)
    ensures
        match res {
            Some(d) => ymd_day(text@) == Some(d as int) && FIRST_DAY <= d <= LAST_DAY,
            None => ymd_day(text@) is None,
        },
{
    chrono::NaiveDate::parse_from_str(text, "%Y-%m-%d").ok().map(|date| chrono::Datelike::num_days_from_ce(&date))
}

/// The `YYYY-MM-DD` text chrono writes for a day number.
pub uninterp spec fn ymd_text(day: int) -> Seq<char>;

/// `chrono::NaiveDate::from_num_days_from_ce_opt`, written with `format("%Y-%m-%d")`.
/// chrono gives a date exactly for the day numbers of its representable range; the text
/// is named as a function of the day number alone.
#[verifier::external_body]
fn format_day(day: i32) -> (res: Option<String>)
    ensures
        res is Some <==> FIRST_DAY <= day <= LAST_DAY,
        res matches Some(text) ==> text@ == ymd_text(day as int),
{
    chrono::NaiveDate::from_num_days_from_ce_opt(day).map(|date| date.format("%Y-%m-%d").to_string())
}

/// Today's day number in the machine's local time zone (`chrono::Local::now`).
/// It depends on the clock and the time zone; nothing is stated of it.
#[verifier::external_body]
fn local_today() -> (res: i32) {
    chrono::Datelike::num_days_from_ce(&chrono::Local::now().date_naive())
}

/// The verdict on a statistics range: both ends must read as dates, the start may not
/// follow the end, the end may not follow `today`, and the span is at most
/// `MAX_RANGE_DAYS` days.
pub open spec fn range_verdict(start: Seq<char>, end: Seq<char>, today: int) -> Result<(int, int), Seq<char>> {
    match (ymd_day(start), ymd_day(end)) {
        (None, _) => Err("起始日期格式无效，应为 YYYY-MM-DD"@),
        (Some(_), None) => Err("结束日期格式无效，应为 YYYY-MM-DD"@),
        (Some(s), Some(e)) => if s > e {
            Err("起始日期不能晚于结束日期"@)
        } else if e > today {
            Err("结束日期不能超过今天"@)
        } else if e - s > MAX_RANGE_DAYS {
            Err("区间跨度不能超过 1096 天"@)
        } else {
            Ok((s, e))
        },
    }
}

/// `res` is what `range_verdict` gives, every error being an input error.
pub open spec fn range_result_is(res: Result<(i32, i32), AppError>, verdict: Result<(int, int), Seq<char>>) -> bool {
    match verdict {
        Ok((s, e)) => res matches Ok(days) && days.0 == s && days.1 == e,
        Err(m) => res matches Err(err) && err.code == ErrorCode::Input && err.message@ == m,
    }
}

/// Checks a statistics range against the given `today` (a day number).
pub fn check_date_range(start_date: &str, end_date: &str, today: i32) -> (res: Result<(i32, i32), AppError>)
    ensures
        range_result_is(res, range_verdict(start_date@, end_date@, today as int)),
{
    let start = match parse_ymd(start_date) {
        Some(day) => day,
        None => return Err(AppError::input("起始日期格式无效，应为 YYYY-MM-DD")),
    };
    let end = match parse_ymd(end_date) {
        Some(day) => day,
        None => return Err(AppError::input("结束日期格式无效，应为 YYYY-MM-DD")),
    };
    if start > end {
        return Err(AppError::input("起始日期不能晚于结束日期"));
    }
    if end > today {
        return Err(AppError::input("结束日期不能超过今天"));
    }
    if (end as i64) - (start as i64) > MAX_RANGE_DAYS {
        return Err(AppError::input("区间跨度不能超过 1096 天"));
    }
    Ok((start, end))
}

/// Checks a statistics range against today's local date; returns the day numbers of
/// its first and last day.
pub fn validate_date_range(start_date: &str, end_date: &str) -> (res: Result<(i32, i32), AppError>)
    ensures
        exists|today: i32| range_result_is(res, range_verdict(start_date@, end_date@, today as int)),
{
    let today = local_today();
    check_date_range(start_date, end_date, today)
}

/// An accepted range is ordered, ends no later than the day it was checked on, and
/// spans at most `MAX_RANGE_DAYS` days.
pub proof fn lemma_accepted_range_is_bounded(start: Seq<char>, end: Seq<char>, today: int)
    requires
        range_verdict(start, end, today) is Ok,
    ensures
        ({
            let (s, e) = range_verdict(start, end, today)->Ok_0;
            &&& s <= e <= today
            &&& e - s <= MAX_RANGE_DAYS
            &&& ymd_day(start) == Some(s)
            &&& ymd_day(end) == Some(e)
        }),
{
}

/// Every range of readable dates that is ordered (a single day included), ends no
/// later than `today` and spans at most `MAX_RANGE_DAYS` days is accepted, with its
/// first and last day; every other range is refused.
pub proof fn lemma_bounded_range_is_accepted(start: Seq<char>, end: Seq<char>, today: int, s: int, e: int)
    requires
        ymd_day(start) == Some(s),
        ymd_day(end) == Some(e),
    ensures
        (s <= e <= today && e - s <= MAX_RANGE_DAYS) ==> range_verdict(start, end, today) == Ok::<
            (int, int),
            Seq<char>,
        >((s, e)),
        !(s <= e <= today && e - s <= MAX_RANGE_DAYS) ==> range_verdict(start, end, today) is Err,
{
}

/// A range whose first and last day are the same readable day, not after `today`, is
/// accepted.
pub proof fn lemma_single_day_range_is_accepted(date: Seq<char>, today: int, d: int)
    requires
        ymd_day(date) == Some(d),
        d <= today,
    ensures
        range_verdict(date, date, today) == Ok::<(int, int), Seq<char>>((d, d)),
{
    lemma_bounded_range_is_accepted(date, date, today, d, d);
}

/// One day's stored snapshot, as far as request counting reads it.
#[derive(Debug, Clone)]
pub struct RequestSample {
    /// `YYYY-MM-DD`
    pub date: String,
    /// Cumulative request count; `None` for rows written before it was recorded.
    pub request_count: Option<i64>,
}

/// The requests made on row `i`'s day: only when row `i - 1` is the day before and
/// both rows carry a cumulative count.
pub open spec fn daily_increase(rows: Seq<RequestSample>, i: int) -> Option<int> {
    if i <= 0 || i >= rows.len() {
        None
    } else {
        let row = rows[i];
        let prev = rows[i - 1];
        match (row.request_count, prev.request_count, ymd_day(row.date@), ymd_day(prev.date@)) {
            (Some(c), Some(p), Some(d), Some(pd)) => if d - pd == 1 {
                Some(c - p)
            } else {
                None
            },
            _ => None,
        }
    }
}

/// Every increase that is computed fits in an `i64`.
pub open spec fn increases_fit(rows: Seq<RequestSample>) -> bool {
    forall|i: int| 0 < i < rows.len() ==> (#[trigger] daily_increase(rows, i) matches Some(v) ==> i64::MIN <= v <= i64::MAX)
}

/// Requests per day, from consecutive cumulative counts.
pub fn derive_daily_requests(snapshots: &[RequestSample]) -> (res: Vec<Option<i64>>)
    requires
        increases_fit(snapshots@),
    ensures
        res@.len() == snapshots@.len(),
        forall|i: int| 0 <= i < snapshots@.len() ==> match #[trigger] daily_increase(snapshots@, i) {
            Some(v) => res@[i] == Some(v as i64),
            None => res@[i] is None,
        },
{
    let mut out: Vec<Option<i64>> = Vec::new();
    let mut i: usize = 0;
    while i < snapshots.len()
        invariant
            i <= snapshots@.len(),
            increases_fit(snapshots@),
            out@.len() == i,
            forall|j: int| 0 <= j < i ==> match #[trigger] daily_increase(snapshots@, j) {
                Some(v) => out@[j] == Some(v as i64),
                None => out@[j] is None,
            },
        decreases snapshots@.len() - i,
    {
        let value: Option<i64> = if i == 0 {
            None
        } else {
            let row = &snapshots[i];
            let prev = &snapshots[i - 1];
            match (row.request_count, prev.request_count) {
                (Some(current), Some(previous)) => match (parse_ymd(row.date.as_str()), parse_ymd(prev.date.as_str())) {
                    (Some(day), Some(prev_day)) => {
                        if (day as i64) - (prev_day as i64) == 1 {
                            assert(daily_increase(snapshots@, i as int) == Some(current - previous));
                            Some(current - previous)
                        } else {
                            None
                        }
                    },
                    _ => None,
                },
                _ => None,
            }
        };
        out.push(value);
        i = i + 1;
    }
    out
}


/// Requests per day, or `None` when some increase does not fit in an `i64` (where
/// `derive_daily_requests` cannot be used).
pub fn checked_daily_requests(snapshots: &[RequestSample]) -> (res: Option<Vec<Option<i64>>>)
    ensures
        res is None <==> !increases_fit(snapshots@),
        res matches Some(out) ==> out@.len() == snapshots@.len() && forall|i: int|
            0 <= i < snapshots@.len() ==> match #[trigger] daily_increase(snapshots@, i) {
                Some(v) => out@[i] == Some(v as i64),
                None => out@[i] is None,
            },
{
    let mut i: usize = 1;
    while i < snapshots.len()
        invariant
            1 <= i,
            forall|j: int| 0 < j < i && j < snapshots@.len() ==> (#[trigger] daily_increase(snapshots@, j) matches Some(
                v,
            ) ==> i64::MIN <= v <= i64::MAX),
        decreases snapshots@.len() - i,
    {
        let row = &snapshots[i];
        let prev = &snapshots[i - 1];
        if let (Some(current), Some(previous)) = (row.request_count, prev.request_count) {
            if let (Some(day), Some(prev_day)) = (parse_ymd(row.date.as_str()), parse_ymd(prev.date.as_str())) {
                if (day as i64) - (prev_day as i64) == 1 {
                    let wide = (current as i128) - (previous as i128);
                    if wide < i64::MIN as i128 || wide > i64::MAX as i128 {
                        assert(daily_increase(snapshots@, i as int) == Some(current - previous));
                        return None;
                    }
                }
            }
        }
        i = i + 1;
    }
    Some(derive_daily_requests(snapshots))
}


/// The day number of the local date written in an RFC 3339 time
/// (`chrono::DateTime::parse_from_rfc3339`, then the date in the time's own offset),
/// or `None` when it refuses the text.
pub uninterp spec fn rfc3339_day(text: Seq<char>) -> Option<int>;

/// `chrono::DateTime::parse_from_rfc3339`, reduced to the day number of the date in
/// the time's own offset. The result is named as a function of the text alone.
#[verifier::external_body]
fn parse_rfc3339_day(text: &str) -> (res: Option<i32>)
    ensures
        match res {
            Some(d) => rfc3339_day(text@) == Some(d as int),
            None => rfc3339_day(text@) is None,
        },
{
    chrono::DateTime::parse_from_rfc3339(text).ok().map(
        |time| chrono::Datelike::num_days_from_ce(&time.date_naive()),
    )
}

/// The day a snapshot date stands for: a `YYYY-MM-DD` date, or else the local date of
/// an RFC 3339 time.
pub open spec fn baseline_day(text: Seq<char>) -> Option<int> {
    match ymd_day(text) {
        Some(d) => Some(d),
        None => rfc3339_day(text),
    }
}

/// `window_days` (at least one) days before `today`, when that date can be represented
/// (`NaiveDate::checked_sub_days`: the count fits in an `i32` and the date is not before
/// the first representable one).
pub open spec fn window_start(today: int, window_days: int) -> Option<int> {
    let n = if window_days < 1 { 1 } else { window_days };
    if n <= i32::MAX && today - n >= FIRST_DAY {
        Some(today - n)
    } else {
        None
    }
}

pub open spec fn unreadable_date_message(text: Seq<char>) -> Seq<char> {
    "告警基准日期无法解析: "@ + text
}

/// The first of `dates` that stands for no day.
pub open spec fn first_unreadable(dates: Seq<Seq<char>>) -> Option<Seq<char>>
    decreases dates.len(),
{
    if dates.len() == 0 {
        None
    } else if baseline_day(dates[0]) is None {
        Some(dates[0])
    } else {
        first_unreadable(dates.drop_first())
    }
}

/// The day of a date that falls in the window (from `start` up to the day before
/// `today`), or `None` for a date outside it.
pub open spec fn window_day(text: Seq<char>, start: int, today: int) -> Option<int> {
    match baseline_day(text) {
        Some(d) => if start <= d < today {
            Some(d)
        } else {
            None
        },
        None => None,
    }
}

/// Day numbers of a vector, as integers.
pub open spec fn int_days(days: Seq<Option<i32>>) -> Seq<Option<int>> {
    Seq::new(
        days.len(),
        |i: int|
            match days[i] {
                Some(d) => Some(d as int),
                None => None,
            },
    )
}

/// The usage-baseline window for `day`: `(today, start, inside)` with the days of `day`
/// and of the window's first day, and for each date its day when it falls in the window; or
/// the error text. `day` is read first, then the window's start, then every date in
/// order, the first that fails deciding the error.
pub open spec fn baseline_window_of(day: Seq<char>, dates: Seq<Seq<char>>, window_days: int) -> Result<
    (int, int, Seq<Option<int>>),
    Seq<char>,
> {
    match baseline_day(day) {
        None => Err(unreadable_date_message(day)),
        Some(today) => match window_start(today, window_days) {
            None => Err("告警基准窗口天数超出可表示范围"@),
            Some(start) => match first_unreadable(dates) {
                Some(text) => Err(unreadable_date_message(text)),
                None => Ok((today, start, Seq::new(dates.len(), |i: int| window_day(dates[i], start, today)))),
            },
        },
    }
}

/// The baseline window ends the day before `day` and reaches `window_days` days back
/// (at least one): a date that it takes lies in that span and is taken with its own day,
/// and every date whose day lies in that span is taken; the day itself never is.
pub proof fn lemma_baseline_window_span(day: Seq<char>, dates: Seq<Seq<char>>, window_days: int)
    requires
        baseline_window_of(day, dates, window_days) is Ok,
    ensures
        baseline_window_of(day, dates, window_days) matches Ok((today, start, inside)) && {
            &&& baseline_day(day) == Some(today)
            &&& today - start == (if window_days < 1 { 1 } else { window_days })
            &&& inside.len() == dates.len()
            &&& forall|i: int|
                0 <= i < dates.len() ==> match #[trigger] inside[i] {
                    Some(d) => baseline_day(dates[i]) == Some(d) && start <= d < today,
                    None => !(baseline_day(dates[i]) matches Some(d) && start <= d < today),
                }
        },
{
}

fn day_of_baseline_text(text: &str) -> (res: Result<i32, AppError>)
    ensures
        match baseline_day(text@) {
            Some(d) => res matches Ok(v) && v == d,
            None => res matches Err(e) && e.code == ErrorCode::Input && e.message@ == unreadable_date_message(text@),
        },
{
    match parse_ymd(text) {
        Some(d) => Ok(d),
        None => match parse_rfc3339_day(text) {
            Some(d) => Ok(d),
            None => {
                let mut message = String::from_str("告警基准日期无法解析: ");
                message.append(text);
                Err(AppError::input(message.as_str()))
            },
        },
    }
}

fn start_of_window(today: i32, window_days: i64) -> (res: Option<i32>)
    ensures
        match window_start(today as int, window_days as int) {
            Some(s) => res matches Some(v) && v == s,
            None => res is None,
        },
{
    let n: i64 = if window_days < 1 { 1 } else { window_days };
    if n > i32::MAX as i64 {
        return None;
    }
    let start: i64 = today as i64 - n;
    if start < FIRST_DAY {
        return None;
    }
    Some(start as i32)
}

/// Reads the usage-baseline window for `day` and the snapshot `dates` (see
/// `baseline_window_of`); every error is an `Input` error.
pub fn baseline_window(day: &str, dates: &[String], window_days: i64) -> (res: Result<
    (i32, i32, Vec<Option<i32>>),
    AppError,
>)
    ensures
        match baseline_window_of(day@, views(dates@), window_days as int) {
            Ok((today, start, inside)) => res matches Ok(w) && w.0 == today && w.1 == start
                && int_days(w.2@) == inside,
            Err(m) => res matches Err(e) && e.code == ErrorCode::Input && e.message@ == m,
        },
{
    let today = match day_of_baseline_text(day) {
        Ok(d) => d,
        Err(e) => return Err(e),
    };
    let start = match start_of_window(today, window_days) {
        Some(s) => s,
        None => return Err(AppError::input("告警基准窗口天数超出可表示范围")),
    };
    let ghost ds = views(dates@);
    let mut inside: Vec<Option<i32>> = Vec::new();
    let mut i: usize = 0;
    assert(ds.skip(0) =~= ds);
    while i < dates.len()
        invariant
            i <= dates@.len(),
            ds == views(dates@),
            ds.len() == dates@.len(),
            baseline_day(day@) == Some(today as int),
            window_start(today as int, window_days as int) == Some(start as int),
            first_unreadable(ds) == first_unreadable(ds.skip(i as int)),
            inside@.len() == i,
            forall|k: int|
                0 <= k < i ==> match #[trigger] inside@[k] {
                    Some(v) => window_day(ds[k], start as int, today as int) == Some(v as int),
                    None => window_day(ds[k], start as int, today as int) is None,
                },
        decreases dates@.len() - i,
    {
        assert(ds.skip(i as int).drop_first() =~= ds.skip(i + 1));
        assert(ds.skip(i as int)[0] == ds[i as int]);
        assert(ds[i as int] == dates@[i as int]@);
        let d = match day_of_baseline_text(dates[i].as_str()) {
            Ok(d) => d,
            Err(e) => {
                assert(first_unreadable(ds) == Some(ds[i as int]));
                return Err(e);
            },
        };
        if start <= d && d < today {
            inside.push(Some(d));
        } else {
            inside.push(None);
        }
        i = i + 1;
    }
    assert(ds.skip(dates@.len() as int) =~= Seq::<Seq<char>>::empty());
    assert(int_days(inside@) =~= Seq::new(ds.len(), |k: int| window_day(ds[k], start as int, today as int)));
    Ok((today, start, inside))
}

/// The first day, as `YYYY-MM-DD` text, of the snapshots that the usage baseline of
/// `day` reads: `BASELINE_WINDOW_DAYS` before it. `day` must be a `YYYY-MM-DD` date;
/// failures are `Storage` errors (the day comes from the local clock, not from the user).
pub fn baseline_query_start(day: &str) -> (res: Result<String, AppError>)
    ensures
        match ymd_day(day@) {
            None => res matches Err(e) && e.code == ErrorCode::Storage && e.message@ == "当日日期格式异常: "@ + day@,
            Some(today) => match window_start(today, crate::alert::BASELINE_WINDOW_DAYS as int) {
                Some(s) => res matches Ok(text) && text@ == ymd_text(s),
                None => res matches Err(e) && e.code == ErrorCode::Storage && e.message@
                    == "告警基准窗口超出可表示日期范围"@,
            },
        },
{
    let today = match parse_ymd(day) {
        Some(d) => d,
        None => {
            let mut message = String::from_str("当日日期格式异常: ");
            message.append(day);
            return Err(AppError::storage(message.as_str()));
        },
    };
    let start = match start_of_window(today, crate::alert::BASELINE_WINDOW_DAYS) {
        Some(s) => s,
        None => return Err(AppError::storage("告警基准窗口超出可表示日期范围")),
    };
    match format_day(start) {
        Some(text) => Ok(text),
        None => Err(AppError::storage("告警基准窗口超出可表示日期范围")),
    }
}

} // verus!
