//! Daily usage from the site's per-day rows: rows are grouped by their local day,
//! every day of the requested range gets an entry (zero when nothing was used), and
//! the days that saw any use are counted.
//!
//! Amounts of money stay with the caller: each entry lists the rows it was built
//! from, so that the caller can add up their amounts in the same order.

use vstd::prelude::*;

verus! {

/// One row of the site's per-day usage, with its local day number (`None` when the
/// timestamp has no local date).
#[derive(Debug, Clone, Copy)]
pub struct UsageRow {
    pub day: Option<i32>,
    pub tokens: i64,
    pub input_tokens: i64,
    pub output_tokens: i64,
}

/// The usage of one day of the range.
#[derive(Debug, Clone)]
pub struct DayUsage {
    pub day: i32,
    pub tokens: i64,
    pub input_tokens: i64,
    pub output_tokens: i64,
    /// Indices of the rows of this day, in row order.
    pub rows: Vec<usize>,
}

/// Which count of a row: 0 total tokens, 1 input tokens, 2 output tokens.
pub open spec fn count_of(row: UsageRow, which: int) -> int {
    if which == 0 {
        row.tokens as int
    } else if which == 1 {
        row.input_tokens as int
    } else {
        row.output_tokens as int
    }
}

/// The sum of one count over the rows of day `day`.
pub open spec fn day_sum(rows: Seq<UsageRow>, day: int, which: int) -> int
    decreases rows.len(),
{
    if rows.len() == 0 {
        0
    } else {
        day_sum(rows.drop_last(), day, which) + if rows.last().day == Some(day as i32) {
            count_of(rows.last(), which)
        } else {
            0
        }
    }
}

/// Indices of the rows of day `day`, in row order.
pub open spec fn rows_of_day(rows: Seq<UsageRow>, day: int) -> Seq<int>
    decreases rows.len(),
{
    if rows.len() == 0 {
        Seq::empty()
    } else {
        rows_of_day(rows.drop_last(), day) + if rows.last().day == Some(day as i32) {
            seq![rows.len() - 1]
        } else {
            Seq::<int>::empty()
        }
    }
}

/// Whether row `i` is the first row of its day.
pub open spec fn first_of_its_day(rows: Seq<UsageRow>, i: int) -> bool {
    rows[i].day is Some && forall|j: int| 0 <= j < i ==> (#[trigger] rows[j]).day != rows[i].day
}

/// The number of distinct days among the rows (every row with a day counts, inside the
/// range or not).
pub open spec fn days_used(rows: Seq<UsageRow>) -> nat
    decreases rows.len(),
{
    if rows.len() == 0 {
        0
    } else {
        days_used(rows.drop_last()) + if first_of_its_day(rows, rows.len() - 1) {
            1nat
        } else {
            0nat
        }
    }
}

/// Every running sum of each count of each day fits in an `i64`.
pub open spec fn day_sums_fit(rows: Seq<UsageRow>) -> bool {
    forall|k: int, day: int, which: int|
        0 <= k <= rows.len() && 0 <= which < 3 ==> i64::MIN <= #[trigger] day_sum(rows.take(k), day, which)
            <= i64::MAX
}

proof fn lemma_day_sum_step(rows: Seq<UsageRow>, k: int, day: int, which: int)
    requires
        0 <= k < rows.len(),
    ensures
        day_sum(rows.take(k + 1), day, which) == day_sum(rows.take(k), day, which) + if rows[k].day == Some(
            day as i32,
        ) {
            count_of(rows[k], which)
        } else {
            0
        },
        rows_of_day(rows.take(k + 1), day) == rows_of_day(rows.take(k), day) + if rows[k].day == Some(
            day as i32,
        ) {
            seq![k]
        } else {
            Seq::<int>::empty()
        },
{
    assert(rows.take(k + 1).drop_last() =~= rows.take(k));
}

/// The usage of `day`: the sums of its rows and their indices.
fn usage_of_day(rows: &[UsageRow], day: i32) -> (res: DayUsage)
    requires
        day_sums_fit(rows@),
    ensures
        res.day == day,
        res.tokens == day_sum(rows@, day as int, 0),
        res.input_tokens == day_sum(rows@, day as int, 1),
        res.output_tokens == day_sum(rows@, day as int, 2),
        res.rows@.map_values(|i: usize| i as int) == rows_of_day(rows@, day as int),
{
    let mut tokens: i64 = 0;
    let mut input_tokens: i64 = 0;
    let mut output_tokens: i64 = 0;
    let mut indices: Vec<usize> = Vec::new();
    let mut k: usize = 0;
    assert(rows@.take(0) =~= Seq::<UsageRow>::empty());
    while k < rows.len()
        invariant
            k <= rows@.len(),
            day_sums_fit(rows@),
            tokens == day_sum(rows@.take(k as int), day as int, 0),
            input_tokens == day_sum(rows@.take(k as int), day as int, 1),
            output_tokens == day_sum(rows@.take(k as int), day as int, 2),
            indices@.map_values(|i: usize| i as int) == rows_of_day(rows@.take(k as int), day as int),
        decreases rows@.len() - k,
    {
        proof {
            lemma_day_sum_step(rows@, k as int, day as int, 0);
            lemma_day_sum_step(rows@, k as int, day as int, 1);
            lemma_day_sum_step(rows@, k as int, day as int, 2);
            assert(i64::MIN <= day_sum(rows@.take(k + 1), day as int, 0) <= i64::MAX);
            assert(i64::MIN <= day_sum(rows@.take(k + 1), day as int, 1) <= i64::MAX);
            assert(i64::MIN <= day_sum(rows@.take(k + 1), day as int, 2) <= i64::MAX);
        }
        let row = rows[k];
        if row.day == Some(day) {
            tokens = tokens + row.tokens;
            input_tokens = input_tokens + row.input_tokens;
            output_tokens = output_tokens + row.output_tokens;
            let ghost before = indices@.map_values(|i: usize| i as int);
            indices.push(k);
            assert(indices@.map_values(|i: usize| i as int) =~= before + seq![k as int]);
        } else {
            assert(rows_of_day(rows@.take(k + 1), day as int) =~= rows_of_day(rows@.take(k as int), day as int));
        }
        k = k + 1;
    }
    assert(rows@.take(rows@.len() as int) =~= rows@);
    DayUsage { day, tokens, input_tokens, output_tokens, rows: indices }
}

/// Whether some row before `i` has the same day as row `i`.
fn seen_before(rows: &[UsageRow], i: usize) -> (res: bool)
    requires
        i < rows@.len(),
    ensures
        res == exists|j: int| 0 <= j < i && (#[trigger] rows@[j]).day == rows@[i as int].day,
{
    let mut j: usize = 0;
    while j < i
        invariant
            j <= i < rows@.len(),
            forall|m: int| 0 <= m < j ==> (#[trigger] rows@[m]).day != rows@[i as int].day,
        decreases i - j,
    {
        if rows[j].day == rows[i].day {
            return true;
        }
        j = j + 1;
    }
    false
}

/// The number of distinct days among the rows.
pub fn count_days_used(rows: &[UsageRow]) -> (res: usize)
    ensures
        res == days_used(rows@),
{
    let mut count: usize = 0;
    let mut i: usize = 0;
    while i < rows.len()
        invariant
            i <= rows@.len(),
            count == days_used(rows@.take(i as int)),
            count <= i,
        decreases rows@.len() - i,
    {
        let ghost prefix = rows@.take(i + 1);
        assert(prefix.drop_last() =~= rows@.take(i as int));
        assert(prefix.last() == rows@[i as int]);
        let fresh = rows[i].day.is_some() && !seen_before(rows, i);
        assert(fresh == first_of_its_day(prefix, i as int)) by {
            if rows@[i as int].day is Some {
                if exists|j: int| 0 <= j < i && (#[trigger] rows@[j]).day == rows@[i as int].day {
                    let j = choose|j: int| 0 <= j < i && (#[trigger] rows@[j]).day == rows@[i as int].day;
                    assert(prefix[j] == rows@[j]);
                } else {
                    assert forall|j: int| 0 <= j < i implies (#[trigger] prefix[j]).day != prefix[i as int].day by {
                        assert(prefix[j] == rows@[j]);
                    }
                }
            }
        }
        if fresh {
            count = count + 1;
        }
        i = i + 1;
    }
    assert(rows@.take(rows@.len() as int) =~= rows@);
    count
}

/// Usage per day from `start` to `end` (day numbers, both included; nothing when
/// `start` follows `end`), and the number of distinct days among all rows.
pub fn daily_usage(rows: &[UsageRow], start: i32, end: i32) -> (res: (Vec<DayUsage>, usize))
    requires
        day_sums_fit(rows@),
    ensures
        res.0@.len() == if start <= end { end - start + 1 } else { 0 },
        forall|k: int| 0 <= k < res.0@.len() ==> {
            let entry = #[trigger] res.0@[k];
            &&& entry.day == start + k
            &&& entry.tokens == day_sum(rows@, start + k, 0)
            &&& entry.input_tokens == day_sum(rows@, start + k, 1)
            &&& entry.output_tokens == day_sum(rows@, start + k, 2)
            &&& entry.rows@.map_values(|i: usize| i as int) == rows_of_day(rows@, start + k)
        },
        res.1 == days_used(rows@),
{
    let mut days: Vec<DayUsage> = Vec::new();
    if start <= end {
        let mut day: i32 = start;
        loop
            invariant_except_break
                days@.len() == day - start,
            invariant
                start <= day <= end,
                day_sums_fit(rows@),
                days@.len() <= day - start + 1,
                forall|k: int| 0 <= k < days@.len() ==> {
                    let entry = #[trigger] days@[k];
                    &&& entry.day == start + k
                    &&& entry.tokens == day_sum(rows@, start + k, 0)
                    &&& entry.input_tokens == day_sum(rows@, start + k, 1)
                    &&& entry.output_tokens == day_sum(rows@, start + k, 2)
                    &&& entry.rows@.map_values(|i: usize| i as int) == rows_of_day(rows@, start + k)
                },
            ensures
                days@.len() == end - start + 1,
                forall|k: int| 0 <= k < days@.len() ==> {
                    let entry = #[trigger] days@[k];
                    &&& entry.day == start + k
                    &&& entry.tokens == day_sum(rows@, start + k, 0)
                    &&& entry.input_tokens == day_sum(rows@, start + k, 1)
                    &&& entry.output_tokens == day_sum(rows@, start + k, 2)
                    &&& entry.rows@.map_values(|i: usize| i as int) == rows_of_day(rows@, start + k)
                },
            decreases end - day,
        {
            let entry = usage_of_day(rows, day);
            days.push(entry);
            if day == end {
                break;
            }
            day = day + 1;
        }
    }
    (days, count_days_used(rows))
}


/// Day number of 1970-01-01 (days from 0001-01-01, that day being 1).
pub const UNIX_EPOCH_DAY: i64 = 719163;
/// Day numbers of the first and last date `chrono` can represent
/// (-262143-01-01 and +262142-12-31).
pub const FIRST_DAY: i64 = -95746129;
pub const LAST_DAY: i64 = 95745399;

/// The day number of the UTC date at a Unix timestamp.
pub open spec fn utc_day(timestamp: int) -> int {
    timestamp / 86400 + UNIX_EPOCH_DAY
}

/// Whether `chrono` can represent the UTC date of a timestamp.
pub open spec fn in_date_range(timestamp: int) -> bool {
    FIRST_DAY <= utc_day(timestamp) <= LAST_DAY
}

/// Whether a timestamp falls on the first or last representable UTC day, where a local
/// offset may carry the local date out of `chrono`'s range (which `chrono` does not
/// survive).
pub open spec fn on_range_edge(timestamp: int) -> bool {
    utc_day(timestamp) == FIRST_DAY || utc_day(timestamp) == LAST_DAY
}

/// The day number (days from 0001-01-01, that day being 1) of the local date at a Unix
/// timestamp: `chrono::Local.timestamp_opt(timestamp, 0).single()`, then the date.
/// `timestamp_opt` gives a single time exactly for a timestamp whose UTC date is
/// representable (`DateTime::from_timestamp`), and the local offset is under a day
/// (`FixedOffset`), so the local date is that UTC date or a neighbour. Which one depends
/// on the machine's time zone and is not stated. On the edge days the local date may
/// leave the representable range, where `chrono` panics; they are excluded.
#[verifier::external_body]
fn local_day(timestamp: i64) -> (res: Option<i32>)
    requires
        !on_range_edge(timestamp as int),
    ensures
        res is Some <==> in_date_range(timestamp as int),
        res matches Some(day) ==> utc_day(timestamp as int) - 1 <= day <= utc_day(timestamp as int) + 1,
{
    chrono::TimeZone::timestamp_opt(&chrono::Local, timestamp, 0).single().map(
        |time| chrono::Datelike::num_days_from_ce(&time.date_naive()),
    )
}

/// A usage row for a site row stamped with the start of its local day: the row's day
/// is the local date at the timestamp, which is its UTC date or a neighbour (the time
/// zone decides), and none when the date cannot be represented.
pub fn usage_row(timestamp: i64, tokens: i64, input_tokens: i64, output_tokens: i64) -> (res: UsageRow)
    requires
        !on_range_edge(timestamp as int),
    ensures
        res.tokens == tokens,
        res.input_tokens == input_tokens,
        res.output_tokens == output_tokens,
        res.day is Some <==> in_date_range(timestamp as int),
        res.day matches Some(day) ==> utc_day(timestamp as int) - 1 <= day <= utc_day(timestamp as int) + 1,
{
    UsageRow { day: local_day(timestamp), tokens, input_tokens, output_tokens }
}

/// Whether `usage_row` may be given a timestamp (it is not on a range edge day).
pub fn timestamp_usable(timestamp: i64) -> (res: bool)
    ensures
        res == !on_range_edge(timestamp as int),
{
    // The edge days run from -8334601228800 and from 8210266790400, a day each.
    !((-8334601228800i64 <= timestamp && timestamp < -8334601142400i64) || (8210266790400i64 <= timestamp
        && timestamp < 8210266876800i64))
}

pub open spec fn total(counts: Seq<i64>) -> int
    decreases counts.len(),
{
    if counts.len() == 0 {
        0
    } else {
        total(counts.drop_last()) + counts.last()
    }
}

/// Every running sum of the counts fits in an `i64`.
pub open spec fn totals_fit(counts: Seq<i64>) -> bool {
    forall|k: int| 0 <= k <= counts.len() ==> i64::MIN <= #[trigger] total(counts.take(k)) <= i64::MAX
}

/// The counts added up, or `None` when a running sum leaves the `i64` range (where the
/// additions would overflow).
pub fn checked_total(counts: &[i64]) -> (res: Option<i64>)
    ensures
        res is Some <==> totals_fit(counts@),
        res matches Some(t) ==> t == total(counts@),
{
    let mut sum: i64 = 0;
    let mut k: usize = 0;
    assert(counts@.take(0) =~= Seq::<i64>::empty());
    while k < counts.len()
        invariant
            k <= counts@.len(),
            sum == total(counts@.take(k as int)),
            forall|j: int| 0 <= j <= k ==> i64::MIN <= #[trigger] total(counts@.take(j)) <= i64::MAX,
        decreases counts@.len() - k,
    {
        assert(counts@.take(k + 1).drop_last() =~= counts@.take(k as int));
        match sum.checked_add(counts[k]) {
            Some(next) => sum = next,
            None => {
                assert(!(i64::MIN <= total(counts@.take(k + 1)) <= i64::MAX));
                return None;
            },
        }
        k = k + 1;
    }
    assert(counts@.take(counts@.len() as int) =~= counts@);
    Some(sum)
}

/// The number of requests logged today: the models' request counts added up, a
/// negative sum counting as none.
pub fn requests_logged(counts: &[i64]) -> (res: u64)
    requires
        totals_fit(counts@),
    ensures
        res == if total(counts@) < 0 { 0 } else { total(counts@) },
{
    let mut sum: i64 = 0;
    let mut k: usize = 0;
    assert(counts@.take(0) =~= Seq::<i64>::empty());
    while k < counts.len()
        invariant
            k <= counts@.len(),
            totals_fit(counts@),
            sum == total(counts@.take(k as int)),
        decreases counts@.len() - k,
    {
        assert(counts@.take(k + 1).drop_last() =~= counts@.take(k as int));
        assert(i64::MIN <= total(counts@.take(k + 1)) <= i64::MAX);
        sum = sum + counts[k];
        k = k + 1;
    }
    assert(counts@.take(counts@.len() as int) =~= counts@);
    if sum < 0 {
        0
    } else {
        sum as u64
    }
}


/// What today's usage query gives the dashboard besides the money figures: when the
/// reply was read (`counts` holds its models' request counts) the logs are available
/// and the logged requests are their sum, at least zero; otherwise the logs are
/// unavailable and there is no count.
pub fn today_log_count(counts: Option<Vec<i64>>) -> (res: (Option<u64>, bool))
    requires
        counts matches Some(c) ==> totals_fit(c@),
    ensures
        res.1 == counts is Some,
        match counts {
            Some(c) => res.0 == Some((if total(c@) < 0 { 0 } else { total(c@) }) as u64),
            None => res.0 is None,
        },
{
    match counts {
        Some(c) => (Some(requests_logged(c.as_slice())), true),
        None => (None, false),
    }
}

} // verus!
