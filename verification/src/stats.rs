use vstd::prelude::*;

use crate::util::{is_leap_year, leap_year};

verus! {

#[verifier::external_type_specification]
#[verifier::external_body]
pub struct ExSystemTime(std::time::SystemTime);

/// Seconds in a day.
pub const SECS_PER_DAY: i64 = 86400;

/// The remainder of `a / b` rounded toward zero, as Rust's `%` computes it.
pub open spec fn trem(a: int, b: int) -> int {
    if a >= 0 {
        a % b
    } else {
        -((-a) % b)
    }
}

/// The quotient `a / b` rounded toward zero, as Rust's `/` computes it.
pub open spec fn tdiv(a: int, b: int) -> int {
    if a >= 0 {
        a / b
    } else {
        -((-a) / b)
    }
}

/// Days in `year`.
pub open spec fn year_len(year: int) -> int {
    if leap_year(year) {
        366
    } else {
        365
    }
}

/// Days in month `m` (1 to 12) of `year`.
pub open spec fn month_len(year: int, m: int) -> int {
    if m == 2 {
        if leap_year(year) {
            29
        } else {
            28
        }
    } else if m == 4 || m == 6 || m == 9 || m == 11 {
        30
    } else {
        31
    }
}

/// Days from 1970-01-01 to the first day of `year`, for `year >= 1970`.
pub open spec fn days_before_year(year: int) -> int
    decreases year - 1970,
{
    if year <= 1970 {
        0
    } else {
        days_before_year(year - 1) + year_len(year - 1)
    }
}

/// Days from the first day of `year` to the first day of month `m`.
pub open spec fn days_before_month(year: int, m: int) -> int
    decreases m,
{
    if m <= 1 {
        0
    } else {
        days_before_month(year, m - 1) + month_len(year, m - 1)
    }
}

/// Day number `days` since 1970-01-01 falls on day `d` (counted from 0) of month `m` of
/// `year`.
pub open spec fn is_civil_date(days: int, year: int, m: int, d: int) -> bool {
    &&& year >= 1970
    &&& 1 <= m <= 12
    &&& 0 <= d < month_len(year, m)
    &&& days == days_before_year(year) + days_before_month(year, m) + d
}

/// Day counts before a year or a month are never negative.
pub proof fn lemma_days_before_nonneg(year: int, m: int)
    ensures
        days_before_year(year) >= 0,
        days_before_month(year, m) >= 0,
{
    lemma_days_before_year_nonneg(year);
    lemma_days_before_month_nonneg(year, m);
}

proof fn lemma_days_before_year_nonneg(year: int)
    ensures
        days_before_year(year) >= 0,
    decreases year - 1970,
{
    if year > 1970 {
        lemma_days_before_year_nonneg(year - 1);
    }
}

proof fn lemma_days_before_month_nonneg(year: int, m: int)
    ensures
        days_before_month(year, m) >= 0,
    decreases m,
{
    if m > 1 {
        lemma_days_before_month_nonneg(year, m - 1);
    }
}

/// More months before a date never means fewer days.
pub proof fn lemma_dbm_le(y: int, a: int, b: int)
    requires
        a <= b,
    ensures
        days_before_month(y, a) <= days_before_month(y, b),
    decreases b - a,
{
    if a < b {
        lemma_dbm_le(y, a, b - 1);
    }
}

/// More years before a date never means fewer days.
pub proof fn lemma_dby_le(a: int, b: int)
    requires
        a <= b,
    ensures
        days_before_year(a) <= days_before_year(b),
    decreases b - a,
{
    if a < b {
        lemma_dby_le(a, b - 1);
    }
}

/// A day number falls on one calendar date only.
pub proof fn law_civil_date_unique(days: int, y1: int, m1: int, d1: int, y2: int, m2: int, d2: int)
    requires
        is_civil_date(days, y1, m1, d1),
        is_civil_date(days, y2, m2, d2),
    ensures
        y1 == y2 && m1 == m2 && d1 == d2,
{
    lemma_date_in_year(days, y1, m1, d1);
    lemma_date_in_year(days, y2, m2, d2);
    if y1 < y2 {
        lemma_dby_le(y1 + 1, y2);
        assert(days_before_year(y1 + 1) == days_before_year(y1) + year_len(y1));
    } else if y2 < y1 {
        lemma_dby_le(y2 + 1, y1);
        assert(days_before_year(y2 + 1) == days_before_year(y2) + year_len(y2));
    }
    assert(y1 == y2);
    if m1 < m2 {
        lemma_dbm_le(y1, m1 + 1, m2);
    } else if m2 < m1 {
        lemma_dbm_le(y1, m2 + 1, m1);
    }
}

/// A calendar date lies within its year, and its day within its month.
proof fn lemma_date_in_year(days: int, y: int, m: int, d: int)
    requires
        is_civil_date(days, y, m, d),
    ensures
        days_before_year(y) <= days < days_before_year(y) + year_len(y),
        days_before_month(y, m) + d < days_before_month(y, m + 1),
{
    lemma_months_fill_year(y);
    lemma_dbm_le(y, m + 1, 13);
    lemma_days_before_nonneg(y, m);
}

/// The twelve months make up the year.
proof fn lemma_months_fill_year(year: int)
    ensures
        days_before_month(year, 13) == year_len(year),
{
    reveal_with_fuel(days_before_month, 13);
}

/// The start of the day (UTC) of the Unix time `ts`: `ts` minus its remainder by a day.
pub fn day_start(ts: i64) -> (r: i64)
    ensures
        r == ts - trem(ts as int, 86400),
        ts >= 0 ==> r % 86400 == 0 && r <= ts < r + 86400,
{
    ts - (ts % 86400)
}

/// The start of the week holding `ts`, the weeks beginning on Sunday (day 3 after the
/// Thursday 1970-01-01).
pub fn week_start(ts: i64) -> (r: i64)
    ensures
        r == ts - trem(ts as int, 86400) - trem(tdiv(ts as int, 86400) + 4, 7) * 86400,
        ts >= 0 ==> r % 86400 == 0 && r <= ts && ts < r + 7 * 86400 && (r / 86400 + 4) % 7 == 0,
{
    let days_from_thu = ((ts / 86400) + 4) % 7;
    let d = day_start(ts);
    proof {
        assert(-7 < days_from_thu < 7);
        if ts >= 0 {
            assert(d == tdiv(ts as int, 86400) * 86400) by (nonlinear_arith)
                requires
                    ts >= 0,
                    d == ts - ts % 86400,
            ;
        }
    }
    let r = d - (days_from_thu * 86400);
    proof {
        if ts >= 0 {
            let q = tdiv(ts as int, 86400);
            assert(r == (q - days_from_thu) * 86400);
            assert(r / 86400 == q - days_from_thu) by (nonlinear_arith)
                requires
                    r == (q - days_from_thu) * 86400,
            ;
            assert((q - days_from_thu + 4) % 7 == 0) by (nonlinear_arith)
                requires
                    days_from_thu == (q + 4) % 7,
                    q >= 0,
            ;
        }
    }
    r
}

/// The twelve month lengths of `year`.
pub(crate) fn month_days(year: i64) -> (r: [i64; 12])
    ensures
        forall|i: int| 0 <= i < 12 ==> r[i] == month_len(year as int, i + 1),
{
    if is_leap_year(year) {
        [31, 29, 31, 30, 31, 30, 31, 31, 30, 31, 30, 31]
    } else {
        [31, 28, 31, 30, 31, 30, 31, 31, 30, 31, 30, 31]
    }
}

/// The calendar date of day number `days` since 1970-01-01: year, month (1 to 12) and day of
/// the month counted from 0. A negative day number gives `(1970, 1, days)`.
fn days_since_epoch_to_year_month(days: i64) -> (r: (i64, i64, i64))
    ensures
        days >= 0 ==> is_civil_date(days as int, r.0 as int, r.1 as int, r.2 as int),
        days < 0 ==> r == (1970i64, 1i64, days),
{
    let mut y: i64 = 1970;
    let mut remaining = days;
    loop
        invariant
            y >= 1970,
            days >= 0 ==> remaining == days - days_before_year(y as int) && remaining >= 0,
            days < 0 ==> remaining == days && y == 1970,
            (y - 1970) * 365 <= (if days >= 0 { days - remaining } else { 0 }),
        ensures
            y >= 1970,
            days >= 0 ==> remaining == days - days_before_year(y as int) && 0 <= remaining < year_len(y as int),
            days < 0 ==> remaining == days && y == 1970,
        decreases remaining - i64::MIN,
    {
        let days_in_year: i64 = if is_leap_year(y) {
            366
        } else {
            365
        };
        if remaining < days_in_year {
            break;
        }
        remaining = remaining - days_in_year;
        y = y + 1;
    }
    proof {
        lemma_months_fill_year(y as int);
    }
    let months = month_days(y);
    let mut day_of_year = remaining;
    let mut m: usize = 0;
    while m < 12
        invariant
            m <= 12,
            y >= 1970,
            forall|i: int| 0 <= i < 12 ==> months[i] == month_len(y as int, i + 1),
            days_before_month(y as int, 13) == year_len(y as int),
            days >= 0 ==> remaining == days - days_before_year(y as int) && 0 <= remaining < year_len(y as int),
            days >= 0 ==> day_of_year == remaining - days_before_month(y as int, m + 1) && day_of_year >= 0,
            days < 0 ==> remaining == days && y == 1970 && day_of_year == days && m == 0,
        decreases 12 - m,
    {
        if day_of_year < months[m] {
            return (y, m as i64 + 1, day_of_year);
        }
        day_of_year = day_of_year - months[m];
        m = m + 1;
    }
    (y, 12, day_of_year)
}

/// `r` is the start of the month (UTC) holding the Unix time `ts`: midnight of the first
/// day of the calendar month of the day of `ts`, or 0 when that day lies before 1970.
pub open spec fn month_start_of(ts: int, r: int) -> bool {
    if tdiv(ts, 86400) < 0 {
        r == 0
    } else {
        exists|y: int, m: int, d: int|
            #[trigger] is_civil_date(tdiv(ts, 86400), y, m, d) && r == (tdiv(ts, 86400) - d) * 86400
    }
}

/// The start of a month is its own month start: applying `month_start` to its result
/// gives that result again.
pub proof fn law_month_start_idempotent(ts: int, r: int, r2: int)
    requires
        month_start_of(ts, r),
        month_start_of(r, r2),
    ensures
        r2 == r,
{
    let days = tdiv(ts, 86400);
    if days < 0 {
        assert(tdiv(0, 86400) == 0);
        assert(is_civil_date(0, 1970, 1, 0)) by {
            reveal_with_fuel(days_before_year, 2);
            reveal_with_fuel(days_before_month, 2);
        }
        let (y2, m2, d2) = choose|y: int, m: int, d: int|
            #[trigger] is_civil_date(tdiv(r, 86400), y, m, d) && r2 == (tdiv(r, 86400) - d) * 86400;
        law_civil_date_unique(0, 1970, 1, 0, y2, m2, d2);
    } else {
        let (y, m, d) = choose|y: int, m: int, d: int|
            #[trigger] is_civil_date(days, y, m, d) && r == (days - d) * 86400;
        lemma_days_before_nonneg(y, m);
        let first = days - d;
        assert(first >= 0);
        assert(tdiv(r, 86400) == first) by (nonlinear_arith)
            requires
                r == first * 86400,
                first >= 0,
        ;
        assert(is_civil_date(first, y, m, 0));
        let (y2, m2, d2) = choose|y: int, m: int, d: int|
            #[trigger] is_civil_date(tdiv(r, 86400), y, m, d) && r2 == (tdiv(r, 86400) - d) * 86400;
        law_civil_date_unique(first, y, m, 0, y2, m2, d2);
    }
}

/// The start of the month (UTC) holding the Unix time `ts`; 0 for times before 1970.
pub fn month_start(ts: i64) -> (r: i64)
    ensures
        month_start_of(ts as int, r as int),
{
    let days = ts / 86400;
    let ymd = days_since_epoch_to_year_month(days);
    let month_start_days = days - ymd.2;
    proof {
        if days >= 0 {
            lemma_days_before_nonneg(ymd.0 as int, ymd.1 as int);
            assert(0 <= month_start_days <= days);
            assert(days <= 106751991167300);
            assert(month_start_days * 86400 <= i64::MAX) by (nonlinear_arith)
                requires
                    0 <= month_start_days <= days,
                    days <= 106751991167300,
            ;
            assert(is_civil_date(days as int, ymd.0 as int, ymd.1 as int, ymd.2 as int));
        }
    }
    month_start_days * 86400
}

/// Reads the system clock by calling `std::time::SystemTime::now`; nothing is claimed of
/// the reading.
#[verifier::external_body]
fn system_now() -> std::time::SystemTime {
    std::time::SystemTime::now()
}

/// Whole seconds from the Unix epoch to `t`, by `SystemTime::duration_since(UNIX_EPOCH)`
/// and `Duration::as_secs`; `None` where `t` lies before the epoch, which is when
/// `duration_since` fails. Nothing more is claimed of the value.
#[verifier::external_body]
fn secs_since_unix_epoch(t: &std::time::SystemTime) -> Option<u64> {
    match t.duration_since(std::time::UNIX_EPOCH) {
        Ok(d) => Some(d.as_secs()),
        Err(_) => None,
    }
}

/// The current Unix time in seconds; 0 when the clock reads a time before 1970.
pub fn now_ts() -> i64 {
    let now = system_now();
    match secs_since_unix_epoch(&now) {
        Some(secs) => secs as i64,
        None => 0,
    }
}

/// The ranges that the dashboard sums over, from the Unix time `now`: each range runs from
/// its start up to `end` (exclusive), except yesterday, which ends where today starts.
#[derive(Debug, Clone, Copy, PartialEq, Eq, Structural)]
pub struct StatWindows {
    pub today_start: i64,
    pub yesterday_start: i64,
    pub week_start: i64,
    pub month_start: i64,
    pub end: i64,
}

/// The ranges behind [`DayStats`] for the moment `now`.
pub fn stat_windows(now: i64) -> (w: StatWindows)
    requires
        now < i64::MAX,
        now - trem(now as int, 86400) - 86400 >= i64::MIN,
    ensures
        w.today_start == now - trem(now as int, 86400),
        w.yesterday_start == w.today_start - 86400,
        w.week_start == now - trem(now as int, 86400) - trem(tdiv(now as int, 86400) + 4, 7) * 86400,
        tdiv(now as int, 86400) < 0 ==> w.month_start == 0,
        tdiv(now as int, 86400) >= 0 ==> exists|y: int, m: int, d: int|
            #[trigger] is_civil_date(tdiv(now as int, 86400), y, m, d) && w.month_start == (tdiv(
                now as int,
                86400,
            ) - d) * 86400,
        w.end == now + 1,
{
    let today_start = day_start(now);
    StatWindows {
        today_start,
        yesterday_start: today_start - 86400,
        week_start: week_start(now),
        month_start: month_start(now),
        end: now + 1,
    }
}

/// Time totals, in seconds, for the dashboard.
pub struct DayStats {
    pub today: i64,
    pub yesterday: i64,
    pub this_week: i64,
    pub this_month: i64,
    pub billable_today: i64,
}

/// Time spent on one task within a range, in seconds.
pub struct TaskReportItem {
    pub task_id: i64,
    pub task_name: String,
    pub total_secs: i64,
    pub billable_secs: i64,
}

/// The sum of the total seconds of `items`.
pub open spec fn total_sum(items: Seq<TaskReportItem>) -> int
    decreases items.len(),
{
    if items.len() == 0 {
        0
    } else {
        total_sum(items.drop_last()) + items.last().total_secs
    }
}

/// The sum of the billable seconds of `items`.
pub open spec fn billable_sum(items: Seq<TaskReportItem>) -> int
    decreases items.len(),
{
    if items.len() == 0 {
        0
    } else {
        billable_sum(items.drop_last()) + items.last().billable_secs
    }
}

/// Each running sum over `items`, taken in order, fits an `i64`.
pub open spec fn sums_fit(items: Seq<TaskReportItem>) -> bool {
    forall|k: int|
        #![trigger items.take(k)]
        0 <= k <= items.len() ==> i64::MIN <= total_sum(items.take(k)) <= i64::MAX && i64::MIN
            <= billable_sum(items.take(k)) <= i64::MAX
}

/// The total and the billable seconds of a report, adding the items in order; `None` when a
/// running sum leaves the range of an `i64`.
pub fn report_totals(items: &Vec<TaskReportItem>) -> (r: Option<(i64, i64)>)
    ensures
        r is Some <==> sums_fit(items@),
        r matches Some((total, billable)) ==> total == total_sum(items@) && billable == billable_sum(
            items@,
        ),
{
    let mut total: i64 = 0;
    let mut billable: i64 = 0;
    let mut i: usize = 0;
    assert(items@.take(0) =~= Seq::<TaskReportItem>::empty());
    while i < items.len()
        invariant
            i <= items.len(),
            total == total_sum(items@.take(i as int)),
            billable == billable_sum(items@.take(i as int)),
            forall|k: int|
                #![trigger items@.take(k)]
                0 <= k <= i ==> i64::MIN <= total_sum(items@.take(k)) <= i64::MAX && i64::MIN
                    <= billable_sum(items@.take(k)) <= i64::MAX,
        decreases items.len() - i,
    {
        assert(items@.take(i + 1).drop_last() =~= items@.take(i as int));
        let t = match total.checked_add(items[i].total_secs) {
            Some(t) => t,
            None => {
                assert(!(i64::MIN <= total_sum(items@.take(i + 1)) <= i64::MAX));
                return None;
            },
        };
        let b = match billable.checked_add(items[i].billable_secs) {
            Some(b) => b,
            None => {
                assert(!(i64::MIN <= billable_sum(items@.take(i + 1)) <= i64::MAX));
                return None;
            },
        };
        total = t;
        billable = b;
        i += 1;
    }
    assert(items@.take(items@.len() as int) =~= items@);
    assert(sums_fit(items@));
    Some((total, billable))
}

} // verus!
