use vstd::prelude::*;

use crate::stats::{days_before_month, lemma_dbm_le, month_days, month_len, year_len};
use crate::text::{decimal, push_padded, zero_padded};

verus! {

/// Whether `year` is a leap year in the proleptic Gregorian calendar.
pub open spec fn leap_year(year: int) -> bool {
    (year % 4 == 0 && year % 100 != 0) || year % 400 == 0
}

/// Returns whether `year` is a leap year.
pub fn is_leap_year(year: i64) -> (r: bool)
    ensures
        r == leap_year(year as int),
{
    let by4 = year % 4 == 0;
    let by100 = year % 100 == 0;
    let by400 = year % 400 == 0;
    (by4 && !by100) || by400
}


/// Day `day` (counted from 0) of `year` lies in month `m` (1 to 12) as its `d`-th day
/// (counted from 1).
pub open spec fn month_of_day(year: int, day: int, m: int, d: int) -> bool {
    &&& 1 <= m <= 12
    &&& days_before_month(year, m) <= day < days_before_month(year, m + 1)
    &&& d == day - days_before_month(year, m) + 1
}

/// The month and the day of the month (from 1) of day `day` (from 0) of `year`.
pub open spec fn month_day(year: int, day: int) -> (int, int) {
    choose|md: (int, int)| month_of_day(year, day, md.0, md.1)
}

/// A day of the year lies in one month only.
pub proof fn lemma_month_of_day_unique(year: int, day: int, m1: int, d1: int, m2: int, d2: int)
    requires
        month_of_day(year, day, m1, d1),
        month_of_day(year, day, m2, d2),
    ensures
        m1 == m2,
        d1 == d2,
{
    if m1 < m2 {
        lemma_dbm_le(year, m1 + 1, m2);
    } else if m2 < m1 {
        lemma_dbm_le(year, m2 + 1, m1);
    }
}

/// The month and day found are those `month_day` names.
proof fn lemma_month_day(year: int, day: int, m: int, d: int)
    requires
        month_of_day(year, day, m, d),
    ensures
        month_day(year, day) == (m, d),
{
    let md = month_day(year, day);
    assert(month_of_day(year, day, (m, d).0, (m, d).1));
    lemma_month_of_day_unique(year, day, m, d, md.0, md.1);
}

/// The date part of the positive Unix time `ts` as the display functions show it.
pub open spec fn date_of(ts: nat) -> Seq<char> {
    let days = ts / 86400;
    let md = month_day(approx_year(days) as int, (days % 365) as int);
    date_text(approx_year(days), md.0 as nat, md.1 as nat)
}

/// What `ts_to_string` shows for `ts`.
pub open spec fn timestamp_text(ts: int) -> Seq<char> {
    if ts <= 0 {
        seq!['\u{2014}']
    } else {
        date_of(ts as nat) + seq![' '] + time_text(
            ((ts % 86400) / 3600) as nat,
            ((ts % 3600) / 60) as nat,
            (ts % 60) as nat,
        )
    }
}

/// What `ts_to_date` shows for `ts`.
pub open spec fn date_only_text(ts: int) -> Seq<char> {
    if ts <= 0 {
        seq!['\u{2014}']
    } else {
        date_of(ts as nat)
    }
}

/// A timestamp's text begins with the date that `ts_to_date` shows for it, and both show
/// the same dash for times up to the epoch.
pub proof fn law_timestamp_starts_with_date(ts: int)
    ensures
        timestamp_text(ts).len() >= date_only_text(ts).len(),
        timestamp_text(ts).take(date_only_text(ts).len() as int) == date_only_text(ts),
        ts <= 0 ==> timestamp_text(ts) == date_only_text(ts),
{
    assert(timestamp_text(ts).take(date_only_text(ts).len() as int) =~= date_only_text(ts));
}

/// A date shown as `YYYY-MM-DD`, each field padded with zeros.
pub open spec fn date_text(y: nat, m: nat, d: nat) -> Seq<char> {
    zero_padded(decimal(y), 4) + seq!['-'] + zero_padded(decimal(m), 2) + seq!['-']
        + zero_padded(decimal(d), 2)
}

/// A time of day shown as `HH:MM:SS`.
pub open spec fn time_text(h: nat, mi: nat, s: nat) -> Seq<char> {
    zero_padded(decimal(h), 2) + seq![':'] + zero_padded(decimal(mi), 2) + seq![':']
        + zero_padded(decimal(s), 2)
}

/// The year that the display functions assign to day `days` since 1970: every year taken
/// as 365 days long.
pub open spec fn approx_year(days: nat) -> nat {
    1970 + days / 365
}

/// The month and day of the month (from 1) of day `day` (from 0) of `year`.
fn month_and_day(year: i64, day: u64) -> (r: (u64, u64))
    requires
        day < 365,
    ensures
        month_of_day(year as int, day as int, r.0 as int, r.1 as int),
{
    let months = month_days(year);
    let mut rest = day;
    let mut i: usize = 0;
    proof {
        reveal_with_fuel(days_before_month, 13);
    }
    while i < 12
        invariant
            i <= 12,
            day < 365,
            forall|k: int| 0 <= k < 12 ==> months[k] == month_len(year as int, k + 1),
            rest as int == day - days_before_month(year as int, i + 1),
            days_before_month(year as int, 13) >= 365,
        decreases 12 - i,
    {
        proof {
            assert(days_before_month(year as int, i + 2) == days_before_month(year as int, i + 1)
                + month_len(year as int, i + 1));
        }
        if rest < months[i] as u64 {
            return (i as u64 + 1, rest + 1);
        }
        rest = rest - months[i] as u64;
        i = i + 1;
    }
    proof {
        assert(false);
    }
    (12, rest + 1)
}

/// The part of `ts_to_string` and `ts_to_date` shared: the date of the positive Unix time `ts`.
fn push_date(s: &mut String, ts: i64)
    requires
        ts > 0,
    ensures
        final(s)@ == old(s)@ + date_of(ts as nat),
{
    let days = (ts as u64) / 86400;
    let y: u64 = 1970 + days / 365;
    let (m, d) = month_and_day(y as i64, days % 365);
    proof {
        reveal_strlit("-");
    }
    push_padded(s, y, 4);
    s.append("-");
    push_padded(s, m, 2);
    s.append("-");
    push_padded(s, d, 2);
    proof {
        lemma_month_day(y as int, (days % 365) as int, m as int, d as int);
    }
    assert(final(s)@ =~= old(s)@ + date_of(ts as nat));
}

/// Shows the Unix time `ts` as `YYYY-MM-DD HH:MM:SS` (UTC), counting every year as 365 days
/// long; an em dash for times up to the epoch.
pub fn ts_to_string(ts: i64) -> (r: String)
    ensures
        r@ == timestamp_text(ts as int),
{
    proof {
        reveal_strlit("\u{2014}");
    }
    if ts <= 0 {
        return String::from_str("\u{2014}");
    }
    let secs = ts as u64;
    let time = secs % 86400;
    let hours = time / 3600;
    let minutes = (time % 3600) / 60;
    let seconds = time % 60;
    proof {
        reveal_strlit(" ");
        reveal_strlit(":");
        assert((secs % 86400) % 3600 == secs % 3600) by (nonlinear_arith);
        assert((secs % 86400) % 60 == secs % 60) by (nonlinear_arith);
    }
    let mut s = String::new();
    push_date(&mut s, ts);
    s.append(" ");
    push_padded(&mut s, hours, 2);
    s.append(":");
    push_padded(&mut s, minutes, 2);
    s.append(":");
    push_padded(&mut s, seconds, 2);
    assert(s@ =~= timestamp_text(ts as int));
    s
}

/// Shows the date of the Unix time `ts` as `YYYY-MM-DD`, counting every year as 365 days
/// long; an em dash for times up to the epoch.
pub fn ts_to_date(ts: i64) -> (r: String)
    ensures
        r@ == date_only_text(ts as int),
{
    proof {
        reveal_strlit("\u{2014}");
    }
    if ts <= 0 {
        return String::from_str("\u{2014}");
    }
    let mut s = String::new();
    push_date(&mut s, ts);
    assert(s@ =~= date_only_text(ts as int));
    s
}

} // verus!
