use vstd::prelude::*;

use crate::stats::{
    days_before_month, days_before_year, lemma_days_before_nonneg, lemma_dbm_le, lemma_dby_le, month_days,
    month_len, year_len,
};
use crate::text::{trim, trimmed};
use crate::app::{duration_text, format_duration};
use crate::idle::IdleEvent;
use crate::tracker::TrackerState;
use crate::util::is_leap_year;

verus! {

/// An ASCII decimal digit.
pub open spec fn is_digit(c: char) -> bool {
    '0' <= c && c <= '9'
}

/// Every character is a decimal digit.
pub open spec fn all_digits(s: Seq<char>) -> bool {
    forall|i: int| 0 <= i < s.len() ==> is_digit(#[trigger] s[i])
}

/// The number that the decimal digits `s` spell.
pub open spec fn digits_value(s: Seq<char>) -> nat
    decreases s.len(),
{
    if s.len() == 0 {
        0
    } else {
        digits_value(s.drop_last()) * 10 + (s.last() as nat - '0' as nat) as nat
    }
}

/// What `i64::from_str` gives for `s`: an optional sign, then one or more digits, whose value
/// must fit.
pub open spec fn parse_i64_spec(s: Seq<char>) -> Option<i64> {
    let neg = s.len() > 0 && s[0] == '-';
    let body = if s.len() > 0 && (s[0] == '-' || s[0] == '+') {
        s.drop_first()
    } else {
        s
    };
    if body.len() == 0 || !all_digits(body) {
        None
    } else {
        let v: int = if neg {
            -(digits_value(body) as int)
        } else {
            digits_value(body) as int
        };
        if i64::MIN <= v <= i64::MAX {
            Some(v as i64)
        } else {
            None
        }
    }
}

/// What `u64::from_str` gives for `s`: an optional `+`, then one or more digits, whose value
/// must fit.
pub open spec fn parse_u64_spec(s: Seq<char>) -> Option<u64> {
    let body = if s.len() > 0 && s[0] == '+' {
        s.drop_first()
    } else {
        s
    };
    if body.len() == 0 || !all_digits(body) {
        None
    } else if digits_value(body) <= u64::MAX {
        Some(digits_value(body) as u64)
    } else {
        None
    }
}

/// The pieces of `s` between the occurrences of `sep`, as `str::split` yields them.
pub open spec fn split_on(s: Seq<char>, sep: char) -> Seq<Seq<char>>
    decreases s.len(),
{
    if s.len() == 0 {
        seq![Seq::<char>::empty()]
    } else {
        let r = split_on(s.drop_last(), sep);
        if s.last() == sep {
            r.push(Seq::<char>::empty())
        } else {
            r.update(r.len() - 1, r.last().push(s.last()))
        }
    }
}

/// `split_on` never yields an empty list.
proof fn lemma_split_nonempty(s: Seq<char>, sep: char)
    ensures
        split_on(s, sep).len() >= 1,
    decreases s.len(),
{
    if s.len() > 0 {
        lemma_split_nonempty(s.drop_last(), sep);
    }
}

/// `d` as `d as i64` would turn it, minus one, stopping at `i64::MIN`.
pub open spec fn day_offset(d: u64) -> int {
    let w = d as i64;
    if w == i64::MIN {
        i64::MIN as int
    } else {
        w - 1
    }
}

/// The number of days that a date filter names: the full years from 1970 to `y`, the full
/// months before month `m` (none for `m` up to 1), and the days before day `d`.
pub open spec fn filter_days(y: i64, m: u64, d: u64) -> int {
    days_before_year(y as int) + days_before_month(y as int, m as int) + day_offset(d)
}

/// The year, month and day that the date filter `s` names, when it has the shape
/// `YEAR-MONTH-DAY` once trimmed; each part that is not a number counts as 1970, 1 and 1.
pub open spec fn filter_fields(s: Seq<char>) -> Option<(i64, u64, u64)> {
    let t = trimmed(s);
    let parts = split_on(t, '-');
    if t.len() == 0 || parts.len() != 3 {
        None
    } else {
        Some(
            (
                match parse_i64_spec(parts[0]) {
                    Some(v) => v,
                    None => 1970i64,
                },
                match parse_u64_spec(parts[1]) {
                    Some(v) => v,
                    None => 1u64,
                },
                match parse_u64_spec(parts[2]) {
                    Some(v) => v,
                    None => 1u64,
                },
            ),
        )
    }
}

/// The Unix time at which the date filter `s` starts, or `default` for an empty or
/// malformed filter.
pub open spec fn date_filter_value(s: Seq<char>, default: i64) -> int {
    match filter_fields(s) {
        Some((y, m, d)) => filter_days(y, m, d) * 86400,
        None => default as int,
    }
}

/// The date filter `s` names a month up to 13 and a day count whose seconds fit an `i64`.
pub open spec fn date_filter_fits(s: Seq<char>) -> bool {
    match filter_fields(s) {
        Some((y, m, d)) => {
            &&& m <= 13
            &&& days_before_year(y as int) + days_before_month(y as int, m as int) <= i64::MAX
            &&& i64::MIN <= filter_days(y, m, d) * 86400 <= i64::MAX
        },
        None => true,
    }
}

/// The characters of `s`.
pub(crate) fn chars_of(s: &str) -> (r: Vec<char>)
    ensures
        r@ == s@,
{
    let mut r: Vec<char> = Vec::new();
    broadcast use vstd::string::axiom_spec_iter;
    for c in it: s.chars()
        invariant
            r@ == it.seq().take(it.index() as int),
            it.seq() == s@,
    {
        assert(it.seq().take(it.index() + 1) =~= it.seq().take(it.index() as int).push(c));
        r.push(c);
    }
    assert(s@.take(s@.len() as int) =~= s@);
    r
}

/// The views of a list of character vectors.
pub open spec fn char_views(v: Seq<Vec<char>>) -> Seq<Seq<char>> {
    v.map_values(|x: Vec<char>| x@)
}

/// The pieces of `cs` between the occurrences of `sep`.
fn split_chars(cs: &Vec<char>, sep: char) -> (r: Vec<Vec<char>>)
    ensures
        char_views(r@) == split_on(cs@, sep),
{
    let mut done: Vec<Vec<char>> = Vec::new();
    let mut cur: Vec<char> = Vec::new();
    let mut i: usize = 0;
    while i < cs.len()
        invariant
            i <= cs.len(),
            char_views(done@).push(cur@) == split_on(cs@.take(i as int), sep),
        decreases cs.len() - i,
    {
        let c = cs[i];
        proof {
            assert(cs@.take(i + 1).drop_last() =~= cs@.take(i as int));
            lemma_split_nonempty(cs@.take(i as int), sep);
        }
        let ghost before = char_views(done@).push(cur@);
        if c == sep {
            let mut fresh: Vec<char> = Vec::new();
            std::mem::swap(&mut fresh, &mut cur);
            done.push(fresh);
            assert(char_views(done@).push(cur@) =~= before.push(Seq::<char>::empty()));
        } else {
            cur.push(c);
            assert(char_views(done@).push(cur@) =~= before.update(before.len() - 1, before.last().push(c)));
        }
        i += 1;
    }
    done.push(cur);
    assert(cs@.take(cs@.len() as int) =~= cs@);
    assert(char_views(done@) =~= split_on(cs@, sep));
    done
}

/// The value of the digit `c`.
fn digit_value(c: char) -> (r: u64)
    requires
        is_digit(c),
    ensures
        r == c as nat - '0' as nat,
{
    (c as u32 - '0' as u32) as u64
}

/// Reading more digits never makes the number smaller.
proof fn lemma_digits_value_prefix(s: Seq<char>, j: int)
    requires
        0 <= j <= s.len(),
        all_digits(s),
    ensures
        digits_value(s.take(j)) <= digits_value(s),
    decreases s.len() - j,
{
    if j < s.len() {
        lemma_digits_value_prefix(s, j + 1);
        assert(s.take(j + 1).drop_last() =~= s.take(j));
    } else {
        assert(s.take(j) =~= s);
    }
}

/// The value of the digits `cs[from..]`, or `None` where there are none, one is not a digit,
/// or the value passes `limit`.
fn digits_upto(cs: &Vec<char>, from: usize, limit: u64) -> (r: Option<u64>)
    requires
        from <= cs.len(),
    ensures
        ({
            let body = cs@.skip(from as int);
            r == if body.len() == 0 || !all_digits(body) || digits_value(body) > limit {
                None::<u64>
            } else {
                Some(digits_value(body) as u64)
            }
        }),
{
    let ghost body = cs@.skip(from as int);
    if from == cs.len() {
        return None;
    }
    let mut i = from;
    let mut acc: u64 = 0;
    while i < cs.len()
        invariant
            from <= i <= cs.len(),
            body == cs@.skip(from as int),
            all_digits(body.take(i - from)),
            acc == digits_value(body.take(i - from)),
            acc <= limit,
        decreases cs.len() - i,
    {
        let c = cs[i];
        proof {
            assert(body.take(i - from + 1).drop_last() =~= body.take(i - from));
            assert(body[i - from] == c);
        }
        if !('0' <= c && c <= '9') {
            assert(!all_digits(body));
            return None;
        }
        let d = digit_value(c);
        if d > limit || acc > (limit - d) / 10 {
            proof {
                assert(acc * 10 + d > limit) by (nonlinear_arith)
                    requires
                        d > limit || acc > (limit - d) / 10,
                        d <= 9,
                ;
                if all_digits(body) {
                    lemma_digits_value_prefix(body, i - from + 1);
                }
            }
            return None;
        }
        assert(acc * 10 + d <= limit) by (nonlinear_arith)
            requires
                d <= limit,
                acc <= (limit - d) / 10,
        ;
        acc = acc * 10 + d;
        i += 1;
        assert(all_digits(body.take(i - from)));
    }
    assert(body.take(i - from) =~= body);
    Some(acc)
}

/// Parses `cs` as `u64::from_str` does.
fn parse_u64(cs: &Vec<char>) -> (r: Option<u64>)
    ensures
        r == parse_u64_spec(cs@),
{
    let from: usize = if cs.len() > 0 && cs[0] == '+' {
        1
    } else {
        0
    };
    assert(cs@.skip(1) =~= cs@.drop_first());
    assert(cs@.skip(0) =~= cs@);
    digits_upto(cs, from, u64::MAX)
}

/// Parses `cs` as `i64::from_str` does.
pub(crate) fn parse_i64(cs: &Vec<char>) -> (r: Option<i64>)
    ensures
        r == parse_i64_spec(cs@),
{
    let neg = cs.len() > 0 && cs[0] == '-';
    let from: usize = if cs.len() > 0 && (cs[0] == '-' || cs[0] == '+') {
        1
    } else {
        0
    };
    assert(cs@.skip(1) =~= cs@.drop_first());
    assert(cs@.skip(0) =~= cs@);
    let limit: u64 = if neg {
        9_223_372_036_854_775_808
    } else {
        9_223_372_036_854_775_807
    };
    match digits_upto(cs, from, limit) {
        Some(x) => {
            if neg {
                if x == 9_223_372_036_854_775_808 {
                    Some(i64::MIN)
                } else {
                    Some(-(x as i64))
                }
            } else {
                Some(x as i64)
            }
        },
        None => None,
    }
}

/// The Unix time at which the date filter `s`, of the shape `YYYY-MM-DD`, starts, counting
/// full years and months from 1970; `default` when `s` is blank or not made of three parts
/// separated by dashes. A part that is not a number counts as year 1970, month 1 or day 1.
pub fn parse_date_filter(s: &str, default: i64) -> (r: i64)
    requires
        date_filter_fits(s@),
    ensures
        r == date_filter_value(s@, default),
{
    match try_parse_date_filter(s, default) {
        Some(v) => v,
        None => default,
    }
}

/// As [`parse_date_filter`], or `None` for a filter that names a month past 13 or a time
/// that does not fit an `i64`.
pub fn try_parse_date_filter(s: &str, default: i64) -> (r: Option<i64>)
    ensures
        r is Some <==> date_filter_fits(s@),
        r matches Some(v) ==> v == date_filter_value(s@, default),
{
    let t = trim(s);
    if t.is_empty() {
        return Some(default);
    }
    let cs = chars_of(t);
    let parts = split_chars(&cs, '-');
    if parts.len() != 3 {
        return Some(default);
    }
    proof {
        assert(char_views(parts@)[0] == parts@[0]@);
        assert(char_views(parts@)[1] == parts@[1]@);
        assert(char_views(parts@)[2] == parts@[2]@);
    }
    let y: i64 = match parse_i64(&parts[0]) {
        Some(v) => v,
        None => 1970,
    };
    let m: u64 = match parse_u64(&parts[1]) {
        Some(v) => v,
        None => 1,
    };
    let d: u64 = match parse_u64(&parts[2]) {
        Some(v) => v,
        None => 1,
    };
    proof {
        assert(t@.len() != 0);
        assert(filter_fields(s@) == Some((y, m, d)));
        lemma_days_before_year_mono(y as int);
        lemma_days_before_month_mono(y as int, m as int);
        lemma_days_before_nonneg(y as int, m as int);
    }
    if m > 13 {
        return None;
    }
    let mut days: i64 = 0;
    let mut year: i64 = 1970;
    while year < y
        invariant
            1970 <= year,
            year <= y || y < 1970,
            y < 1970 ==> year == 1970,
            days == days_before_year(year as int),
            forall|a: int, b: int| a <= b <= y ==> #[trigger] days_before_year(a) <= #[trigger] days_before_year(b),
            days_before_month(y as int, m as int) >= 0,
            filter_fields(s@) == Some((y, m, d)),
            m <= 13,
        decreases y - year,
    {
        let len: i64 = if is_leap_year(year) {
            366
        } else {
            365
        };
        assert(days_before_year(year + 1) == days_before_year(year as int) + len);
        assert(days_before_year(year + 1) <= days_before_year(y as int));
        match days.checked_add(len) {
            Some(v) => {
                days = v;
            },
            None => {
                return None;
            },
        }
        year = year + 1;
    }
    proof {
        if y < 1970 {
            assert(days_before_year(y as int) == 0);
            assert(days_before_year(1970) == 0);
        } else {
            assert(year == y);
        }
        assert(days_before_month(y as int, 1) == 0);
    }
    let months = month_days(y);
    let upto: u64 = m.saturating_sub(1);
    let mut i: usize = 0;
    while (i as u64) < upto
        invariant
            upto == (if m >= 1 { m - 1 } else { 0 }),
            m <= 13,
            i <= upto,
            forall|k: int| 0 <= k < 12 ==> months[k] == month_len(y as int, k + 1),
            days == days_before_year(y as int) + days_before_month(y as int, i + 1),
            forall|a: int, b: int| a <= b ==> #[trigger] days_before_month(y as int, a) <= #[trigger] days_before_month(y as int, b),
            filter_fields(s@) == Some((y, m, d)),
        decreases upto - i,
    {
        assert(days_before_month(y as int, i + 2) == days_before_month(y as int, i + 1) + months[i as int]);
        assert(days_before_month(y as int, i + 2) <= days_before_month(y as int, m as int));
        match days.checked_add(months[i]) {
            Some(v) => {
                days = v;
            },
            None => {
                return None;
            },
        }
        i += 1;
    }
    proof {
        if m >= 1 {
            assert(i + 1 == m);
        } else {
            assert(days_before_month(y as int, m as int) == 0);
        }
    }
    let dd = #[verifier::truncate] (d as i64);
    let offset: i64 = if dd == i64::MIN {
        i64::MIN
    } else {
        dd - 1
    };
    match days.checked_add(offset) {
        Some(total) => total.checked_mul(86400),
        None => None,
    }
}

/// More years before a date never means fewer days.
proof fn lemma_days_before_year_mono(y: int)
    ensures
        forall|a: int, b: int| a <= b <= y ==> #[trigger] days_before_year(a) <= #[trigger] days_before_year(b),
    decreases y - 1970,
{
    assert forall|a: int, b: int| a <= b <= y implies #[trigger] days_before_year(a) <= #[trigger] days_before_year(b) by {
        lemma_dby_le(a, b);
    }
}

/// More months before a date never means fewer days.
proof fn lemma_days_before_month_mono(y: int, m: int)
    ensures
        forall|a: int, b: int| a <= b ==> #[trigger] days_before_month(y, a) <= #[trigger] days_before_month(y, b),
{
    assert forall|a: int, b: int| a <= b implies #[trigger] days_before_month(y, a) <= #[trigger] days_before_month(y, b) by {
        lemma_dbm_le(y, a, b);
    }
}


} // verus!

verus! {

/// What the tray icon's tooltip says for a tracker in `state` with `secs` seconds tracked.
pub open spec fn tooltip_text(state: TrackerState, secs: nat) -> Seq<char> {
    match state {
        TrackerState::Idle => "Chronos \u{2014} Idle"@,
        TrackerState::Running => "Chronos \u{2014} Tracking ("@ + duration_text(secs) + ")"@,
        TrackerState::Paused => "Chronos \u{2014} Paused ("@ + duration_text(secs) + ")"@,
    }
}

/// The tray icon's tooltip for a tracker in `state` with `secs` seconds tracked.
pub fn tray_tooltip(state: TrackerState, secs: u64) -> (r: String)
    ensures
        r@ == tooltip_text(state, secs as nat),
{
    match state {
        TrackerState::Idle => String::from_str("Chronos \u{2014} Idle"),
        TrackerState::Running => {
            let mut s = String::from_str("Chronos \u{2014} Tracking (");
            let d = format_duration(secs);
            s.append(d.as_str());
            s.append(")");
            s
        },
        TrackerState::Paused => {
            let mut s = String::from_str("Chronos \u{2014} Paused (");
            let d = format_duration(secs);
            s.append(d.as_str());
            s.append(")");
            s
        },
    }
}

/// What the tray menu's status entry says for a tracker in `state` on the task `name`
/// (`Unknown Task` when none) with `secs` seconds tracked.
pub open spec fn menu_status_text(state: TrackerState, name: Option<Seq<char>>, secs: nat) -> Seq<char> {
    let shown = match name {
        Some(n) => n,
        None => "Unknown Task"@,
    };
    match state {
        TrackerState::Idle => "Status: Idle"@,
        TrackerState::Running => "Tracking: "@ + shown + " ("@ + duration_text(secs) + ")"@,
        TrackerState::Paused => "Paused: "@ + shown + " ("@ + duration_text(secs) + ")"@,
    }
}

/// The tray menu's status entry.
pub fn menu_status(state: TrackerState, name: Option<&str>, secs: u64) -> (r: String)
    ensures
        r@ == menu_status_text(
            state,
            match name {
                Some(n) => Some(n@),
                None => None,
            },
            secs as nat,
        ),
{
    let shown: &str = match name {
        Some(n) => n,
        None => "Unknown Task",
    };
    match state {
        TrackerState::Idle => String::from_str("Status: Idle"),
        TrackerState::Running => {
            let mut s = String::from_str("Tracking: ");
            s.append(shown);
            s.append(" (");
            let d = format_duration(secs);
            s.append(d.as_str());
            s.append(")");
            s
        },
        TrackerState::Paused => {
            let mut s = String::from_str("Paused: ");
            s.append(shown);
            s.append(" (");
            let d = format_duration(secs);
            s.append(d.as_str());
            s.append(")");
            s
        },
    }
}

/// Which tray menu entries can be chosen.
#[derive(Debug, Clone, Copy, PartialEq, Eq, Structural)]
pub struct MenuEnabled {
    pub start: bool,
    pub stop: bool,
    pub pause: bool,
    pub resume: bool,
}

/// The tray menu entries that make sense in `state`: start when idle or paused, stop when
/// not idle, pause when running, resume when paused.
pub fn menu_enabled(state: TrackerState) -> (r: MenuEnabled)
    ensures
        r.start == (state == TrackerState::Idle || state == TrackerState::Paused),
        r.stop == (state != TrackerState::Idle),
        r.pause == (state == TrackerState::Running),
        r.resume == (state == TrackerState::Paused),
{
    MenuEnabled {
        start: state == TrackerState::Idle || state == TrackerState::Paused,
        stop: state != TrackerState::Idle,
        pause: state == TrackerState::Running,
        resume: state == TrackerState::Paused,
    }
}

/// What the Ctrl+Space shortcut does.
#[derive(Debug, Clone, Copy, PartialEq, Eq, Structural)]
pub enum ToggleAction {
    StartSelected,
    Stop,
}

/// Ctrl+Space starts the selected task when idle or paused and stops a running one.
pub fn start_stop_action(state: TrackerState) -> (r: ToggleAction)
    ensures
        r == (if state == TrackerState::Running {
            ToggleAction::Stop
        } else {
            ToggleAction::StartSelected
        }),
{
    match state {
        TrackerState::Running => ToggleAction::Stop,
        _ => ToggleAction::StartSelected,
    }
}

/// What the Ctrl+P shortcut does.
#[derive(Debug, Clone, Copy, PartialEq, Eq, Structural)]
pub enum PauseToggle {
    Pause,
    Resume,
}

/// Ctrl+P pauses a running task and resumes a paused one; it does nothing when idle.
pub fn pause_toggle(state: TrackerState) -> (r: Option<PauseToggle>)
    ensures
        r == (match state {
            TrackerState::Running => Some(PauseToggle::Pause),
            TrackerState::Paused => Some(PauseToggle::Resume),
            TrackerState::Idle => None::<PauseToggle>,
        }),
{
    match state {
        TrackerState::Running => Some(PauseToggle::Pause),
        TrackerState::Paused => Some(PauseToggle::Resume),
        TrackerState::Idle => None,
    }
}

/// What the inactivity banner says about `event`.
pub open spec fn idle_message_text(event: IdleEvent) -> Seq<char> {
    match event {
        IdleEvent::BecameIdle(d) => "Auto-paused after "@ + duration_text(d.nanos() / 1_000_000_000)
            + " of inactivity."@,
        IdleEvent::ReturnedFromIdle => "Welcome back! Idle time was discarded."@,
    }
}

/// The inactivity banner's message about `event`.
pub fn idle_message(event: &IdleEvent) -> (r: String)
    ensures
        r@ == idle_message_text(*event),
{
    match event {
        IdleEvent::BecameIdle(d) => {
            let mut s = String::from_str("Auto-paused after ");
            let text = format_duration(d.as_secs());
            s.append(text.as_str());
            s.append(" of inactivity.");
            s
        },
        IdleEvent::ReturnedFromIdle => String::from_str("Welcome back! Idle time was discarded."),
    }
}

} // verus!
