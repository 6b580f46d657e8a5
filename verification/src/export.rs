use vstd::prelude::*;

use crate::app::{duration_text, format_duration};
use crate::text::{push_char, push_signed_decimal, signed_decimal};
use crate::util::{timestamp_text, ts_to_string};

verus! {

/// A CSV field must be quoted when it holds a comma, a double quote or a line break.
pub open spec fn needs_quoting(s: Seq<char>) -> bool {
    s.contains(',') || s.contains('"') || s.contains('\n')
}

/// `s` with every double quote doubled.
pub open spec fn double_quotes(s: Seq<char>) -> Seq<char>
    decreases s.len(),
{
    if s.len() == 0 {
        Seq::<char>::empty()
    } else if s.last() == '"' {
        double_quotes(s.drop_last()) + seq!['"', '"']
    } else {
        double_quotes(s.drop_last()).push(s.last())
    }
}

/// `s` as a CSV field: in double quotes, with inner quotes doubled, when it needs quoting,
/// and unchanged otherwise.
pub open spec fn csv_field(s: Seq<char>) -> Seq<char> {
    if needs_quoting(s) {
        seq!['"'] + double_quotes(s) + seq!['"']
    } else {
        s
    }
}

/// The characters of `s`, with whether any of them is a comma, a quote or a line break.
fn scan(s: &str) -> (r: (Vec<char>, bool))
    ensures
        r.0@ == s@,
        r.1 == needs_quoting(s@),
{
    let mut cs: Vec<char> = Vec::new();
    let mut special = false;
    broadcast use vstd::string::axiom_spec_iter;
    for c in it: s.chars()
        invariant
            cs@ == it.seq().take(it.index() as int),
            it.seq() == s@,
            special == needs_quoting(cs@),
    {
        assert(it.seq().take(it.index() + 1) =~= it.seq().take(it.index() as int).push(c));
        let ghost before = cs@;
        cs.push(c);
        if c == ',' || c == '"' || c == '\n' {
            special = true;
            assert(cs@[cs@.len() - 1] == c);
        } else {
            assert forall|x: char| x == ',' || x == '"' || x == '\n' implies (cs@.contains(x) == before.contains(x)) by {
                if cs@.contains(x) {
                    let k = choose|k: int| 0 <= k < cs@.len() && cs@[k] == x;
                    assert(k < before.len());
                    assert(before[k] == x);
                }
                if before.contains(x) {
                    let k = choose|k: int| 0 <= k < before.len() && before[k] == x;
                    assert(cs@[k] == x);
                }
            }
        }
    }
    assert(s@.take(s@.len() as int) =~= s@);
    (cs, special)
}

/// Quotes `s` for a CSV file when it holds a comma, a double quote or a line break, doubling
/// the quotes inside.
pub fn escape_csv(s: &str) -> (r: String)
    ensures
        r@ == csv_field(s@),
{
    let (cs, special) = scan(s);
    if !special {
        return String::from_str(s);
    }
    let mut r = String::new();
    push_char(&mut r, '"');
    let mut i: usize = 0;
    while i < cs.len()
        invariant
            i <= cs.len(),
            r@ == seq!['"'] + double_quotes(cs@.take(i as int)),
        decreases cs.len() - i,
    {
        let c = cs[i];
        assert(cs@.take(i + 1).drop_last() =~= cs@.take(i as int));
        if c == '"' {
            push_char(&mut r, '"');
            push_char(&mut r, '"');
        } else {
            push_char(&mut r, c);
        }
        assert(r@ =~= seq!['"'] + double_quotes(cs@.take(i + 1)));
        i += 1;
    }
    assert(cs@.take(cs@.len() as int) =~= cs@);
    push_char(&mut r, '"');
    assert(r@ =~= csv_field(s@));
    r
}

/// The first line of an exported CSV file.
pub open spec fn csv_header_text() -> Seq<char> {
    "Task,Start Time,End Time,Duration (seconds),Duration (formatted),Billable"@
}

/// The first line of an exported CSV file, without its line break.
pub fn csv_header() -> (r: String)
    ensures
        r@ == csv_header_text(),
{
    String::from_str("Task,Start Time,End Time,Duration (seconds),Duration (formatted),Billable")
}

/// The task column of a record: the task's name as a CSV field, or `#` and the task id when
/// the task is unknown.
pub open spec fn task_column(name: Option<Seq<char>>, task_id: i64) -> Seq<char> {
    match name {
        Some(n) => csv_field(n),
        None => seq!['#'] + signed_decimal(task_id as int),
    }
}

/// One line of an exported CSV file, without its line break.
pub open spec fn csv_record_text(name: Option<Seq<char>>, task_id: i64, begin: i64, end: i64, duration_secs: i64, billable: bool) -> Seq<char> {
    task_column(name, task_id) + seq![','] + timestamp_text(begin as int) + seq![','] + timestamp_text(end as int)
        + seq![','] + signed_decimal(duration_secs as int) + seq![','] + duration_text(
        (duration_secs as u64) as nat,
    ) + seq![','] + if billable {
        seq!['Y', 'e', 's']
    } else {
        seq!['N', 'o']
    }
}

/// One line of an exported CSV file for a time period of the task `task_id`, named
/// `task_name` when the task is known; the duration is also shown formatted, read as a
/// `u64`.
pub fn csv_record(task_name: Option<&str>, task_id: i64, begin: i64, end: i64, duration_secs: i64, billable: bool) -> (r: String)
    ensures
        r@ == csv_record_text(
            match task_name {
                Some(n) => Some(n@),
                None => None,
            },
            task_id,
            begin,
            end,
            duration_secs,
            billable,
        ),
{
    let mut r = match task_name {
        Some(n) => escape_csv(n),
        None => {
            let mut s = String::new();
            push_char(&mut s, '#');
            push_signed_decimal(&mut s, task_id);
            s
        },
    };
    proof {
        reveal_strlit(",");
        reveal_strlit("Yes");
        reveal_strlit("No");
    }
    r.append(",");
    let start = ts_to_string(begin);
    r.append(start.as_str());
    r.append(",");
    let stop = ts_to_string(end);
    r.append(stop.as_str());
    r.append(",");
    push_signed_decimal(&mut r, duration_secs);
    r.append(",");
    let formatted = format_duration(#[verifier::truncate] (duration_secs as u64));
    r.append(formatted.as_str());
    r.append(",");
    r.append(if billable {
        "Yes"
    } else {
        "No"
    });
    assert(r@ =~= csv_record_text(
        match task_name {
            Some(n) => Some(n@),
            None => None,
        },
        task_id,
        begin,
        end,
        duration_secs,
        billable,
    ));
    r
}

/// The file that an export started at the Unix time `now` writes.
pub open spec fn export_path_text(now: i64) -> Seq<char> {
    "/tmp/chronos_export_"@ + signed_decimal(now as int) + ".csv"@
}

/// The file that an export started at the Unix time `now` writes:
/// `/tmp/chronos_export_<now>.csv`.
pub fn export_path(now: i64) -> (r: String)
    ensures
        r@ == export_path_text(now),
{
    let mut s = String::from_str("/tmp/chronos_export_");
    push_signed_decimal(&mut s, now);
    s.append(".csv");
    s
}

} // verus!
