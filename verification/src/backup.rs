use vstd::prelude::*;

use crate::text::{push_signed_decimal, signed_decimal};
use crate::ui::{all_digits, chars_of, digits_value, parse_i64, parse_i64_spec};

verus! {

/// The name of the backup file of the day that starts at the Unix time `day`:
/// `chronos_<day>.db`.
pub open spec fn backup_name_text(day: int) -> Seq<char> {
    "chronos_"@ + signed_decimal(day) + ".db"@
}

/// The index of the last `c` in `s`, or -1 when there is none.
pub open spec fn last_index_of(s: Seq<char>, c: char) -> int
    decreases s.len(),
{
    if s.len() == 0 {
        -1
    } else if s.last() == c {
        s.len() - 1
    } else {
        last_index_of(s.drop_last(), c)
    }
}

/// The stem and the extension of the file name `name`, as `Path::file_stem` and
/// `Path::extension` give them: the parts before and after the last dot, or none when the
/// name has no dot but the one it may begin with.
pub open spec fn stem_and_extension(name: Seq<char>) -> Option<(Seq<char>, Seq<char>)> {
    let k = last_index_of(name, '.');
    if k <= 0 {
        None
    } else {
        Some((name.take(k), name.skip(k + 1)))
    }
}

/// The day that the file name `name` marks as a backup: its extension is `db` and its stem
/// is `chronos_` followed by the day as `i64::from_str` reads it.
pub open spec fn backup_day_spec(name: Seq<char>) -> Option<i64> {
    match stem_and_extension(name) {
        Some((stem, ext)) => if ext == "db"@ && stem.len() >= 8 && stem.take(8) == "chronos_"@ {
            parse_i64_spec(stem.skip(8))
        } else {
            None
        },
        None => None,
    }
}

/// The name of the backup file of the day that starts at the Unix time `day`.
pub fn backup_file_name(day: i64) -> (r: String)
    ensures
        r@ == backup_name_text(day as int),
{
    proof {
        reveal_strlit("chronos_");
        reveal_strlit(".db");
    }
    let mut s = String::from_str("chronos_");
    push_signed_decimal(&mut s, day);
    s.append(".db");
    s
}

/// The oldest day, `keep_days` days before `now`, whose backups are kept.
pub fn prune_cutoff(now: i64, keep_days: u64) -> (r: i64)
    requires
        keep_days * 86400 <= i64::MAX,
        now - keep_days * 86400 >= i64::MIN,
    ensures
        r == now - keep_days * 86400,
{
    now - (keep_days as i64) * 86400
}

/// The last index of `c` in `s` is that in any prefix that all later `c`-free characters
/// follow.
proof fn lemma_last_index_prefix(s: Seq<char>, c: char, i: int)
    requires
        0 <= i <= s.len(),
        forall|j: int| i <= j < s.len() ==> s[j] != c,
    ensures
        last_index_of(s, c) == last_index_of(s.take(i), c),
    decreases s.len(),
{
    if i == s.len() {
        assert(s.take(i) =~= s);
    } else {
        assert(s.drop_last().take(i) =~= s.take(i));
        lemma_last_index_prefix(s.drop_last(), c, i);
    }
}

/// The last index of `c` in `s` lies in `s` and holds `c`, or is -1.
proof fn lemma_last_index_bounds(s: Seq<char>, c: char)
    ensures
        -1 <= last_index_of(s, c) < s.len(),
        last_index_of(s, c) >= 0 ==> s[last_index_of(s, c)] == c,
        forall|j: int| last_index_of(s, c) < j < s.len() ==> s[j] != c,
    decreases s.len(),
{
    if s.len() > 0 && s.last() != c {
        lemma_last_index_bounds(s.drop_last(), c);
        assert forall|j: int| last_index_of(s, c) < j < s.len() implies s[j] != c by {
            if j < s.len() - 1 {
                assert(s[j] == s.drop_last()[j]);
            }
        }
    }
}

/// The index of the last dot in `cs`.
fn last_dot(cs: &Vec<char>) -> (r: Option<usize>)
    ensures
        match r {
            Some(k) => k as int == last_index_of(cs@, '.'),
            None => last_index_of(cs@, '.') == -1,
        },
{
    let mut i = cs.len();
    while i > 0
        invariant
            i <= cs.len(),
            forall|j: int| i <= j < cs.len() ==> cs@[j] != '.',
        decreases i,
    {
        if cs[i - 1] == '.' {
            proof {
                lemma_last_index_prefix(cs@, '.', i as int);
                assert(cs@.take(i as int).last() == '.');
            }
            return Some(i - 1);
        }
        i -= 1;
    }
    proof {
        lemma_last_index_prefix(cs@, '.', 0);
    }
    None
}

/// The characters of `cs` from `from` up to `to`.
fn sub_chars(cs: &Vec<char>, from: usize, to: usize) -> (r: Vec<char>)
    requires
        from <= to <= cs.len(),
    ensures
        r@ == cs@.subrange(from as int, to as int),
{
    let mut r: Vec<char> = Vec::new();
    let mut i = from;
    while i < to
        invariant
            from <= i <= to <= cs.len(),
            r@ == cs@.subrange(from as int, i as int),
        decreases to - i,
    {
        r.push(cs[i]);
        i += 1;
        assert(r@ =~= cs@.subrange(from as int, i as int));
    }
    r
}

/// Whether `cs` begins with `p`.
fn starts_with(cs: &Vec<char>, p: &Vec<char>) -> (r: bool)
    ensures
        r == (p@.len() <= cs@.len() && cs@.take(p@.len() as int) == p@),
{
    if p.len() > cs.len() {
        return false;
    }
    let mut i: usize = 0;
    while i < p.len()
        invariant
            p.len() <= cs.len(),
            i <= p.len(),
            forall|j: int| 0 <= j < i ==> cs@[j] == p@[j],
        decreases p.len() - i,
    {
        if cs[i] != p[i] {
            assert(cs@.take(p@.len() as int)[i as int] != p@[i as int]);
            return false;
        }
        i += 1;
    }
    assert(cs@.take(p@.len() as int) =~= p@);
    true
}

/// The day that the file name `name` marks as a daily backup, if it is one.
pub fn backup_day(name: &str) -> (r: Option<i64>)
    ensures
        r == backup_day_spec(name@),
{
    let cs = chars_of(name);
    proof {
        reveal_strlit("db");
        reveal_strlit("chronos_");
        lemma_last_index_bounds(cs@, '.');
    }
    let k = match last_dot(&cs) {
        Some(k) => k,
        None => {
            return None;
        },
    };
    if k == 0 {
        return None;
    }
    let ghost stem = cs@.take(k as int);
    let ghost ext = cs@.skip(k + 1);
    if !(cs.len() - k == 3 && cs[k + 1] == 'd' && cs[k + 2] == 'b') {
        proof {
            if ext == "db"@ {
                assert("db"@ =~= seq!['d', 'b']);
                assert(ext.len() == 2);
                assert(ext[0] == cs@[k + 1] && ext[1] == cs@[k + 2]);
                assert(false);
            }
        }
        return None;
    }
    assert(ext =~= "db"@);
    let prefix = chars_of("chronos_");
    if k < 8 || !starts_with(&cs, &prefix) {
        proof {
            if stem.len() >= 8 && stem.take(8) == "chronos_"@ {
                assert(cs@.take(8) =~= stem.take(8));
                assert(prefix@.len() == 8);
                assert(false);
            }
        }
        return None;
    }
    assert(stem.take(8) =~= cs@.take(8));
    let rest = sub_chars(&cs, 8, k);
    assert(rest@ =~= stem.skip(8));
    parse_i64(&rest)
}

/// Whether the file name `name` marks a daily backup of a day before `cutoff`.
pub fn is_stale_backup(name: &str, cutoff: i64) -> (r: bool)
    ensures
        r == (backup_day_spec(name@) matches Some(day) && day < cutoff),
{
    match backup_day(name) {
        Some(day) => day < cutoff,
        None => false,
    }
}

/// The decimal representation of `n` is made of digits and spells `n`.
proof fn lemma_decimal_digits(n: nat)
    ensures
        all_digits(crate::text::decimal(n)),
        digits_value(crate::text::decimal(n)) == n,
    decreases n,
{
    let s = crate::text::decimal(n);
    let d = n % 10;
    assert(crate::text::digit_char(d) as nat - '0' as nat == d);
    assert(s.last() == crate::text::digit_char(d));
    if n < 10 {
        assert(s.drop_last() =~= Seq::<char>::empty());
        assert(digits_value(s) == digits_value(s.drop_last()) * 10 + d);
    }
    if n >= 10 {
        lemma_decimal_digits(n / 10);
        assert(s.drop_last() =~= crate::text::decimal(n / 10));
        assert(digits_value(s) == digits_value(s.drop_last()) * 10 + d);
        assert(n == (n / 10) * 10 + d);
        assert forall|i: int| 0 <= i < s.len() implies crate::ui::is_digit(#[trigger] s[i]) by {
            if i < s.len() - 1 {
                assert(s[i] == crate::text::decimal(n / 10)[i]);
            }
        }
    }
}

/// The name of a day's backup file is read back as that day.
pub proof fn law_backup_name_round_trip(day: i64)
    ensures
        backup_day_spec(backup_name_text(day as int)) == Some(day),
{
    reveal_strlit("chronos_");
    reveal_strlit(".db");
    reveal_strlit("db");
    let digits = signed_decimal(day as int);
    let name = backup_name_text(day as int);
    let mag: nat = if day < 0 { (-day) as nat } else { day as nat };
    lemma_decimal_digits(mag);
    crate::text::lemma_decimal_len(mag);
    assert forall|j: int| 0 <= j < digits.len() implies digits[j] != '.' by {
        if day < 0 {
            if j > 0 {
                assert(digits[j] == crate::text::decimal(mag)[j - 1]);
            }
        }
    }
    let k: int = 8 + digits.len() as int;
    assert(name.len() == k + 3);
    assert(name[k] == '.');
    assert(name.take(k + 1).last() == '.');
    assert forall|j: int| k + 1 <= j < name.len() implies name[j] != '.' by {}
    lemma_last_index_prefix(name, '.', k + 1);
    assert(last_index_of(name, '.') == k);
    assert(name.take(k) =~= "chronos_"@ + digits);
    assert(name.skip(k + 1) =~= "db"@);
    let stem = name.take(k);
    assert(stem.take(8) =~= "chronos_"@);
    assert(stem.skip(8) =~= digits);
    if day < 0 {
        assert(digits.drop_first() =~= crate::text::decimal(mag));
    } else {
        assert(crate::ui::is_digit(digits[0]));
    }
}

} // verus!
