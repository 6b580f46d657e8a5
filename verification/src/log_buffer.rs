use vstd::prelude::*;

verus! {

/// The most lines that the log keeps.
pub const LOG_CAPACITY: usize = 1000;

/// The log after adding `line` to `lines`: the oldest line goes when there would be more
/// than [`LOG_CAPACITY`].
pub open spec fn logged(lines: Seq<String>, line: String) -> Seq<String> {
    let all = lines.push(line);
    if all.len() > LOG_CAPACITY {
        all.drop_first()
    } else {
        all
    }
}

/// Adds `line` to the log `lines`, dropping the oldest line beyond [`LOG_CAPACITY`].
pub fn push_log_line(lines: &mut Vec<String>, line: String)
    requires
        old(lines)@.len() < usize::MAX,
    ensures
        final(lines)@ == logged(old(lines)@, line),
{
    lines.push(line);
    if lines.len() > LOG_CAPACITY {
        lines.remove(0);
        assert(final(lines)@ =~= logged(old(lines)@, line));
    }
}

/// A log that holds at most [`LOG_CAPACITY`] lines still does after a push.
pub proof fn law_log_stays_bounded(lines: Seq<String>, line: String)
    requires
        lines.len() <= LOG_CAPACITY,
    ensures
        logged(lines, line).len() <= LOG_CAPACITY,
        logged(lines, line).last() == line,
{
}

} // verus!
