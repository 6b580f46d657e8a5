use vstd::prelude::*;

use crate::tracker::TrackerState;

verus! {

/// A change of the session's lock state.
#[derive(Debug, Clone, Copy, PartialEq, Eq, Structural)]
pub enum LockEvent {
    Locked,
    Unlocked,
}

/// What a poll of the lock state reports, given the state seen at the previous poll:
/// `Locked` when the session became locked, `Unlocked` when it became unlocked, nothing when
/// it did not change.
pub fn lock_change(was_locked: bool, is_locked: bool) -> (r: Option<LockEvent>)
    ensures
        r == (if is_locked && !was_locked {
            Some(LockEvent::Locked)
        } else if !is_locked && was_locked {
            Some(LockEvent::Unlocked)
        } else {
            None
        }),
{
    if is_locked && !was_locked {
        Some(LockEvent::Locked)
    } else if !is_locked && was_locked {
        Some(LockEvent::Unlocked)
    } else {
        None
    }
}

/// The reply to a query of the session's `LockedHint` property, as far as the lock check
/// reads it: a boolean, a variant that wraps a value (`Some` when that value is a boolean),
/// or any other value.
#[derive(Debug, Clone, Copy, PartialEq, Eq, Structural)]
pub enum HintReply {
    Bool(bool),
    Variant(Option<bool>),
    Other,
}

/// Whether the session counts as locked after the query that gave `reply` (`None` when the
/// query or the decoding of its answer failed): only a true boolean, given directly or
/// wrapped once in a variant, says so.
pub fn locked_from_reply(reply: Option<HintReply>) -> (r: bool)
    ensures
        r == (match reply {
            Some(HintReply::Bool(b)) => b,
            Some(HintReply::Variant(Some(b))) => b,
            _ => false,
        }),
{
    match reply {
        Some(HintReply::Bool(b)) => b,
        Some(HintReply::Variant(Some(b))) => b,
        _ => false,
    }
}

/// Whether a lock event pauses tracking: it does when the session gets locked while a task
/// is running, and in no other case.
pub fn pauses_tracking(event: LockEvent, state: TrackerState) -> (r: bool)
    ensures
        r == (event == LockEvent::Locked && state == TrackerState::Running),
{
    match event {
        LockEvent::Locked => state == TrackerState::Running,
        LockEvent::Unlocked => false,
    }
}

} // verus!
