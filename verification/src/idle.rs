use vstd::prelude::*;

use crate::clock::{elapsed_since, instant_now, Span};

verus! {

/// Seconds without activity after which a running session counts as idle.
pub const IDLE_TIMEOUT_SECS: u64 = 300;

/// Where the user stands with respect to inactivity.
#[derive(Debug, Clone, Copy, PartialEq, Eq, Structural)]
pub enum IdleState {
    Active,
    Idle(Span),
    Returning,
}

/// What an update of the [`IdleDetector`] reports.
#[derive(Debug, Clone, PartialEq, Eq, Structural)]
pub enum IdleEvent {
    BecameIdle(Span),
    ReturnedFromIdle,
}

/// The model of an [`IdleDetector`].
pub struct IdleView {
    pub state: IdleState,
    pub threshold: Span,
    pub was_tracking: bool,
}

/// Where [`IdleDetector::update_after`] leads when the last activity was `elapsed` ago.
pub open spec fn idle_step(v: IdleView, elapsed: Span, tracker_was_running: bool) -> (IdleView, Option<IdleEvent>) {
    match v.state {
        IdleState::Active => {
            if elapsed.nanos() >= v.threshold.nanos() && tracker_was_running {
                (
                    IdleView { state: IdleState::Idle(elapsed), was_tracking: true, ..v },
                    Some(IdleEvent::BecameIdle(elapsed)),
                )
            } else {
                (v, None)
            }
        },
        IdleState::Idle(_) => {
            if elapsed.nanos() < v.threshold.nanos() {
                (
                    IdleView { state: IdleState::Returning, was_tracking: false, ..v },
                    Some(IdleEvent::ReturnedFromIdle),
                )
            } else {
                (v, None)
            }
        },
        IdleState::Returning => {
            if elapsed.nanos() < 100_000_000 {
                (IdleView { state: IdleState::Active, ..v }, None)
            } else {
                (v, None)
            }
        },
    }
}

/// Without a running tracker, an active user is never reported idle, however long the
/// inactivity.
pub proof fn law_no_idle_without_tracking(v: IdleView, elapsed: Span)
    requires
        v.state == IdleState::Active,
    ensures
        idle_step(v, elapsed, false) == (v, None::<IdleEvent>),
{
}

/// An update reports an event only together with a change of state, so an idle stretch is
/// reported once, and so is the return from it.
pub proof fn law_events_change_state(v: IdleView, elapsed: Span, running: bool)
    ensures
        idle_step(v, elapsed, running).1 is Some ==> idle_step(v, elapsed, running).0.state != v.state,
        v.state is Idle ==> !(idle_step(v, elapsed, running).1 matches Some(IdleEvent::BecameIdle(_))),
{
}

/// The whole cycle: an active user inactive past the threshold while tracking becomes idle,
/// is reported back once the inactivity is shorter than the threshold, and is active again
/// once the last activity is under a tenth of a second old, with the tracking mark cleared.
pub proof fn law_idle_round_trip(v: IdleView, long: Span, short: Span, settle: Span, running: bool)
    requires
        v.state == IdleState::Active,
        long.nanos() >= v.threshold.nanos(),
        short.nanos() < v.threshold.nanos(),
        settle.nanos() < 100_000_000,
    ensures
        ({
            let (a, e1) = idle_step(v, long, true);
            let (b, e2) = idle_step(a, short, running);
            let (c, e3) = idle_step(b, settle, running);
            &&& e1 == Some(IdleEvent::BecameIdle(long))
            &&& a.state == IdleState::Idle(long)
            &&& e2 == Some(IdleEvent::ReturnedFromIdle)
            &&& b.state == IdleState::Returning
            &&& e3 is None
            &&& c == (IdleView { state: IdleState::Active, was_tracking: false, ..v })
        }),
{
}

/// Notices when the user has been inactive for longer than a threshold.
pub struct IdleDetector {
    last_activity: std::time::Instant,
    idle_state: IdleState,
    idle_threshold: Span,
    was_tracking: bool,
    reading: Span,
}

impl View for IdleDetector {
    type V = IdleView;

    closed spec fn view(&self) -> IdleView {
        IdleView { state: self.idle_state, threshold: self.idle_threshold, was_tracking: self.was_tracking }
    }
}

impl IdleDetector {
    /// A detector that saw activity just now, with the default threshold.
    pub fn new() -> (d: Self)
        ensures
            d@.state == IdleState::Active,
            d@.threshold.nanos() == IDLE_TIMEOUT_SECS * 1_000_000_000,
            !d@.was_tracking,
    {
        IdleDetector {
            last_activity: instant_now(),
            idle_state: IdleState::Active,
            idle_threshold: Span::from_secs(IDLE_TIMEOUT_SECS),
            was_tracking: false,
            reading: Span::zero(),
        }
    }

    /// Records activity now; an idle or returning user becomes active.
    pub fn poke(&mut self)
        ensures
            final(self)@ == (IdleView { state: IdleState::Active, ..old(self)@ }),
    {
        self.last_activity = instant_now();
        if matches!(self.idle_state, IdleState::Idle(..)) || self.idle_state == IdleState::Returning {
            self.idle_state = IdleState::Active;
        }
    }

    /// The current state.
    pub fn state(&self) -> (r: IdleState)
        ensures
            r == self@.state,
    {
        self.idle_state
    }

    /// The time since the last recorded activity.
    pub fn last_activity_elapsed(&self) -> Span {
        elapsed_since(&self.last_activity)
    }

    /// The time since the last activity when the detector last read the clock for it
    /// ([`IdleDetector::measure_inactivity`]).
    pub closed spec fn last_reading(&self) -> Span {
        self.reading
    }

    /// Reads the clock for the time since the last recorded activity, returns it and keeps
    /// it as [`IdleDetector::last_reading`]. The model does not change.
    pub fn measure_inactivity(&mut self) -> (r: Span)
        ensures
            final(self)@ == old(self)@,
            final(self).last_reading() == r,
    {
        let r = elapsed_since(&self.last_activity);
        self.reading = r;
        r
    }

    /// Sets the threshold to `secs` seconds.
    pub fn set_threshold(&mut self, secs: u64)
        ensures
            final(self)@.threshold.nanos() == secs * 1_000_000_000,
            final(self)@.state == old(self)@.state,
            final(self)@.was_tracking == old(self)@.was_tracking,
    {
        self.idle_threshold = Span::from_secs(secs);
    }

    /// Moves the detector on, where the last activity was `elapsed` ago.
    pub fn update_after(&mut self, elapsed: Span, tracker_was_running: bool) -> (r: Option<IdleEvent>)
        ensures
            (final(self)@, r) == idle_step(old(self)@, elapsed, tracker_was_running),
            final(self).last_reading() == old(self).last_reading(),
    {
        match self.idle_state {
            IdleState::Active => {
                if !elapsed.lt(&self.idle_threshold) && tracker_was_running {
                    self.idle_state = IdleState::Idle(elapsed);
                    self.was_tracking = true;
                    return Some(IdleEvent::BecameIdle(elapsed));
                }
            },
            IdleState::Idle(..) => {
                if elapsed.lt(&self.idle_threshold) {
                    self.idle_state = IdleState::Returning;
                    self.was_tracking = false;
                    return Some(IdleEvent::ReturnedFromIdle);
                }
            },
            IdleState::Returning => {
                if elapsed.lt(&Span::from_millis(100)) {
                    self.idle_state = IdleState::Active;
                }
            },
        }
        None
    }

    /// Moves the detector on according to the time since the last activity.
    pub fn update(&mut self, tracker_was_running: bool) -> (r: Option<IdleEvent>)
        ensures
            exists|elapsed: Span| (final(self)@, r) == idle_step(old(self)@, elapsed, tracker_was_running),
            (final(self)@, r) == idle_step(old(self)@, final(self).last_reading(), tracker_was_running),
    {
        let elapsed = self.measure_inactivity();
        self.update_after(elapsed, tracker_was_running)
    }

    /// Records that the user acknowledged coming back: activity now, state active.
    pub fn acknowledge_return(&mut self)
        ensures
            final(self)@ == (IdleView { state: IdleState::Active, ..old(self)@ }),
    {
        self.last_activity = instant_now();
        self.idle_state = IdleState::Active;
    }
}

impl Default for IdleDetector {
    fn default() -> (d: Self)
        ensures
            d@.state == IdleState::Active,
            d@.threshold.nanos() == IDLE_TIMEOUT_SECS * 1_000_000_000,
            !d@.was_tracking,
    {
        Self::new()
    }
}

} // verus!
