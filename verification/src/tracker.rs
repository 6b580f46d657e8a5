use vstd::prelude::*;

use crate::clock::{elapsed_since, instant_now, span_max, Span};

verus! {

/// The three states of a [`TimeTracker`].
#[derive(Debug, Clone, Copy, PartialEq, Eq, Structural)]
pub enum TrackerState {
    Idle,
    Running,
    Paused,
}

/// A finished stretch of tracked time.
#[derive(Debug, Clone, Copy, PartialEq, Eq, Structural)]
pub struct TimeEntry {
    pub task_id: Option<i64>,
    pub duration: Span,
}

/// The model of a [`TimeTracker`]: its state, its task, whether a session is being timed
/// right now, and the nanoseconds gathered by the sessions that already ended.
pub struct TrackerView {
    pub state: TrackerState,
    pub current_task_id: Option<i64>,
    pub in_session: bool,
    pub accumulated: nat,
}

impl TrackerView {
    /// The invariant that the tracker keeps: a session is timed exactly while running, a
    /// task is set exactly while not idle, that task has a positive id, and nothing is
    /// gathered while idle.
    pub open spec fn wf(self) -> bool {
        &&& self.in_session == (self.state == TrackerState::Running)
        &&& (self.current_task_id is None) == (self.state == TrackerState::Idle)
        &&& (self.current_task_id matches Some(t) ==> t > 0)
        &&& (self.state == TrackerState::Idle ==> self.accumulated == 0)
    }

    /// The idle tracker.
    pub open spec fn idle(self) -> bool {
        &&& self.state == TrackerState::Idle
        &&& self.current_task_id is None
        &&& !self.in_session
        &&& self.accumulated == 0
    }

    /// The nanoseconds tracked so far when the running session has lasted `session`.
    pub open spec fn total_with(self, session: nat) -> nat {
        if self.in_session {
            self.accumulated + session
        } else {
            self.accumulated
        }
    }
}

/// The idle tracker's model.
pub open spec fn idle_view() -> TrackerView {
    TrackerView { state: TrackerState::Idle, current_task_id: None, in_session: false, accumulated: 0 }
}

/// Starting `task_id`: allowed from the idle state for a positive id.
pub open spec fn start_step(v: TrackerView, task_id: i64) -> (TrackerView, Result<(), &'static str>) {
    if v.state != TrackerState::Idle {
        (v, Err("Cannot start: tracker is not idle"))
    } else if task_id <= 0 {
        (v, Err("Invalid task ID"))
    } else {
        (
            TrackerView {
                state: TrackerState::Running,
                current_task_id: Some(task_id),
                in_session: true,
                ..v
            },
            Ok(()),
        )
    }
}

/// Pausing, where the running session lasted `session` nanoseconds: allowed while running.
pub open spec fn pause_step(v: TrackerView, session: nat) -> (TrackerView, Result<(), &'static str>) {
    if v.state != TrackerState::Running {
        (v, Err("Cannot pause: tracker is not running"))
    } else {
        (
            TrackerView {
                state: TrackerState::Paused,
                in_session: false,
                accumulated: v.total_with(session),
                ..v
            },
            Ok(()),
        )
    }
}

/// Resuming: allowed while paused on a task.
pub open spec fn resume_step(v: TrackerView) -> (TrackerView, Result<(), &'static str>) {
    if v.state != TrackerState::Paused {
        (v, Err("Cannot resume: tracker is not paused"))
    } else if v.current_task_id is None {
        (v, Err("Cannot resume: no task selected"))
    } else {
        (TrackerView { state: TrackerState::Running, in_session: true, ..v }, Ok(()))
    }
}

/// Stopping, where the running session (if any) lasted `session` nanoseconds: allowed when
/// not idle; reports the task and the nanoseconds tracked.
pub open spec fn stop_step(v: TrackerView, session: nat) -> (TrackerView, Result<(Option<i64>, nat), &'static str>) {
    if v.state == TrackerState::Idle {
        (v, Err("Cannot stop: tracker is already idle"))
    } else {
        (idle_view(), Ok((v.current_task_id, v.total_with(session))))
    }
}

/// Switching to `task_id`, where the running session (if any) lasted `session` nanoseconds:
/// allowed when not idle and for a positive id; stops, then starts the new task.
pub open spec fn switch_step(v: TrackerView, task_id: i64, session: nat) -> (TrackerView, Result<(Option<i64>, nat), &'static str>) {
    if v.state != TrackerState::Running && v.state != TrackerState::Paused {
        (v, Err("Cannot switch: tracker is idle"))
    } else if task_id <= 0 {
        (v, Err("Invalid task ID"))
    } else {
        (start_step(stop_step(v, session).0, task_id).0, stop_step(v, session).1)
    }
}

/// An entry as the model reports it: its task and its length in nanoseconds.
pub open spec fn entry_view(r: Result<TimeEntry, &'static str>) -> Result<(Option<i64>, nat), &'static str> {
    match r {
        Ok(e) => Ok((e.task_id, e.duration.nanos())),
        Err(m) => Err(m),
    }
}

/// Every step keeps the tracker's invariant.
pub proof fn law_steps_keep_wf(v: TrackerView, task_id: i64, session: nat)
    requires
        v.wf(),
    ensures
        start_step(v, task_id).0.wf(),
        pause_step(v, session).0.wf(),
        resume_step(v).0.wf(),
        stop_step(v, session).0.wf(),
        switch_step(v, task_id, session).0.wf(),
{
}

/// A refused step leaves the tracker as it was.
pub proof fn law_refused_step_changes_nothing(v: TrackerView, task_id: i64, session: nat)
    ensures
        start_step(v, task_id).1 is Err ==> start_step(v, task_id).0 == v,
        pause_step(v, session).1 is Err ==> pause_step(v, session).0 == v,
        resume_step(v).1 is Err ==> resume_step(v).0 == v,
        stop_step(v, session).1 is Err ==> stop_step(v, session).0 == v,
        switch_step(v, task_id, session).1 is Err ==> switch_step(v, task_id, session).0 == v,
{
}

/// Pausing and resuming continue the same task, with the paused session's time kept.
pub proof fn law_pause_then_resume(v: TrackerView, session: nat)
    requires
        v.wf(),
        v.state == TrackerState::Running,
    ensures
        resume_step(pause_step(v, session).0) == (
            TrackerView { accumulated: v.accumulated + session, ..v },
            Ok::<(), &'static str>(()),
        ),
{
}

/// Starting from idle and stopping reports the task and exactly the session's time, and
/// leaves the tracker idle again.
pub proof fn law_stop_after_start(v: TrackerView, task_id: i64, session: nat)
    requires
        v.idle(),
        task_id > 0,
    ensures
        stop_step(start_step(v, task_id).0, session) == (
            idle_view(),
            Ok::<(Option<i64>, nat), &'static str>((Some(task_id), session)),
        ),
{
}

/// While paused, the time tracked does not grow, however long the pause lasts.
pub proof fn law_paused_time_is_frozen(v: TrackerView, pause: nat)
    requires
        v.wf(),
        v.state == TrackerState::Paused,
    ensures
        v.total_with(pause) == v.accumulated,
{
}

/// Tracks the time spent on one task at a time, with pauses.
#[derive(Debug)]
pub struct TimeTracker {
    state: TrackerState,
    current_task_id: Option<i64>,
    session_start: Option<std::time::Instant>,
    accumulated: Span,
    reading: Span,
}

impl View for TimeTracker {
    type V = TrackerView;

    closed spec fn view(&self) -> TrackerView {
        TrackerView {
            state: self.state,
            current_task_id: self.current_task_id,
            in_session: self.session_start is Some,
            accumulated: self.accumulated.nanos(),
        }
    }
}

impl TimeTracker {
    /// Every tracker keeps the invariant of its model.
    #[verifier::type_invariant]
    spec fn keeps_invariant(self) -> bool {
        self@.wf()
    }

    /// The length of the running session when the tracker last read the clock for it
    /// ([`TimeTracker::measure_session`]).
    pub closed spec fn last_reading(&self) -> Span {
        self.reading
    }

    /// An idle tracker.
    pub fn new() -> (t: Self)
        ensures
            t@ == idle_view(),
            t.last_reading().nanos() == 0,
    {
        TimeTracker {
            state: TrackerState::Idle,
            current_task_id: None,
            session_start: None,
            accumulated: Span::zero(),
            reading: Span::zero(),
        }
    }

    /// The current state.
    pub fn state(&self) -> (r: TrackerState)
        ensures
            r == self@.state,
            self@.wf(),
    {
        proof {
            use_type_invariant(self);
        }
        self.state
    }

    /// The task being tracked, if any.
    pub fn current_task_id(&self) -> (r: Option<i64>)
        ensures
            r == self@.current_task_id,
            self@.wf(),
    {
        proof {
            use_type_invariant(self);
        }
        self.current_task_id
    }

    /// The time gathered by the sessions that already ended.
    pub fn accumulated(&self) -> (r: Span)
        ensures
            r.nanos() == self@.accumulated,
            self@.wf(),
    {
        proof {
            use_type_invariant(self);
        }
        self.accumulated
    }

    /// How long the running session has lasted so far, if a session is running.
    pub fn session_duration(&self) -> (r: Option<Span>)
        ensures
            r is Some == self@.in_session,
            self@.wf(),
    {
        proof {
            use_type_invariant(self);
        }
        match &self.session_start {
            Some(start) => Some(elapsed_since(start)),
            None => None,
        }
    }

    /// Starts tracking the task `task_id`, which must be positive, from the idle state.
    pub fn start(&mut self, task_id: i64) -> (r: Result<(), &'static str>)
        ensures
            (final(self)@, r) == start_step(old(self)@, task_id),
            old(self)@.wf(),
            final(self)@.wf(),
            final(self).last_reading() == old(self).last_reading(),
    {
        proof {
            use_type_invariant(&*self);
        }
        if self.state != TrackerState::Idle {
            return Err("Cannot start: tracker is not idle");
        }
        if task_id <= 0 {
            return Err("Invalid task ID");
        }
        proof {
            use_type_invariant(&*self);
        }
        *self = TimeTracker {
            state: TrackerState::Running,
            current_task_id: Some(task_id),
            session_start: Some(instant_now()),
            accumulated: self.accumulated,
            reading: self.reading,
        };
        Ok(())
    }

    /// Pauses the running session, adding the time it lasted, `session`, to the
    /// accumulated time.
    pub fn pause_after(&mut self, session: Span) -> (r: Result<(), &'static str>)
        requires
            old(self)@.in_session ==> old(self)@.accumulated + session.nanos() <= span_max(),
        ensures
            (final(self)@, r) == pause_step(old(self)@, session.nanos()),
            old(self)@.wf(),
            final(self)@.wf(),
            final(self).last_reading() == old(self).last_reading(),
    {
        proof {
            use_type_invariant(&*self);
        }
        if self.state != TrackerState::Running {
            return Err("Cannot pause: tracker is not running");
        }
        proof {
            use_type_invariant(&*self);
        }
        let accumulated = if self.session_start.is_some() {
            self.accumulated.add(session)
        } else {
            self.accumulated
        };
        *self = TimeTracker {
            state: TrackerState::Paused,
            current_task_id: self.current_task_id,
            session_start: None,
            accumulated,
            reading: self.reading,
        };
        Ok(())
    }

    /// How long the running session has lasted, or the empty span between sessions; a sum
    /// that would pass the longest span is cut to fit.
    pub fn session_so_far(&self) -> (r: Span)
        ensures
            self@.in_session ==> self@.accumulated + r.nanos() <= span_max(),
            !self@.in_session ==> r.nanos() == 0,
    {
        match &self.session_start {
            Some(start) => {
                let e = elapsed_since(start);
                let room = self.accumulated.room();
                if room.lt(&e) {
                    room
                } else {
                    e
                }
            },
            None => Span::zero(),
        }
    }

    /// Reads the clock for the running session: returns how long it has lasted (nothing
    /// between sessions; a sum that would pass the longest span is cut to fit) and keeps that
    /// reading as [`TimeTracker::last_reading`]. The model does not change.
    pub fn measure_session(&mut self) -> (r: Span)
        ensures
            final(self)@ == old(self)@,
            final(self).last_reading() == r,
            old(self)@.in_session ==> old(self)@.accumulated + r.nanos() <= span_max(),
            !old(self)@.in_session ==> r.nanos() == 0,
            final(self)@.wf(),
    {
        proof {
            use_type_invariant(&*self);
        }
        let r = self.session_so_far();
        self.reading = r;
        r
    }

    /// Pauses the running session and adds the time it lasted to the accumulated time.
    pub fn pause(&mut self) -> (r: Result<(), &'static str>)
        ensures
            exists|session: nat| (final(self)@, r) == #[trigger] pause_step(old(self)@, session),
            (final(self)@, r) == pause_step(old(self)@, final(self).last_reading().nanos()),
            old(self)@.wf(),
            final(self)@.wf(),
    {
        proof {
            use_type_invariant(&*self);
        }
        let session = self.measure_session();
        self.pause_after(session)
    }

    /// Resumes a paused task with a new session.
    pub fn resume(&mut self) -> (r: Result<(), &'static str>)
        ensures
            (final(self)@, r) == resume_step(old(self)@),
            old(self)@.wf(),
            final(self)@.wf(),
            final(self).last_reading() == old(self).last_reading(),
    {
        proof {
            use_type_invariant(&*self);
        }
        if self.state != TrackerState::Paused {
            return Err("Cannot resume: tracker is not paused");
        }
        if self.current_task_id.is_none() {
            return Err("Cannot resume: no task selected");
        }
        proof {
            use_type_invariant(&*self);
        }
        *self = TimeTracker {
            state: TrackerState::Running,
            current_task_id: self.current_task_id,
            session_start: Some(instant_now()),
            accumulated: self.accumulated,
            reading: self.reading,
        };
        Ok(())
    }

    /// Stops tracking, where the running session (if any) lasted `session`: returns the
    /// task and the whole time tracked, and returns to the idle state.
    pub fn stop_after(&mut self, session: Span) -> (r: Result<TimeEntry, &'static str>)
        requires
            old(self)@.in_session ==> old(self)@.accumulated + session.nanos() <= span_max(),
        ensures
            (final(self)@, entry_view(r)) == stop_step(old(self)@, session.nanos()),
            old(self)@.wf(),
            final(self)@.wf(),
            final(self).last_reading() == old(self).last_reading(),
    {
        proof {
            use_type_invariant(&*self);
        }
        if self.state == TrackerState::Idle {
            return Err("Cannot stop: tracker is already idle");
        }
        let total = if self.session_start.is_some() {
            self.accumulated.add(session)
        } else {
            self.accumulated
        };
        let entry = TimeEntry { task_id: self.current_task_id, duration: total };
        *self = TimeTracker {
            state: TrackerState::Idle,
            current_task_id: None,
            session_start: None,
            accumulated: Span::zero(),
            reading: self.reading,
        };
        Ok(entry)
    }

    /// Stops tracking: returns the task and the whole time tracked, and returns to the idle
    /// state.
    pub fn stop(&mut self) -> (r: Result<TimeEntry, &'static str>)
        ensures
            exists|session: nat| (final(self)@, entry_view(r)) == #[trigger] stop_step(old(self)@, session),
            (final(self)@, entry_view(r)) == stop_step(old(self)@, final(self).last_reading().nanos()),
            old(self)@.wf(),
            final(self)@.wf(),
    {
        proof {
            use_type_invariant(&*self);
        }
        let session = self.measure_session();
        self.stop_after(session)
    }

    /// Ends the current task, where the running session (if any) lasted `session`, and
    /// starts `new_task_id`; returns the entry of the task that ended.
    pub fn switch_task_after(&mut self, new_task_id: i64, session: Span) -> (r: Result<TimeEntry, &'static str>)
        requires
            old(self)@.in_session ==> old(self)@.accumulated + session.nanos() <= span_max(),
        ensures
            (final(self)@, entry_view(r)) == switch_step(old(self)@, new_task_id, session.nanos()),
            old(self)@.wf(),
            final(self)@.wf(),
            final(self).last_reading() == old(self).last_reading(),
    {
        proof {
            use_type_invariant(&*self);
        }
        if self.state != TrackerState::Running && self.state != TrackerState::Paused {
            return Err("Cannot switch: tracker is idle");
        }
        if new_task_id <= 0 {
            return Err("Invalid task ID");
        }
        let entry = self.stop_after(session)?;
        self.start(new_task_id)?;
        Ok(entry)
    }

    /// Ends the current task and starts `new_task_id`; returns the entry of the task that
    /// ended.
    pub fn switch_task(&mut self, new_task_id: i64) -> (r: Result<TimeEntry, &'static str>)
        ensures
            exists|session: nat| (final(self)@, entry_view(r)) == #[trigger] switch_step(old(self)@, new_task_id, session),
            (final(self)@, entry_view(r)) == switch_step(old(self)@, new_task_id, final(self).last_reading().nanos()),
            old(self)@.wf(),
            final(self)@.wf(),
    {
        proof {
            use_type_invariant(&*self);
        }
        let session = self.measure_session();
        self.switch_task_after(new_task_id, session)
    }

    /// The time tracked so far, where the running session (if any) has lasted `session`.
    pub fn elapsed_with(&self, session: Span) -> (r: Span)
        requires
            self@.in_session ==> self@.accumulated + session.nanos() <= span_max(),
        ensures
            r.nanos() == self@.total_with(session.nanos()),
    {
        if self.session_start.is_some() {
            self.accumulated.add(session)
        } else {
            self.accumulated
        }
    }

    /// The time tracked so far, the running session included.
    pub fn elapsed(&self) -> (r: Span)
        ensures
            exists|session: nat| r.nanos() == #[trigger] self@.total_with(session),
    {
        let session = self.session_so_far();
        self.elapsed_with(session)
    }
}

impl Default for TimeTracker {
    fn default() -> (t: Self)
        ensures
            t@ == idle_view(),
    {
        Self::new()
    }
}

} // verus!
