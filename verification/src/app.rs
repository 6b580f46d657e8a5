use vstd::prelude::*;

use crate::clock::{span_max, Span};
use crate::idle::{idle_step, IdleDetector, IdleEvent, IdleState, IdleView};
use crate::stats::now_ts;
use crate::text::{decimal, push_decimal, push_padded, zero_padded};
use crate::tracker::{
    idle_view, pause_step, resume_step, start_step, stop_step, TimeEntry, TimeTracker, TrackerState,
};

verus! {

/// How a number of seconds is shown: hours, minutes and seconds, leaving out leading units
/// that are zero, e.g. `1h 02m 03s`, `4m 05s`, `6s`.
pub open spec fn duration_text(total_secs: nat) -> Seq<char> {
    let hours = total_secs / 3600;
    let minutes = (total_secs % 3600) / 60;
    let seconds = total_secs % 60;
    if hours > 0 {
        decimal(hours) + seq!['h', ' '] + zero_padded(decimal(minutes), 2) + seq!['m', ' ']
            + zero_padded(decimal(seconds), 2) + seq!['s']
    } else if minutes > 0 {
        decimal(minutes) + seq!['m', ' '] + zero_padded(decimal(seconds), 2) + seq!['s']
    } else {
        decimal(seconds) + seq!['s']
    }
}

/// Shows `total_secs` as hours, minutes and seconds.
pub fn format_duration(total_secs: u64) -> (r: String)
    ensures
        r@ == duration_text(total_secs as nat),
{
    let hours = total_secs / 3600;
    let minutes = (total_secs % 3600) / 60;
    let seconds = total_secs % 60;
    proof {
        reveal_strlit("h ");
        reveal_strlit("m ");
        reveal_strlit("s");
    }
    let mut s = String::new();
    if hours > 0 {
        push_decimal(&mut s, hours);
        s.append("h ");
        push_padded(&mut s, minutes, 2);
        s.append("m ");
        push_padded(&mut s, seconds, 2);
        s.append("s");
    } else if minutes > 0 {
        push_decimal(&mut s, minutes);
        s.append("m ");
        push_padded(&mut s, seconds, 2);
        s.append("s");
    } else {
        push_decimal(&mut s, seconds);
        s.append("s");
    }
    assert(s@ =~= duration_text(total_secs as nat));
    s
}


/// A desktop notification to show.
#[derive(Debug, Clone)]
pub struct Notice {
    pub summary: String,
    pub body: String,
}

/// A finished stretch of time to store: task, start and end (Unix seconds), length in
/// seconds and whether it is billable.
#[derive(Debug, Clone, Copy, PartialEq, Eq, Structural)]
pub struct PeriodRecord {
    pub task_id: i64,
    pub begin: i64,
    pub end: i64,
    pub duration: i64,
    pub is_payable: bool,
}

/// What an action of [`AppCore`] leaves for the caller to carry out: a period to store and
/// notifications to show, in order.
#[derive(Debug, Clone)]
pub struct Effects {
    pub record: Option<PeriodRecord>,
    pub notices: Vec<Notice>,
}

/// The title of every notification.
pub open spec fn app_title() -> Seq<char> {
    seq!['C', 'h', 'r', 'o', 'n', 'o', 's']
}

/// What the status line shows for a tracker in `state`, with task name `name` (empty for
/// none) and `secs` seconds tracked.
pub open spec fn status_text(state: TrackerState, name: Seq<char>, secs: nat) -> Seq<char> {
    match state {
        TrackerState::Idle => seq!['I', 'd', 'l', 'e'],
        TrackerState::Running => if name.len() == 0 {
            "Tracking ("@ + duration_text(secs) + seq![')']
        } else {
            name + seq![' ', '\u{2014}', ' '] + duration_text(secs)
        },
        TrackerState::Paused => if name.len() == 0 {
            "Paused ("@ + duration_text(secs) + seq![')']
        } else {
            name + seq![' ', '\u{2014}', ' '] + "Paused ("@ + duration_text(secs) + seq![')']
        },
    }
}

/// The decisions of the application: what it tracks and whether that task is billable, what
/// the status line says, which notifications were last sent and whether the window shows.
/// Storage and the desktop are left to the caller, through [`Effects`].
pub struct AppCore {
    pub tracker: TimeTracker,
    pub current_task_name: Option<String>,
    pub current_task_id: Option<i64>,
    pub current_task_payable: bool,
    pub window_visible: bool,
    pub last_status: String,
    pub idle: IdleDetector,
    pub idle_dialog: Option<IdleEvent>,
    pub last_notify: String,
}

/// The name of the current task, empty when there is none.
pub open spec fn name_or_empty(name: Option<String>) -> Seq<char> {
    match name {
        Some(n) => n@,
        None => Seq::<char>::empty(),
    }
}

/// The key under which a notification counts as already sent: summary, `|`, body.
pub open spec fn notice_key(summary: Seq<char>, body: Seq<char>) -> Seq<char> {
    summary + seq!['|'] + body
}

/// `after` is `before` with the notification `summary` / `body` added at the end, unless
/// `last` is that notification's key, in which case nothing is added.
pub open spec fn notified(last: Seq<char>, summary: Seq<char>, body: Seq<char>, before: Seq<Notice>, after: Seq<Notice>) -> bool {
    if last == notice_key(summary, body) {
        after == before
    } else {
        &&& after.len() == before.len() + 1
        &&& after.drop_last() == before
        &&& after.last().summary@ == summary
        &&& after.last().body@ == body
    }
}

/// The period stored when the task `task` stops at the Unix time `now` after `secs` whole
/// seconds, billable as the task is (`payable`): none without a task, for less than a
/// second, or when its start would fall before the earliest time that an `i64` holds.
pub open spec fn period_for(task: Option<i64>, secs: i64, now: i64, payable: bool) -> Option<PeriodRecord> {
    match task {
        Some(t) => if secs > 0 && now - secs >= i64::MIN {
            Some(PeriodRecord { task_id: t, begin: (now - secs) as i64, end: now, duration: secs, is_payable: payable })
        } else {
            None
        },
        None => None,
    }
}

/// The body of the notification sent when a task stops after `secs` seconds.
pub open spec fn stopped_body(secs: nat) -> Seq<char> {
    "Stopped tracking. Duration: "@ + duration_text(secs)
}

/// The body of the notification sent when the task `name` starts.
pub open spec fn started_body(name: Seq<char>) -> Seq<char> {
    "Started tracking: "@ + name
}

/// What stopping does to `pre`, giving `post` and `r`, at the Unix time `now` and where the
/// running session (if any) lasted `session` nanoseconds: refused when idle; otherwise the
/// tracker stops, reports the task and the time tracked, the period to store is that of
/// [`period_for`], the task is forgotten and a notification says how long it ran.
pub open spec fn stop_outcome(pre: AppCore, post: AppCore, r: (Result<TimeEntry, String>, Effects), now: i64, session: nat) -> bool {
    if pre.tracker@.state == TrackerState::Idle {
        &&& r.0 matches Err(m) && m@ == "Not tracking"@
        &&& r.1.record is None
        &&& r.1.notices@.len() == 0
        &&& post == pre
    } else {
        let total = pre.tracker@.total_with(session);
        let secs = total / 1_000_000_000;
        &&& r.0 matches Ok(entry) && entry.task_id == pre.tracker@.current_task_id && entry.duration.nanos() == total
        &&& post.tracker@ == stop_step(pre.tracker@, session).0
        &&& r.1.record == period_for(pre.tracker@.current_task_id, secs as i64, now, pre.current_task_payable)
        &&& notified(pre.last_notify@, app_title(), stopped_body(secs), Seq::empty(), r.1.notices@)
        &&& post.last_notify@ == notice_key(app_title(), stopped_body(secs))
        &&& post == (AppCore {
            tracker: post.tracker,
            current_task_name: None,
            current_task_id: None,
            last_notify: post.last_notify,
            ..pre
        })
    }
}

/// What starting the task `task_id` named `name` does to `pre`, giving `post` and `r`, at the
/// Unix time `now` and where the running session (if any) lasted `session` nanoseconds:
/// whatever ran before stops as in [`stop_outcome`]; then the tracker starts the task, which
/// must have a positive id, the task is remembered and a notification names it.
pub open spec fn start_outcome(pre: AppCore, post: AppCore, task_id: i64, name: Seq<char>, is_payable: bool, r: (Result<(), String>, Effects), now: i64, session: nat) -> bool {
    let was_idle = pre.tracker@.state == TrackerState::Idle;
    let secs = pre.tracker@.total_with(session) / 1_000_000_000;
    let before = if was_idle { pre.tracker@ } else { idle_view() };
    &&& post.tracker@ == start_step(before, task_id).0
    &&& (r.0 is Ok <==> task_id > 0)
    &&& (r.0 matches Err(m) ==> m@ == "Invalid task ID"@)
    &&& r.1.record == (if was_idle {
        None
    } else {
        period_for(pre.tracker@.current_task_id, secs as i64, now, pre.current_task_payable)
    })
    &&& (if was_idle {
        if task_id > 0 {
            notified(pre.last_notify@, app_title(), started_body(name), Seq::empty(), r.1.notices@)
        } else {
            r.1.notices@.len() == 0
        }
    } else if task_id > 0 {
        &&& r.1.notices@.len() > 0
        &&& notified(pre.last_notify@, app_title(), stopped_body(secs), Seq::empty(), r.1.notices@.drop_last())
        &&& r.1.notices@.last().summary@ == app_title()
        &&& r.1.notices@.last().body@ == started_body(name)
    } else {
        notified(pre.last_notify@, app_title(), stopped_body(secs), Seq::empty(), r.1.notices@)
    })
    &&& post.last_notify@ == (if task_id > 0 {
        notice_key(app_title(), started_body(name))
    } else if was_idle {
        pre.last_notify@
    } else {
        notice_key(app_title(), stopped_body(secs))
    })
    &&& (if task_id > 0 {
        &&& post.current_task_id == Some(task_id)
        &&& (post.current_task_name matches Some(n) && n@ == name)
        &&& post.current_task_payable == is_payable
    } else if was_idle {
        &&& post.current_task_id == pre.current_task_id
        &&& post.current_task_name == pre.current_task_name
        &&& post.current_task_payable == pre.current_task_payable
    } else {
        &&& post.current_task_id is None
        &&& post.current_task_name is None
        &&& post.current_task_payable == pre.current_task_payable
    })
    &&& post.window_visible == pre.window_visible
    &&& post.last_status == pre.last_status
    &&& post.idle == pre.idle
    &&& post.idle_dialog == pre.idle_dialog
}

/// What pausing does to `pre`, giving `post` and `r`, where the running session lasted
/// `session` nanoseconds: the tracker pauses as [`pause_step`] says, with its message when
/// refused, and a notification says so when it paused.
pub open spec fn pause_outcome(pre: AppCore, post: AppCore, r: (Result<(), String>, Vec<Notice>), session: nat) -> bool {
    let (v, res) = pause_step(pre.tracker@, session);
    &&& post.tracker@ == v
    &&& (match res {
        Ok(_) => {
            &&& r.0 is Ok
            &&& notified(pre.last_notify@, app_title(), "Tracking paused"@, Seq::empty(), r.1@)
            &&& post.last_notify@ == notice_key(app_title(), "Tracking paused"@)
        },
        Err(m) => {
            &&& r.0 matches Err(e) && e@ == m@
            &&& r.1@.len() == 0
            &&& post.last_notify == pre.last_notify
        },
    })
    &&& post == (AppCore { tracker: post.tracker, last_notify: post.last_notify, ..pre })
}

/// The body of the notification sent when the task `name` (or an unnamed one) resumes.
pub open spec fn resumed_body(name: Option<String>) -> Seq<char> {
    "Resumed tracking: "@ + match name {
        Some(n) => n@,
        None => "task"@,
    }
}

/// What resuming does to `pre`, giving `post` and `r`: the tracker resumes as
/// [`resume_step`] says, with its message when refused, and a notification names the task
/// when it resumed.
pub open spec fn resume_outcome(pre: AppCore, post: AppCore, r: (Result<(), String>, Vec<Notice>)) -> bool {
    let (v, res) = resume_step(pre.tracker@);
    &&& post.tracker@ == v
    &&& (match res {
        Ok(_) => {
            &&& r.0 is Ok
            &&& notified(pre.last_notify@, app_title(), resumed_body(pre.current_task_name), Seq::empty(), r.1@)
            &&& post.last_notify@ == notice_key(app_title(), resumed_body(pre.current_task_name))
        },
        Err(m) => {
            &&& r.0 matches Err(e) && e@ == m@
            &&& r.1@.len() == 0
            &&& post.last_notify == pre.last_notify
        },
    })
    &&& post == (AppCore { tracker: post.tracker, last_notify: post.last_notify, ..pre })
}

/// What a check for inactivity does to `pre`, giving `post`, where the last activity was
/// `elapsed` ago and the running session (if any) lasted `session` nanoseconds: the idle
/// detector moves on as [`idle_step`] says and any event it reports shows in the dialog; when
/// the user became idle while the tracker ran, the tracker pauses and the status line says
/// so. Nothing else changes.
pub open spec fn idle_check_outcome(pre: AppCore, post: AppCore, elapsed: Span, session: nat) -> bool {
    let running = pre.tracker@.state == TrackerState::Running;
    let (next, event) = idle_step(pre.idle@, elapsed, running);
    let auto_paused = running && (event matches Some(IdleEvent::BecameIdle(_)));
    &&& post.idle@ == next
    &&& post.idle_dialog == (if event is Some { event } else { pre.idle_dialog })
    &&& post.tracker@ == (if auto_paused { pause_step(pre.tracker@, session).0 } else { pre.tracker@ })
    &&& (if auto_paused {
        post.last_status@ == "Auto-paused after idle ("@ + duration_text(elapsed.nanos() / 1_000_000_000) + seq![')']
    } else {
        post.last_status == pre.last_status
    })
    &&& post == (AppCore {
        tracker: post.tracker,
        last_status: post.last_status,
        idle: post.idle,
        idle_dialog: post.idle_dialog,
        ..pre
    })
}

/// Nothing starts tracking behind the user's back: a check for inactivity never makes the
/// tracker run, never changes its task, and at most pauses it.
pub proof fn law_idle_check_never_starts(pre: AppCore, post: AppCore, elapsed: Span, session: nat)
    requires
        pre.tracker@.wf(),
        idle_check_outcome(pre, post, elapsed, session),
    ensures
        post.tracker@.state == TrackerState::Running ==> pre.tracker@.state == TrackerState::Running,
        post.tracker@.current_task_id == pre.tracker@.current_task_id,
        post.tracker@ == pre.tracker@ || post.tracker@.state == TrackerState::Paused,
        post.current_task_id == pre.current_task_id,
{
}

/// The same notification is never sent twice in a row: once sent, sending it again adds
/// nothing, while any other notification is added.
pub proof fn law_repeated_notice_is_dropped(summary: Seq<char>, body: Seq<char>, other_summary: Seq<char>, other_body: Seq<char>, before: Seq<Notice>, after: Seq<Notice>)
    ensures
        notified(notice_key(summary, body), summary, body, before, after) ==> after == before,
        notice_key(other_summary, other_body) != notice_key(summary, body) ==> (notified(
            notice_key(summary, body),
            other_summary,
            other_body,
            before,
            after,
        ) ==> after.len() == before.len() + 1),
{
}

/// The application's record of the current task agrees with its tracker: the tracker keeps
/// its invariant, it tracks the recorded task, and a name is recorded exactly when a task is.
pub open spec fn in_step(c: AppCore) -> bool {
    &&& c.tracker@.wf()
    &&& c.current_task_id == c.tracker@.current_task_id
    &&& (c.current_task_name is Some) == (c.current_task_id is Some)
}

/// Every action keeps the record of the current task in step with the tracker.
pub proof fn law_actions_keep_in_step(
    pre: AppCore,
    post: AppCore,
    task_id: i64,
    name: Seq<char>,
    is_payable: bool,
    now: i64,
    session: nat,
    elapsed: Span,
    stop_r: (Result<TimeEntry, String>, Effects),
    start_r: (Result<(), String>, Effects),
    other_r: (Result<(), String>, Vec<Notice>),
)
    requires
        in_step(pre),
    ensures
        stop_outcome(pre, post, stop_r, now, session) ==> in_step(post),
        start_outcome(pre, post, task_id, name, is_payable, start_r, now, session) ==> in_step(post),
        pause_outcome(pre, post, other_r, session) ==> in_step(post),
        resume_outcome(pre, post, other_r) ==> in_step(post),
        idle_check_outcome(pre, post, elapsed, session) ==> in_step(post),
{
    crate::tracker::law_steps_keep_wf(pre.tracker@, task_id, session);
    crate::tracker::law_steps_keep_wf(idle_view(), task_id, session);
}

/// Stopping a session counts the time measured for it: the entry of a running task is its
/// earlier time plus the measured session, so never less than that session, and the period
/// stored for it spans exactly the entry's whole seconds, ending now; a task that ran for at
/// least a second, whose start fits, always gets its period stored.
pub proof fn law_stop_counts_measured_session(pre: AppCore, post: AppCore, r: (Result<TimeEntry, String>, Effects), now: i64, reading: Span)
    requires
        pre.tracker@.wf(),
        pre.tracker@.state != TrackerState::Idle,
        stop_outcome(pre, post, r, now, reading.nanos()),
    ensures
        r.0 matches Ok(entry) && {
            let secs = entry.duration.nanos() / 1_000_000_000;
            &&& pre.tracker@.state == TrackerState::Running ==> entry.duration.nanos()
                == pre.tracker@.accumulated + reading.nanos()
            &&& pre.tracker@.state == TrackerState::Running ==> entry.duration.nanos() >= reading.nanos()
            &&& (r.1.record matches Some(p) ==> {
                &&& entry.task_id == Some(p.task_id)
                &&& p.duration == secs as i64
                &&& p.duration > 0
                &&& p.end == now
                &&& p.begin == now - p.duration
            })
            &&& (entry.task_id is Some && (secs as i64) > 0 && now - (secs as i64) >= i64::MIN ==> r.1.record
                is Some)
        },
{
}

/// Starting a task while another one runs stores the other one's period with the time
/// measured for its session: its length is the whole seconds of its earlier time plus that
/// session.
pub proof fn law_start_stores_measured_session(
    pre: AppCore,
    post: AppCore,
    task_id: i64,
    name: Seq<char>,
    is_payable: bool,
    r: (Result<(), String>, Effects),
    now: i64,
    reading: Span,
)
    requires
        pre.tracker@.wf(),
        pre.tracker@.state == TrackerState::Running,
        start_outcome(pre, post, task_id, name, is_payable, r, now, reading.nanos()),
    ensures
        ({
            let secs = ((pre.tracker@.accumulated + reading.nanos()) / 1_000_000_000) as i64;
            &&& (r.1.record matches Some(p) ==> Some(p.task_id) == pre.tracker@.current_task_id && p.duration
                == secs && p.end == now && p.begin == now - secs && p.is_payable == pre.current_task_payable)
            &&& (secs > 0 && now - secs >= i64::MIN ==> r.1.record is Some)
        }),
{
}

/// Pausing keeps the time measured for the session: the accumulated time grows by exactly
/// that session, so no tracked time is lost.
pub proof fn law_pause_keeps_measured_session(pre: AppCore, post: AppCore, r: (Result<(), String>, Vec<Notice>), reading: Span)
    requires
        pre.tracker@.wf(),
        pre.tracker@.state == TrackerState::Running,
        pause_outcome(pre, post, r, reading.nanos()),
    ensures
        r.0 is Ok,
        post.tracker@.state == TrackerState::Paused,
        post.tracker@.accumulated == pre.tracker@.accumulated + reading.nanos(),
        post.tracker@.accumulated >= reading.nanos(),
{
}

/// Inactivity measured at or past the threshold while a task runs pauses it, keeping the
/// measured session, and raises the idle dialog; shorter inactivity leaves the tracker as it
/// was.
pub proof fn law_idle_pause_follows_measured_inactivity(pre: AppCore, post: AppCore, elapsed: Span, session: nat)
    requires
        pre.tracker@.wf(),
        pre.tracker@.state == TrackerState::Running,
        pre.idle@.state == IdleState::Active,
        idle_check_outcome(pre, post, elapsed, session),
    ensures
        elapsed.nanos() >= pre.idle@.threshold.nanos() ==> {
            &&& post.tracker@.state == TrackerState::Paused
            &&& post.tracker@.accumulated == pre.tracker@.accumulated + session
            &&& post.idle_dialog == Some(IdleEvent::BecameIdle(elapsed))
            &&& post.idle@.state == IdleState::Idle(elapsed)
        },
        elapsed.nanos() < pre.idle@.threshold.nanos() ==> post.tracker@ == pre.tracker@,
{
}

/// The key of a stop notification differs from that of a start notification.
proof fn lemma_stop_and_start_keys_differ(stop_body: Seq<char>, start_body: Seq<char>)
    requires
        stop_body.len() > 2 && stop_body[2] == 'o',
        start_body.len() > 2 && start_body[2] == 'a',
    ensures
        notice_key(app_title(), stop_body) != notice_key(app_title(), start_body),
{
    assert(notice_key(app_title(), stop_body)[10] == 'o');
    assert(notice_key(app_title(), start_body)[10] == 'a');
}

impl AppCore {
    /// The state at start-up: idle, nothing selected, window shown.
    pub fn new() -> (c: Self)
        ensures
            in_step(c),
            c.tracker@.idle(),
            c.current_task_name is None,
            c.current_task_id is None,
            c.current_task_payable,
            c.window_visible,
            c.last_status@ == Seq::<char>::empty(),
            c.idle@.state == IdleState::Active,
            c.idle@.threshold.nanos() == crate::idle::IDLE_TIMEOUT_SECS * 1_000_000_000,
            !c.idle@.was_tracking,
            c.idle_dialog is None,
            c.last_notify@ == Seq::<char>::empty(),
    {
        AppCore {
            tracker: TimeTracker::new(),
            current_task_name: None,
            current_task_id: None,
            current_task_payable: true,
            window_visible: true,
            last_status: String::new(),
            idle: IdleDetector::new(),
            idle_dialog: None,
            last_notify: String::new(),
        }
    }

    /// Adds the notification `summary` / `body` to `notices` unless it is the one sent last.
    pub fn notify(&mut self, summary: &str, body: String, notices: &mut Vec<Notice>)
        ensures
            final(self).last_notify@ == notice_key(summary@, body@),
            notified(old(self).last_notify@, summary@, body@, old(notices)@, final(notices)@),
            *final(self) == (AppCore { last_notify: final(self).last_notify, ..*old(self) }),
    {
        let mut key = String::from_str(summary);
        proof {
            reveal_strlit("|");
        }
        key.append("|");
        key.append(body.as_str());
        assert(key@ =~= notice_key(summary@, body@));
        if self.last_notify == key {
            return;
        }
        self.last_notify = key;
        let ghost before = notices@;
        notices.push(Notice { summary: String::from_str(summary), body });
        assert(notices@.drop_last() =~= before);
    }

    /// The tracker's state.
    pub fn tracker_state(&self) -> (r: TrackerState)
        ensures
            r == self.tracker@.state,
    {
        self.tracker.state()
    }

    /// Whole seconds tracked so far.
    pub fn elapsed_seconds(&self) -> (r: u64)
        ensures
            exists|session: nat| r == #[trigger] self.tracker@.total_with(session) / 1_000_000_000,
    {
        let e = self.tracker.elapsed();
        e.as_secs()
    }

    /// Shows a hidden window and hides a shown one.
    pub fn toggle_window(&mut self)
        ensures
            *final(self) == (AppCore { window_visible: !old(self).window_visible, ..*old(self) }),
    {
        self.window_visible = !self.window_visible;
    }

    /// The last status message.
    pub fn status_line(&self) -> (r: &str)
        ensures
            r@ == self.last_status@,
    {
        self.last_status.as_str()
    }

    /// Records user activity.
    pub fn register_activity(&mut self)
        ensures
            final(self).idle@ == (IdleView { state: IdleState::Active, ..old(self).idle@ }),
            *final(self) == (AppCore { idle: final(self).idle, ..*old(self) }),
    {
        self.idle.poke();
    }

    /// Closes the inactivity banner: the user counts as active again and the dialog goes.
    pub fn acknowledge_idle(&mut self)
        ensures
            final(self).idle@ == (IdleView { state: IdleState::Active, ..old(self).idle@ }),
            *final(self) == (AppCore { idle: final(self).idle, idle_dialog: None, ..*old(self) }),
    {
        self.idle.acknowledge_return();
        self.idle_dialog = None;
    }

    /// Stops tracking at the Unix time `now`, where the running session (if any) lasted
    /// `session`: the entry of the task that ended, the period to store when the task is
    /// known and took at least a second, and a notification.
    pub fn stop_tracking_at(&mut self, now: i64, session: Span) -> (r: (Result<TimeEntry, String>, Effects))
        requires
            old(self).tracker@.in_session ==> old(self).tracker@.accumulated + session.nanos() <= span_max(),
        ensures
            stop_outcome(*old(self), *final(self), r, now, session.nanos()),
            final(self).tracker.last_reading() == old(self).tracker.last_reading(),
    {
        let mut notices: Vec<Notice> = Vec::new();
        if self.tracker.state() == TrackerState::Idle {
            proof {
                reveal_strlit("Not tracking");
            }
            return (Err(String::from_str("Not tracking")), Effects { record: None, notices });
        }
        let entry = match self.tracker.stop_after(session) {
            Ok(e) => e,
            Err(msg) => {
                return (Err(String::from_str(msg)), Effects { record: None, notices });
            },
        };
        let secs = #[verifier::truncate] (entry.duration.as_secs() as i64);
        let record = match entry.task_id {
            Some(task_id) => if secs > 0 {
                match now.checked_sub(secs) {
                    Some(begin) => Some(
                        PeriodRecord {
                            task_id,
                            begin,
                            end: now,
                            duration: secs,
                            is_payable: self.current_task_payable,
                        },
                    ),
                    None => None,
                }
            } else {
                None
            },
            None => None,
        };
        self.current_task_name = None;
        self.current_task_id = None;
        proof {
            reveal_strlit("Chronos");
            reveal_strlit("Stopped tracking. Duration: ");
        }
        let mut body = String::from_str("Stopped tracking. Duration: ");
        let dur = format_duration(entry.duration.as_secs());
        body.append(dur.as_str());
        assert("Chronos"@ =~= app_title());
        self.notify("Chronos", body, &mut notices);
        (Ok(entry), Effects { record, notices })
    }

    /// Stops tracking now: the entry of the task that ended, the period to store when the
    /// task is known and took at least a second, and a notification.
    pub fn stop_tracking(&mut self) -> (r: (Result<TimeEntry, String>, Effects))
        ensures
            exists|now: i64, session: nat| #[trigger] stop_outcome(*old(self), *final(self), r, now, session),
            exists|now: i64| #[trigger] stop_outcome(
                *old(self),
                *final(self),
                r,
                now,
                final(self).tracker.last_reading().nanos(),
            ),
    {
        let ghost pre = *self;
        let session = if self.tracker.state() != TrackerState::Idle {
            self.tracker.measure_session()
        } else {
            Span::zero()
        };
        let ghost mid = *self;
        let now = now_ts();
        let r = self.stop_tracking_at(now, session);
        proof {
            assert(mid == (AppCore { tracker: mid.tracker, ..pre }));
            assert(stop_outcome(pre, *self, r, now, session.nanos()));
            assert(stop_outcome(pre, *self, r, now, self.tracker.last_reading().nanos()));
        }
        r
    }

    /// Starts tracking `task_id`, named `task_name` and billable when `is_payable`, at the
    /// Unix time `now`, after stopping whatever ran before, whose running session (if any)
    /// lasted `session`.
    pub fn start_tracking_at(&mut self, task_id: i64, task_name: &str, is_payable: bool, now: i64, session: Span) -> (r: (Result<(), String>, Effects))
        requires
            old(self).tracker@.in_session ==> old(self).tracker@.accumulated + session.nanos() <= span_max(),
        ensures
            start_outcome(*old(self), *final(self), task_id, task_name@, is_payable, r, now, session.nanos()),
            final(self).tracker.last_reading() == old(self).tracker.last_reading(),
    {
        let mut record: Option<PeriodRecord> = None;
        let mut notices: Vec<Notice> = Vec::new();
        if self.tracker.state() != TrackerState::Idle {
            let (_, effects) = self.stop_tracking_at(now, session);
            record = effects.record;
            notices = effects.notices;
        }
        proof {
            reveal_strlit("Invalid task ID");
        }
        match self.tracker.start(task_id) {
            Ok(()) => {},
            Err(msg) => {
                return (Err(String::from_str(msg)), Effects { record, notices });
            },
        }
        self.current_task_id = Some(task_id);
        self.current_task_name = Some(String::from_str(task_name));
        self.current_task_payable = is_payable;
        proof {
            reveal_strlit("Chronos");
            reveal_strlit("Started tracking: ");
            reveal_strlit("Stopped tracking. Duration: ");
        }
        let mut body = String::from_str("Started tracking: ");
        body.append(task_name);
        assert("Chronos"@ =~= app_title());
        let ghost before = notices@;
        proof {
            let secs = old(self).tracker@.total_with(session.nanos()) / 1_000_000_000;
            assert(stopped_body(secs)[2] == 'o');
            assert(body@ == started_body(task_name@));
            lemma_stop_and_start_keys_differ(stopped_body(secs), body@);
        }
        self.notify("Chronos", body, &mut notices);
        proof {
            if old(self).tracker@.state != TrackerState::Idle {
                assert(notices@.drop_last() =~= before);
            }
        }
        (Ok(()), Effects { record, notices })
    }

    /// Starts tracking `task_id`, named `task_name` and billable when `is_payable`, now,
    /// after stopping whatever ran before.
    pub fn start_tracking(&mut self, task_id: i64, task_name: &str, is_payable: bool) -> (r: (Result<(), String>, Effects))
        ensures
            exists|now: i64, session: nat| #[trigger] start_outcome(*old(self), *final(self), task_id, task_name@, is_payable, r, now, session),
            exists|now: i64| #[trigger] start_outcome(
                *old(self),
                *final(self),
                task_id,
                task_name@,
                is_payable,
                r,
                now,
                final(self).tracker.last_reading().nanos(),
            ),
    {
        let ghost pre = *self;
        let session = self.tracker.measure_session();
        let ghost mid = *self;
        let now = now_ts();
        let r = self.start_tracking_at(task_id, task_name, is_payable, now, session);
        proof {
            assert(mid == (AppCore { tracker: mid.tracker, ..pre }));
            assert(start_outcome(pre, *self, task_id, task_name@, is_payable, r, now, session.nanos()));
        }
        r
    }

    /// Pauses the running task, whose session lasted `session`.
    pub fn pause_tracking_after(&mut self, session: Span) -> (r: (Result<(), String>, Vec<Notice>))
        requires
            old(self).tracker@.in_session ==> old(self).tracker@.accumulated + session.nanos() <= span_max(),
        ensures
            pause_outcome(*old(self), *final(self), r, session.nanos()),
            final(self).tracker.last_reading() == old(self).tracker.last_reading(),
    {
        let mut notices: Vec<Notice> = Vec::new();
        match self.tracker.pause_after(session) {
            Ok(()) => {},
            Err(msg) => {
                return (Err(String::from_str(msg)), notices);
            },
        }
        proof {
            reveal_strlit("Chronos");
            reveal_strlit("Tracking paused");
        }
        assert("Chronos"@ =~= app_title());
        self.notify("Chronos", String::from_str("Tracking paused"), &mut notices);
        (Ok(()), notices)
    }

    /// Pauses the running task.
    pub fn pause_tracking(&mut self) -> (r: (Result<(), String>, Vec<Notice>))
        ensures
            exists|session: nat| #[trigger] pause_outcome(*old(self), *final(self), r, session),
            pause_outcome(*old(self), *final(self), r, final(self).tracker.last_reading().nanos()),
    {
        let ghost pre = *self;
        let session = self.tracker.measure_session();
        let ghost mid = *self;
        let r = self.pause_tracking_after(session);
        proof {
            assert(mid == (AppCore { tracker: mid.tracker, ..pre }));
            assert(pause_outcome(pre, *self, r, session.nanos()));
        }
        r
    }

    /// Resumes the paused task.
    pub fn resume_tracking(&mut self) -> (r: (Result<(), String>, Vec<Notice>))
        ensures
            resume_outcome(*old(self), *final(self), r),
    {
        let mut notices: Vec<Notice> = Vec::new();
        match self.tracker.resume() {
            Ok(()) => {},
            Err(msg) => {
                return (Err(String::from_str(msg)), notices);
            },
        }
        proof {
            reveal_strlit("Chronos");
            reveal_strlit("Resumed tracking: ");
            reveal_strlit("task");
        }
        let mut body = String::from_str("Resumed tracking: ");
        match &self.current_task_name {
            Some(name) => body.append(name.as_str()),
            None => body.append("task"),
        }
        assert("Chronos"@ =~= app_title());
        self.notify("Chronos", body, &mut notices);
        (Ok(()), notices)
    }

    /// Sets the status line for `secs` seconds tracked so far.
    pub fn update_status_with(&mut self, secs: u64)
        ensures
            final(self).last_status@ == status_text(
                old(self).tracker@.state,
                name_or_empty(old(self).current_task_name),
                secs as nat,
            ),
            *final(self) == (AppCore { last_status: final(self).last_status, ..*old(self) }),
    {
        let state = self.tracker.state();
        let name: &str = match &self.current_task_name {
            Some(n) => n.as_str(),
            None => "",
        };
        proof {
            reveal_strlit("");
            reveal_strlit("Idle");
            reveal_strlit("Tracking (");
            reveal_strlit("Paused (");
            reveal_strlit(")");
            reveal_strlit(" \u{2014} ");
        }
        let status = match state {
            TrackerState::Idle => String::from_str("Idle"),
            TrackerState::Running => {
                let dur = format_duration(secs);
                if name.is_empty() {
                    let mut s = String::from_str("Tracking (");
                    s.append(dur.as_str());
                    s.append(")");
                    s
                } else {
                    let mut s = String::from_str(name);
                    s.append(" \u{2014} ");
                    s.append(dur.as_str());
                    s
                }
            },
            TrackerState::Paused => {
                let dur = format_duration(secs);
                if name.is_empty() {
                    let mut s = String::from_str("Paused (");
                    s.append(dur.as_str());
                    s.append(")");
                    s
                } else {
                    let mut s = String::from_str(name);
                    s.append(" \u{2014} ");
                    s.append("Paused (");
                    s.append(dur.as_str());
                    s.append(")");
                    s
                }
            },
        };
        assert(status@ =~= status_text(
            state,
            name_or_empty(self.current_task_name),
            secs as nat,
        ));
        self.last_status = status;
    }

    /// Sets the status line from the tracker's state and the time tracked so far.
    pub fn update_status(&mut self)
        ensures
            exists|secs: u64| final(self).last_status@ == #[trigger] status_text(
                old(self).tracker@.state,
                name_or_empty(old(self).current_task_name),
                secs as nat,
            ),
            *final(self) == (AppCore { last_status: final(self).last_status, ..*old(self) }),
    {
        let secs = self.elapsed_seconds();
        self.update_status_with(secs);
    }

    /// Moves the idle detector on according to the time since the last activity; when the
    /// user became idle during a session, the session is paused and the status line says so.
    pub fn check_idle(&mut self)
        ensures
            exists|elapsed: Span, session: nat| #[trigger] idle_check_outcome(*old(self), *final(self), elapsed, session),
            idle_check_outcome(
                *old(self),
                *final(self),
                final(self).idle.last_reading(),
                final(self).tracker.last_reading().nanos(),
            ),
    {
        let ghost pre = *self;
        let elapsed = self.idle.measure_inactivity();
        let session = self.tracker.measure_session();
        let ghost mid = *self;
        self.check_idle_after(elapsed, session);
        proof {
            assert(mid == (AppCore { tracker: mid.tracker, idle: mid.idle, ..pre }));
            assert(idle_check_outcome(pre, *self, elapsed, session.nanos()));
        }
    }

    /// Moves the idle detector on, where the last activity was `elapsed` ago and the running
    /// session (if any) has lasted `session`; when the user became idle during a session, the
    /// session is paused and the status line says so. Any event shows in the dialog.
    pub fn check_idle_after(&mut self, elapsed: Span, session: Span)
        requires
            old(self).tracker@.in_session ==> old(self).tracker@.accumulated + session.nanos() <= span_max(),
        ensures
            idle_check_outcome(*old(self), *final(self), elapsed, session.nanos()),
            final(self).tracker.last_reading() == old(self).tracker.last_reading(),
            final(self).idle.last_reading() == old(self).idle.last_reading(),
    {
        let was_running = self.tracker.state() == TrackerState::Running;
        if let Some(event) = self.idle.update_after(elapsed, was_running) {
            match &event {
                IdleEvent::BecameIdle(dur) => {
                    if self.tracker.state() == TrackerState::Running {
                        let _ = self.tracker.pause_after(session);
                        proof {
                            reveal_strlit("Auto-paused after idle (");
                            reveal_strlit(")");
                        }
                        let mut status = String::from_str("Auto-paused after idle (");
                        let text = format_duration(dur.as_secs());
                        status.append(text.as_str());
                        status.append(")");
                        assert(status@ =~= "Auto-paused after idle ("@ + duration_text(
                            elapsed.nanos() / 1_000_000_000,
                        ) + seq![')']);
                        self.last_status = status;
                    }
                },
                IdleEvent::ReturnedFromIdle => {},
            }
            self.idle_dialog = Some(event);
        }
    }
}

} // verus!
