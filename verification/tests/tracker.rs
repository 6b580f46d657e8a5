use chronos::clock::Span;
use chronos::tracker::{TimeEntry, TimeTracker, TrackerState};

#[test]
fn initial_state_is_idle() {
    let tracker = TimeTracker::new();
    assert_eq!(tracker.state(), TrackerState::Idle);
    assert!(tracker.current_task_id().is_none());
    assert_eq!(tracker.accumulated(), Span::zero());
}

#[test]
fn start_transitions_to_running() {
    let mut tracker = TimeTracker::new();
    tracker.start(1).unwrap();
    assert_eq!(tracker.state(), TrackerState::Running);
    assert_eq!(tracker.current_task_id(), Some(1));
}

#[test]
fn start_rejects_invalid_task_id() {
    let mut tracker = TimeTracker::new();
    assert!(tracker.start(0).is_err());
    assert!(tracker.start(-1).is_err());
}

#[test]
fn start_fails_if_already_running() {
    let mut tracker = TimeTracker::new();
    tracker.start(1).unwrap();
    assert!(tracker.start(2).is_err());
}

#[test]
fn pause_transitions_to_paused() {
    let mut tracker = TimeTracker::new();
    tracker.start(1).unwrap();
    tracker.pause().unwrap();
    assert_eq!(tracker.state(), TrackerState::Paused);
}

#[test]
fn pause_fails_if_not_running() {
    let mut tracker = TimeTracker::new();
    assert!(tracker.pause().is_err());
    tracker.start(1).unwrap();
    tracker.pause().unwrap();
    assert!(tracker.pause().is_err());
}

#[test]
fn resume_after_pause() {
    let mut tracker = TimeTracker::new();
    tracker.start(1).unwrap();
    tracker.pause().unwrap();
    tracker.resume().unwrap();
    assert_eq!(tracker.state(), TrackerState::Running);
    assert_eq!(tracker.current_task_id(), Some(1));
}

#[test]
fn resume_fails_if_not_paused() {
    let mut tracker = TimeTracker::new();
    assert!(tracker.resume().is_err());
    tracker.start(1).unwrap();
    assert!(tracker.resume().is_err());
}

#[test]
fn stop_fails_if_idle() {
    let mut tracker = TimeTracker::new();
    assert!(tracker.stop().is_err());
}

#[test]
fn state_transition_coverage() {
    let states = [
        (TrackerState::Idle, TrackerState::Running, "start"),
        (TrackerState::Running, TrackerState::Paused, "pause"),
        (TrackerState::Paused, TrackerState::Running, "resume"),
        (TrackerState::Running, TrackerState::Idle, "stop"),
        (TrackerState::Paused, TrackerState::Idle, "stop"),
    ];
    for &(_, target, action) in &states {
        let mut t = TimeTracker::new();
        if action == "start" {
            t.start(1).unwrap();
            assert_eq!(t.state(), target, "start -> {:?}", target);
        }
        if action == "pause" {
            t.start(1).unwrap();
            t.pause().unwrap();
            assert_eq!(t.state(), target);
        }
        if action == "resume" {
            t.start(1).unwrap();
            t.pause().unwrap();
            t.resume().unwrap();
            assert_eq!(t.state(), target);
        }
        if action == "stop" {
            t.start(1).unwrap();
            t.stop().unwrap();
            assert_eq!(t.state(), target);
        }
    }
}

#[test]
fn error_messages_are_exact() {
    let mut t = TimeTracker::new();
    assert_eq!(t.pause(), Err("Cannot pause: tracker is not running"));
    assert_eq!(t.resume(), Err("Cannot resume: tracker is not paused"));
    assert_eq!(t.stop(), Err("Cannot stop: tracker is already idle"));
    assert_eq!(t.switch_task(3), Err("Cannot switch: tracker is idle"));
    assert_eq!(t.start(0), Err("Invalid task ID"));
    t.start(1).unwrap();
    assert_eq!(t.start(2), Err("Cannot start: tracker is not idle"));
    assert_eq!(t.switch_task(0), Err("Invalid task ID"));
    assert_eq!(t.current_task_id(), Some(1));
}

#[test]
fn sessions_add_up_exactly() {
    let mut t = TimeTracker::new();
    t.start(4).unwrap();
    t.pause_after(Span::from_millis(20)).unwrap();
    assert_eq!(t.accumulated(), Span::from_millis(20));
    assert_eq!(t.elapsed_with(Span::from_millis(999)), Span::from_millis(20));
    t.resume().unwrap();
    assert_eq!(t.elapsed_with(Span::from_millis(5)), Span::from_millis(25));
    let entry = t.stop_after(Span::from_millis(10)).unwrap();
    assert_eq!(entry, TimeEntry { task_id: Some(4), duration: Span::from_millis(30) });
    assert_eq!(t.state(), TrackerState::Idle);
    assert_eq!(t.accumulated(), Span::zero());
    assert!(t.session_duration().is_none());
}

#[test]
fn switch_task_reports_previous_entry() {
    let mut t = TimeTracker::new();
    t.start(1).unwrap();
    let entry = t.switch_task_after(2, Span::from_secs(3)).unwrap();
    assert_eq!(entry.task_id, Some(1));
    assert_eq!(entry.duration.as_secs(), 3);
    assert_eq!(t.state(), TrackerState::Running);
    assert_eq!(t.current_task_id(), Some(2));
    assert_eq!(t.accumulated(), Span::zero());
    assert!(t.session_duration().is_some());
}

#[test]
fn clock_paths_never_lose_time() {
    let mut t = TimeTracker::new();
    t.start(1).unwrap();
    let e1 = t.elapsed();
    t.pause().unwrap();
    let paused = t.accumulated();
    assert!(paused >= e1);
    assert_eq!(t.accumulated(), paused);
    assert_eq!(t.elapsed(), paused);
    let entry = t.stop().unwrap();
    assert_eq!(entry.duration, paused);
}

#[test]
fn span_conversions() {
    let s = Span::from_millis(1500);
    assert_eq!(s.as_secs(), 1);
    assert_eq!(s.as_millis(), 1500);
    assert_eq!(s.as_nanos(), 1_500_000_000);
    assert_eq!(Span::from_secs(2).add(Span::from_nanos(7)).as_nanos(), 2_000_000_007);
    assert!(Span::zero().lt(&Span::from_nanos(1)));
}
