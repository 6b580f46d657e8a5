use chronos::clock::Span;
use chronos::idle::{IdleDetector, IdleEvent, IdleState};

#[test]
fn new_detector_is_active() {
    let d = IdleDetector::new();
    assert_eq!(d.state(), IdleState::Active);
}

#[test]
fn becomes_idle_only_while_tracking() {
    let mut d = IdleDetector::new();
    assert_eq!(d.update_after(Span::from_secs(301), false), None);
    assert_eq!(d.state(), IdleState::Active);
    assert_eq!(d.update_after(Span::from_secs(299), true), None);
    assert_eq!(
        d.update_after(Span::from_secs(300), true),
        Some(IdleEvent::BecameIdle(Span::from_secs(300)))
    );
    assert_eq!(d.state(), IdleState::Idle(Span::from_secs(300)));
}

#[test]
fn returns_from_idle_then_settles() {
    let mut d = IdleDetector::new();
    d.set_threshold(10);
    d.update_after(Span::from_secs(10), true).unwrap();
    assert_eq!(d.update_after(Span::from_secs(11), true), None);
    assert_eq!(d.update_after(Span::from_secs(1), true), Some(IdleEvent::ReturnedFromIdle));
    assert_eq!(d.state(), IdleState::Returning);
    assert_eq!(d.update_after(Span::from_millis(100), true), None);
    assert_eq!(d.state(), IdleState::Returning);
    assert_eq!(d.update_after(Span::from_millis(99), true), None);
    assert_eq!(d.state(), IdleState::Active);
}

#[test]
fn poke_and_acknowledge_make_active() {
    let mut d = IdleDetector::new();
    d.set_threshold(0);
    d.update_after(Span::zero(), true).unwrap();
    d.poke();
    assert_eq!(d.state(), IdleState::Active);
    d.update_after(Span::zero(), true).unwrap();
    d.acknowledge_return();
    assert_eq!(d.state(), IdleState::Active);
}

#[test]
fn fresh_detector_has_not_been_idle() {
    let mut d = IdleDetector::new();
    assert!(d.last_activity_elapsed() < Span::from_secs(300));
    assert_eq!(d.update(true), None);
}
