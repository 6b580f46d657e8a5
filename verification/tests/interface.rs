use chronos::app::{AppCore, Notice, PeriodRecord};
use chronos::clock::Span;
use chronos::db::TaskRow;
use chronos::export::{csv_header, csv_record, escape_csv, export_path};
use chronos::idle::{IdleEvent, IdleState};
use chronos::lock::{lock_change, locked_from_reply, pauses_tracking, HintReply, LockEvent};
use chronos::log_buffer::{push_log_line, LOG_CAPACITY};
use chronos::tracker::TrackerState;
use chronos::tray::{icon_rgba, tray_command, IconError, TrayCommand, MENU_ID_QUIT, MENU_ID_START};
use chronos::stats::{report_totals, TaskReportItem};
use chronos::ui::{
    idle_message, menu_enabled, menu_status, parse_date_filter, pause_toggle, start_stop_action,
    tray_tooltip, try_parse_date_filter, PauseToggle, ToggleAction,
};

const ONE_PIXEL_PNG: [u8; 70] = [
    137, 80, 78, 71, 13, 10, 26, 10, 0, 0, 0, 13, 73, 72, 68, 82, 0, 0, 0, 1, 0, 0, 0, 1, 8, 6,
    0, 0, 0, 31, 21, 196, 137, 0, 0, 0, 13, 73, 68, 65, 84, 120, 156, 99, 248, 207, 192, 240, 31,
    0, 5, 0, 1, 255, 137, 153, 61, 29, 0, 0, 0, 0, 73, 69, 78, 68, 174, 66, 96, 130,
];

#[test]
fn date_filters_parse_to_day_starts() {
    assert_eq!(parse_date_filter("2024-01-01", 7), 1704067200);
    assert_eq!(parse_date_filter("  1970-01-02 ", 7), 86400);
    assert_eq!(parse_date_filter("2024-03-01", 7), 1709251200);
    assert_eq!(parse_date_filter("", 7), 7);
    assert_eq!(parse_date_filter("   ", 7), 7);
    assert_eq!(parse_date_filter("2024-01", 7), 7);
    assert_eq!(parse_date_filter("2024-01-01-01", 7), 7);
    assert_eq!(parse_date_filter("x-y-z", 7), 0);
    assert_eq!(parse_date_filter("+1970-+1-+3", 7), 2 * 86400);
    assert_eq!(parse_date_filter("1969-1-1", 7), 0);
    assert_eq!(parse_date_filter("1970-1-0", 7), -86400);
    assert_eq!(parse_date_filter("1970-13-1", 7), 365 * 86400);
}

#[test]
fn date_filters_out_of_range_are_refused() {
    assert_eq!(try_parse_date_filter("2024-14-01", 0), None);
    assert_eq!(try_parse_date_filter("2024-13-01", 0), Some(1704067200 + 366 * 86400));
    assert_eq!(try_parse_date_filter("1970-1-99999999999999999", 0), None);
    assert_eq!(try_parse_date_filter("nothing", 5), Some(5));
}

#[test]
fn tray_texts_and_flags() {
    assert_eq!(tray_tooltip(TrackerState::Idle, 5), "Chronos \u{2014} Idle");
    assert_eq!(tray_tooltip(TrackerState::Running, 65), "Chronos \u{2014} Tracking (1m 05s)");
    assert_eq!(tray_tooltip(TrackerState::Paused, 3), "Chronos \u{2014} Paused (3s)");
    assert_eq!(menu_status(TrackerState::Idle, Some("X"), 1), "Status: Idle");
    assert_eq!(menu_status(TrackerState::Running, Some("Write"), 3600), "Tracking: Write (1h 00m 00s)");
    assert_eq!(menu_status(TrackerState::Paused, None, 0), "Paused: Unknown Task (0s)");
    let idle = menu_enabled(TrackerState::Idle);
    assert!(idle.start && !idle.stop && !idle.pause && !idle.resume);
    let running = menu_enabled(TrackerState::Running);
    assert!(!running.start && running.stop && running.pause && !running.resume);
    let paused = menu_enabled(TrackerState::Paused);
    assert!(paused.start && paused.stop && !paused.pause && paused.resume);
    assert_eq!(start_stop_action(TrackerState::Running), ToggleAction::Stop);
    assert_eq!(start_stop_action(TrackerState::Paused), ToggleAction::StartSelected);
    assert_eq!(tray_command(MENU_ID_START), Some(TrayCommand::Start));
    assert_eq!(tray_command(MENU_ID_QUIT), Some(TrayCommand::Quit));
    assert_eq!(tray_command("toggle"), Some(TrayCommand::Toggle));
    assert_eq!(tray_command("logs"), None);
}

#[test]
fn csv_fields_are_quoted_when_needed() {
    assert_eq!(escape_csv("plain"), "plain");
    assert_eq!(escape_csv("a,b"), "\"a,b\"");
    assert_eq!(escape_csv("say \"hi\""), "\"say \"\"hi\"\"\"");
    assert_eq!(escape_csv("two\nlines"), "\"two\nlines\"");
    assert_eq!(escape_csv(""), "");
}

#[test]
fn csv_records_are_exact() {
    assert_eq!(
        csv_header(),
        "Task,Start Time,End Time,Duration (seconds),Duration (formatted),Billable"
    );
    assert_eq!(
        csv_record(Some("Test, Task"), 3, 1000, 2000, 1000, true),
        "\"Test, Task\",1970-01-01 00:16:40,1970-01-01 00:33:20,1000,16m 40s,Yes"
    );
    assert_eq!(csv_record(None, 42, 0, -5, 500, false), "#42,\u{2014},\u{2014},500,8m 20s,No");
}

#[test]
fn lock_changes_are_reported_once() {
    assert_eq!(lock_change(false, true), Some(LockEvent::Locked));
    assert_eq!(lock_change(true, false), Some(LockEvent::Unlocked));
    assert_eq!(lock_change(true, true), None);
    assert_eq!(lock_change(false, false), None);
}

#[test]
fn log_keeps_the_latest_lines() {
    let mut lines: Vec<String> = Vec::new();
    for i in 0..(LOG_CAPACITY + 5) {
        push_log_line(&mut lines, format!("line {i}"));
    }
    assert_eq!(lines.len(), LOG_CAPACITY);
    assert_eq!(lines[0], "line 5");
    assert_eq!(lines[LOG_CAPACITY - 1], format!("line {}", LOG_CAPACITY + 4));
}

#[test]
fn task_rows_trim_notes() {
    let row = TaskRow::from_columns(1, None, "N".to_string(), true, false, false, "  note \n", 9);
    assert_eq!(row.notes, "note");
    assert_eq!(row.name, "N");
    assert_eq!(row.created_at, 9);
}

#[test]
fn icon_pixels_are_scaled_to_the_icon_size() {
    let px = icon_rgba(&ONE_PIXEL_PNG).unwrap();
    assert_eq!(px.len(), 32 * 32 * 4);
    assert_eq!(&px[0..4], &[255, 0, 0, 255]);
    assert_eq!(icon_rgba(&[1, 2, 3]), Err(IconError::Decode));
}

fn summaries(notices: &[Notice]) -> Vec<String> {
    notices.iter().map(|n| format!("{}|{}", n.summary, n.body)).collect()
}

#[test]
fn app_core_tracks_and_notifies() {
    let mut core = AppCore::new();
    assert_eq!(core.tracker_state(), TrackerState::Idle);
    let (r, fx) = core.start_tracking(7, "Write", true);
    assert_eq!(r, Ok(()));
    assert!(fx.record.is_none());
    assert_eq!(summaries(&fx.notices), vec!["Chronos|Started tracking: Write".to_string()]);
    assert_eq!(core.current_task_id, Some(7));
    core.update_status_with(65);
    assert_eq!(core.status_line(), "Write \u{2014} 1m 05s");
    let (r, notices) = core.pause_tracking();
    assert_eq!(r, Ok(()));
    assert_eq!(summaries(&notices), vec!["Chronos|Tracking paused".to_string()]);
    core.update_status_with(3600);
    assert_eq!(core.status_line(), "Write \u{2014} Paused (1h 00m 00s)");
    let (r, notices) = core.resume_tracking();
    assert_eq!(r, Ok(()));
    assert_eq!(summaries(&notices), vec!["Chronos|Resumed tracking: Write".to_string()]);
    let (r, fx) = core.stop_tracking();
    let entry = r.unwrap();
    assert_eq!(entry.task_id, Some(7));
    assert!(fx.record.is_none());
    assert_eq!(summaries(&fx.notices), vec!["Chronos|Stopped tracking. Duration: 0s".to_string()]);
    core.update_status_with(0);
    assert_eq!(core.status_line(), "Idle");
    let (r, fx) = core.stop_tracking();
    assert_eq!(r, Err("Not tracking".to_string()));
    assert!(fx.notices.is_empty());
    assert_eq!(core.start_tracking(0, "Nope", true).0, Err("Invalid task ID".to_string()));
}

#[test]
fn app_core_repeats_no_notification() {
    let mut core = AppCore::new();
    let mut notices = Vec::new();
    core.notify("Chronos", "Tracking paused".to_string(), &mut notices);
    core.notify("Chronos", "Tracking paused".to_string(), &mut notices);
    assert_eq!(notices.len(), 1);
    core.notify("Chronos", "Other".to_string(), &mut notices);
    assert_eq!(notices.len(), 2);
}

#[test]
fn app_core_pauses_when_idle() {
    let mut core = AppCore::new();
    core.start_tracking(3, "Read", true).0.unwrap();
    core.check_idle_after(Span::from_secs(301), Span::from_secs(42));
    assert_eq!(core.tracker_state(), TrackerState::Paused);
    assert_eq!(core.tracker.accumulated(), Span::from_secs(42));
    assert_eq!(core.status_line(), "Auto-paused after idle (5m 01s)");
    assert_eq!(core.idle_dialog, Some(IdleEvent::BecameIdle(Span::from_secs(301))));
    assert_eq!(core.idle.state(), IdleState::Idle(Span::from_secs(301)));
    core.check_idle_after(Span::from_secs(1), Span::zero());
    assert_eq!(core.idle_dialog, Some(IdleEvent::ReturnedFromIdle));
    assert_eq!(core.tracker_state(), TrackerState::Paused);
    core.register_activity();
    assert_eq!(core.idle.state(), IdleState::Active);
    core.toggle_window();
    assert!(!core.window_visible);
}

#[test]
fn app_core_records_periods_at_given_times() {
    let mut core = AppCore::new();
    let (r, fx) = core.start_tracking_at(5, "Write", true, 1_000, Span::zero());
    assert_eq!(r, Ok(()));
    assert!(fx.record.is_none());
    let (r, fx) = core.start_tracking_at(6, "Read", true, 2_000, Span::from_secs(90));
    assert_eq!(r, Ok(()));
    assert_eq!(
        fx.record,
        Some(PeriodRecord { task_id: 5, begin: 1_910, end: 2_000, duration: 90, is_payable: true })
    );
    assert_eq!(
        summaries(&fx.notices),
        vec![
            "Chronos|Stopped tracking. Duration: 1m 30s".to_string(),
            "Chronos|Started tracking: Read".to_string(),
        ]
    );
    assert_eq!(core.current_task_id, Some(6));
    let (r, notices) = core.pause_tracking_after(Span::from_millis(500));
    assert_eq!(r, Ok(()));
    assert_eq!(summaries(&notices), vec!["Chronos|Tracking paused".to_string()]);
    let (r, fx) = core.stop_tracking_at(3_000, Span::from_secs(7));
    assert_eq!(r.unwrap().duration, Span::from_millis(500));
    assert!(fx.record.is_none());
    let (r, notices) = core.pause_tracking_after(Span::zero());
    assert_eq!(r, Err("Cannot pause: tracker is not running".to_string()));
    assert!(notices.is_empty());
    let (r, notices) = core.resume_tracking();
    assert_eq!(r, Err("Cannot resume: tracker is not paused".to_string()));
    assert!(notices.is_empty());
    let (r, fx) = core.start_tracking_at(-1, "Bad", true, 4_000, Span::zero());
    assert_eq!(r, Err("Invalid task ID".to_string()));
    assert!(fx.notices.is_empty());
    assert_eq!(core.tracker_state(), TrackerState::Idle);
}

#[test]
fn app_core_stops_before_an_invalid_start() {
    let mut core = AppCore::new();
    core.start_tracking_at(4, "Plan", true, 100, Span::zero()).0.unwrap();
    let (r, fx) = core.start_tracking_at(0, "Bad", true, 200, Span::from_secs(100));
    assert_eq!(r, Err("Invalid task ID".to_string()));
    assert_eq!(
        fx.record,
        Some(PeriodRecord { task_id: 4, begin: 100, end: 200, duration: 100, is_payable: true })
    );
    assert_eq!(summaries(&fx.notices), vec!["Chronos|Stopped tracking. Duration: 1m 40s".to_string()]);
    assert_eq!(core.current_task_id, None);
    assert_eq!(core.current_task_name, None);
    assert_eq!(core.tracker_state(), TrackerState::Idle);
}

#[test]
fn shortcuts_and_banners() {
    assert_eq!(pause_toggle(TrackerState::Running), Some(PauseToggle::Pause));
    assert_eq!(pause_toggle(TrackerState::Paused), Some(PauseToggle::Resume));
    assert_eq!(pause_toggle(TrackerState::Idle), None);
    assert_eq!(
        idle_message(&IdleEvent::BecameIdle(Span::from_secs(301))),
        "Auto-paused after 5m 01s of inactivity."
    );
    assert_eq!(idle_message(&IdleEvent::ReturnedFromIdle), "Welcome back! Idle time was discarded.");
    assert_eq!(export_path(1_700_000_000), "/tmp/chronos_export_1700000000.csv");
}

#[test]
fn report_totals_add_up() {
    let item = |total: i64, billable: i64| TaskReportItem {
        task_id: 1,
        task_name: "T".to_string(),
        total_secs: total,
        billable_secs: billable,
    };
    assert_eq!(report_totals(&vec![]), Some((0, 0)));
    assert_eq!(report_totals(&vec![item(100, 40), item(60, 60)]), Some((160, 100)));
    assert_eq!(report_totals(&vec![item(i64::MAX, 0), item(1, 0)]), None);
    assert_eq!(report_totals(&vec![item(0, i64::MIN), item(0, -1)]), None);
}

#[test]
fn locked_hint_replies() {
    assert!(locked_from_reply(Some(HintReply::Bool(true))));
    assert!(!locked_from_reply(Some(HintReply::Bool(false))));
    assert!(locked_from_reply(Some(HintReply::Variant(Some(true)))));
    assert!(!locked_from_reply(Some(HintReply::Variant(Some(false)))));
    assert!(!locked_from_reply(Some(HintReply::Variant(None))));
    assert!(!locked_from_reply(Some(HintReply::Other)));
    assert!(!locked_from_reply(None));
}

#[test]
fn app_core_acknowledges_idle() {
    let mut core = AppCore::new();
    core.start_tracking_at(3, "Read", true, 10, Span::zero()).0.unwrap();
    core.check_idle_after(Span::from_secs(600), Span::from_secs(5));
    assert_eq!(core.idle.state(), IdleState::Idle(Span::from_secs(600)));
    core.acknowledge_idle();
    assert_eq!(core.idle.state(), IdleState::Active);
    assert_eq!(core.idle_dialog, None);
    assert_eq!(core.tracker_state(), TrackerState::Paused);
}

#[test]
fn app_core_keeps_task_record_in_step() {
    let in_step = |core: &AppCore| {
        core.current_task_id == core.tracker.current_task_id()
            && core.current_task_name.is_some() == core.current_task_id.is_some()
    };
    let mut core = AppCore::new();
    assert!(in_step(&core));
    core.start_tracking_at(2, "A", true, 10, Span::zero()).0.unwrap();
    assert!(in_step(&core));
    let _ = core.start_tracking_at(-3, "B", true, 20, Span::from_secs(5));
    assert!(in_step(&core));
    core.start_tracking_at(4, "C", true, 30, Span::zero()).0.unwrap();
    assert!(in_step(&core));
    core.pause_tracking_after(Span::from_secs(1)).0.unwrap();
    assert!(in_step(&core));
    core.check_idle_after(Span::from_secs(1000), Span::zero());
    assert!(in_step(&core));
    core.resume_tracking().0.unwrap();
    assert!(in_step(&core));
    core.check_idle_after(Span::from_secs(1000), Span::from_secs(3));
    assert!(in_step(&core));
    assert_eq!(core.tracker_state(), TrackerState::Paused);
    core.stop_tracking_at(40, Span::zero()).0.unwrap();
    assert!(in_step(&core));
    assert_eq!(core.current_task_id, None);
}

#[test]
fn only_locking_a_running_session_pauses_it() {
    assert!(pauses_tracking(LockEvent::Locked, TrackerState::Running));
    assert!(!pauses_tracking(LockEvent::Locked, TrackerState::Paused));
    assert!(!pauses_tracking(LockEvent::Locked, TrackerState::Idle));
    assert!(!pauses_tracking(LockEvent::Unlocked, TrackerState::Running));
}

#[test]
fn periods_follow_the_billable_flag_of_their_task() {
    let mut core = AppCore::new();
    core.start_tracking_at(9, "Chores", false, 1_000, Span::zero()).0.unwrap();
    let (_, fx) = core.start_tracking_at(10, "Client", true, 1_100, Span::from_secs(100));
    assert_eq!(
        fx.record,
        Some(PeriodRecord { task_id: 9, begin: 1_000, end: 1_100, duration: 100, is_payable: false })
    );
    let (_, fx) = core.stop_tracking_at(1_200, Span::from_secs(100));
    assert_eq!(
        fx.record,
        Some(PeriodRecord { task_id: 10, begin: 1_100, end: 1_200, duration: 100, is_payable: true })
    );
}
