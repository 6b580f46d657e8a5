use chronos::backup::{backup_day, backup_file_name, is_stale_backup, prune_cutoff};
use chronos::stats::day_start;

#[test]
fn backup_names_carry_the_day() {
    assert_eq!(backup_file_name(1_700_006_400), "chronos_1700006400.db");
    assert_eq!(backup_file_name(0), "chronos_0.db");
    assert_eq!(backup_file_name(-86400), "chronos_-86400.db");
}

#[test]
fn backup_names_are_read_back() {
    for day in [0i64, 86400, 1_700_006_400, -86400, i64::MAX, i64::MIN] {
        assert_eq!(backup_day(&backup_file_name(day)), Some(day));
    }
}

#[test]
fn only_daily_backups_are_recognised() {
    assert_eq!(backup_day("chronos_123.db"), Some(123));
    assert_eq!(backup_day("chronos_+7.db"), Some(7));
    assert_eq!(backup_day("chronos_backup_tmp.db"), None);
    assert_eq!(backup_day("chronos_123.txt"), None);
    assert_eq!(backup_day("chronos_123.db.bak"), None);
    assert_eq!(backup_day("chronos_123"), None);
    assert_eq!(backup_day("other_123.db"), None);
    assert_eq!(backup_day("chronos_.db"), None);
    assert_eq!(backup_day(".db"), None);
    assert_eq!(backup_day("chronos_99999999999999999999.db"), None);
    assert_eq!(backup_day("a.chronos_5.db"), None);
}

#[test]
fn prune_removes_only_backups_older_than_the_cutoff() {
    let now: i64 = 1_700_000_000;
    let cutoff = prune_cutoff(now, 14);
    assert_eq!(cutoff, now - 14 * 86400);
    let old_ts = now - 30 * 86400;
    let recent_ts = now - 3600;
    assert!(is_stale_backup(&format!("chronos_{old_ts}.db"), cutoff));
    assert!(!is_stale_backup(&format!("chronos_{recent_ts}.db"), cutoff));
    assert!(!is_stale_backup("chronos_backup_tmp.db", cutoff));
    assert!(!is_stale_backup("notes.txt", cutoff));
    assert!(!is_stale_backup(&backup_file_name(day_start(now)), cutoff));
}
