# Chronos

A local-first work time tracker: a tree of projects and tasks, a tracker that
starts, pauses, resumes and stops sessions, an idle detector that pauses a
running session after inactivity, billable and non-billable time, CSV export,
daily database backups and a system tray icon.

The logic is a library whose behaviour is stated in contracts and proved with
Verus; the desktop program around it is ordinary Rust.

## Layout

- `src/` — the verified library (`chronos`):
  - `tree` and `tree_laws`: the task tree (ids, parents, unique sibling names,
    no cycles, cumulative durations) and the laws that relate its operations;
  - `tracker`, `clock`: the time tracker as a state machine over exact spans;
  - `idle`: inactivity detection as a step function;
  - `app`: the application's decisions (what is tracked, which period is
    stored, which notification is due, what the status line says);
  - `stats`, `util`: calendar arithmetic, dashboard ranges, report totals and
    the display of timestamps;
  - `task_list`, `ui`, `tray`: search, visible tasks, labels, date filters,
    tray texts and menu states, the tray icon's pixels;
  - `export`, `backup`, `db`, `lock`, `log_buffer`, `text`: CSV lines, backup
    file names and pruning, database rows, lock events, the bounded log and
    decimal text.
- `app/` — the program: window (eframe), SQLite storage (rusqlite), tray
  (tray-icon), notifications (notify-rust), session lock polling (zbus),
  logging and files. It hands plain values to the library and carries out the
  effects the library returns.
- `tests/` — tests of the library through its public interface.
