use sift::watch::registry::{WatchEntry, WatchState};
use sift::watch::status::{daemon_line, daemon_status_text, watch_list, watch_status, DaemonStatus};

fn watch(path: &str, state: WatchState) -> WatchEntry {
    WatchEntry {
        path: path.into(),
        state,
        auto_apply: true,
        recursive: false,
        created_at: 0,
        updated_at: 0,
        last_event_at: None,
        last_success_at: None,
        last_error: None,
        organized_count: 0,
        error_count: 0,
    }
}

#[test]
fn daemon_status_texts() {
    assert_eq!(daemon_status_text(&DaemonStatus::NotRunning), "not running");
    assert_eq!(daemon_status_text(&DaemonStatus::Running { pid: Some(42), started_at: Some(60) }), "running (pid 42), started 1970-01-01 00:01 UTC");
    assert_eq!(daemon_status_text(&DaemonStatus::Running { pid: None, started_at: None }), "running");
    assert_eq!(daemon_line(&DaemonStatus::Running { pid: Some(7), started_at: None }), "Daemon:        running (pid 7)");
    assert_eq!(daemon_line(&DaemonStatus::NotRunning), "Daemon:        not running");
}

#[test]
fn watch_list_lines() {
    assert_eq!(
        watch_list(&[]),
        vec!["Sift watch", "", "  No watches registered. Add one with `sift watch add <path> --auto-apply`."]
    );
    let mut busy = watch("/home/u/Downloads", WatchState::Running);
    busy.recursive = true;
    busy.organized_count = 3;
    busy.last_success_at = Some(3600);
    busy.last_error = Some("collision".into());
    let idle = watch("/home/u/Desk", WatchState::Paused);
    assert_eq!(
        watch_list(&[busy, idle]),
        vec![
            "Sift watch",
            "",
            "  ●  /home/u/Downloads",
            "     running · auto-apply · recursive on · healthy",
            "     3 organized · last activity 1970-01-01 01:00 UTC",
            "     last error: collision",
            "",
            "  Ⅱ  /home/u/Desk",
            "     paused · auto-apply · recursive off",
            "",
        ]
    );
}

#[test]
fn watch_status_lines() {
    let mut w = watch("/d", WatchState::Stopped);
    w.error_count = 2;
    w.last_event_at = Some(0);
    assert_eq!(
        watch_status(&w, &DaemonStatus::NotRunning),
        vec![
            "Path:          /d",
            "State:         stopped",
            "Recursive:     false",
            "Auto-apply:    true",
            "Organized:     0",
            "Errors:        2",
            "Last activity: 1970-01-01 00:00 UTC",
            "Daemon:        not running",
        ]
    );
}
