use sift::planner::PathKind;
use sift::watch::registry::{add, allowed_transition, record_error, record_event, record_success, remove, transition, validate_root, Registry, WatchState};
use sift::watch::daemon::{plan_reconcile, route_event};
use sift::watch::stability::{Snapshot, StabilityTracker};

#[test]
fn registry_transitions_follow_the_state_machine() {
    let mut reg = Registry::default();
    assert!(add(&mut reg, "/w".to_string(), false, false, 9).is_err());
    let e = add(&mut reg, "/w".to_string(), true, false, 10).unwrap();
    assert_eq!(e.state, WatchState::Stopped);
    assert_eq!(add(&mut reg, "/w".to_string(), true, false, 11).unwrap_err(), "/w is already a registered watch");
    transition(&mut reg, "/w", WatchState::Running, 11).unwrap();
    let p = transition(&mut reg, "/w", WatchState::Paused, 12).unwrap();
    assert_eq!(p.state, WatchState::Paused);
    assert_eq!(p.updated_at, 12);
    let err = transition(&mut reg, "/w", WatchState::Paused, 13).unwrap_err();
    assert_eq!(err, "cannot go from paused to paused");
    assert!(transition(&mut reg, "/nope", WatchState::Running, 13).is_err());
    assert!(allowed_transition(WatchState::Stopped, WatchState::Running));
    assert!(!allowed_transition(WatchState::Stopped, WatchState::Paused));
    record_event(&mut reg, "/w", 20);
    record_success(&mut reg, "/w", 3, 21);
    record_error(&mut reg, "/w", "boom".to_string(), 22);
    let w = &reg.watches[0];
    assert_eq!(w.last_event_at, Some(20));
    assert_eq!(w.organized_count, 3);
    assert_eq!(w.error_count, 1);
    assert_eq!(w.last_error.as_deref(), Some("boom"));
    assert!(remove(&mut reg, "/w").is_ok());
    assert!(reg.watches.is_empty());
}

#[test]
fn only_a_real_unprotected_directory_can_be_watched() {
    assert_eq!(validate_root(PathKind::Dir, Ok("/w".to_string()), false), Ok("/w".to_string()));
    assert!(validate_root(PathKind::Dir, Ok("/w".to_string()), true).is_err());
    assert!(validate_root(PathKind::File, Ok("/w".to_string()), false).is_err());
    assert!(validate_root(PathKind::Absent, Err("gone".to_string()), false).is_err());
    assert_eq!(validate_root(PathKind::Dir, Ok("/".to_string()), false), Err("refusing to watch the filesystem root".to_string()));
    assert!(validate_root(PathKind::Dir, Ok("/home/Images".to_string()), false).is_err());
}

#[test]
fn a_file_is_ready_only_after_it_stops_changing() {
    let mut t = StabilityTracker::new();
    t.track("a.txt".to_string(), 0);
    let s1 = Snapshot { size: 5, mtime_secs: 1 };
    let obs = vec![("a.txt".to_string(), Some(s1))];
    assert!(t.poll_ready(0, 200, &obs).is_empty());
    assert!(t.poll_ready(100, 200, &obs).is_empty());
    let grown = vec![("a.txt".to_string(), Some(Snapshot { size: 9, mtime_secs: 2 }))];
    assert!(t.poll_ready(150, 200, &grown).is_empty());
    assert!(t.poll_ready(300, 200, &grown).is_empty());
    assert_eq!(t.poll_ready(400, 200, &grown), vec!["a.txt".to_string()]);
    assert!(t.is_empty());
}

#[test]
fn a_vanished_file_is_dropped_not_reported() {
    let mut t = StabilityTracker::new();
    t.track("a.txt".to_string(), 0);
    t.track("b.txt".to_string(), 0);
    assert_eq!(t.len(), 2);
    let obs = vec![("a.txt".to_string(), None), ("b.txt".to_string(), Some(Snapshot { size: 1, mtime_secs: 1 }))];
    assert!(t.poll_ready(10, 200, &obs).is_empty());
    assert!(!t.is_tracking("a.txt"));
    assert!(t.is_tracking("b.txt"));
    t.discard_all();
    assert!(t.is_empty());
}

#[test]
fn reconcile_starts_and_stops_exactly_what_changed() {
    let running = vec![("/a".to_string(), false), ("/b".to_string(), true), ("/c".to_string(), false)];
    let monitored = vec![("/a".to_string(), false), ("/b".to_string(), false), ("/d".to_string(), true)];
    let plan = plan_reconcile(&running, &monitored);
    assert_eq!(plan.drop, vec!["/b".to_string(), "/d".to_string()]);
    assert_eq!(plan.start, vec![("/b".to_string(), true), ("/c".to_string(), false)]);
    let roots = vec!["/w/in".to_string(), "/w".to_string()];
    assert_eq!(route_event(&roots, "/w/in/a.jpg"), Some(0));
    assert_eq!(route_event(&roots, "/w/other.jpg"), Some(1));
    assert_eq!(route_event(&roots, "/w2/x.jpg"), None);
    assert_eq!(route_event(&roots, "/w/inbox/x.jpg"), Some(1));
}

fn seen(path: &str, size: u64, mtime: u64) -> Vec<(String, Option<Snapshot>)> {
    vec![(path.to_string(), Some(Snapshot { size, mtime_secs: mtime }))]
}

#[test]
fn new_file_is_not_ready_immediately() {
    let mut t = StabilityTracker::new();
    t.track("/d/a.txt".to_string(), 0);
    assert!(t.poll_ready(0, 100, &seen("/d/a.txt", 0, 1)).is_empty());
}

#[test]
fn unchanged_file_becomes_ready_after_window() {
    let mut t = StabilityTracker::new();
    t.track("/d/a.txt".to_string(), 0);
    let obs = seen("/d/a.txt", 5, 1);
    assert!(t.poll_ready(0, 200, &obs).is_empty());
    assert!(t.poll_ready(50, 200, &obs).is_empty());
    assert_eq!(t.poll_ready(250, 200, &obs), vec!["/d/a.txt".to_string()]);
    assert!(!t.is_tracking("/d/a.txt"));
}

#[test]
fn changing_file_keeps_deferring() {
    let mut t = StabilityTracker::new();
    t.track("/d/a.txt".to_string(), 0);
    assert!(t.poll_ready(0, 200, &seen("/d/a.txt", 1, 1)).is_empty());
    let grown = seen("/d/a.txt", 20, 2);
    assert!(t.poll_ready(250, 200, &grown).is_empty());
    assert_eq!(t.poll_ready(500, 200, &grown), vec!["/d/a.txt".to_string()]);
}

#[test]
fn vanished_file_is_dropped_not_marked_ready() {
    let mut t = StabilityTracker::new();
    t.track("/d/a.txt".to_string(), 0);
    t.poll_ready(0, 100, &seen("/d/a.txt", 1, 1));
    let gone = vec![("/d/a.txt".to_string(), None)];
    assert!(t.poll_ready(200, 100, &gone).is_empty());
    assert!(!t.is_tracking("/d/a.txt"));
}

#[test]
fn discard_all_drops_pending_candidates() {
    let mut t = StabilityTracker::new();
    t.track("/d/a.txt".to_string(), 0);
    t.track("/d/b.txt".to_string(), 0);
    assert_eq!(t.len(), 2);
    t.discard_all();
    assert!(t.is_empty());
    let obs = vec![("/d/a.txt".to_string(), Some(Snapshot { size: 1, mtime_secs: 1 })), ("/d/b.txt".to_string(), Some(Snapshot { size: 1, mtime_secs: 1 }))];
    assert!(t.poll_ready(10_000, 1, &obs).is_empty());
}
