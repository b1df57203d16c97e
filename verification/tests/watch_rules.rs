use sift::watch::eligibility::{is_eligible_candidate_path, is_transient_filename};
use sift::watch::engine::RootMonitor;

#[test]
fn transient_suffixes_are_recognized_case_insensitively() {
    assert!(is_transient_filename("video.mp4.crdownload"));
    assert!(is_transient_filename("VIDEO.MP4.CRDOWNLOAD"));
    assert!(is_transient_filename("archive.zip.part"));
    assert!(is_transient_filename("file.download"));
    assert!(is_transient_filename("scratch.tmp"));
    assert!(!is_transient_filename("video.mp4"));
    assert!(!is_transient_filename("archive.zip"));
}

#[test]
fn non_recursive_only_accepts_direct_children() {
    let root = "/tmp/inbox";
    assert!(is_eligible_candidate_path(root, false, "/tmp/inbox/a.jpg"));
    assert!(!is_eligible_candidate_path(root, false, "/tmp/inbox/Client/a.jpg"));
    assert!(!is_eligible_candidate_path(root, false, root));
    assert!(!is_eligible_candidate_path(root, false, "/tmp/other/a.jpg"));
}

#[test]
fn recursive_accepts_any_descendant_depth() {
    let root = "/tmp/inbox";
    assert!(is_eligible_candidate_path(root, true, "/tmp/inbox/a.jpg"));
    assert!(is_eligible_candidate_path(root, true, "/tmp/inbox/Client/a.jpg"));
    assert!(is_eligible_candidate_path(root, true, "/tmp/inbox/Client/Sub/a.jpg"));
    assert!(!is_eligible_candidate_path(root, true, root));
}

#[test]
fn root_monitor_ignores_nested_events_when_not_recursive() {
    let mut m = RootMonitor::new("/tmp/inbox".to_string(), false);
    m.observe_event("/tmp/inbox/Client/a.jpg", 0);
    assert_eq!(m.pending_count(), 0);
    m.observe_event("/tmp/inbox/a.jpg", 0);
    assert_eq!(m.pending_count(), 1);
}

#[test]
fn root_monitor_ignores_transient_download_names() {
    let mut m = RootMonitor::new("/tmp/inbox".to_string(), false);
    m.observe_event("/tmp/inbox/video.mp4.crdownload", 0);
    assert_eq!(m.pending_count(), 0);
}

#[test]
fn root_monitor_discard_pending_drops_candidates() {
    let mut m = RootMonitor::new("/tmp/inbox".to_string(), false);
    m.observe_event("/tmp/inbox/a.jpg", 0);
    assert_eq!(m.pending_count(), 1);
    m.discard_pending();
    assert_eq!(m.pending_count(), 0);
}

#[test]
fn root_monitor_tracks_a_path_once() {
    let mut m = RootMonitor::new("/tmp/inbox".to_string(), true);
    m.observe_event("/tmp/inbox/a.jpg", 0);
    m.observe_event("/tmp/inbox/a.jpg", 5);
    m.observe_event("/tmp/inbox/sub/b.jpg", 5);
    assert_eq!(m.pending_count(), 2);
}
