use sift::classifier::CategoryDB;
use sift::domain::{Action, Category, Entry, Op, Plan};
use sift::folders::{
    combine_with_duplicate_removals, decide, detect_possible_duplicates, folder_destination_name,
    full_execution_plan, normalize, plan_duplicate_removals, plan_folders, profile_folder,
    skip_reason_text, Decision, FolderProfile, MAX_PROFILE_DEPTH,
};
use sift::planner::{DestinationFileStatus, FsSnapshot, PathKind, Query};

fn file(path: &str, size: u64) -> Entry {
    let name = path.rsplit('/').next().unwrap();
    Entry {
        path: path.to_string(),
        is_dir: false,
        is_symlink: false,
        hidden: name.starts_with('.'),
        size: Some(size),
        mtime: Some(0),
        project_root: false,
        protected: false,
        classified_as: None,
    }
}

fn dir(path: &str) -> Entry {
    let name = path.rsplit('/').next().unwrap();
    Entry {
        path: path.to_string(),
        is_dir: true,
        is_symlink: false,
        hidden: name.starts_with('.'),
        size: None,
        mtime: Some(0),
        project_root: false,
        protected: false,
        classified_as: None,
    }
}

fn empty_snapshot() -> FsSnapshot {
    FsSnapshot {
        kinds: Vec::new(),
        dest_files: Vec::new(),
        mtimes: Vec::new(),
        listings: Vec::new(),
        local_policies: Vec::new(),
        described: Vec::new(),
        media: Vec::new(),
    }
}

fn profile(counts: Vec<(Category, usize)>, other: usize) -> FolderProfile {
    FolderProfile {
        category_counts: counts,
        other_count: other,
        contains_project: false,
        truncated: false,
        saw_any_entry: true,
    }
}

#[test]
fn move_needs_eighty_percent_and_two_files() {
    let p = profile(vec![(Category::Image, 4)], 1);
    assert!(matches!(decide(&p, false, false), Decision::Move { category: Category::Image, count: 4, total: 5 }));
    let p = profile(vec![(Category::Image, 3)], 1);
    assert!(matches!(decide(&p, false, false), Decision::Suggest { reason: "medium confidence", .. }));
    let p = profile(vec![(Category::Image, 1)], 0);
    assert!(matches!(decide(&p, false, false), Decision::Suggest { reason: "only one evidence file", .. }));
    let p = profile(vec![(Category::Image, 1), (Category::Audio, 1)], 1);
    assert!(matches!(decide(&p, false, false), Decision::Leave { reason: "mixed content" }));
}

#[test]
fn truncated_profile_never_moves() {
    let mut p = profile(vec![(Category::Document, 9)], 0);
    p.truncated = true;
    assert!(matches!(decide(&p, false, false), Decision::Suggest { reason: "profile truncated", .. }));
}

#[test]
fn protected_folders_are_never_moved() {
    let p = profile(vec![(Category::Document, 9)], 0);
    assert!(matches!(decide(&p, false, true), Decision::Protect { reason: "hidden directory" }));
    assert!(matches!(decide(&p, true, false), Decision::Protect { reason: "software project" }));
    let mut q = profile(vec![(Category::Document, 9)], 0);
    q.contains_project = true;
    assert!(matches!(decide(&q, false, false), Decision::Protect { reason: "contains software project" }));
}

#[test]
fn empty_and_unclassifiable_folders_are_left() {
    let mut p = profile(Vec::new(), 0);
    p.saw_any_entry = false;
    assert!(matches!(decide(&p, false, false), Decision::Leave { reason: "empty folder" }));
    p.saw_any_entry = true;
    assert!(matches!(decide(&p, false, false), Decision::Leave { reason: "insufficient evidence" }));
    let p = profile(Vec::new(), 3);
    assert!(matches!(decide(&p, false, false), Decision::Leave { reason: "unknown content" }));
}

#[test]
fn other_is_never_a_folder_destination() {
    assert_eq!(folder_destination_name(Category::Other), None);
    assert_eq!(folder_destination_name(Category::Image), Some("Images"));
    assert_eq!(folder_destination_name(Category::Junk), None);
}

#[test]
fn possible_duplicates_group_copies_by_name() {
    let names: Vec<String> = ["Photos", "Music", "photos copy", "Photos (2)", "Notes-old", "Notes"]
        .iter()
        .map(|s| s.to_string())
        .collect();
    let groups = detect_possible_duplicates(&names);
    assert_eq!(
        groups,
        vec![
            vec!["Notes".to_string(), "Notes-old".to_string()],
            vec!["Photos".to_string(), "Photos (2)".to_string(), "photos copy".to_string()],
        ]
    );
    assert_eq!(normalize("  Report (2) copy  "), "report");
    assert!(detect_possible_duplicates(&vec!["A".to_string(), "B".to_string()]).is_empty());
}

fn photo_tree() -> FsSnapshot {
    let mut snap = empty_snapshot();
    snap.listings.push((
        "/r".to_string(),
        vec![dir("/r/Holiday"), dir("/r/Images"), file("/r/loose.txt", 3), dir("/r/Mixed")],
    ));
    snap.listings.push((
        "/r/Holiday".to_string(),
        vec![file("/r/Holiday/a.jpg", 10), file("/r/Holiday/b.jpg", 10), file("/r/Holiday/c.png", 10), file("/r/Holiday/d.heic", 10), file("/r/Holiday/notes.txt", 1)],
    ));
    snap.listings.push((
        "/r/Mixed".to_string(),
        vec![file("/r/Mixed/a.jpg", 1), file("/r/Mixed/b.mp3", 1), file("/r/Mixed/c.pdf", 1)],
    ));
    snap.kinds.push(("/r/Images".to_string(), PathKind::Dir));
    snap.kinds.push(("/r/Images/Holiday".to_string(), PathKind::Absent));
    snap
}

#[test]
fn plan_folders_moves_a_mostly_image_folder_whole() {
    let snap = photo_tree();
    let db = CategoryDB::new();
    let mut asked: Vec<Query> = Vec::new();
    let fp = plan_folders("/r", &snap, &db, &mut asked);
    assert!(asked.is_empty());
    assert_eq!(fp.candidates.len(), 2);
    assert_eq!(fp.candidates[0].name, "Holiday");
    assert!(matches!(fp.candidates[0].decision, Decision::Move { category: Category::Image, count: 4, total: 5 }));
    assert_eq!(fp.candidates[0].evidence_files, 5);
    assert_eq!(fp.candidates[1].name, "Mixed");
    assert!(matches!(fp.candidates[1].decision, Decision::Leave { reason: "mixed content" }));
    assert_eq!(fp.actions.len(), 1);
    assert_eq!(fp.actions[0].op, Op::MoveDir);
    assert_eq!(fp.actions[0].src, "/r/Holiday");
    assert_eq!(fp.actions[0].dst.as_deref(), Some("/r/Images/Holiday"));
    assert_eq!(fp.actions[0].reason.as_deref(), Some("mostly Images"));

    let full = full_execution_plan(&fp);
    assert_eq!(full.actions.len(), 2);
    assert_eq!(full.actions[0].op, Op::MoveDir);
    assert_eq!(full.actions[1].op, Op::Skip);
    assert_eq!(full.actions[1].src, "/r/Mixed");
    assert_eq!(full.actions[1].reason.as_deref(), Some("mixed content"));
}

#[test]
fn plan_folders_refuses_an_occupied_destination() {
    let mut snap = photo_tree();
    snap.kinds[1] = ("/r/Images/Holiday".to_string(), PathKind::Dir);
    let db = CategoryDB::new();
    let mut asked: Vec<Query> = Vec::new();
    let fp = plan_folders("/r", &snap, &db, &mut asked);
    assert!(matches!(fp.candidates[0].decision, Decision::MoveRefused { reason: "destination already exists", .. }));
    assert!(fp.actions.is_empty());
}

#[test]
fn plan_folders_creates_a_missing_category_directory_first() {
    let mut snap = photo_tree();
    snap.listings[0].1.retain(|e| e.path != "/r/Images");
    snap.kinds[0] = ("/r/Images".to_string(), PathKind::Absent);
    let db = CategoryDB::new();
    let mut asked: Vec<Query> = Vec::new();
    let fp = plan_folders("/r", &snap, &db, &mut asked);
    assert_eq!(fp.actions.len(), 2);
    assert_eq!(fp.actions[0].op, Op::CreateDir);
    assert_eq!(fp.actions[0].src, "/r/Images");
    assert_eq!(fp.actions[1].op, Op::MoveDir);
}

#[test]
fn unobserved_listing_is_asked_for() {
    let snap = empty_snapshot();
    let db = CategoryDB::new();
    let mut asked: Vec<Query> = Vec::new();
    let fp = plan_folders("/r", &snap, &db, &mut asked);
    assert!(fp.candidates.is_empty());
    assert!(matches!(&asked[0], Query::List(p) if p == "/r"));
}

#[test]
fn profiling_stops_at_the_depth_bound() {
    let mut snap = empty_snapshot();
    let mut path = "/d".to_string();
    for _ in 0..(MAX_PROFILE_DEPTH + 1) {
        let child = format!("{}/x", path);
        snap.listings.push((path.clone(), vec![dir(&child), file(&format!("{}/f.jpg", path), 1)]));
        path = child;
    }
    let db = CategoryDB::new();
    let mut asked: Vec<Query> = Vec::new();
    let p = profile_folder(&snap, "/d", &db, &mut asked);
    assert!(p.truncated);
    assert_eq!(p.category_counts, vec![(Category::Image, MAX_PROFILE_DEPTH + 1)]);
}

#[test]
fn profiling_skips_hidden_symlinks_and_projects() {
    let mut snap = empty_snapshot();
    let mut proj = dir("/d/app");
    proj.project_root = true;
    let mut link = file("/d/link.jpg", 1);
    link.is_symlink = true;
    snap.listings.push(("/d".to_string(), vec![proj, link, file("/d/.x.jpg", 1), dir("/d/.git"), file("/d/a.zip", 1)]));
    let db = CategoryDB::new();
    let mut asked: Vec<Query> = Vec::new();
    let p = profile_folder(&snap, "/d", &db, &mut asked);
    assert!(p.contains_project);
    assert_eq!(p.category_counts, vec![(Category::Archive, 1)]);
    assert_eq!(p.other_count, 0);
    assert!(p.saw_any_entry);
}

#[test]
fn duplicates_are_removed_only_when_identical_to_the_keeper() {
    let mut snap = empty_snapshot();
    snap.listings.push(("/r/Photos".to_string(), vec![file("/r/Photos/a.jpg", 5), file("/r/Photos/b.jpg", 7)]));
    snap.listings.push((
        "/r/Photos (2)".to_string(),
        vec![file("/r/Photos (2)/a.jpg", 5), file("/r/Photos (2)/c.jpg", 7), file("/r/Photos (2)/d.jpg", 9)],
    ));
    snap.dest_files.push(("/r/Photos (2)/a.jpg".to_string(), "/r/Photos/a.jpg".to_string(), DestinationFileStatus::IdenticalDuplicate));
    snap.dest_files.push(("/r/Photos (2)/c.jpg".to_string(), "/r/Photos/b.jpg".to_string(), DestinationFileStatus::Renamed("x".to_string())));
    let groups = vec![vec!["Photos (2)".to_string(), "Photos".to_string()]];
    let mut asked: Vec<Query> = Vec::new();
    let (actions, removals) = plan_duplicate_removals("/r", &groups, &Vec::new(), &snap, &mut asked);
    assert!(asked.is_empty());
    assert_eq!(removals.len(), 1);
    assert_eq!(removals[0].keep, "/r/Photos/a.jpg");
    assert_eq!(removals[0].remove, "/r/Photos (2)/a.jpg");
    assert_eq!(removals[0].size, 5);
    assert_eq!(actions.len(), 1);
    assert_eq!(actions[0].op, Op::Trash);
    assert_eq!(actions[0].reason.as_deref(), Some("duplicate of /r/Photos/a.jpg"));
    assert!(!actions[0].undoable);

    let plan = Plan { actions: vec![Action { src: "/r/x".into(), dst: None, op: Op::Skip, reason: None, undoable: false }] };
    let combined = combine_with_duplicate_removals(plan, actions);
    assert_eq!(combined.actions[0].op, Op::Trash);
    assert_eq!(combined.actions[1].op, Op::Skip);
}

#[test]
fn skip_reasons_come_from_the_decision() {
    assert_eq!(skip_reason_text(&Decision::Leave { reason: "empty folder" }), "empty folder");
    assert_eq!(skip_reason_text(&Decision::Protect { reason: "hidden directory" }), "hidden directory");
    let d = Decision::Suggest { category: Category::Audio, count: 3, total: 5, reason: "medium confidence" };
    assert_eq!(d.label(), "suggest");
    assert_eq!(d.confidence(), Some((3, 5)));
    assert_eq!(d.category(), Some(Category::Audio));
}

#[test]
fn plan_folders_asks_for_exactly_the_missing_destination() {
    let mut snap = photo_tree();
    snap.kinds.truncate(1);
    let db = CategoryDB::new();
    let mut asked: Vec<Query> = Vec::new();
    let _ = plan_folders("/r", &snap, &db, &mut asked);
    assert_eq!(asked.len(), 1);
    assert!(matches!(&asked[0], Query::Kind(p) if p == "/r/Images/Holiday"));
}
