use sift::domain::{ActionResult, Entry, ExecutionState, HistoryItem, Op};
use sift::scanner::sorted_by_path;
use sift::classifier::CategoryDB;
use sift::domain::Category;
use sift::report::{policy_error, doctor, folders_apply_result, history, scan_recursive, undo_not_found, undo_parse_error, undo_result, ReportedFinding};

fn outcome(src: &str, op: Op, ok: bool, undoable: bool) -> ActionResult {
    ActionResult {
        src: src.into(),
        dst: None,
        op,
        result: if ok { Ok(()) } else { Err("denied".into()) },
        undoable,
    }
}

fn record(id: &str, ts: u64, kind: &str, origin: &str, root: Option<&str>, outcomes: Vec<ActionResult>) -> HistoryItem {
    HistoryItem {
        id: id.into(),
        actions: Vec::new(),
        timestamp: ts,
        outcomes,
        kind: kind.into(),
        origin: origin.into(),
        watch_root: root.map(|r| r.to_string()),
        execution_state: ExecutionState::Completed,
        action_states: Vec::new(),
        prepared_probe: None,
        journal_version: 0,
    }
}

fn entry(path: &str, is_dir: bool, is_symlink: bool, hidden: bool) -> Entry {
    Entry {
        path: path.into(),
        is_dir,
        is_symlink,
        hidden,
        size: None,
        mtime: None,
        project_root: false,
        protected: false,
        classified_as: None,
    }
}

#[test]
fn folders_apply_reports_counts_and_history() {
    let outcomes = vec![outcome("/r/Photos", Op::MoveDir, true, false), outcome("/r/x", Op::Skip, true, false)];
    assert_eq!(
        folders_apply_result(&outcomes, "h9", false),
        vec![
            "Sift folders",
            "",
            "✓ Applied successfully",
            "",
            "  1 folder moved",
            "  1 entry left untouched",
            "  0 failures",
            "",
            "History",
            "  h9",
            "",
            "Folder moves are not undoable in this version.",
        ]
    );
}

#[test]
fn folders_apply_reports_failures_and_undo() {
    let outcomes = vec![
        outcome("/r/A", Op::MoveDir, true, true),
        outcome("/r/B", Op::MoveDir, false, false),
        outcome("/r/Docs", Op::CreateDir, true, false),
        outcome("/r/d.txt", Op::Trash, true, false),
    ];
    assert_eq!(
        folders_apply_result(&outcomes, "h1", false),
        vec![
            "Sift folders",
            "",
            "⚠ Applied with 1 failure",
            "",
            "  1 folder moved",
            "  1 category created",
            "  1 duplicate file sent to Trash",
            "  0 entries left untouched",
            "  1 failure",
            "",
            "Failures",
            "  /r/B  denied",
            "",
            "History",
            "  h1",
            "",
            "Undo",
            "  sift undo h1",
        ]
    );
}

#[test]
fn undo_reports() {
    assert_eq!(undo_result("h1", 0, &[], 0, false), vec!["Sift undo h1", "", "Nothing to undo."]);
    assert_eq!(undo_result("h1", 2, &[], 0, false), vec!["Sift undo h1", "", "✓ 2 items restored"]);
    let refused = vec![outcome("/t/a", Op::Move, false, false)];
    assert_eq!(
        undo_result("h1", 1, &refused, 1, false),
        vec![
            "Sift undo h1",
            "",
            "⚠ 1 restored, 1 refused",
            "",
            "Refused",
            "  /t/a  denied",
            "",
            "1 trashed file can't be undone here — restore from your system Trash if needed.",
        ]
    );
    assert_eq!(undo_result("h1", 0, &refused, 0, false)[2], "✗ 0 restored, 1 refused");
    assert_eq!(undo_result("h1", 0, &refused, 0, true)[2], "\x1b[31m✗\x1b[0m 0 restored, 1 refused");
    assert_eq!(undo_not_found("h2", false), vec!["Sift undo h2", "", "✗ No history record found for h2"]);
    assert_eq!(undo_parse_error("h3", false)[2], "✗ Could not read that history record (it may be corrupted)");
}

#[test]
fn history_lists_newest_first() {
    let items = vec![
        record("old", 0, "organize", "manual", None, vec![outcome("/a", Op::Move, true, true), outcome("/b", Op::Skip, true, false)]),
        record("new", 3600, "undo", "watch", Some("/w"), vec![outcome("/a", Op::Move, true, false)]),
        record("tie", 0, "", "", None, vec![]),
    ];
    assert_eq!(
        history(&items),
        vec![
            "History",
            "",
            "  new",
            "  1970-01-01 01:00 UTC",
            "  undo · 1 restored · watch · /w",
            "",
            "  old",
            "  1970-01-01 00:00 UTC",
            "  organize · 1 moved · 1 skipped",
            "",
            "  tie",
            "  1970-01-01 00:00 UTC",
            "  operation · no actions",
            "",
            "To undo one of these:",
            "  sift undo <id>",
        ]
    );
    assert_eq!(history(&[]), vec!["History", "", "No operations recorded yet."]);
}

#[test]
fn doctor_report_lines() {
    let findings = vec![
        ReportedFinding { path: "/t/a b.txt".into(), reason: "Filename contains spaces".into(), is_dir: false },
        ReportedFinding { path: "/t/Old".into(), reason: "Empty directory".into(), is_dir: true },
    ];
    assert_eq!(
        doctor("/t", &findings, false),
        vec![
            "Sift doctor",
            "/t",
            "",
            "Issues found",
            "",
            "  ⚠ a b.txt",
            "    Filename contains spaces",
            "",
            "  ⚠ Old/",
            "    Empty directory",
            "",
            "2 findings",
        ]
    );
    assert_eq!(doctor("/t", &[], false), vec!["Sift doctor", "/t", "", "No issues found."]);
}

#[test]
fn recursive_scan_lists_visited_then_protected() {
    let entries = vec![
        entry("/t/a.txt", false, false, false),
        entry("/t/sub", true, false, false),
        entry("/t/.git", true, false, true),
        entry("/t/link", false, true, false),
    ];
    assert_eq!(
        scan_recursive("/t", &entries),
        vec![
            "Sift scan",
            "/t",
            "",
            "Recursive scan",
            "",
            "  a.txt",
            "  sub/",
            "",
            "Protected",
            "  .git/  hidden directory",
            "  link/  symlink",
        ]
    );
    assert_eq!(scan_recursive("/t", &[]), vec!["Sift scan", "/t", "", "Recursive scan", "", "  (nothing found)"]);
}

#[test]
fn invalid_policy_report() {
    assert_eq!(
        policy_error("organize", "/t", "line one\nline two\n", false),
        vec!["Sift organize", "/t", "", "✗ Invalid configuration", "", "  line one", "  line two", "", "No changes made."]
    );
}

#[test]
fn listings_are_in_path_order() {
    let entries = vec![
        entry("/t/b", false, false, false),
        entry("/t/a.txt", false, false, false),
        entry("/t/a", true, false, false),
        entry("/t/B", false, false, false),
        entry("/t/a/z", false, false, false),
    ];
    let sorted: Vec<String> = sorted_by_path(entries).into_iter().map(|e| e.path).collect();
    assert_eq!(sorted, vec!["/t/B", "/t/a", "/t/a/z", "/t/a.txt", "/t/b"]);
}

#[test]
fn classification_ignores_extension_case() {
    let db = CategoryDB::new();
    let mut upper = entry("/t/A.JPG", false, false, false);
    let mut lower = entry("/t/b.jpg", false, false, false);
    let mut unknown = entry("/t/notes.xyz", false, false, false);
    let mut dir = entry("/t/Pics.jpg", true, false, false);
    db.classify(&mut upper);
    db.classify(&mut lower);
    db.classify(&mut unknown);
    db.classify(&mut dir);
    assert_eq!(upper.classified_as, Some(Category::Image));
    assert_eq!(lower.classified_as, Some(Category::Image));
    assert_eq!(unknown.classified_as, Some(Category::Other));
    assert_eq!(dir.classified_as, Some(Category::Unknown));
}
