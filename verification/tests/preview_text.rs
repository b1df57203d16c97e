use sift::domain::{Action, Op};
use sift::preview::{clean_dry_run, organize_dry_run, organize_dry_run_recursive, pad_left_text, pad_right_text, skip_reason_tally, text_byte_len};

fn mv(src: &str, dst: &str) -> Action {
    Action { src: src.into(), dst: Some(dst.into()), op: Op::Move, reason: None, undoable: true }
}

fn skip(src: &str, reason: &str) -> Action {
    Action { src: src.into(), dst: None, op: Op::Skip, reason: Some(reason.into()), undoable: false }
}

fn trash(src: &str, reason: &str) -> Action {
    Action { src: src.into(), dst: None, op: Op::Trash, reason: Some(reason.into()), undoable: false }
}

fn mkdir(src: &str) -> Action {
    Action { src: src.into(), dst: None, op: Op::CreateDir, reason: None, undoable: false }
}

#[test]
fn columns_count_bytes_and_pad_by_characters() {
    assert_eq!(text_byte_len("abc"), 3);
    assert_eq!(text_byte_len("é"), 2);
    assert_eq!(text_byte_len("→"), 3);
    assert_eq!(pad_right_text("ab", 4), "ab  ");
    assert_eq!(pad_right_text("abcdef", 4), "abcdef");
    assert_eq!(pad_left_text("7", 3), "  7");
    assert_eq!(pad_left_text("1234", 3), "1234");
}

#[test]
fn organize_dry_run_refuses_a_project_root() {
    let lines = organize_dry_run("/x", &[], true, false, false);
    assert_eq!(
        lines,
        vec![
            "Sift organize",
            "/x",
            "",
            "Refusing: /x is itself a software project root.",
            "organize never mutates a project root — run `sift doctor /x` to inspect it safely.",
        ]
    );
}

#[test]
fn organize_dry_run_lists_moves_and_skips() {
    let actions = vec![
        mkdir("/t/Images"),
        mv("/t/a.jpg", "/t/Images/a.jpg"),
        mv("/t/bb.pdf", "/t/Documents/bb.pdf"),
        skip("/t/node", "software project"),
    ];
    let lines = organize_dry_run("/t", &actions, false, false, false);
    assert_eq!(
        lines,
        vec![
            "Sift organize",
            "/t",
            "",
            "Plan",
            "  2 moves",
            "  1 directory",
            "  1 skipped",
            "",
            "Moves",
            "  a.jpg   → Images/",
            "  bb.pdf  → Documents/",
            "",
            "Skipped",
            "  node/  software project",
            "",
            "No changes made.",
            "Run with --apply to execute.",
        ]
    );
}

#[test]
fn organize_dry_run_with_nothing_to_do() {
    let lines = organize_dry_run("/t", &[], false, false, false);
    assert_eq!(lines, vec!["Sift organize", "/t", "", "Plan", "  nothing to do", "", "Nothing to do."]);
}

#[test]
fn organize_dry_run_surfaces_duplicate_collisions() {
    let mut t = trash("/t/a.jpg", "identical duplicate already organized at Images/a.jpg");
    t.dst = Some("/t/Images/a.jpg".into());
    let lines = organize_dry_run("/t", &[t], false, false, false);
    assert_eq!(
        lines,
        vec![
            "Sift organize",
            "/t",
            "",
            "Plan",
            "  1 trashed",
            "",
            "Trash",
            "  a.jpg  identical duplicate already organized at Images/a.jpg",
            "",
            "⚠ Duplicate name handled automatically",
            "  a.jpg",
            "    identical duplicate already organized at Images/a.jpg",
            "",
            "No changes made.",
            "Run with --apply to execute.",
        ]
    );
}

#[test]
fn many_skips_are_counted_per_reason() {
    let mut actions = Vec::new();
    for i in 0..6 {
        actions.push(skip(&format!("/t/b{i}"), "b reason"));
    }
    for i in 0..6 {
        actions.push(skip(&format!("/t/a{i}"), "a reason"));
    }
    actions.push(skip("/t/c", "c reason"));
    let lines = organize_dry_run("/t", &actions, false, false, false);
    assert_eq!(
        lines,
        vec![
            "Sift organize",
            "/t",
            "",
            "Plan",
            "  13 skipped",
            "",
            "Skipped (13)",
            "    6  a reason",
            "    6  b reason",
            "    1  c reason",
            "  (run with --verbose to list them individually)",
            "",
            "Nothing to do.",
        ]
    );
    let verbose = organize_dry_run("/t", &actions, false, true, false);
    assert_eq!(verbose[6], "Skipped");
    assert_eq!(verbose[7], "  b0  b reason");
    assert_eq!(verbose.len(), 7 + 13 + 2);
}

#[test]
fn reason_tally_orders_by_count_then_reason() {
    let skips = vec![skip("/t/1", "z"), skip("/t/2", "y"), skip("/t/3", "z"), Action { src: "/t/4".into(), dst: None, op: Op::Skip, reason: None, undoable: false }];
    let t = skip_reason_tally(&skips);
    assert_eq!(t, vec![("z".to_string(), 2), ("unspecified".to_string(), 1), ("y".to_string(), 1)]);
}

#[test]
fn clean_dry_run_lists_trash_candidates() {
    let actions = vec![trash("/t/x.tmp", "temporary file"), skip("/t/a", "not temporary"), skip("/t/b", "not temporary")];
    let lines = clean_dry_run("/t", &actions, false, false);
    assert_eq!(
        lines,
        vec![
            "Sift clean",
            "/t",
            "",
            "Trash candidates",
            "  x.tmp  temporary file",
            "",
            "Skipped",
            "  2 other entries",
            "",
            "No changes made.",
            "Run with --apply to send 1 file to Trash.",
        ]
    );
}

#[test]
fn clean_dry_run_edge_cases() {
    assert_eq!(clean_dry_run("/t", &[], false, false), vec!["Sift clean", "/t", "", "Nothing to do."]);
    let only_skips = vec![skip("/t/dir", "directory")];
    assert_eq!(
        clean_dry_run("/t", &only_skips, false, true),
        vec!["Sift clean", "/t", "", "No trash candidates found.", "", "Skipped", "  dir/  directory", "", "No changes made."]
    );
    assert_eq!(clean_dry_run("/p", &[], true, false)[3], "Refusing: /p is itself a software project root.");
}

#[test]
fn recursive_dry_run_groups_moves_by_directory() {
    let actions = vec![
        mv("/t/a/x.jpg", "/t/a/Images/x.jpg"),
        mv("/t/y.pdf", "/t/Documents/y.pdf"),
        mv("/t/a/zz.png", "/t/a/Images/zz.png"),
        skip("/t/proj", "software project"),
        skip("/t/.h", "hidden file"),
    ];
    let lines = organize_dry_run_recursive("/t", &actions, 3, false, false, false);
    assert_eq!(
        lines,
        vec![
            "Sift organize",
            "/t",
            "",
            "Recursive scan",
            "  3 directories scanned",
            "  1 directory protected",
            "  4 files inspected",
            "",
            "Plan",
            "  3 moves",
            "  2 skipped",
            "",
            "a/",
            "  x.jpg   → Images/",
            "  zz.png  → Images/",
            "",
            "t/",
            "  y.pdf  → Documents/",
            "",
            "Skipped",
            "  .h  hidden file",
            "",
            "Protected",
            "  proj/  software project",
            "",
            "No changes made.",
            "Run with --apply to execute 3 moves.",
        ]
    );
}

#[test]
fn recursive_dry_run_with_nothing_to_do() {
    let lines = organize_dry_run_recursive("/t", &[mkdir("/t/x")], 1, false, false, false);
    assert_eq!(
        lines,
        vec![
            "Sift organize",
            "/t",
            "",
            "Recursive scan",
            "  1 directory scanned",
            "  0 directories protected",
            "  0 files inspected",
            "",
            "Plan",
            "  1 directory to create",
            "",
            "Nothing to do.",
        ]
    );
}
