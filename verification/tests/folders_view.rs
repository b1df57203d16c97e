use sift::domain::Category;
use sift::folders::{Decision, DuplicateRemoval, FolderCandidate, FoldersPlan};
use sift::folders_view::folders_dry_run;

fn cand(name: &str, decision: Decision, evidence: usize) -> FolderCandidate {
    FolderCandidate { name: name.into(), path: format!("/r/{name}"), decision, evidence_files: evidence, truncated: false }
}

#[test]
fn folders_dry_run_groups_candidates_by_decision() {
    let fp = FoldersPlan {
        root: "/r".into(),
        actions: Vec::new(),
        candidates: vec![
            cand("Pics", Decision::Move { category: Category::Image, count: 9, total: 10 }, 10),
            cand("Mixed", Decision::Suggest { category: Category::Document, count: 6, total: 10, reason: "medium confidence" }, 10),
            cand("Proj", Decision::Protect { reason: "software project" }, 0),
            cand("Held", Decision::MoveRefused { category: Category::Audio, count: 1, total: 1, reason: "destination exists" }, 1),
            cand("Few", Decision::Leave { reason: "too few files" }, 1),
        ],
        possible_duplicates: vec![vec!["Pics".into(), "pics copy".into()]],
    };
    let removals = vec![DuplicateRemoval { keep: "/r/Pics/a.jpg".into(), remove: "/r/b.jpg".into(), size: 3 }];
    let percents = vec!["90".to_string(), "60".to_string(), String::new(), "100".to_string(), String::new()];
    let sizes = vec!["3 B".to_string()];
    assert_eq!(
        folders_dry_run(&fp, &removals, &percents, &sizes),
        vec![
            "Sift folders",
            "/r",
            "",
            "Plan",
            "  1 folder to move",
            "  1 move refused",
            "  1 suggestion",
            "  1 protected",
            "  1 uncertain",
            "",
            "Move",
            "  Pics/  → Images/   90%  (10 files)",
            "",
            "Move refused",
            "  Held/  → Audio/   destination exists",
            "",
            "Suggestions",
            "  Mixed/  → Documents/   60%  medium confidence (10 files)",
            "",
            "Protected",
            "  Proj/  software project",
            "",
            "Uncertain",
            "  Few/  too few files",
            "",
            "Possible duplicates (report only — never merged or moved)",
            "  Pics, pics copy",
            "",
            "Duplicate files (identical content — will be sent to Trash, not undoable via sift undo)",
            "  b.jpg  = Pics/a.jpg  (3 B)",
            "",
            "No changes made.",
            "Run with --apply to move 1 folder and remove 1 duplicate file.",
        ]
    );
}

#[test]
fn folders_dry_run_with_nothing_planned() {
    let fp = FoldersPlan { root: "/r".into(), actions: Vec::new(), candidates: Vec::new(), possible_duplicates: Vec::new() };
    assert_eq!(
        folders_dry_run(&fp, &[], &Vec::new(), &[]),
        vec![
            "Sift folders",
            "/r",
            "",
            "Plan",
            "  0 folders to move",
            "  0 suggestions",
            "  0 protected",
            "  0 uncertain",
            "",
            "No changes made.",
        ]
    );
}
