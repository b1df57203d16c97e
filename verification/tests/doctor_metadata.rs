use sift::domain::Entry;
use sift::metadata::{combine_make_model, parse_creation_year, parse_exif_datetime, parse_pdf_date, parse_w3cdtf_date};
use sift::planner::{FsSnapshot, Query};
use sift::scanner::{
    discover_recursive_dirs, doctor_findings, doctor_findings_recursive, protection_reason,
    scan_entries_recursive, traversal_reason, DoctorIssue,
};

fn entry(path: &str, is_dir: bool) -> Entry {
    let name = path.rsplit('/').next().unwrap();
    Entry {
        path: path.to_string(),
        is_dir,
        is_symlink: false,
        hidden: name.starts_with('.'),
        size: if is_dir { None } else { Some(10) },
        mtime: Some(1_000_000),
        project_root: false,
        protected: false,
        classified_as: None,
    }
}

fn snapshot() -> FsSnapshot {
    FsSnapshot {
        kinds: Vec::new(),
        dest_files: Vec::new(),
        mtimes: Vec::new(),
        listings: Vec::new(),
        local_policies: Vec::new(),
        described: Vec::new(),
        media: Vec::new(),
    }
}

#[test]
fn doctor_reports_each_issue_once_in_order() {
    let mut proj = entry("/t/app", true);
    proj.project_root = true;
    proj.protected = true;
    let mut big = entry("/t/movie.mkv", false);
    big.size = Some(200_000_000);
    let old = entry("/t/backup.ZIP", false);
    let secret = entry("/t/.env", false);
    let nm = entry("/t/node_modules", true);
    let findings = doctor_findings(&[proj, big, old, secret, nm], 1_000_000 + 31_536_001);
    let got: Vec<(String, String)> = findings
        .iter()
        .map(|f| (f.path.clone(), f.issue.reason_text().unwrap_or_else(|| "LARGE".to_string())))
        .collect();
    assert_eq!(
        got,
        vec![
            ("/t/app".to_string(), "Software project detected — protected".to_string()),
            ("/t/movie.mkv".to_string(), "LARGE".to_string()),
            ("/t/backup.ZIP".to_string(), "Stale archive (over a year old)".to_string()),
            ("/t/.env".to_string(), "Hidden file".to_string()),
            ("/t/.env".to_string(), "Sensitive-looking filename".to_string()),
            ("/t/node_modules".to_string(), "Build output directory: node_modules".to_string()),
        ]
    );
    assert!(matches!(findings[1].issue, DoctorIssue::LargeFile(200_000_000)));
}

#[test]
fn a_recent_archive_is_not_stale() {
    let fresh = entry("/t/a.zip", false);
    assert!(doctor_findings(&[fresh], 1_000_000 + 31_536_000).is_empty());
}

#[test]
fn protection_and_traversal_reasons() {
    let mut link = entry("/t/l", true);
    link.is_symlink = true;
    assert_eq!(protection_reason(&link), Some("symlink"));
    assert_eq!(traversal_reason(&entry("/t/Documents", true)), Some("category directory"));
    assert_eq!(traversal_reason(&entry("/t/target", true)), Some("build output"));
    assert_eq!(traversal_reason(&entry("/t/.cache", true)), Some("hidden directory"));
    assert_eq!(traversal_reason(&entry("/t/work", true)), None);
}

#[test]
fn recursive_scans_stop_at_boundaries() {
    let mut snap = snapshot();
    snap.listings.push(("/t".to_string(), vec![entry("/t/b", true), entry("/t/Images", true), entry("/t/z.txt", false)]));
    snap.listings.push(("/t/b".to_string(), vec![entry("/t/b/a.txt", false), entry("/t/b/.env", false)]));
    let mut asked: Vec<Query> = Vec::new();
    let dirs = discover_recursive_dirs(&snap, "/t", &mut asked);
    assert_eq!(dirs, vec!["/t".to_string(), "/t/b".to_string()]);
    let all = scan_entries_recursive(&snap, "/t", &mut asked);
    let paths: Vec<&str> = all.iter().map(|e| e.path.as_str()).collect();
    assert_eq!(paths, vec!["/t/Images", "/t/b", "/t/b/.env", "/t/b/a.txt", "/t/z.txt"]);
    let f = doctor_findings_recursive(&snap, "/t", 0, &mut asked);
    assert_eq!(f.len(), 2);
    assert_eq!(f[0].path, "/t/b/.env");
    assert!(asked.is_empty());
}

#[test]
fn creation_year_needs_four_digits_and_a_dash() {
    assert_eq!(parse_creation_year("2024-06-15T10:30:00.000000Z").as_deref(), Some("2024"));
    assert_eq!(parse_creation_year("2024"), None);
    assert_eq!(parse_creation_year("20x4-06-15"), None);
}

#[test]
fn exif_and_document_dates() {
    assert_eq!(
        parse_exif_datetime("2023:07:04 12:00:00"),
        Some(("2023".to_string(), "07".to_string(), "04".to_string()))
    );
    assert_eq!(parse_exif_datetime("2023-07-04 12:00:00"), None);
    assert_eq!(parse_exif_datetime("2023:7:04 12:00:00"), None);
    assert_eq!(
        parse_w3cdtf_date("2023-11-15T09:00:00Z"),
        Some(("2023".to_string(), "11".to_string(), "15".to_string()))
    );
    assert_eq!(parse_w3cdtf_date("2023-11"), None);
    assert_eq!(
        parse_pdf_date("D:20240102030405+01'00'"),
        Some(("2024".to_string(), "01".to_string(), "02".to_string()))
    );
    assert_eq!(parse_pdf_date("20240102"), None);
    assert_eq!(parse_pdf_date("D:2024010"), None);
}

#[test]
fn camera_names_do_not_repeat_the_make() {
    assert_eq!(
        combine_make_model(Some("Canon".to_string()), Some("Canon EOS R5".to_string())).as_deref(),
        Some("Canon EOS R5")
    );
    assert_eq!(
        combine_make_model(Some("SONY".to_string()), Some("ILCE-7M3".to_string())).as_deref(),
        Some("SONY ILCE-7M3")
    );
    assert_eq!(combine_make_model(None, Some("X".to_string())).as_deref(), Some("X"));
    assert_eq!(combine_make_model(None, None), None);
}
