use sift::planner::{IDENTICAL_DUPLICATE_REASON_PREFIX, RENAMED_COLLISION_REASON_SUFFIX};
use sift::render::{
    colorize, display_rel, format_timestamp, is_duplicate_collision_reason, plural, with_dir_suffix,
};

#[test]
fn recognizes_identical_duplicate_reason() {
    let reason = format!("{}/tmp/Documents/foo.pdf", IDENTICAL_DUPLICATE_REASON_PREFIX);
    assert!(is_duplicate_collision_reason(&reason));
}

#[test]
fn recognizes_renamed_collision_reason() {
    let reason = format!("Document{}", RENAMED_COLLISION_REASON_SUFFIX);
    assert!(is_duplicate_collision_reason(&reason));
}

#[test]
fn does_not_flag_an_ordinary_reason() {
    assert!(!is_duplicate_collision_reason("collision"));
    assert!(!is_duplicate_collision_reason("hidden file"));
    assert!(!is_duplicate_collision_reason("built-in junk file"));
}

#[test]
fn colorize_wraps_only_when_enabled() {
    assert_eq!(colorize("ok", "32", true), "\x1b[32mok\x1b[0m");
    assert_eq!(colorize("ok", "32", false), "ok");
}

#[test]
fn timestamps_render_in_utc() {
    assert_eq!(format_timestamp(0), "1970-01-01 00:00 UTC");
    assert_eq!(format_timestamp(951782400), "2000-02-29 00:00 UTC");
    assert_eq!(format_timestamp(1700000000), "2023-11-14 22:13 UTC");
}

#[test]
fn plural_and_suffix_helpers() {
    assert_eq!(plural(1), "");
    assert_eq!(plural(0), "s");
    assert_eq!(plural(2), "s");
    assert_eq!(display_rel("/tmp/a/b.txt", "/tmp/a"), "b.txt");
    assert_eq!(display_rel("/other/b.txt", "/tmp/a"), "/other/b.txt");
    assert_eq!(with_dir_suffix("x".to_string(), "hidden directory"), "x/");
    assert_eq!(with_dir_suffix("x".to_string(), "hidden file"), "x");
}

#[test]
fn config_check_report_lines() {
    use_config_check();
}

fn use_config_check() {
    let ok: Result<sift::config::EffectivePolicy, String> = Ok(sift::config::EffectivePolicy::default());
    let lines = sift::render::config_check_lines("/x", &ok, false);
    assert_eq!(lines[0], "Sift config");
    assert_eq!(lines[1], "/x");
    assert_eq!(lines[3], "✓ Configuration valid");
    assert!(lines.contains(&"  strategy     type".to_string()));
    assert!(lines.contains(&"  unknown      other".to_string()));
    assert!(lines.contains(&"  stability    2s".to_string()));
    assert_eq!(lines.last().unwrap(), "No filesystem changes were made.");
    let bad: Result<sift::config::EffectivePolicy, String> = Err("first\r\nsecond\n".to_string());
    let lines = sift::render::config_check_lines("/x", &bad, false);
    assert_eq!(
        lines,
        vec!["Sift config", "/x", "", "✗ Invalid configuration", "", "  first", "  second", "", "No filesystem changes were made."]
    );
}
