use sift::config::{
    resolve_policy_from, ConfigFile, ConfigReadError, OrganizeStrategy, PolicySource, RawConfig, RawOrganize,
    RawWatch, Rule, UnknownPolicy,
};

fn raw(version: Option<i64>, strategy: Option<&str>, unknown: Option<&str>, stability: Option<i64>, rules: Vec<Rule>) -> RawConfig {
    RawConfig {
        version,
        organize: RawOrganize {
            strategy: strategy.map(|s| s.to_string()),
            unknown: unknown.map(|s| s.to_string()),
            template: None,
            date_source: None,
        },
        watch: RawWatch { stability_seconds: stability },
        rules,
    }
}

fn file(path: &str, r: RawConfig) -> ConfigFile {
    ConfigFile { path: path.into(), contents: Ok(r) }
}

fn rule(pattern: &str, action: &str, destination: Option<&str>) -> Rule {
    Rule {
        name: String::new(),
        pattern: pattern.into(),
        action: action.into(),
        destination: destination.map(|d| d.to_string()),
        priority: 1,
        enabled: true,
        description: None,
    }
}

#[test]
fn rule_without_explicit_name_uses_pattern_as_label() {
    let rule = Rule {
        name: String::new(),
        pattern: "*.torrent".into(),
        action: "Move".into(),
        destination: Some("Torrents".into()),
        priority: 100,
        enabled: true,
        description: None,
    };
    assert_eq!(rule.label(), "*.torrent");
}

#[test]
fn defaults_when_no_config_present() {
    let policy = resolve_policy_from(None, None).unwrap();
    assert!(matches!(policy.source, PolicySource::Default));
    assert_eq!(policy.strategy, OrganizeStrategy::Type);
    assert_eq!(policy.unknown_policy, UnknownPolicy::Other);
    assert_eq!(policy.stability, 2500);
    assert!(policy.rules.is_empty());
}

#[test]
fn global_config_used_when_local_absent() {
    let global = file("/cfg/config.toml", raw(None, None, Some("skip"), None, vec![]));
    let policy = resolve_policy_from(None, Some(global)).unwrap();
    assert!(matches!(policy.source, PolicySource::Global { .. }));
    assert_eq!(policy.unknown_policy, UnknownPolicy::Skip);
}

#[test]
fn local_config_wins_over_global() {
    let global = file("/cfg/config.toml", raw(None, None, Some("skip"), None, vec![]));
    let local = file("/d/.sift.toml", raw(None, None, Some("other"), None, vec![]));
    let policy = resolve_policy_from(Some(local), Some(global)).unwrap();
    assert!(matches!(policy.source, PolicySource::Local { .. }));
    assert_eq!(policy.unknown_policy, UnknownPolicy::Other);
}

#[test]
fn broken_global_config_fails_closed() {
    let global = file("/cfg/config.toml", raw(None, Some("banana"), None, None, vec![]));
    assert!(resolve_policy_from(None, Some(global)).is_err());
}

#[test]
fn valid_v1_local_config_resolved() {
    let local = file("/d/.sift.toml", raw(Some(1), Some("type"), Some("skip"), Some(7), vec![]));
    let policy = resolve_policy_from(Some(local), None).unwrap();
    assert!(matches!(policy.source, PolicySource::Local { .. }));
    assert_eq!(policy.unknown_policy, UnknownPolicy::Skip);
    assert_eq!(policy.stability, 7000);
}

#[test]
fn unsupported_version_rejected() {
    let local = file("/d/.sift.toml", raw(Some(99), None, None, None, vec![]));
    let err = resolve_policy_from(Some(local), None).unwrap_err();
    assert!(err.contains("version 99"));
    assert!(err.contains("version 1"));
}

#[test]
fn legacy_config_without_version_is_v1() {
    let mut r = rule("*.log", "Trash", None);
    r.name = "old".into();
    let local = file("/d/.sift.toml", raw(None, None, None, None, vec![r]));
    let policy = resolve_policy_from(Some(local), None).unwrap();
    assert_eq!(policy.version, 1);
    assert_eq!(policy.rules.len(), 1);
}

#[test]
fn unknown_strategy_rejected() {
    let local = file("/d/.sift.toml", raw(None, Some("types"), None, None, vec![]));
    let err = resolve_policy_from(Some(local), None).unwrap_err();
    assert!(err.contains("not supported"));
}

#[test]
fn future_strategy_name_rejected_not_silently_ignored() {
    let local = file("/d/.sift.toml", raw(None, Some("media"), None, None, vec![]));
    let err = resolve_policy_from(Some(local), None).unwrap_err();
    assert!(err.contains("media"));
    assert!(err.contains("not supported"));
}

#[test]
fn unknown_policy_rejected() {
    let local = file("/d/.sift.toml", raw(None, None, Some("others"), None, vec![]));
    let err = resolve_policy_from(Some(local), None).unwrap_err();
    assert!(err.contains("Unsupported unknown policy"));
}

#[test]
fn zero_stability_rejected() {
    let local = file("/d/.sift.toml", raw(None, None, None, Some(0), vec![]));
    assert!(resolve_policy_from(Some(local), None).is_err());
}

#[test]
fn negative_stability_rejected() {
    let local = file("/d/.sift.toml", raw(None, None, None, Some(-1), vec![]));
    assert!(resolve_policy_from(Some(local), None).is_err());
}

#[test]
fn excessive_stability_rejected() {
    let local = file("/d/.sift.toml", raw(None, None, None, Some(301), vec![]));
    assert!(resolve_policy_from(Some(local), None).is_err());
}

#[test]
fn unsafe_rule_destination_rejected_at_load_time() {
    let local = file("/d/.sift.toml", raw(None, None, None, None, vec![rule("*.zip", "Move", Some("../escape"))]));
    assert!(resolve_policy_from(Some(local), None).is_err());
}

#[test]
fn invalid_action_rejected_at_load_time() {
    let local = file("/d/.sift.toml", raw(None, None, None, None, vec![rule("*.zip", "Copy", None)]));
    assert!(resolve_policy_from(Some(local), None).is_err());
}

#[test]
fn malformed_toml_rejected() {
    let local = ConfigFile { path: "/d/.sift.toml".into(), contents: Err(ConfigReadError::Syntax("expected `]`".into())) };
    let err = resolve_policy_from(Some(local), None).unwrap_err();
    assert!(err.starts_with("/d/.sift.toml: "));
}

#[test]
fn stability_at_the_limit_is_accepted() {
    let local = file("/d/.sift.toml", raw(None, None, None, Some(300), vec![]));
    assert_eq!(resolve_policy_from(Some(local), None).unwrap().stability, 300_000);
}

#[test]
fn rule_destinations_are_plain_relative_paths() {
    for ok in ["Archives", "a/b", "Docs/2024"] {
        assert!(sift::config::validate_rule_destination(ok), "{ok}");
    }
    for bad in ["", "/abs", "../escape", "a/../b", "./x", "a/./b", "a/.", "."] {
        assert!(!sift::config::validate_rule_destination(bad), "{bad}");
    }
}

#[test]
fn rendered_date_components_are_recognized() {
    let t = sift::config::Template::parse("{year}/{month}").unwrap();
    let d = sift::config::DateMetadata { year: 2026, month: 9, day: 3 };
    assert_eq!(t.render(&d).unwrap(), "2026/09");
    assert!(t.component_could_be_generated(0, "2026"));
    assert!(t.component_could_be_generated(1, "09"));
    assert!(!t.component_could_be_generated(2, "09"));
    assert!(!t.component_could_be_generated(0, "202"));
    assert!(!t.component_could_be_generated(0, "2026x"));
    assert!(!t.component_could_be_generated(0, "abcd"));
    let early = sift::config::DateMetadata { year: 7, month: 1, day: 1 };
    assert_eq!(t.render(&early).unwrap(), "0007/01");
    assert!(t.component_could_be_generated(0, "0007"));
}

#[test]
fn templates_with_dot_segments_are_refused() {
    assert!(sift::config::Template::parse("{year}/./{month}").is_err());
    assert!(sift::config::Template::parse("../{year}").is_err());
}


#[test]
fn metadata_strategies_are_accepted_with_a_template() {
    let mut r = raw(None, Some("audio"), None, None, vec![]);
    r.organize.template = Some("{artist}/{album}".into());
    let p = resolve_policy_from(Some(file("/m/.sift.toml", r)), None).unwrap();
    assert_eq!(p.strategy, OrganizeStrategy::Audio);
    assert!(!p.strategy.supports_recursive());
    assert_eq!(p.metadata_template.as_ref().unwrap().raw(), "{artist}/{album}");
    let e = resolve_policy_from(Some(file("/m/.sift.toml", raw(None, Some("photos"), None, None, vec![]))), None)
        .unwrap_err();
    assert!(e.contains("strategy = \"photos\" requires organize.template"), "{e}");
}

#[test]
fn recursive_organize_refuses_metadata_strategies() {
    let mut r = raw(None, Some("documents"), None, None, vec![]);
    r.organize.template = Some("{author}".into());
    let p = resolve_policy_from(Some(file("/d/.sift.toml", r)), None).unwrap();
    let mut snap = sift::planner::FsSnapshot {
        kinds: Vec::new(),
        dest_files: Vec::new(),
        mtimes: Vec::new(),
        listings: Vec::new(),
        local_policies: Vec::new(),
        described: Vec::new(),
        media: Vec::new(),
    };
    let f = sift::domain::Entry {
        path: "/d/a.pdf".into(),
        is_dir: false,
        is_symlink: false,
        hidden: false,
        size: Some(1),
        mtime: Some(0),
        project_root: false,
        protected: false,
        classified_as: None,
    };
    snap.listings.push(("/d".into(), vec![f]));
    let db = sift::classifier::CategoryDB::new();
    let mut asked = Vec::new();
    let rp = sift::planner::plan_with_strategy_recursive("/d", false, &p, &db, &snap, &mut asked);
    assert!(asked.is_empty());
    assert_eq!(rp.dirs_scanned, 0);
    assert_eq!(rp.plan.actions.len(), 1);
    assert_eq!(rp.plan.actions[0].reason.as_deref(), Some("strategy does not support --recursive"));
}
