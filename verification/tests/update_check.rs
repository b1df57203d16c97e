use sift::update_check::{parse_semver, pending_notice, refreshed_cache, spawn_background_check_if_due, Cache, CHECK_INTERVAL_SECS};

#[test]
fn parse_semver_orders_numerically_not_lexicographically() {
    assert!(parse_semver("0.10.0") > parse_semver("0.9.0"));
}

#[test]
fn parse_semver_strips_leading_v() {
    assert_eq!(parse_semver("v1.2.3"), parse_semver("1.2.3"));
}

#[test]
fn parse_semver_ignores_prerelease_suffix() {
    assert_eq!(parse_semver("1.2.3-beta.1"), (1, 2, 3));
}

#[test]
fn parse_semver_defaults_missing_components_to_zero() {
    assert_eq!(parse_semver("1"), (1, 0, 0));
    assert_eq!(parse_semver("1.2"), (1, 2, 0));
}

#[test]
fn pending_notice_is_none_without_a_cached_version() {
    assert!(pending_notice(None, "0.2.2").is_none());
}

#[test]
fn pending_notice_is_none_when_up_to_date() {
    assert!(pending_notice(Some("0.2.2".to_string()), "0.2.2").is_none());
}

#[test]
fn pending_notice_is_none_when_cache_is_older_than_current() {
    assert!(pending_notice(Some("0.1.0".to_string()), "0.2.2").is_none());
}

#[test]
fn pending_notice_reports_both_versions_when_newer() {
    let msg = pending_notice(Some("0.3.0".to_string()), "0.2.2").unwrap();
    assert!(msg.contains("v0.2.2"));
    assert!(msg.contains("v0.3.0"));
}

#[test]
fn parse_semver_exact_values() {
    assert_eq!(parse_semver("vv2.10.7"), (2, 10, 7));
    assert_eq!(parse_semver(""), (0, 0, 0));
    assert_eq!(parse_semver("1.x.3"), (1, 0, 3));
    assert_eq!(parse_semver("1.2.3.4"), (1, 2, 3));
    assert_eq!(parse_semver("99999999999999999999.1.1"), (0, 1, 1));
    assert_eq!(parse_semver("18446744073709551615.0.1"), (18446744073709551615, 0, 1));
}

#[test]
fn pending_notice_exact_text() {
    let msg = pending_notice(Some("1.0.0".to_string()), "0.9.9").unwrap();
    assert_eq!(
        msg,
        "A new version of sift is available: v0.9.9 -> v1.0.0. Run ./install.sh again to update \
         (see https://github.com/sergiocardoso/sift#installation), or set \
         SIFT_NO_UPDATE_CHECK=1 to stop checking."
    );
}

#[test]
fn background_check_runs_at_most_daily_and_never_when_opted_out() {
    assert!(!spawn_background_check_if_due(true, 10 * CHECK_INTERVAL_SECS, 0));
    assert!(spawn_background_check_if_due(false, CHECK_INTERVAL_SECS, 0));
    assert!(!spawn_background_check_if_due(false, CHECK_INTERVAL_SECS - 1, 0));
    // A clock that went backwards never triggers a refresh storm.
    assert!(!spawn_background_check_if_due(false, 5, 100));
}

#[test]
fn failed_refresh_keeps_the_previously_seen_version() {
    let prev = Cache { last_checked_at: 1, latest_seen: Some("0.3.0".to_string()) };
    let c = refreshed_cache(prev, 50, None);
    assert_eq!(c.last_checked_at, 50);
    assert_eq!(c.latest_seen.as_deref(), Some("0.3.0"));
    let prev = Cache { last_checked_at: 1, latest_seen: Some("0.3.0".to_string()) };
    let c = refreshed_cache(prev, 60, Some("0.4.0".to_string()));
    assert_eq!(c.last_checked_at, 60);
    assert_eq!(c.latest_seen.as_deref(), Some("0.4.0"));
}

#[test]
fn release_tags_lose_their_leading_v() {
    assert_eq!(sift::update_check::release_version("v1.2.3"), "1.2.3");
    assert_eq!(sift::update_check::release_version("vv0.3.0"), "0.3.0");
    assert_eq!(sift::update_check::release_version("0.4.0"), "0.4.0");
    assert_eq!(sift::update_check::release_version(""), "");
}
