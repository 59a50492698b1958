use homeos::update_check::{
    check_and_notify_to, check_and_notify_to_writer, current_tag, is_update_available, parse_tag, UPDATE_URL,
};

#[test]
fn test_notice_format_matches_spec() {
    let notice = check_and_notify_to(Some("v99.0.0")).unwrap() + "\n";
    assert_eq!(notice, format!("homeos: v99.0.0 available \u{2014} update at {UPDATE_URL}\n"));
}

#[test]
fn test_latest_newer_notifies() {
    let current = current_tag();
    let (major, minor, patch) = parse_tag(&current).unwrap();
    let newer = format!("v{major}.{minor}.{}", patch + 1);
    let notice = check_and_notify_to(Some(&newer)).unwrap_or_default();
    assert!(notice.contains(&format!("{newer} available")), "a strictly newer tag must notify, got: {notice:?}");
}

#[test]
fn test_equal_tag_is_silent() {
    let current = current_tag();
    assert!(check_and_notify_to(Some(&current)).is_none(), "equal tag must not notify");
}

#[test]
fn test_latest_older_than_current_is_silent() {
    assert!(check_and_notify_to(Some("v0.0.1")).is_none(), "an older tag must not notify");
}

#[test]
fn test_unparseable_fetched_tag_is_silent() {
    assert!(check_and_notify_to(Some("nightly")).is_none(), "an unparseable tag must not notify");
}

#[test]
fn test_fetch_failure_is_silent() {
    assert!(check_and_notify_to(None).is_none(), "a failed fetch must not notify");
}

#[test]
fn test_parse_tag_accepts_well_formed() {
    assert_eq!(parse_tag("v0.3.12"), Some((0, 3, 12)));
    assert_eq!(parse_tag("v10.20.30"), Some((10, 20, 30)));
}

#[test]
fn test_parse_tag_rejects_malformed() {
    assert_eq!(parse_tag("0.3.12"), None);
    assert_eq!(parse_tag("v0.3"), None);
    assert_eq!(parse_tag("v0.3.12.1"), None);
    assert_eq!(parse_tag("vx.y.z"), None);
    assert_eq!(parse_tag("nightly"), None);
}

#[test]
fn test_is_update_available_compares_strictly_newer() {
    assert!(is_update_available("v0.3.13", "v0.3.12"));
    assert!(is_update_available("v0.4.0", "v0.3.12"));
    assert!(is_update_available("v1.0.0", "v0.3.12"));
    assert!(!is_update_available("v0.3.12", "v0.3.12"));
    assert!(!is_update_available("v0.3.11", "v0.3.12"));
    assert!(!is_update_available("garbage", "v0.3.12"));
    assert!(!is_update_available("v0.3.13", "garbage"));
}

#[test]
fn test_skip_env_var_skips_the_network_call() {
    assert_eq!(check_and_notify_to_writer(Some("1"), Some("v99.0.0")), None);
}

#[test]
fn test_empty_skip_env_var_does_not_skip_the_check() {
    assert!(check_and_notify_to_writer(Some(""), Some("v99.0.0")).is_some());
    assert!(check_and_notify_to_writer(None, Some("v99.0.0")).is_some());
}

#[test]
fn test_parse_tag_edge_cases() {
    assert_eq!(parse_tag("v18446744073709551615.0.0"), Some((u64::MAX, 0, 0)));
    assert_eq!(parse_tag("v18446744073709551616.0.0"), None);
    assert_eq!(parse_tag("v+1.2.3"), Some((1, 2, 3)));
    assert_eq!(parse_tag("v.1.2"), None);
    assert_eq!(parse_tag("v1..2"), None);
    assert_eq!(parse_tag(""), None);
    assert_eq!(parse_tag("v007.0.1"), Some((7, 0, 1)));
}

#[test]
fn test_newer_is_asymmetric_on_examples() {
    assert!(is_update_available("v2.0.0", "v1.9.9"));
    assert!(!is_update_available("v1.9.9", "v2.0.0"));
}

#[test]
fn test_written_tag_reads_back() {
    for (a, b, c) in [(0u64, 0u64, 0u64), (1, 22, 333), (u64::MAX, 7, 10)] {
        assert_eq!(parse_tag(&format!("v{a}.{b}.{c}")), Some((a, b, c)));
    }
}
