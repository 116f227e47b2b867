use rustinsight::policy::AppState;
use rustinsight::version::Version;

const NOW: i64 = 1_700_000_000;

#[test]
fn update_required_without_version_whatever_the_history() {
    let fresh = AppState { version: None, last_check: None };
    assert!(fresh.is_update_required(NOW));
    let just_checked = AppState { version: None, last_check: Some(NOW) };
    assert!(just_checked.is_update_required(NOW));
    let checked_long_ago = AppState { version: None, last_check: Some(NOW - 500_000) };
    assert!(checked_long_ago.is_update_required(NOW));
}

#[test]
fn check_throttled_for_a_day_inclusive() {
    let now_checked = AppState { version: None, last_check: Some(NOW) };
    assert!(!now_checked.is_allowed_to_check(NOW));
    let twenty_five_hours = AppState { version: None, last_check: Some(NOW - 25 * 3600) };
    assert!(twenty_five_hours.is_allowed_to_check(NOW));
    let exactly_a_day = AppState { version: None, last_check: Some(NOW - 24 * 3600) };
    assert!(exactly_a_day.is_allowed_to_check(NOW));
    let just_under_a_day = AppState { version: None, last_check: Some(NOW - 24 * 3600 + 1) };
    assert!(!just_under_a_day.is_allowed_to_check(NOW));
    let never_checked = AppState { version: None, last_check: None };
    assert!(never_checked.is_allowed_to_check(NOW));
}

#[test]
fn outdated_compares_semantic_versions() {
    let state = AppState { version: Some(Version::new(1, 2, 0)), last_check: None };
    assert!(state.is_outdated(Version::new(1, 2, 1)));
    assert!(!state.is_outdated(Version::new(1, 2, 0)));
    assert!(!state.is_outdated(Version::new(1, 1, 9)));
    let missing = AppState { version: None, last_check: None };
    assert!(missing.is_outdated(Version::new(0, 0, 1)));
    assert!(missing.is_outdated(Version::new(99, 0, 0)));
}

#[test]
fn prerelease_precedence_is_standard() {
    let order = [
        "1.0.0-alpha",
        "1.0.0-alpha.1",
        "1.0.0-alpha.beta",
        "1.0.0-beta",
        "1.0.0-beta.2",
        "1.0.0-beta.11",
        "1.0.0-rc.1",
        "1.0.0",
    ];
    for pair in order.windows(2) {
        let lo = Version::parse(pair[0]).unwrap();
        let hi = Version::parse(pair[1]).unwrap();
        assert!(lo.lt(&hi), "{} should rank below {}", pair[0], pair[1]);
        assert!(!hi.lt(&lo), "{} should not rank below {}", pair[1], pair[0]);
    }
}

#[test]
fn update_check_sets_only_the_timestamp() {
    let mut state = AppState { version: Some(Version::new(2, 0, 0)), last_check: None };
    state.update_check(NOW);
    assert_eq!(state.last_check, Some(NOW));
    assert_eq!(state.get_version().unwrap(), Version::new(2, 0, 0));
}

#[test]
fn reset_clears_both_fields() {
    let mut state = AppState { version: Some(Version::new(2, 0, 0)), last_check: Some(NOW) };
    state.reset();
    assert!(state.version.is_none());
    assert!(state.last_check.is_none());
}

#[test]
fn get_version_fails_without_one() {
    let state = AppState { version: None, last_check: Some(NOW) };
    assert_eq!(state.get_version().unwrap_err(), rustinsight::Error::NotFoundError);
}

#[test]
fn version_text_round_trips() {
    for text in ["0.0.0", "1.2.3", "10.20.30", "2.0.0-beta.1", "1.0.0-alpha-x.7.z-0"] {
        let v = Version::parse(text).unwrap();
        assert_eq!(v.render(), text);
    }
    assert_eq!(Version::new(18_446_744_073_709_551_615, 0, 7).render(), "18446744073709551615.0.7");
}

#[test]
fn numeric_components_cap_at_sixty_four_bits() {
    assert!(Version::parse("18446744073709551615.0.0").is_some());
    assert!(Version::parse("18446744073709551616.0.0").is_none());
    assert!(Version::parse("1.0.0-18446744073709551615").is_some());
    assert!(Version::parse("1.0.0-99999999999999999999999").is_none());
}

#[test]
fn malformed_versions_are_rejected() {
    for text in ["", "1", "1.2", "1.2.3.4", "01.2.3", "1.2.03", "1.2.3-", "1.2.3-a..b", "v1.2.3", "1.2.3 "] {
        assert!(Version::parse(text).is_none(), "{:?} should not parse", text);
    }
}
