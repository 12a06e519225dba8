use fastcommit::update_checker::{
    classify_status, create_default_update_info, is_cache_valid, is_newer_version, next_step,
    parse_time, to_unsigned_seconds, ResponseKind, UpdateStep,
};

#[test]
fn test_version_comparison() {
    assert!(is_newer_version("v0.1.8", "v0.1.7"));
    assert!(is_newer_version("v0.2.0", "v0.1.7"));
    assert!(is_newer_version("v1.0.0", "v0.1.7"));
    assert!(!is_newer_version("v0.1.7", "v0.1.7"));
    assert!(!is_newer_version("v0.1.6", "v0.1.7"));
}

#[test]
fn version_parts_compare_as_numbers() {
    assert!(is_newer_version("0.10.0", "0.9.0"));
    assert!(!is_newer_version("0.9.0", "0.10.0"));
    assert!(!is_newer_version("0.01.0", "0.1.0"));
}

#[test]
fn longer_version_is_newer_when_the_rest_is_equal() {
    assert!(is_newer_version("1.0.0.1", "1.0.0"));
    assert!(!is_newer_version("1.0", "1.0.0"));
}

#[test]
fn other_parts_compare_in_dictionary_order() {
    assert!(is_newer_version("1.0.beta", "1.0.alpha"));
    assert!(!is_newer_version("1.0.alpha", "1.0.beta"));
    assert!(is_newer_version("1.0.rc", "1.0.9"));
}

#[test]
fn time_is_a_number_or_an_rfc3339_instant() {
    assert_eq!(parse_time("1700000000"), Some(1700000000));
    assert_eq!(parse_time("2015-05-15T00:00:00Z"), Some(1431648000));
    assert_eq!(parse_time("1996-12-19T16:39:57-08:00"), Some(851042397));
    assert_eq!(parse_time("yesterday"), None);
    assert_eq!(parse_time(""), None);
}

#[test]
fn negative_seconds_wrap() {
    assert_eq!(to_unsigned_seconds(-1), u64::MAX);
    assert_eq!(to_unsigned_seconds(5), 5);
    assert_eq!(parse_time("1969-12-31T23:59:59Z"), Some(u64::MAX));
}

#[test]
fn cache_is_valid_before_its_expiry() {
    let mut info = create_default_update_info("0.1.0", 42);
    assert_eq!(info.cache.fetched_at, "42");
    assert_eq!(info.version, "0.1.0");
    assert_eq!(info.upstream_status, "error");
    assert!(!is_cache_valid(&info, 0));
    info.cache.expires_at = "100".to_string();
    assert!(is_cache_valid(&info, 99));
    assert!(!is_cache_valid(&info, 100));
}

#[test]
fn cache_decides_the_next_step() {
    let mut info = create_default_update_info("0.2.0", 0);
    assert_eq!(next_step(None, 10, "0.1.0"), UpdateStep::Fetch);
    assert_eq!(next_step(Some(&info), 10, "0.1.0"), UpdateStep::Fetch);
    info.cache.expires_at = "100".to_string();
    assert_eq!(next_step(Some(&info), 10, "0.1.0"), UpdateStep::ReportCached);
    assert_eq!(next_step(Some(&info), 10, "0.2.0"), UpdateStep::UpToDate);
    assert_eq!(next_step(Some(&info), 100, "0.1.0"), UpdateStep::Fetch);
}

#[test]
fn status_classes() {
    assert_eq!(classify_status(200), ResponseKind::Release);
    assert_eq!(classify_status(299), ResponseKind::Release);
    assert_eq!(classify_status(404), ResponseKind::NoRelease);
    assert_eq!(classify_status(500), ResponseKind::Failure);
    assert_eq!(classify_status(300), ResponseKind::Failure);
}
