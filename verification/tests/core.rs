use chrono::TimeZone;
use widgitron::common::{clamp_poll_interval_secs, truncate_to_limit};
use widgitron::deadline_time::parse_deadline_utc;
use widgitron::release::{
    validate_external_link, validate_github_response_url, validate_installer_asset_name,
    validate_official_download_url,
};

#[test]
fn parses_aoe_deadline_as_utc_minus_twelve() {
    let parsed = parse_deadline_utc("2026-01-01 23:59:59", "AoE").unwrap();
    assert_eq!(parsed.to_rfc3339(), "2026-01-02T11:59:59+00:00");
}

#[test]
fn preserves_explicit_rfc3339_offset() {
    let parsed = parse_deadline_utc("2026-01-01T23:59:59+08:00", "AoE").unwrap();
    assert_eq!(parsed.to_rfc3339(), "2026-01-01T15:59:59+00:00");
}

#[test]
fn parses_iana_timezone_with_daylight_saving() {
    let parsed = parse_deadline_utc("2026-07-01 12:00:00", "America/New_York").unwrap();
    assert_eq!(parsed.to_rfc3339(), "2026-07-01T16:00:00+00:00");
}

#[test]
fn date_only_deadline_uses_end_of_local_day() {
    let parsed = parse_deadline_utc("2026-01-01", "Asia/Shanghai").unwrap();
    assert_eq!(parsed.to_rfc3339(), "2026-01-01T15:59:59+00:00");
}

#[test]
fn truncates_only_when_limit_is_present() {
    let mut limited = vec![1, 2, 3];
    truncate_to_limit(&mut limited, Some(2));
    assert_eq!(limited, vec![1, 2]);

    let mut unlimited = vec![1, 2, 3];
    truncate_to_limit(&mut unlimited, None);
    assert_eq!(unlimited, vec![1, 2, 3]);
}

#[test]
fn clamps_poll_intervals_to_safe_bounds() {
    assert_eq!(clamp_poll_interval_secs(0, 1, 86_400), 1);
    assert_eq!(clamp_poll_interval_secs(5, 1, 86_400), 5);
    assert_eq!(clamp_poll_interval_secs(u64::MAX, 1, 86_400), 86_400);
    assert_eq!(clamp_poll_interval_secs(0, 60, 10), 60);
}

#[test]
fn accepts_only_hosted_http_external_links() {
    assert!(validate_external_link("https://arxiv.org/abs/2601.00001").is_ok());
    assert!(validate_external_link("http://example.test/path").is_ok());
    assert!(validate_external_link("javascript:alert(1)").is_err());
    assert!(validate_external_link("file:///C:/Windows/System32/calc.exe").is_err());
    assert!(validate_external_link("https://").is_err());
    assert!(validate_external_link("not a url").is_err());
}

#[test]
fn accepts_only_installer_basenames() {
    assert!(validate_installer_asset_name("widgitron_x64-setup.exe").is_ok());
    assert!(validate_installer_asset_name("widgitron.msi").is_ok());
    assert!(validate_installer_asset_name("../payload.exe").is_err());
    assert!(validate_installer_asset_name("..\\payload.exe").is_err());
    assert!(validate_installer_asset_name("C:\\payload.exe").is_err());
    assert!(validate_installer_asset_name("payload.exe ").is_err());
    assert!(validate_installer_asset_name("notes.txt").is_err());
}

#[test]
fn accepts_only_official_release_downloads() {
    assert!(validate_official_download_url(
        "https://github.com/starkmomo/widgitron/releases/download/v0.3.0/widgitron.exe"
    )
    .is_ok());
    assert!(validate_official_download_url(
        "http://github.com/starkmomo/widgitron/releases/download/v0.3.0/widgitron.exe"
    )
    .is_err());
    assert!(validate_official_download_url(
        "https://github.com/attacker/widgitron/releases/download/v0.3.0/widgitron.exe"
    )
    .is_err());
    assert!(validate_official_download_url(
        "https://github.com:444/starkmomo/widgitron/releases/download/v0.3.0/widgitron.exe"
    )
    .is_err());
}

#[test]
fn accepts_only_github_redirect_hosts() {
    assert!(validate_github_response_url(
        "https://release-assets.githubusercontent.com/github-production-release-asset/file"
    )
    .is_ok());
    assert!(validate_github_response_url("https://githubusercontent.com.evil.test/file").is_err());
    assert!(validate_github_response_url("https://example.com/file").is_err());
    assert!(validate_github_response_url("https://github.com:444/file").is_err());
}

#[test]
fn clamp_keeps_values_inside_bounds_and_is_idempotent() {
    for value in [0u64, 59, 60, 61, 3600, 86_400, 86_401, u64::MAX] {
        let once = clamp_poll_interval_secs(value, 60, 86_400);
        assert!((60..=86_400).contains(&once));
        assert_eq!(clamp_poll_interval_secs(once, 60, 86_400), once);
    }
}

#[test]
fn truncate_beyond_length_keeps_everything() {
    let mut items = vec!["a", "b"];
    truncate_to_limit(&mut items, Some(5));
    assert_eq!(items, vec!["a", "b"]);
    let mut none = vec![1];
    truncate_to_limit(&mut none, Some(0));
    assert!(none.is_empty());
}

#[test]
fn link_errors_carry_the_parser_message() {
    let err = validate_external_link("not a url").unwrap_err();
    assert_eq!(err, "Invalid external URL: relative URL without a base");
    let err = validate_external_link("javascript:alert(1)").unwrap_err();
    assert_eq!(err, "External links must use HTTP or HTTPS and include a host");
    let err = validate_official_download_url("https://example.com/x.exe").unwrap_err();
    assert_eq!(err, "Release download URL is not an official Widgitron GitHub asset");
    let err = validate_github_response_url("https://example.com/file").unwrap_err();
    assert_eq!(err, "Installer download redirected outside GitHub");
}

#[test]
fn installer_names_ignore_ascii_case_of_the_extension() {
    assert!(validate_installer_asset_name("Widgitron.EXE").is_ok());
    assert!(validate_installer_asset_name("Widgitron.Msi").is_ok());
    assert!(validate_installer_asset_name(".").is_err());
    assert!(validate_installer_asset_name("").is_err());
    assert_eq!(
        validate_installer_asset_name("a:b.exe").unwrap_err(),
        "Release asset name is not a supported installer basename"
    );
}

#[test]
fn deadline_errors_name_the_input() {
    let err = parse_deadline_utc("2026-01-01 10:00:00", "Mars/Olympus").unwrap_err();
    assert_eq!(err, "Unsupported deadline timezone 'Mars/Olympus'");
    let err = parse_deadline_utc("tomorrow", "UTC").unwrap_err();
    assert_eq!(err, "Invalid deadline timestamp 'tomorrow'");
    let err = parse_deadline_utc("2026-13-01", "UTC").unwrap_err();
    assert_eq!(err, "Invalid deadline date '2026-13-01': input is out of range");
    let utc = parse_deadline_utc("2026-03-04 05:06:07", "utc").unwrap();
    assert_eq!(utc.to_rfc3339(), "2026-03-04T05:06:07+00:00");
}

#[test]
fn leap_second_in_a_zone_with_a_seconds_offset_keeps_its_text() {
    let naive = chrono::NaiveDateTime::parse_from_str("1900-01-01T23:59:60", "%Y-%m-%dT%H:%M:%S").unwrap();
    let expected = chrono_tz::Africa::Abidjan
        .from_local_datetime(&naive)
        .single()
        .unwrap()
        .with_timezone(&chrono::Utc);
    let parsed = parse_deadline_utc("1900-01-01 23:59:60", "Africa/Abidjan").unwrap();
    assert_eq!(parsed.to_rfc3339(), expected.to_rfc3339());
    assert_eq!(parsed.timestamp(), expected.timestamp());
    assert_eq!(parsed.timestamp_subsec_nanos(), expected.timestamp_subsec_nanos());
    assert!(parsed.timestamp_subsec_nanos() >= 1_000_000_000);
}

#[test]
fn aoe_deadline_is_twelve_hours_after_its_wall_clock() {
    let aoe = parse_deadline_utc("2026-05-01 08:30:00", "aoe").unwrap();
    let utc = parse_deadline_utc("2026-05-01 08:30:00", "UTC").unwrap();
    assert_eq!(aoe.timestamp(), utc.timestamp() + 12 * 3600);
}
