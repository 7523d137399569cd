use widgitron::ota::{
    add_downloaded, check_installer_size, has_update, installer_request, is_msi_extension,
    select_installer_asset, update_check_is_fresh, update_info_for_release, validate_release_asset,
    GithubAsset, GithubRelease, UpdateInfo, MAX_INSTALLER_BYTES,
};

const BASE: &str = "https://github.com/starkmomo/widgitron/releases/download/v0.4.0/";

fn asset(name: &str) -> GithubAsset {
    GithubAsset { name: name.to_string(), browser_download_url: format!("{}{}", BASE, name) }
}

#[test]
fn compares_versions_as_semver() {
    assert!(has_update("v1.2.0", "1.1.9"));
    assert!(has_update("1.10.0", "v1.9.0"));
    assert!(!has_update("v1.2.0", "1.2.0"));
    assert!(!has_update("1.0.0", "1.0.1"));
    assert!(!has_update("1.0.0-beta", "1.0.0"));
}

#[test]
fn unparsable_versions_compare_as_text() {
    assert!(has_update("nightly-2", "nightly-1"));
    assert!(has_update("nightly-1", "nightly-2"));
    assert!(!has_update("nightly", "vnightly"));
}

#[test]
fn a_version_is_never_an_update_of_itself() {
    for v in ["1.0.0", "v2.3.4", "not-a-version", ""] {
        assert!(!has_update(v, v));
    }
}

#[test]
fn picks_installers_by_priority() {
    let assets = vec![
        asset("widgitron.msi"),
        asset("widgitron.exe"),
        asset("widgitron-setup.exe"),
        asset("widgitron_x64-setup.exe"),
    ];
    assert_eq!(select_installer_asset(&assets), Some(3));
    let assets = vec![asset("widgitron.msi"), asset("widgitron.exe")];
    assert_eq!(select_installer_asset(&assets), Some(1));
    let assets = vec![asset("notes.txt"), asset("widgitron.msi")];
    assert_eq!(select_installer_asset(&assets), Some(1));
    let foreign = vec![GithubAsset {
        name: "widgitron_x64-setup.exe".to_string(),
        browser_download_url: "https://example.com/widgitron_x64-setup.exe".to_string(),
    }];
    assert_eq!(select_installer_asset(&foreign), None);
}

#[test]
fn release_assets_are_checked_name_first() {
    assert!(validate_release_asset(&asset("widgitron.exe")).is_ok());
    let bad_name = GithubAsset { name: "x.txt".to_string(), browser_download_url: "nope".to_string() };
    assert_eq!(
        validate_release_asset(&bad_name).unwrap_err(),
        "Release asset name is not a supported installer basename"
    );
    let bad_url = GithubAsset { name: "x.exe".to_string(), browser_download_url: "https://example.com/x.exe".to_string() };
    assert_eq!(
        validate_release_asset(&bad_url).unwrap_err(),
        "Release download URL is not an official Widgitron GitHub asset"
    );
}

#[test]
fn builds_update_info_for_a_newer_release() {
    let release = GithubRelease {
        tag_name: "v0.4.0".to_string(),
        body: "notes".to_string(),
        assets: vec![asset("widgitron.msi"), asset("widgitron_x64-setup.exe")],
    };
    let info = update_info_for_release("0.3.0".to_string(), release);
    assert!(info.has_update);
    assert_eq!(info.latest_version, "v0.4.0");
    assert_eq!(info.current_version, "0.3.0");
    assert_eq!(info.release_notes, "notes");
    assert_eq!(info.asset_name.as_deref(), Some("widgitron_x64-setup.exe"));
    assert_eq!(info.download_url, Some(format!("{}widgitron_x64-setup.exe", BASE)));

    let (url, name) = installer_request(&info).unwrap();
    assert_eq!(name, "widgitron_x64-setup.exe");
    assert!(url.ends_with("widgitron_x64-setup.exe"));
}

#[test]
fn no_installer_without_an_update() {
    let release = GithubRelease {
        tag_name: "v0.3.0".to_string(),
        body: String::new(),
        assets: vec![asset("widgitron.exe")],
    };
    let info = update_info_for_release("0.3.0".to_string(), release);
    assert!(!info.has_update);
    assert_eq!(info.download_url, None);
    assert_eq!(installer_request(&info).unwrap_err(), "No newer release is available");
}

#[test]
fn installer_requests_explain_missing_parts() {
    let mut info = UpdateInfo {
        has_update: true,
        current_version: "1".to_string(),
        latest_version: "2".to_string(),
        release_notes: String::new(),
        download_url: None,
        asset_name: None,
    };
    assert_eq!(installer_request(&info).unwrap_err(), "The official release has no supported installer");
    info.download_url = Some(format!("{}w.exe", BASE));
    assert_eq!(
        installer_request(&info).unwrap_err(),
        "The official release has no supported installer name"
    );
    info.asset_name = Some("w.txt".to_string());
    assert_eq!(
        installer_request(&info).unwrap_err(),
        "Release asset name is not a supported installer basename"
    );
}

#[test]
fn download_sizes_are_limited() {
    assert!(check_installer_size(0).is_ok());
    assert!(check_installer_size(MAX_INSTALLER_BYTES).is_ok());
    assert_eq!(
        check_installer_size(MAX_INSTALLER_BYTES + 1).unwrap_err(),
        "Installer is too large: 1073741825 bytes"
    );
    assert_eq!(add_downloaded(10, 5).unwrap(), 15);
    assert_eq!(add_downloaded(MAX_INSTALLER_BYTES, 0).unwrap(), MAX_INSTALLER_BYTES);
    assert_eq!(
        add_downloaded(MAX_INSTALLER_BYTES, 1).unwrap_err(),
        "Installer exceeded the maximum allowed size"
    );
}

#[test]
fn update_checks_are_reused_for_two_minutes() {
    assert!(update_check_is_fresh(0));
    assert!(update_check_is_fresh(119));
    assert!(!update_check_is_fresh(120));
    assert!(is_msi_extension("MSI"));
    assert!(!is_msi_extension("exe"));
}
