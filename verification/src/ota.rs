//! Updates from the project's GitHub releases: whether the latest release is
//! newer than the running version, which of its assets to install, and the
//! limits an installer download is held to.

use vstd::prelude::*;

use crate::common::{join3, owned};
use crate::deadline_time::{eq_ignore_ascii_case, str_eq_ignore_ascii_case};
use crate::release::{
    installer_name_ok, official_download_ok, url_parse_parts, validate_installer_asset_name,
    validate_official_download_url,
};
use crate::text::{chars_of, decimal_string, decimal_text, ends_with, has_suffix, string_of_range};

verus! {

/// The largest installer that is downloaded: 1 GiB.
pub const MAX_INSTALLER_BYTES: u64 = 1073741824;

/// How long, in seconds, the result of an update check is reused.
pub const UPDATE_CHECK_COOLDOWN_SECS: u64 = 120;

/// An asset of a release.
#[derive(Debug)]
pub struct GithubAsset {
    pub name: String,
    pub browser_download_url: String,
}

/// A release as the GitHub API describes it.
#[derive(Debug)]
pub struct GithubRelease {
    pub tag_name: String,
    pub body: String,
    pub assets: Vec<GithubAsset>,
}

/// The outcome of an update check.
#[derive(Debug)]
pub struct UpdateInfo {
    pub has_update: bool,
    pub current_version: String,
    pub latest_version: String,
    pub release_notes: String,
    pub download_url: Option<String>,
    pub asset_name: Option<String>,
}

/// Whether `semver::Version::parse` accepts the text.
pub uninterp spec fn semver_parses(s: Seq<char>) -> bool;

/// Whether the version that `semver::Version::parse` reads from `a` is
/// greater than the one it reads from `b` (where both parse).
pub uninterp spec fn semver_newer(a: Seq<char>, b: Seq<char>) -> bool;

/// `semver::Version::parse` on both texts and, where both parse, whether the
/// first is greater; a version is never greater than itself.
#[verifier::external_body]
fn semver_compare(latest: &str, current: &str) -> (r: Option<bool>)
    ensures
        match r {
            Some(g) => semver_parses(latest@) && semver_parses(current@) && g == semver_newer(
                latest@,
                current@,
            ) && (latest@ == current@ ==> !g),
            None => !(semver_parses(latest@) && semver_parses(current@)),
        },
{
    match (semver::Version::parse(latest), semver::Version::parse(current)) {
        (Ok(l), Ok(c)) => Some(l > c),
        _ => None,
    }
}

/// A version text without one leading `v`.
pub open spec fn strip_v(s: Seq<char>) -> Seq<char> {
    if s.len() > 0 && s[0] == 'v' {
        s.drop_first()
    } else {
        s
    }
}

/// A release is an update when, without a leading `v`, both versions parse
/// and the release's is greater; where either does not parse, when the two
/// texts differ.
pub open spec fn has_update_spec(latest_tag: Seq<char>, current: Seq<char>) -> bool {
    let l = strip_v(latest_tag);
    let c = strip_v(current);
    if semver_parses(l) && semver_parses(c) {
        semver_newer(l, c)
    } else {
        l != c
    }
}

/// The text without one leading `v` (see `strip_v`).
fn strip_v_exec(s: &str) -> (r: String)
    ensures
        r@ == strip_v(s@),
{
    let v = chars_of(s);
    if v.len() > 0 && v[0] == 'v' {
        let r = string_of_range(&v, 1, v.len());
        assert(r@ =~= s@.drop_first());
        r
    } else {
        let r = string_of_range(&v, 0, v.len());
        assert(r@ =~= s@);
        r
    }
}

/// Whether the release tagged `latest_tag` is an update of `current_version`
/// (see `has_update_spec`).
pub fn has_update(latest_tag: &str, current_version: &str) -> (r: bool)
    ensures
        r == has_update_spec(latest_tag@, current_version@),
        latest_tag@ == current_version@ ==> !r,
{
    let l = strip_v_exec(latest_tag);
    let c = strip_v_exec(current_version);
    match semver_compare(l.as_str(), c.as_str()) {
        Some(newer) => newer,
        None => !crate::text::chars_equal(&chars_of(l.as_str()), &chars_of(c.as_str())),
    }
}

/// An asset may be installed: its name is an installer base name and its
/// URL an official release download.
pub open spec fn asset_ok(a: GithubAsset) -> bool {
    installer_name_ok(a.name@) && (url_parse_parts(a.browser_download_url@) matches Ok(p)
        && official_download_ok(p))
}

/// Checks an asset: its name, then its download URL.
pub fn validate_release_asset(asset: &GithubAsset) -> (r: Result<(), String>)
    ensures
        r is Ok <==> asset_ok(*asset),
        !installer_name_ok(asset.name@) ==> (r matches Err(e) && e@
            == "Release asset name is not a supported installer basename"@),
        installer_name_ok(asset.name@) ==> match url_parse_parts(asset.browser_download_url@) {
            Err(pe) => r matches Err(e) && e@ == "Invalid release download URL: "@ + pe,
            Ok(p) => !official_download_ok(p) ==> (r matches Err(e) && e@
                == "Release download URL is not an official Widgitron GitHub asset"@),
        },
{
    match validate_installer_asset_name(asset.name.as_str()) {
        Ok(()) => {},
        Err(e) => return Err(e),
    }
    validate_official_download_url(asset.browser_download_url.as_str())
}

/// The first acceptable asset whose name ends with `suffix`, from index `i`.
pub open spec fn first_with_suffix(assets: Seq<GithubAsset>, suffix: Seq<char>, i: int) -> Option<int>
    decreases assets.len() - i,
{
    if i < 0 || i >= assets.len() {
        None
    } else if asset_ok(assets[i]) && ends_with(assets[i].name@, suffix) {
        Some(i)
    } else {
        first_with_suffix(assets, suffix, i + 1)
    }
}

/// The asset to install: the first acceptable one ending in `_x64-setup.exe`,
/// else in `-setup.exe`, else in `.exe`, else in `.msi` (names compared as
/// written).
pub open spec fn select_asset_spec(assets: Seq<GithubAsset>) -> Option<int> {
    match first_with_suffix(assets, "_x64-setup.exe"@, 0) {
        Some(i) => Some(i),
        None => match first_with_suffix(assets, "-setup.exe"@, 0) {
            Some(i) => Some(i),
            None => match first_with_suffix(assets, ".exe"@, 0) {
                Some(i) => Some(i),
                None => first_with_suffix(assets, ".msi"@, 0),
            },
        },
    }
}

/// The first acceptable asset whose name ends with `suffix`.
fn find_asset_with_suffix(assets: &Vec<GithubAsset>, suffix: &str) -> (r: Option<usize>)
    ensures
        r matches Some(i) ==> i < assets@.len(),
        match first_with_suffix(assets@, suffix@, 0) {
            Some(i) => r matches Some(k) && k as int == i,
            None => r is None,
        },
{
    let suf = chars_of(suffix);
    let mut i: usize = 0;
    while i < assets.len()
        invariant
            i <= assets@.len(),
            suf@ == suffix@,
            first_with_suffix(assets@, suffix@, 0) == first_with_suffix(assets@, suffix@, i as int),
        decreases assets@.len() - i,
    {
        if validate_release_asset(&assets[i]).is_ok() && has_suffix(&chars_of(assets[i].name.as_str()), &suf) {
            return Some(i);
        }
        i += 1;
    }
    None
}

/// The index of the asset to install (see `select_asset_spec`).
pub fn select_installer_asset(assets: &Vec<GithubAsset>) -> (r: Option<usize>)
    ensures
        r matches Some(i) ==> i < assets@.len(),
        match select_asset_spec(assets@) {
            Some(i) => r matches Some(k) && k as int == i,
            None => r is None,
        },
{
    match find_asset_with_suffix(assets, "_x64-setup.exe") {
        Some(i) => Some(i),
        None => match find_asset_with_suffix(assets, "-setup.exe") {
            Some(i) => Some(i),
            None => match find_asset_with_suffix(assets, ".exe") {
                Some(i) => Some(i),
                None => find_asset_with_suffix(assets, ".msi"),
            },
        },
    }
}

/// The update check for the running version against a release: whether it
/// is an update, and for an update, the asset to install (if any).
pub fn update_info_for_release(current_version: String, release: GithubRelease) -> (r: UpdateInfo)
    ensures
        r.has_update == has_update_spec(release.tag_name@, current_version@),
        r.current_version@ == current_version@,
        r.latest_version@ == release.tag_name@,
        r.release_notes@ == release.body@,
        match (if r.has_update { select_asset_spec(release.assets@) } else { None }) {
            Some(i) => (r.download_url matches Some(u) && u@ == release.assets@[i].browser_download_url@)
                && (r.asset_name matches Some(n) && n@ == release.assets@[i].name@),
            None => r.download_url is None && r.asset_name is None,
        },
{
    let update = has_update(release.tag_name.as_str(), current_version.as_str());
    let mut download_url: Option<String> = None;
    let mut asset_name: Option<String> = None;
    if update {
        match select_installer_asset(&release.assets) {
            Some(i) => {
                download_url = Some(release.assets[i].browser_download_url.clone());
                asset_name = Some(release.assets[i].name.clone());
            },
            None => {},
        }
    }
    UpdateInfo {
        has_update: update,
        current_version,
        latest_version: release.tag_name,
        release_notes: release.body,
        download_url,
        asset_name,
    }
}

/// The request to download and install an update: its URL and asset name,
/// or why there is none.
pub open spec fn installer_request_spec(
    has_update: bool,
    download_url: Option<Seq<char>>,
    asset_name: Option<Seq<char>>,
) -> Result<(Seq<char>, Seq<char>), Seq<char>> {
    if !has_update {
        Err("No newer release is available"@)
    } else {
        match download_url {
            None => Err("The official release has no supported installer"@),
            Some(u) => match asset_name {
                None => Err("The official release has no supported installer name"@),
                Some(n) => match url_parse_parts(u) {
                    Err(pe) => Err("Invalid release download URL: "@ + pe),
                    Ok(p) => if !official_download_ok(p) {
                        Err("Release download URL is not an official Widgitron GitHub asset"@)
                    } else if !installer_name_ok(n) {
                        Err("Release asset name is not a supported installer basename"@)
                    } else {
                        Ok((u, n))
                    },
                },
            },
        }
    }
}

/// The download to start for an update check's outcome (see
/// `installer_request_spec`).
pub fn installer_request(update: &UpdateInfo) -> (r: Result<(String, String), String>)
    ensures
        match installer_request_spec(
            update.has_update,
            match update.download_url { Some(u) => Some(u@), None => None },
            match update.asset_name { Some(n) => Some(n@), None => None },
        ) {
            Ok((u, n)) => r matches Ok(x) && x.0@ == u && x.1@ == n,
            Err(e) => r matches Err(x) && x@ == e,
        },
{
    if !update.has_update {
        return Err(owned("No newer release is available"));
    }
    let download_url = match &update.download_url {
        Some(u) => u,
        None => return Err(owned("The official release has no supported installer")),
    };
    let asset_name = match &update.asset_name {
        Some(n) => n,
        None => return Err(owned("The official release has no supported installer name")),
    };
    match validate_official_download_url(download_url.as_str()) {
        Ok(()) => {},
        Err(e) => return Err(e),
    }
    match validate_installer_asset_name(asset_name.as_str()) {
        Ok(()) => {},
        Err(e) => return Err(e),
    }
    Ok((download_url.clone(), asset_name.clone()))
}

/// Whether an update check made `elapsed_secs` whole seconds ago is still
/// reused (younger than the cooldown).
pub fn update_check_is_fresh(elapsed_secs: u64) -> (r: bool)
    ensures
        r == (elapsed_secs < UPDATE_CHECK_COOLDOWN_SECS),
{
    elapsed_secs < UPDATE_CHECK_COOLDOWN_SECS
}

/// Checks the size an installer download announces (0 when unknown).
pub fn check_installer_size(total_size: u64) -> (r: Result<(), String>)
    ensures
        total_size <= MAX_INSTALLER_BYTES ==> r is Ok,
        total_size > MAX_INSTALLER_BYTES ==> (r matches Err(e) && e@ == "Installer is too large: "@
            + decimal_text(total_size as nat) + " bytes"@),
{
    if total_size > MAX_INSTALLER_BYTES {
        return Err(join3("Installer is too large: ", decimal_string(total_size).as_str(), " bytes"));
    }
    Ok(())
}

/// The bytes downloaded after a chunk of `chunk_len` bytes arrives, which
/// may not exceed the limit.
pub fn add_downloaded(downloaded: u64, chunk_len: usize) -> (r: Result<u64, String>)
    requires
        downloaded <= MAX_INSTALLER_BYTES,
        chunk_len <= isize::MAX,
    ensures
        downloaded + chunk_len <= MAX_INSTALLER_BYTES ==> r == Ok::<u64, String>(
            (downloaded + chunk_len) as u64,
        ),
        downloaded + chunk_len > MAX_INSTALLER_BYTES ==> (r matches Err(e) && e@
            == "Installer exceeded the maximum allowed size"@),
{
    let total = downloaded as u128 + chunk_len as u128;
    if total > MAX_INSTALLER_BYTES as u128 {
        return Err(owned("Installer exceeded the maximum allowed size"));
    }
    Ok(total as u64)
}

/// Whether an installer file extension is `msi`, ignoring ASCII case (such
/// an installer runs through `msiexec`).
pub fn is_msi_extension(extension: &str) -> (r: bool)
    ensures
        r == eq_ignore_ascii_case(extension@, "msi"@),
{
    str_eq_ignore_ascii_case(extension, "msi")
}

} // verus!
