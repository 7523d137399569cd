//! Checks on links, release download URLs and installer asset names.

use vstd::prelude::*;

use crate::common::{join2, owned};
use crate::text::{
    chars_equal, chars_of, ends_with, has_char, has_prefix, has_suffix, starts_with,
    to_ascii_lowercase, trim, trim_ws, ascii_lower_seq,
};

verus! {

/// Scheme, host (`Url::host_str`), port (`Url::port_or_known_default`) and
/// path of the URL that `url::Url::parse` reads from `input`, or the text of
/// the error with which it rejects `input`.
pub uninterp spec fn url_parse_parts(input: Seq<char>) -> Result<(Seq<char>, Option<Seq<char>>, Option<u16>, Seq<char>), Seq<char>>;

/// The parts of a parsed URL that the checks read.
pub struct UrlParts {
    pub scheme: String,
    pub host: Option<String>,
    pub port: Option<u16>,
    pub path: String,
}

/// The view of an optional `String`.
pub open spec fn opt_view(s: Option<String>) -> Option<Seq<char>> {
    match s {
        Some(x) => Some(x@),
        None => None,
    }
}

impl UrlParts {
    pub open spec fn model(self) -> (Seq<char>, Option<Seq<char>>, Option<u16>, Seq<char>) {
        (self.scheme@, opt_view(self.host), self.port, self.path@)
    }
}

/// `url::Url::parse`: the scheme, host, port (explicit or the scheme's
/// default) and path of the URL, or the text of the parse error, as
/// `url_parse_parts` names them.
#[verifier::external_body]
fn parse_url(input: &str) -> (r: Result<UrlParts, String>)
    ensures
        match url_parse_parts(input@) {
            Ok(m) => r matches Ok(p) && p.model() == m,
            Err(e) => r matches Err(x) && x@ == e,
        },
{
    let url = url::Url::parse(input).map_err(|e| e.to_string())?;
    Ok(UrlParts {
        scheme: url.scheme().to_string(),
        host: url.host_str().map(|h| h.to_string()),
        port: url.port_or_known_default(),
        path: url.path().to_string(),
    })
}

/// An external link is accepted when it parses, its scheme is `http` or
/// `https` and it names a host.
pub open spec fn external_link_ok(p: (Seq<char>, Option<Seq<char>>, Option<u16>, Seq<char>)) -> bool {
    (p.0 == "http"@ || p.0 == "https"@) && p.1 is Some
}

/// Accepts only links that parse as URLs with an `http` or `https` scheme
/// and a host.
pub fn validate_external_link(link: &str) -> (r: Result<(), String>)
    ensures
        r is Ok <==> (url_parse_parts(link@) matches Ok(p) && external_link_ok(p)),
        url_parse_parts(link@) matches Err(pe) ==> (r matches Err(e) && e@ == "Invalid external URL: "@ + pe),
        (url_parse_parts(link@) matches Ok(p) && !external_link_ok(p)) ==> (r matches Err(e) && e@
            == "External links must use HTTP or HTTPS and include a host"@),
{
    let url = match parse_url(link) {
        Ok(u) => u,
        Err(e) => return Err(join2("Invalid external URL: ", e.as_str())),
    };
    let scheme = chars_of(url.scheme.as_str());
    let http = chars_of("http");
    let https = chars_of("https");
    if !(chars_equal(&scheme, &http) || chars_equal(&scheme, &https)) || url.host.is_none() {
        return Err(owned("External links must use HTTP or HTTPS and include a host"));
    }
    Ok(())
}


/// The path under which official release assets are published.
pub open spec fn release_download_prefix() -> Seq<char> {
    "/starkmomo/widgitron/releases/download/"@
}

/// An official download is an `https` URL on port 443 of `github.com` whose
/// path lies under the release download prefix.
pub open spec fn official_download_ok(p: (Seq<char>, Option<Seq<char>>, Option<u16>, Seq<char>)) -> bool {
    &&& p.0 == "https"@
    &&& p.2 == Some(443u16)
    &&& p.1 == Some("github.com"@)
    &&& starts_with(p.3, release_download_prefix())
}

/// Accepts only `https://github.com` (port 443) URLs under the release
/// download path of the Widgitron repository.
pub fn validate_official_download_url(download_url: &str) -> (r: Result<(), String>)
    ensures
        r is Ok <==> (url_parse_parts(download_url@) matches Ok(p) && official_download_ok(p)),
        url_parse_parts(download_url@) matches Err(pe) ==> (r matches Err(e) && e@ == "Invalid release download URL: "@ + pe),
        (url_parse_parts(download_url@) matches Ok(p) && !official_download_ok(p)) ==> (r matches Err(
            e,
        ) && e@ == "Release download URL is not an official Widgitron GitHub asset"@),
{
    let url = match parse_url(download_url) {
        Ok(u) => u,
        Err(e) => return Err(join2("Invalid release download URL: ", e.as_str())),
    };
    let scheme_ok = chars_equal(&chars_of(url.scheme.as_str()), &chars_of("https"));
    let port_ok = match url.port {
        Some(p) => p == 443,
        None => false,
    };
    let host_ok = match &url.host {
        Some(h) => chars_equal(&chars_of(h.as_str()), &chars_of("github.com")),
        None => false,
    };
    let path_ok = has_prefix(
        &chars_of(url.path.as_str()),
        &chars_of("/starkmomo/widgitron/releases/download/"),
    );
    if !scheme_ok || !port_ok || !host_ok || !path_ok {
        return Err(owned("Release download URL is not an official Widgitron GitHub asset"));
    }
    Ok(())
}

/// The host that the redirect check reads: the URL's host, or empty.
pub open spec fn host_or_empty(h: Option<Seq<char>>) -> Seq<char> {
    match h {
        Some(x) => x,
        None => Seq::empty(),
    }
}

/// A download response may come from `github.com` or any subdomain of
/// `githubusercontent.com`, over `https` on port 443.
pub open spec fn github_response_ok(p: (Seq<char>, Option<Seq<char>>, Option<u16>, Seq<char>)) -> bool {
    let host = host_or_empty(p.1);
    &&& p.0 == "https"@
    &&& p.2 == Some(443u16)
    &&& (host == "github.com"@ || ends_with(host, ".githubusercontent.com"@))
}

/// Accepts only responses served over `https` (port 443) from GitHub hosts.
pub fn validate_github_response_url(response_url: &str) -> (r: Result<(), String>)
    ensures
        r is Ok <==> (url_parse_parts(response_url@) matches Ok(p) && github_response_ok(p)),
        url_parse_parts(response_url@) matches Err(pe) ==> (r matches Err(e) && e@ == "Invalid installer response URL: "@ + pe),
        (url_parse_parts(response_url@) matches Ok(p) && !github_response_ok(p)) ==> (r matches Err(
            e,
        ) && e@ == "Installer download redirected outside GitHub"@),
{
    let url = match parse_url(response_url) {
        Ok(u) => u,
        Err(e) => return Err(join2("Invalid installer response URL: ", e.as_str())),
    };
    let host = match &url.host {
        Some(h) => chars_of(h.as_str()),
        None => Vec::new(),
    };
    assert(host@ == host_or_empty(opt_view(url.host)));
    let scheme_ok = chars_equal(&chars_of(url.scheme.as_str()), &chars_of("https"));
    let port_ok = match url.port {
        Some(p) => p == 443,
        None => false,
    };
    let host_ok = chars_equal(&host, &chars_of("github.com")) || has_suffix(
        &host,
        &chars_of(".githubusercontent.com"),
    );
    if !scheme_ok || !port_ok || !host_ok {
        return Err(owned("Installer download redirected outside GitHub"));
    }
    Ok(())
}

/// An installer asset name is a plain, trimmed file name (not `.` or `..`,
/// with no `/`, `\` or `:`) that ends, ignoring ASCII case, in `.exe` or `.msi`.
pub open spec fn installer_name_ok(name: Seq<char>) -> bool {
    let lower = ascii_lower_seq(name);
    let unsafe_name = name.len() == 0 || trim_ws(name) != name || name == "."@ || name == ".."@
        || name.contains('/') || name.contains('\\') || name.contains(':');
    !unsafe_name && (ends_with(lower, ".exe"@) || ends_with(lower, ".msi"@))
}

/// Accepts only installer base names (see `installer_name_ok`).
pub fn validate_installer_asset_name(asset_name: &str) -> (r: Result<(), String>)
    ensures
        r is Ok <==> installer_name_ok(asset_name@),
        r matches Err(e) ==> e@ == "Release asset name is not a supported installer basename"@,
{
    let lower = chars_of(to_ascii_lowercase(asset_name).as_str());
    let name = chars_of(asset_name);
    let trimmed = chars_of(trim(asset_name).as_str());
    let unsafe_name = name.len() == 0 || !chars_equal(&trimmed, &name) || chars_equal(
        &name,
        &chars_of("."),
    ) || chars_equal(&name, &chars_of("..")) || has_char(&name, '/') || has_char(&name, '\\')
        || has_char(&name, ':');
    if unsafe_name || !(has_suffix(&lower, &chars_of(".exe")) || has_suffix(
        &lower,
        &chars_of(".msi"),
    )) {
        return Err(owned("Release asset name is not a supported installer basename"));
    }
    Ok(())
}

} // verus!
