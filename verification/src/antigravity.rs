//! Antigravity IDE credentials: the OAuth token blob that the IDE keeps in its
//! state database, client credentials found in its install files, and the
//! choice of tokens to try against the Cloud Code API.

use base64::Engine;
use vstd::prelude::*;
use vstd::utf8::encode_utf8;

use crate::common::owned;
use crate::protobuf::{
    field_bytes, field_bytes_spec, field_string, field_string_spec, protobuf_fields,
    read_protobuf_fields, FieldValue, ProtobufField,
};
use crate::text::{
    chars_equal, chars_of, contains, contains_seq, contains_string, find_from, find_seq,
    is_ascii_alnum, rfind_char, rfind_char_spec, skip_fwd, string_of_range, texts, trim,
    trimmed_non_empty, trim_ws,
};

verus! {

broadcast use vstd::std_specs::hash::group_hash_axioms;

/// What `base64::engine::general_purpose::STANDARD.decode` gives for the text
/// `s`: the bytes it reads, or the text of the error with which it rejects `s`.
pub uninterp spec fn base64_standard(s: Seq<char>) -> Result<Seq<u8>, Seq<char>>;

/// `base64::engine::general_purpose::STANDARD.decode(s)`, its error as text.
#[verifier::external_body]
pub(crate) fn base64_decode(s: &str) -> (r: Result<Vec<u8>, String>)
    ensures
        match base64_standard(s@) {
            Ok(b) => r matches Ok(v) && v@ == b,
            Err(e) => r matches Err(x) && x@ == e,
        },
{
    base64::engine::general_purpose::STANDARD.decode(s).map_err(|e| e.to_string())
}

/// The key under which the IDE stores its OAuth token blob.
pub const OAUTH_TOKEN_KEY: &'static str = "antigravityUnifiedStateSync.oauthToken";

/// The sentinel that marks the OAuth token entry inside the blob.
pub const OAUTH_TOKEN_SENTINEL: &'static str = "oauthTokenInfoSentinelKey";

/// The Google OAuth client id used when no other is configured or found.
pub const DEFAULT_GOOGLE_CLIENT_ID: &'static str = "1071006060591-tmhssin2h21lcre235vtolojh4g403ep.apps.googleusercontent.com";

/// The inner token message of a stored blob: base64 of a message whose field 1
/// is a wrapper; the wrapper's field 1 is the sentinel text and its field 2 a
/// payload whose field 1 is the base64 text of the token message.
pub open spec fn oauth_blob_inner(text: Seq<char>) -> Option<Seq<u8>> {
    match base64_standard(trim_ws(text)) {
        Err(_) => None,
        Ok(outer) => match field_bytes_spec(protobuf_fields(outer), 1) {
            None => None,
            Some(wrapper) => {
                let wf = protobuf_fields(wrapper);
                match field_string_spec(wf, 1) {
                    None => None,
                    Some(sentinel) => if sentinel != "oauthTokenInfoSentinelKey"@ {
                        None
                    } else {
                        match field_bytes_spec(wf, 2) {
                            None => None,
                            Some(payload) => match field_string_spec(protobuf_fields(payload), 1) {
                                None => None,
                                Some(inner) => match base64_standard(inner) {
                                    Ok(b) => Some(b),
                                    Err(_) => None,
                                },
                            },
                        }
                    },
                }
            },
        },
    }
}

/// Unwraps the token message from the stored blob (see `oauth_blob_inner`).
pub fn unwrap_oauth_token_blob(base64_text: &str) -> (r: Option<Vec<u8>>)
    ensures
        match oauth_blob_inner(base64_text@) {
            Some(b) => r matches Some(v) && v@ == b,
            None => r is None,
        },
{
    let outer = match base64_decode(trim(base64_text).as_str()) {
        Ok(o) => o,
        Err(_) => return None,
    };
    let outer_fields = read_protobuf_fields(outer.as_slice());
    let wrapper_bytes = match field_bytes(&outer_fields, 1) {
        Some(w) => w,
        None => return None,
    };
    let wrapper_fields = read_protobuf_fields(wrapper_bytes);
    let sentinel = match field_string(&wrapper_fields, 1) {
        Some(s) => s,
        None => return None,
    };
    if !chars_equal(&chars_of(sentinel.as_str()), &chars_of(OAUTH_TOKEN_SENTINEL)) {
        return None;
    }
    let payload_bytes = match field_bytes(&wrapper_fields, 2) {
        Some(p) => p,
        None => return None,
    };
    let payload_fields = read_protobuf_fields(payload_bytes);
    let inner_b64 = match field_string(&payload_fields, 1) {
        Some(s) => s,
        None => return None,
    };
    match base64_decode(inner_b64.as_str()) {
        Ok(b) => Some(b),
        Err(_) => None,
    }
}

/// The tokens of the IDE's Google sign-in.
pub struct OAuthTokens {
    pub access_token: Option<String>,
    pub refresh_token: Option<String>,
    pub expiry_seconds: Option<i64>,
}

/// The view of an optional `String`.
pub open spec fn opt_text(s: Option<String>) -> Option<Seq<char>> {
    match s {
        Some(x) => Some(x@),
        None => None,
    }
}

/// The expiry of a token message: field 4 is a timestamp message whose
/// field 1 is a varint of seconds (read as `i64`).
pub open spec fn token_expiry(fields: Map<u32, FieldValue>) -> Option<i64> {
    match field_bytes_spec(fields, 4) {
        None => None,
        Some(ts) => {
            let tf = protobuf_fields(ts);
            if tf.contains_key(1) {
                match tf[1] {
                    FieldValue::Varint(v) => Some(v as i64),
                    FieldValue::Bytes(_) => None,
                }
            } else {
                None
            }
        },
    }
}

/// A token message: access token in field 1, refresh token in field 3,
/// expiry in field 4.
pub open spec fn tokens_match(t: OAuthTokens, inner: Seq<u8>) -> bool {
    let fields = protobuf_fields(inner);
    &&& opt_text(t.access_token) == field_string_spec(fields, 1)
    &&& opt_text(t.refresh_token) == field_string_spec(fields, 3)
    &&& t.expiry_seconds == token_expiry(fields)
}

/// Reads the tokens of a token message (see `tokens_match`).
pub fn parse_oauth_tokens(inner: &[u8]) -> (t: OAuthTokens)
    ensures
        tokens_match(t, inner@),
{
    let fields = read_protobuf_fields(inner);
    let expiry_seconds = match field_bytes(&fields, 4) {
        Some(ts_bytes) => {
            let ts_fields = read_protobuf_fields(ts_bytes);
            match ts_fields.get(&1) {
                Some(ProtobufField::Varint(v)) => Some(*v as i64),
                _ => None,
            }
        },
        None => None,
    };
    OAuthTokens {
        access_token: field_string(&fields, 1),
        refresh_token: field_string(&fields, 3),
        expiry_seconds,
    }
}

/// The tokens of a stored blob, kept where it holds an access or a refresh token.
pub fn oauth_tokens_from_blob(raw: &str) -> (r: Option<OAuthTokens>)
    ensures
        match oauth_blob_inner(raw@) {
            None => r is None,
            Some(inner) => match r {
                Some(t) => tokens_match(t, inner) && (t.access_token is Some
                    || t.refresh_token is Some),
                None => field_string_spec(protobuf_fields(inner), 1) is None
                    && field_string_spec(protobuf_fields(inner), 3) is None,
            },
        },
{
    let inner = match unwrap_oauth_token_blob(raw) {
        Some(i) => i,
        None => return None,
    };
    let tokens = parse_oauth_tokens(inner.as_slice());
    if tokens.access_token.is_some() || tokens.refresh_token.is_some() {
        Some(tokens)
    } else {
        None
    }
}


/// A character that may appear in a Google client secret.
pub open spec fn secret_char(c: char) -> bool {
    is_ascii_alnum(c) || c == '-' || c == '_'
}

/// The first `GOCSPX-` client secret in `content`: from the marker up to the
/// first character that is not an ASCII letter, digit, `-` or `_`, kept when
/// it is longer than eight bytes.
pub open spec fn gocspx_secret(content: Seq<char>) -> Option<Seq<char>> {
    match find_from(content, "GOCSPX-"@, 0) {
        None => None,
        Some(start) => {
            let end = skip_fwd(content, |c: char| secret_char(c), start);
            let secret = trim_ws(content.subrange(start, end));
            if encode_utf8(secret).len() as usize > 8 {
                Some(secret)
            } else {
                None
            }
        },
    }
}

/// Finds the Google client secret in an install file (see `gocspx_secret`).
pub fn extract_gocspx_secret(content: &str) -> (r: Option<String>)
    ensures
        match gocspx_secret(content@) {
            Some(t) => r matches Some(x) && x@ == t,
            None => r is None,
        },
{
    let v = chars_of(content);
    let start = match find_seq(&v, &chars_of("GOCSPX-")) {
        Some(s) => s,
        None => return None,
    };
    proof {
        crate::text::lemma_find_from(v@, "GOCSPX-"@, 0);
    }
    let mut end = start;
    while end < v.len() && (is_alnum_char(v[end]) || v[end] == '-' || v[end] == '_')
        invariant
            start <= end <= v@.len(),
            skip_fwd(v@, |c: char| secret_char(c), start as int) == skip_fwd(
                v@,
                |c: char| secret_char(c),
                end as int,
            ),
        decreases v@.len() - end,
    {
        end += 1;
    }
    let secret = trim(string_of_range(&v, start, end).as_str());
    if secret.as_str().len() > 8 {
        Some(secret)
    } else {
        None
    }
}

/// Whether `c` is an ASCII letter or digit.
pub fn is_alnum_char(c: char) -> (r: bool)
    ensures
        r == is_ascii_alnum(c),
{
    ('a' <= c && c <= 'z') || ('A' <= c && c <= 'Z') || ('0' <= c && c <= '9')
}

/// The suffix of Google OAuth client ids.
pub open spec fn client_id_marker() -> Seq<char> {
    ".apps.googleusercontent.com"@
}

/// The first Google client id in `content`: the text that ends with the
/// first `.apps.googleusercontent.com` and starts after the last `"` before
/// it (or, with none, the last `'`), trimmed, kept when it holds the suffix
/// and is longer than twenty bytes.
pub open spec fn google_client_id(content: Seq<char>) -> Option<Seq<char>> {
    match find_from(content, client_id_marker(), 0) {
        None => None,
        Some(i) => {
            let end = i + client_id_marker().len();
            let before = content.subrange(0, end);
            let quote = match rfind_char_spec(before, '"') {
                Some(q) => Some(q),
                None => rfind_char_spec(before, '\''),
            };
            match quote {
                None => None,
                Some(q) => {
                    let id = trim_ws(content.subrange(q + 1, end));
                    if contains_seq(id, client_id_marker()) && encode_utf8(id).len() as usize > 20 {
                        Some(id)
                    } else {
                        None
                    }
                },
            }
        },
    }
}

/// Finds a Google OAuth client id in an install file (see `google_client_id`).
pub fn extract_google_client_id(content: &str) -> (r: Option<String>)
    ensures
        match google_client_id(content@) {
            Some(t) => r matches Some(x) && x@ == t,
            None => r is None,
        },
{
    let v = chars_of(content);
    let marker = chars_of(".apps.googleusercontent.com");
    let i = match find_seq(&v, &marker) {
        Some(i) => i,
        None => return None,
    };
    proof {
        crate::text::lemma_find_from(v@, marker@, 0);
        assert(crate::text::occurs_at(v@, marker@, i as int));
        assert(i + marker@.len() <= v@.len());
    }
    let total = v.len();
    assert(i + marker@.len() <= total);
    let end = i + marker.len();
    let quote = match rfind_char(&v, end, '"') {
        Some(q) => Some(q),
        None => rfind_char(&v, end, '\''),
    };
    let q = match quote {
        Some(q) => q,
        None => return None,
    };
    proof {
        let before = v@.subrange(0, end as int);
        if let Some(k) = rfind_char_spec(before, '"') {
            lemma_rfind_in_range(before, '"');
        } else {
            lemma_rfind_in_range(before, '\'');
        }
    }
    let id = trim(string_of_range(&v, q + 1, end).as_str());
    let id_chars = chars_of(id.as_str());
    if contains(&id_chars, &marker) && id.as_str().len() > 20 {
        Some(id)
    } else {
        None
    }
}

proof fn lemma_rfind_in_range(s: Seq<char>, c: char)
    ensures
        rfind_char_spec(s, c) matches Some(k) ==> 0 <= k < s.len(),
    decreases s.len(),
{
    if s.len() > 0 && s.last() != c {
        lemma_rfind_in_range(s.drop_last(), c);
    }
}


/// A configured value: the environment's, trimmed, where not empty; else the
/// config file's, trimmed, where not empty.
pub open spec fn configured_value_spec(env: Option<Seq<char>>, config: Seq<char>) -> Option<Seq<char>> {
    match env {
        Some(e) if trim_ws(e).len() > 0 => Some(trim_ws(e)),
        _ => if trim_ws(config).len() > 0 {
            Some(trim_ws(config))
        } else {
            None
        },
    }
}

/// Picks the configured value of a credential: the environment variable
/// first, then the config file (see `configured_value_spec`).
pub fn configured_value(env: Option<String>, config: &str) -> (r: Option<String>)
    ensures
        opt_text(r) == configured_value_spec(opt_text(env), config@),
{
    if let Some(e) = &env {
        if let Some(t) = trimmed_non_empty(e.as_str()) {
            return Some(t);
        }
    }
    trimmed_non_empty(config)
}

/// The OAuth client credentials, where a non-empty client secret was found.
pub fn oauth_credentials(client_id: String, client_secret: Option<String>) -> (r: Result<(String, String), String>)
    ensures
        match client_secret {
            Some(s) if s@.len() > 0 => r matches Ok(p) && p.0 == client_id && p.1 == s,
            _ => r matches Err(e) && e@ == "Google OAuth client_secret not configured. Set ANTIGRAVITY_GOOGLE_CLIENT_SECRET, add client_secret to antigravity_oauth.json, or install Antigravity IDE."@,
        },
{
    match client_secret {
        Some(secret) if !secret.as_str().is_empty() => Ok((client_id, secret)),
        _ => Err(
            owned(
                "Google OAuth client_secret not configured. Set ANTIGRAVITY_GOOGLE_CLIENT_SECRET, add client_secret to antigravity_oauth.json, or install Antigravity IDE.",
            ),
        ),
    }
}

/// Whether a token with this expiry has expired at `now` (no expiry: never).
pub open spec fn expired(expiry: Option<i64>, now: i64) -> bool {
    match expiry {
        Some(e) => e <= now,
        None => false,
    }
}

/// The access tokens of `c` that have not expired at `now`, in order.
pub open spec fn usable_access_tokens_spec(c: Seq<OAuthTokens>, now: i64) -> Seq<Seq<char>>
    decreases c.len(),
{
    if c.len() == 0 {
        Seq::empty()
    } else {
        let prev = usable_access_tokens_spec(c.drop_last(), now);
        match c.last().access_token {
            Some(a) => if expired(c.last().expiry_seconds, now) {
                prev
            } else {
                prev.push(a@)
            },
            None => prev,
        }
    }
}

/// The access tokens worth trying: those not expired at `now`, in order.
pub fn usable_access_tokens(candidates: &[OAuthTokens], now: i64) -> (r: Vec<String>)
    ensures
        texts(r@) == usable_access_tokens_spec(candidates@, now),
{
    let mut r: Vec<String> = Vec::new();
    let mut i: usize = 0;
    while i < candidates.len()
        invariant
            i <= candidates@.len(),
            texts(r@) == usable_access_tokens_spec(candidates@.subrange(0, i as int), now),
        decreases candidates@.len() - i,
    {
        let t = &candidates[i];
        assert(candidates@.subrange(0, i + 1).drop_last() =~= candidates@.subrange(0, i as int));
        if let Some(access) = &t.access_token {
            let is_expired = match t.expiry_seconds {
                Some(e) => e <= now,
                None => false,
            };
            if !is_expired {
                r.push(access.clone());
            }
        }
        i += 1;
        assert(texts(r@) =~= usable_access_tokens_spec(candidates@.subrange(0, i as int), now));
    }
    assert(candidates@.subrange(0, candidates@.len() as int) =~= candidates@);
    r
}

/// The refresh tokens of `c`, each once, in order of first appearance.
pub open spec fn unique_refresh_tokens_spec(c: Seq<OAuthTokens>) -> Seq<Seq<char>>
    decreases c.len(),
{
    if c.len() == 0 {
        Seq::empty()
    } else {
        let prev = unique_refresh_tokens_spec(c.drop_last());
        match c.last().refresh_token {
            Some(t) => if prev.contains(t@) {
                prev
            } else {
                prev.push(t@)
            },
            None => prev,
        }
    }
}

/// The refresh tokens to try, each once, in order of first appearance.
pub fn unique_refresh_tokens(candidates: &[OAuthTokens]) -> (r: Vec<String>)
    ensures
        texts(r@) == unique_refresh_tokens_spec(candidates@),
{
    let mut r: Vec<String> = Vec::new();
    let mut i: usize = 0;
    while i < candidates.len()
        invariant
            i <= candidates@.len(),
            texts(r@) == unique_refresh_tokens_spec(candidates@.subrange(0, i as int)),
        decreases candidates@.len() - i,
    {
        let t = &candidates[i];
        assert(candidates@.subrange(0, i + 1).drop_last() =~= candidates@.subrange(0, i as int));
        if let Some(refresh) = &t.refresh_token {
            if !contains_string(&r, refresh) {
                r.push(refresh.clone());
            }
        }
        i += 1;
        assert(texts(r@) =~= unique_refresh_tokens_spec(candidates@.subrange(0, i as int)));
    }
    assert(candidates@.subrange(0, candidates@.len() as int) =~= candidates@);
    r
}

/// The model ids that the Cloud Code API reports but the quota widget hides.
pub open spec fn model_blacklist() -> Seq<Seq<char>> {
    seq![
        "MODEL_CHAT_20706"@,
        "MODEL_CHAT_23310"@,
        "MODEL_GOOGLE_GEMINI_2_5_FLASH"@,
        "MODEL_GOOGLE_GEMINI_2_5_FLASH_THINKING"@,
        "MODEL_GOOGLE_GEMINI_2_5_FLASH_LITE"@,
        "MODEL_GOOGLE_GEMINI_2_5_PRO"@,
        "MODEL_PLACEHOLDER_M19"@,
        "MODEL_PLACEHOLDER_M9"@,
        "MODEL_PLACEHOLDER_M12"@,
    ]
}

/// Whether the model id is one that the quota widget hides.
pub fn is_blacklisted_model(model_id: &str) -> (r: bool)
    ensures
        r == model_blacklist().contains(model_id@),
{
    let id = chars_of(model_id);
    let list = [
        "MODEL_CHAT_20706",
        "MODEL_CHAT_23310",
        "MODEL_GOOGLE_GEMINI_2_5_FLASH",
        "MODEL_GOOGLE_GEMINI_2_5_FLASH_THINKING",
        "MODEL_GOOGLE_GEMINI_2_5_FLASH_LITE",
        "MODEL_GOOGLE_GEMINI_2_5_PRO",
        "MODEL_PLACEHOLDER_M19",
        "MODEL_PLACEHOLDER_M9",
        "MODEL_PLACEHOLDER_M12",
    ];
    let mut i: usize = 0;
    while i < 9
        invariant
            i <= 9,
            id@ == model_id@,
            forall|k: int| 0 <= k < i ==> model_blacklist()[k] != id@,
            list@.len() == 9,
            forall|k: int| 0 <= k < 9 ==> (#[trigger] list@[k])@ == model_blacklist()[k],
        decreases 9 - i,
    {
        if chars_equal(&id, &chars_of(list[i])) {
            assert(model_blacklist().len() == 9);
            assert(model_blacklist()[i as int] == id@);
            assert(model_blacklist().contains(id@));
            return true;
        }
        i += 1;
    }
    false
}

/// What the quota widget's setup view reports about Antigravity.
#[derive(Debug)]
pub struct AntigravitySetupStatus {
    pub has_oauth_tokens: bool,
    pub cloud_auth_ready: bool,
    pub language_server_running: bool,
    pub oauth_config_path: String,
    pub config_dir: String,
    pub program_files_install: bool,
}

impl AntigravitySetupStatus {
    /// The status from what was found: the stored token candidates, the
    /// outcome of resolving the OAuth client credentials, whether the
    /// language server runs, the configuration folder and the path of the
    /// OAuth configuration file in it, and whether the app is installed
    /// under Program Files.
    pub fn from_findings(
        candidates: &[OAuthTokens],
        credentials: &Result<(String, String), String>,
        language_server_running: bool,
        config_dir: String,
        oauth_config_path: String,
        program_files_install: bool,
    ) -> (r: AntigravitySetupStatus)
        ensures
            r.has_oauth_tokens == (candidates@.len() > 0),
            r.cloud_auth_ready == credentials is Ok,
            r.language_server_running == language_server_running,
            r.config_dir@ == config_dir@,
            r.oauth_config_path@ == oauth_config_path@,
            r.program_files_install == program_files_install,
    {
        AntigravitySetupStatus {
            has_oauth_tokens: candidates.len() > 0,
            cloud_auth_ready: credentials.is_ok(),
            language_server_running,
            oauth_config_path,
            config_dir,
            program_files_install,
        }
    }
}

} // verus!
