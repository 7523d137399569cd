//! Login tokens that editors keep in their encrypted secret storage: which
//! stored GitHub session to use, the Chromium `v10` secret format, and where
//! the Qoder CN login token sits in its user-info record.

use aes_gcm::aead::{Aead, KeyInit};
use aes_gcm::{Aes256Gcm, Nonce};
use vstd::prelude::*;
use vstd::utf8::encode_utf8;

use crate::antigravity::{base64_decode, base64_standard};

use crate::common::{join2, join3, owned};
use crate::deadline_time::{eq_ignore_ascii_case, str_eq_ignore_ascii_case};
use crate::text::{
    chars_equal, chars_of, contains, contains_seq, join_strings, join_with, lemma_lex_order,
    bytes_lt, lex_lt, texts, trim, trim_ws, trimmed_non_empty,
};

verus! {

/// The folder under the home directory where an editor keeps storage shared
/// across its windows (`.vscode-shared` unless it is an Insiders or
/// Exploration build).
pub open spec fn shared_data_folder_spec(app_name: Seq<char>) -> Seq<char> {
    if app_name == "Code - Insiders"@ {
        ".vscode-insiders-shared"@
    } else if app_name == "Code - Exploration"@ {
        ".vscode-exploration-shared"@
    } else {
        ".vscode-shared"@
    }
}

/// The shared storage folder of an editor (see `shared_data_folder_spec`).
pub fn shared_data_folder_name(app_name: &str) -> (r: &'static str)
    ensures
        r@ == shared_data_folder_spec(app_name@),
{
    let name = chars_of(app_name);
    if chars_equal(&name, &chars_of("Code - Insiders")) {
        ".vscode-insiders-shared"
    } else if chars_equal(&name, &chars_of("Code - Exploration")) {
        ".vscode-exploration-shared"
    } else {
        ".vscode-shared"
    }
}

/// The account a stored GitHub session belongs to.
#[derive(Debug)]
pub struct SessionAccount {
    pub label: Option<String>,
}

/// A GitHub session as the editor stores it.
#[derive(Debug)]
pub struct SessionData {
    pub access_token: String,
    pub account: Option<SessionAccount>,
    pub scopes: Vec<String>,
}

/// The account label of a session, if it has one.
pub open spec fn session_label(s: SessionData) -> Option<Seq<char>> {
    match s.account {
        Some(a) => match a.label {
            Some(l) => Some(l@),
            None => None,
        },
        None => None,
    }
}

/// The label that sessions are ordered by: the account label, or empty text.
pub open spec fn order_label(s: SessionData) -> Seq<char> {
    match session_label(s) {
        Some(l) => l,
        None => Seq::empty(),
    }
}

/// How well a session's scopes suit Copilot: on the scopes joined with
/// spaces, 100 for `copilot`, 40 for `repo`, 20 for `workflow`, 10 for
/// `read:user` and 5 for `user:email`, each counted once if it occurs.
pub open spec fn score_spec(scopes: Seq<Seq<char>>) -> int {
    let j = join_with(scopes, " "@);
    (if contains_seq(j, "copilot"@) { 100int } else { 0int }) + (if contains_seq(j, "repo"@) {
        40int
    } else {
        0int
    }) + (if contains_seq(j, "workflow"@) { 20int } else { 0int }) + (if contains_seq(
        j,
        "read:user"@,
    ) {
        10int
    } else {
        0int
    }) + (if contains_seq(j, "user:email"@) { 5int } else { 0int })
}

/// The score of a session's scopes (see `score_spec`).
pub fn session_score(scopes: &Vec<String>) -> (r: i32)
    ensures
        r == score_spec(texts(scopes@)),
{
    let joined = chars_of(join_strings(scopes, " ").as_str());
    let mut score: i32 = 0;
    if contains(&joined, &chars_of("copilot")) {
        score += 100;
    }
    if contains(&joined, &chars_of("repo")) {
        score += 40;
    }
    if contains(&joined, &chars_of("workflow")) {
        score += 20;
    }
    if contains(&joined, &chars_of("read:user")) {
        score += 10;
    }
    if contains(&joined, &chars_of("user:email")) {
        score += 5;
    }
    score
}

/// `a` is preferred to `b`: a higher score, or the same score and a label
/// that comes first in byte order.
pub open spec fn session_precedes(a: SessionData, b: SessionData) -> bool {
    let sa = score_spec(texts(a.scopes@));
    let sb = score_spec(texts(b.scopes@));
    sa > sb || (sa == sb && lex_lt(encode_utf8(order_label(a)), encode_utf8(order_label(b))))
}

/// Preference between sessions is a strict weak order.
pub proof fn lemma_session_order(a: SessionData, b: SessionData, c: SessionData)
    ensures
        !session_precedes(a, a),
        session_precedes(a, b) ==> !session_precedes(b, a),
        session_precedes(a, b) && session_precedes(b, c) ==> session_precedes(a, c),
        session_precedes(a, b) && !session_precedes(c, b) ==> session_precedes(a, c),
        !session_precedes(a, b) && session_precedes(c, b) ==> session_precedes(c, a),
{
    let (la, lb, lc) = (
        encode_utf8(order_label(a)),
        encode_utf8(order_label(b)),
        encode_utf8(order_label(c)),
    );
    lemma_lex_order(la, lb, lc);
    lemma_lex_order(lb, la, lc);
    lemma_lex_order(la, lc, lb);
    lemma_lex_order(lc, lb, la);
    lemma_lex_order(lb, lc, la);
    lemma_lex_order(lc, la, lb);
}

/// A session may be picked: any session when no account is preferred (or the
/// preferred one is empty), else one whose label equals it ignoring ASCII case.
pub open spec fn session_eligible(s: SessionData, preferred: Option<Seq<char>>) -> bool {
    match preferred {
        Some(a) if a.len() > 0 => session_label(s) matches Some(l) && eq_ignore_ascii_case(l, a),
        _ => true,
    }
}

/// Session `i` is the one picked: eligible, no eligible session preferred to
/// it, and preferred to every eligible session before it (the first of the
/// best, as a stable sort by preference puts it first).
pub open spec fn is_pick(sessions: Seq<SessionData>, preferred: Option<Seq<char>>, i: int) -> bool {
    &&& 0 <= i < sessions.len()
    &&& session_eligible(sessions[i], preferred)
    &&& forall|k: int|
        0 <= k < sessions.len() && session_eligible(#[trigger] sessions[k], preferred)
            ==> !session_precedes(sessions[k], sessions[i])
    &&& forall|k: int|
        0 <= k < i && session_eligible(#[trigger] sessions[k], preferred) ==> session_precedes(
            sessions[i],
            sessions[k],
        )
}

/// At most one session is the one picked.
pub proof fn lemma_pick_unique(sessions: Seq<SessionData>, preferred: Option<Seq<char>>, i: int, j: int)
    requires
        is_pick(sessions, preferred, i),
        is_pick(sessions, preferred, j),
    ensures
        i == j,
{
    if i < j {
        assert(session_precedes(sessions[j], sessions[i]));
    } else if j < i {
        assert(session_precedes(sessions[i], sessions[j]));
    }
}

/// The index of the session picked (meaningful where one is eligible).
pub open spec fn pick_index(sessions: Seq<SessionData>, preferred: Option<Seq<char>>) -> int {
    choose|i: int| is_pick(sessions, preferred, i)
}

/// Some session is eligible.
pub open spec fn any_eligible(sessions: Seq<SessionData>, preferred: Option<Seq<char>>) -> bool {
    exists|k: int| 0 <= k < sessions.len() && session_eligible(#[trigger] sessions[k], preferred)
}

/// What picking a session gives: an error when there is none, or none for the
/// preferred account; else the index of the session picked.
pub open spec fn pick_spec(sessions: Seq<SessionData>, preferred: Option<Seq<char>>) -> Result<int, Seq<char>> {
    if sessions.len() == 0 {
        Err("No GitHub sessions found"@)
    } else if !any_eligible(sessions, preferred) {
        Err(
            "No GitHub session for Copilot account '"@ + preferred.unwrap()
                + "'. Sign in via VS Code Accounts menu."@,
        )
    } else {
        Ok(pick_index(sessions, preferred))
    }
}

/// The label that orders a session, as text.
fn order_label_str(s: &SessionData) -> (r: &str)
    ensures
        r@ == order_label(*s),
{
    proof {
        reveal_strlit("");
    }
    match &s.account {
        Some(a) => match &a.label {
            Some(l) => l.as_str(),
            None => "",
        },
        None => "",
    }
}

/// Whether session `a` is preferred to `b` (see `session_precedes`).
fn precedes_exec(a: &SessionData, b: &SessionData) -> (r: bool)
    ensures
        r == session_precedes(*a, *b),
{
    let sa = session_score(&a.scopes);
    let sb = session_score(&b.scopes);
    if sa != sb {
        return sa > sb;
    }
    bytes_lt(order_label_str(a).as_bytes(), order_label_str(b).as_bytes())
}

/// Whether a session may be picked (see `session_eligible`).
fn eligible_exec(s: &SessionData, preferred: Option<&str>) -> (r: bool)
    ensures
        r == session_eligible(*s, match preferred { Some(p) => Some(p@), None => None }),
{
    match preferred {
        Some(a) if !a.is_empty() => match &s.account {
            Some(acc) => match &acc.label {
                Some(l) => str_eq_ignore_ascii_case(l.as_str(), a),
                None => false,
            },
            None => false,
        },
        _ => true,
    }
}

/// Picks the GitHub session to use: among the sessions of the preferred
/// account (all, if none is preferred), the best scored, then the first by
/// label (see `pick_spec`).
pub fn pick_github_session(sessions: Vec<SessionData>, preferred_account: Option<&str>) -> (r: Result<SessionData, String>)
    ensures
        match pick_spec(sessions@, match preferred_account { Some(p) => Some(p@), None => None }) {
            Ok(i) => r matches Ok(s) && s == sessions@[i],
            Err(e) => r matches Err(x) && x@ == e,
        },
{
    let ghost pref = match preferred_account {
        Some(p) => Some(p@),
        None => None,
    };
    if sessions.len() == 0 {
        return Err(owned("No GitHub sessions found"));
    }
    let mut best: Option<usize> = None;
    let mut i: usize = 0;
    while i < sessions.len()
        invariant
            i <= sessions@.len(),
            pref == match preferred_account { Some(p) => Some(p@), None => None },
            match best {
                Some(b) => b < i && session_eligible(sessions@[b as int], pref) && (forall|k: int|
                    0 <= k < i && session_eligible(#[trigger] sessions@[k], pref)
                        ==> !session_precedes(sessions@[k], sessions@[b as int])) && (forall|k: int|
                    0 <= k < b && session_eligible(#[trigger] sessions@[k], pref) ==> session_precedes(
                        sessions@[b as int],
                        sessions@[k],
                    )),
                None => forall|k: int| 0 <= k < i ==> !session_eligible(#[trigger] sessions@[k], pref),
            },
        decreases sessions@.len() - i,
    {
        if eligible_exec(&sessions[i], preferred_account) {
            match best {
                None => {
                    proof {
                        lemma_session_order(sessions@[i as int], sessions@[i as int], sessions@[i as int]);
                    }
                    best = Some(i);
                },
                Some(b) => {
                    if precedes_exec(&sessions[i], &sessions[b]) {
                        proof {
                            assert forall|k: int|
                                0 <= k < i + 1 && session_eligible(#[trigger] sessions@[k], pref)
                                    implies !session_precedes(sessions@[k], sessions@[i as int]) by {
                                lemma_session_order(sessions@[k], sessions@[i as int], sessions@[b as int]);
                            }
                            assert forall|k: int|
                                0 <= k < i && session_eligible(#[trigger] sessions@[k], pref)
                                    implies session_precedes(sessions@[i as int], sessions@[k]) by {
                                lemma_session_order(sessions@[i as int], sessions@[b as int], sessions@[k]);
                            }
                        }
                        best = Some(i);
                    }
                },
            }
        }
        i += 1;
    }
    match best {
        None => {
            let account = match preferred_account {
                Some(a) => a,
                None => "",
            };
            proof {
                assert(!any_eligible(sessions@, pref));
                assert(sessions@.len() > 0 && session_eligible(sessions@[0], pref) ==> false);
            }
            Err(join3("No GitHub session for Copilot account '", account, "'. Sign in via VS Code Accounts menu."))
        },
        Some(b) => {
            proof {
                assert(is_pick(sessions@, pref, b as int));
                assert(any_eligible(sessions@, pref));
                lemma_pick_unique(sessions@, pref, b as int, pick_index(sessions@, pref));
            }
            let mut sessions = sessions;
            Ok(sessions.swap_remove(b))
        },
    }
}

/// What reading the GitHub token from one editor's sessions gives: the
/// picked session's access token (as stored) and account label, or an error
/// where no session is picked or its token is blank.
pub open spec fn session_token_spec(sessions: Seq<SessionData>, preferred: Option<Seq<char>>) -> Result<(Seq<char>, Option<Seq<char>>), Seq<char>> {
    match pick_spec(sessions, preferred) {
        Err(e) => Err(e),
        Ok(i) => if trim_ws(sessions[i].access_token@).len() == 0 {
            Err("GitHub access token is empty. Please sign in again in VS Code."@)
        } else {
            Ok((sessions[i].access_token@, session_label(sessions[i])))
        },
    }
}

/// The GitHub token and account label from an editor's stored sessions (see
/// `session_token_spec`).
pub fn session_token(sessions: Vec<SessionData>, preferred_account: Option<&str>) -> (r: Result<(String, Option<String>), String>)
    ensures
        match session_token_spec(sessions@, match preferred_account { Some(p) => Some(p@), None => None }) {
            Ok((t, l)) => r matches Ok(x) && x.0@ == t && match x.1 {
                Some(y) => l == Some(y@),
                None => l is None,
            },
            Err(e) => r matches Err(x) && x@ == e,
        },
{
    let session = match pick_github_session(sessions, preferred_account) {
        Ok(s) => s,
        Err(e) => return Err(e),
    };
    if trimmed_non_empty(session.access_token.as_str()).is_none() {
        return Err(owned("GitHub access token is empty. Please sign in again in VS Code."));
    }
    let label = match session.account {
        Some(a) => a.label,
        None => None,
    };
    Ok((session.access_token, label))
}

/// The editors searched for the GitHub token, in order.
pub fn copilot_app_names() -> (r: Vec<&'static str>)
    ensures
        r@.len() == 2,
        r@[0]@ == "Code"@,
        r@[1]@ == "Code - Insiders"@,
{
    vec!["Code", "Code - Insiders"]
}

/// The editor read at a step of the search for the GitHub token.
pub open spec fn copilot_editor(k: int) -> &'static str {
    if k == 0 {
        "Code"
    } else {
        "Code - Insiders"
    }
}

/// The message when no editor holds a GitHub token.
pub open spec fn copilot_not_found_text() -> Seq<char> {
    "GitHub token not found in VS Code. Sign in via VS Code Accounts menu (GitHub)."@
}

/// Whether an editor answered that it holds no token.
pub open spec fn answered_nothing(out: Result<Option<(String, Option<String>)>, String>) -> bool {
    out matches Ok(None)
}

/// Whether `outs` are the answers that the search reads before it stops: one
/// per editor, in order, each but the last of them answering nothing, and
/// the search stops before the last editor only on a token or an error.
pub open spec fn copilot_answers(outs: Seq<Result<Option<(String, Option<String>)>, String>>) -> bool {
    &&& 1 <= outs.len() <= 2
    &&& forall|k: int| 0 <= k < outs.len() - 1 ==> answered_nothing(#[trigger] outs[k])
    &&& outs.len() == 1 ==> !answered_nothing(outs[0])
}

/// What the search gives once the editors answered `outs`: the token found;
/// an error, named after the editor that gave it; or, when no editor held a
/// token, the not-found message.
pub open spec fn copilot_search_result(outs: Seq<Result<Option<(String, Option<String>)>, String>>) -> Result<(String, Option<String>), Seq<char>> {
    match outs.last() {
        Ok(Some(t)) => Ok(t),
        Ok(None) => Err(copilot_not_found_text()),
        Err(e) => Err(copilot_editor(outs.len() - 1)@ + ": "@ + e@),
    }
}

/// A result with its error taken as text.
pub open spec fn token_result_view(r: Result<(String, Option<String>), String>) -> Result<(String, Option<String>), Seq<char>> {
    match r {
        Ok(t) => Ok(t),
        Err(e) => Err(e@),
    }
}

/// Whether an editor's answer, where it is a token, is one that is not
/// blank (as `session_token` gives it).
pub open spec fn token_not_blank(out: Result<Option<(String, Option<String>)>, String>) -> bool {
    out matches Ok(Some(t)) ==> trim_ws(t.0@).len() > 0
}

/// The GitHub token (and account label) that VS Code keeps for Copilot.
/// `read` reads one editor's stored sessions, giving only tokens that are
/// not blank (as `session_token` does); it is asked for `Code`, then, where
/// that holds none, for `Code - Insiders`. A token found is not blank.
pub fn read_vscode_copilot_github_token<F>(read: F) -> (r: Result<(String, Option<String>), String>) where
    F: Fn(&str) -> Result<Option<(String, Option<String>)>, String>,

    requires
        call_requires(read, (copilot_editor(0),)),
        call_requires(read, (copilot_editor(1),)),
        forall|s: &str, out: Result<Option<(String, Option<String>)>, String>|
            #[trigger] call_ensures(read, (s,), out) ==> token_not_blank(out),
    ensures
        r matches Ok(t) ==> trim_ws(t.0@).len() > 0,
        exists|outs: Seq<Result<Option<(String, Option<String>)>, String>>|
            copilot_answers(outs) && (forall|k: int|
                0 <= k < outs.len() ==> call_ensures(read, (copilot_editor(k),), #[trigger] outs[k]))
                && token_result_view(r) == copilot_search_result(outs),
{
    let first = read("Code");
    proof {
        reveal_strlit("Code");
    }
    let ghost outs1 = seq![first];
    assert(call_ensures(read, (copilot_editor(0),), outs1[0]));
    assert(token_not_blank(first));
    match first {
        Ok(Some(t)) => {
            assert(token_result_view(Ok(t)) == copilot_search_result(outs1));
            return Ok(t);
        },
        Err(e) => {
            let msg = join3("Code", ": ", e.as_str());
            assert(token_result_view(Err(msg)) == copilot_search_result(outs1));
            return Err(msg);
        },
        Ok(None) => {},
    }
    let second = read("Code - Insiders");
    let ghost outs2 = seq![first, second];
    assert(call_ensures(read, (copilot_editor(1),), outs2[1]));
    assert(copilot_answers(outs2));
    assert(token_not_blank(second));
    match second {
        Ok(Some(t)) => {
            assert(token_result_view(Ok(t)) == copilot_search_result(outs2));
            Ok(t)
        },
        Err(e) => {
            let msg = join3("Code - Insiders", ": ", e.as_str());
            assert(token_result_view(Err(msg)) == copilot_search_result(outs2));
            Err(msg)
        },
        Ok(None) => {
            let msg = owned("GitHub token not found in VS Code. Sign in via VS Code Accounts menu (GitHub).");
            assert(token_result_view(Err(msg)) == copilot_search_result(outs2));
            Err(msg)
        },
    }
}

/// What AES-256-GCM decryption gives for a key, a nonce and a ciphertext with
/// its tag: the plaintext, or `None` where the tag does not authenticate.
pub uninterp spec fn aes256gcm_open(key: Seq<u8>, nonce: Seq<u8>, ciphertext: Seq<u8>) -> Option<Seq<u8>>;

/// Why AES decryption failed, with the outside error's text.
#[derive(Debug)]
pub enum AesFailure {
    KeyLength(String),
    Open(String),
}

/// `Aes256Gcm::new_from_slice(key)` then `decrypt(nonce, ciphertext)`: the key
/// must be 32 bytes (else `InvalidLength`, shown `Invalid Length`); decryption
/// gives the plaintext or `aead::Error` (shown `aead::Error`).
#[verifier::external_body]
fn aes256gcm_decrypt(key: &[u8], nonce: &[u8], ciphertext: &[u8]) -> (r: Result<Vec<u8>, AesFailure>)
    requires
        nonce@.len() == 12,
    ensures
        match r {
            Ok(v) => key@.len() == 32 && aes256gcm_open(key@, nonce@, ciphertext@) == Some(v@),
            Err(AesFailure::KeyLength(e)) => key@.len() != 32 && e@ == "Invalid Length"@,
            Err(AesFailure::Open(e)) => key@.len() == 32 && aes256gcm_open(key@, nonce@, ciphertext@) is None
                && e@ == "aead::Error"@,
        },
{
    let cipher = match Aes256Gcm::new_from_slice(key) {
        Ok(c) => c,
        Err(e) => return Err(AesFailure::KeyLength(e.to_string())),
    };
    match cipher.decrypt(Nonce::from_slice(nonce), ciphertext) {
        Ok(v) => Ok(v),
        Err(e) => Err(AesFailure::Open(e.to_string())),
    }
}

/// A `v10` secret: the bytes `v10`, a 12-byte nonce, then at least 16 bytes
/// of ciphertext and tag.
pub open spec fn v10_format_ok(raw: Seq<u8>) -> bool {
    raw.len() >= 31 && raw[0] == 0x76u8 && raw[1] == 0x31u8 && raw[2] == 0x30u8
}

/// What decrypting a `v10` secret with `key` gives.
pub open spec fn decrypt_v10_spec(raw: Seq<u8>, key: Seq<u8>) -> Result<Seq<u8>, Seq<char>> {
    if !v10_format_ok(raw) {
        Err("Unsupported secret encryption format"@)
    } else if key.len() != 32 {
        Err("Invalid AES key: Invalid Length"@)
    } else {
        match aes256gcm_open(key, raw.subrange(3, 15), raw.subrange(15, raw.len() as int)) {
            Some(p) => Ok(p),
            None => Err("AES decrypt failed: aead::Error"@),
        }
    }
}

/// Decrypts a Chromium `v10` secret (see `decrypt_v10_spec`).
pub fn decrypt_v10_secret(raw: &[u8], key: &[u8]) -> (r: Result<Vec<u8>, String>)
    ensures
        match decrypt_v10_spec(raw@, key@) {
            Ok(p) => r matches Ok(v) && v@ == p,
            Err(e) => r matches Err(x) && x@ == e,
        },
{
    if raw.len() < 31 || raw[0] != 0x76u8 || raw[1] != 0x31u8 || raw[2] != 0x30u8 {
        return Err(owned("Unsupported secret encryption format"));
    }
    let (_, rest) = raw.split_at(3);
    let (nonce, ciphertext) = rest.split_at(12);
    assert(nonce@ =~= raw@.subrange(3, 15));
    assert(ciphertext@ =~= raw@.subrange(15, raw@.len() as int));
    proof {
        reveal_strlit("Invalid AES key: ");
        reveal_strlit("Invalid Length");
        reveal_strlit("Invalid AES key: Invalid Length");
        reveal_strlit("AES decrypt failed: ");
        reveal_strlit("aead::Error");
        reveal_strlit("AES decrypt failed: aead::Error");
    }
    match aes256gcm_decrypt(key, nonce, ciphertext) {
        Ok(v) => Ok(v),
        Err(AesFailure::KeyLength(e)) => Err(join2("Invalid AES key: ", e.as_str())),
        Err(AesFailure::Open(e)) => Err(join2("AES decrypt failed: ", e.as_str())),
    }
}

/// The 32 bytes that PBKDF2 with HMAC-SHA1 derives from a password and a salt
/// in the given number of rounds.
pub uninterp spec fn pbkdf2_hmac_sha1_32(password: Seq<u8>, salt: Seq<u8>, rounds: u32) -> Seq<u8>;

/// `pbkdf2::pbkdf2_hmac_array::<Sha1, 32>(password, salt, rounds)`.
#[verifier::external_body]
fn pbkdf2_sha1(password: &[u8], salt: &[u8], rounds: u32) -> (r: [u8; 32])
    ensures
        r@ == pbkdf2_hmac_sha1_32(password@, salt@, rounds),
{
    pbkdf2::pbkdf2_hmac_array::<sha1::Sha1, 32>(password, salt, rounds)
}

/// The key that Chromium's `os_crypt` derives from the storage password:
/// PBKDF2-HMAC-SHA1 with salt `saltysalt` and 1003 rounds.
pub fn derive_os_crypt_key(password: &str) -> (r: [u8; 32])
    ensures
        r@ == pbkdf2_hmac_sha1_32(encode_utf8(password@), encode_utf8("saltysalt"@), 1003),
{
    pbkdf2_sha1(password.as_bytes(), "saltysalt".as_bytes(), 1003)
}

/// The encrypted master key read from the `encrypted_key` text of an
/// editor's `Local State`.
pub fn decode_encrypted_master_key(encrypted_key_b64: Option<&str>) -> (r: Result<Vec<u8>, String>)
    ensures
        match encrypted_key_b64 {
            None => r matches Err(x) && x@ == "Missing os_crypt.encrypted_key in Local State"@,
            Some(t) => match base64_standard(t@) {
                Ok(b) => r matches Ok(v) && v@ == b,
                Err(e) => r matches Err(x) && x@ == "Failed to decode encrypted_key: "@ + e,
            },
        },
{
    match encrypted_key_b64 {
        None => Err(owned("Missing os_crypt.encrypted_key in Local State")),
        Some(t) => match base64_decode(t) {
            Ok(v) => Ok(v),
            Err(e) => Err(join2("Failed to decode encrypted_key: ", e.as_str())),
        },
    }
}

/// The master key, opened with the key derived from the storage password
/// (where the key is not protected by DPAPI).
pub fn open_master_key(encrypted_key: &[u8], password: &str) -> (r: Result<Vec<u8>, String>)
    ensures
        match decrypt_v10_spec(
            encrypted_key@,
            pbkdf2_hmac_sha1_32(encode_utf8(password@), encode_utf8("saltysalt"@), 1003),
        ) {
            Ok(p) => r matches Ok(v) && v@ == p,
            Err(e) => r matches Err(x) && x@ == e,
        },
{
    let key = derive_os_crypt_key(password);
    decrypt_v10_secret(encrypted_key, &key)
}

/// The ASCII bytes `DPAPI` that mark a DPAPI-protected master key.
pub open spec fn dpapi_prefix() -> Seq<u8> {
    seq![0x44u8, 0x50u8, 0x41u8, 0x50u8, 0x49u8]
}

/// The DPAPI-protected part of an encrypted master key: what follows the
/// prefix `DPAPI`, which must be followed by at least one byte.
pub fn dpapi_payload(encrypted_key: &[u8]) -> (r: Result<&[u8], String>)
    ensures
        match r {
            Ok(p) => encrypted_key@.len() > 5 && encrypted_key@.subrange(0, 5) == dpapi_prefix()
                && p@ == encrypted_key@.subrange(5, encrypted_key@.len() as int),
            Err(x) => !(encrypted_key@.len() > 5 && encrypted_key@.subrange(0, 5) == dpapi_prefix())
                && x@ == "Unexpected encrypted_key format in Local State"@,
        },
{
    if encrypted_key.len() <= 5 || encrypted_key[0] != 0x44u8 || encrypted_key[1] != 0x50u8
        || encrypted_key[2] != 0x41u8 || encrypted_key[3] != 0x50u8 || encrypted_key[4] != 0x49u8 {
        proof {
            if encrypted_key@.len() > 5 && encrypted_key@.subrange(0, 5) == dpapi_prefix() {
                assert(encrypted_key@.subrange(0, 5)[0] == encrypted_key@[0]);
                assert(encrypted_key@.subrange(0, 5)[1] == encrypted_key@[1]);
                assert(encrypted_key@.subrange(0, 5)[2] == encrypted_key@[2]);
                assert(encrypted_key@.subrange(0, 5)[3] == encrypted_key@[3]);
                assert(encrypted_key@.subrange(0, 5)[4] == encrypted_key@[4]);
            }
        }
        return Err(owned("Unexpected encrypted_key format in Local State"));
    }
    assert(encrypted_key@.subrange(0, 5) =~= dpapi_prefix());
    let (_, rest) = encrypted_key.split_at(5);
    Ok(rest)
}

/// A secret stored as JSON `{"type": ..., "data": [bytes]}`.
#[derive(Debug)]
pub struct BufferSecret {
    pub secret_type: String,
    pub data: Vec<u8>,
}

/// A stored secret: its raw bytes, or (where the text starts with `{`) what
/// reading it as a `BufferSecret` gave.
#[derive(Debug)]
pub enum SecretBlob {
    Raw(Vec<u8>),
    Wrapped(Result<BufferSecret, String>),
}

/// A stored secret is JSON-wrapped where its text starts with `{`.
pub fn secret_blob_is_wrapped(raw: &str) -> (r: bool)
    ensures
        r == (raw@.len() > 0 && raw@[0] == '{'),
{
    let v = chars_of(raw);
    v.len() > 0 && v[0] == '{'
}

/// What a stored secret decrypts to with the master key.
pub open spec fn decode_secret_spec(blob: SecretBlob, master_key: Seq<u8>) -> Result<Seq<u8>, Seq<char>> {
    match blob {
        SecretBlob::Raw(b) => decrypt_v10_spec(b@, master_key),
        SecretBlob::Wrapped(Err(e)) => Err("Failed to parse secret JSON: "@ + e@),
        SecretBlob::Wrapped(Ok(w)) => if w.secret_type@ != "Buffer"@ {
            Err("Unsupported secret wrapper type: "@ + w.secret_type@)
        } else {
            decrypt_v10_spec(w.data@, master_key)
        },
    }
}

/// Decrypts a stored secret (see `decode_secret_spec`).
pub fn decode_secret_blob(blob: SecretBlob, master_key: &[u8]) -> (r: Result<Vec<u8>, String>)
    ensures
        match decode_secret_spec(blob, master_key@) {
            Ok(p) => r matches Ok(v) && v@ == p,
            Err(e) => r matches Err(x) && x@ == e,
        },
{
    match blob {
        SecretBlob::Raw(b) => decrypt_v10_secret(b.as_slice(), master_key),
        SecretBlob::Wrapped(Err(e)) => Err(join2("Failed to parse secret JSON: ", e.as_str())),
        SecretBlob::Wrapped(Ok(w)) => {
            if !chars_equal(&chars_of(w.secret_type.as_str()), &chars_of("Buffer")) {
                return Err(join2("Unsupported secret wrapper type: ", w.secret_type.as_str()));
            }
            decrypt_v10_secret(w.data.as_slice(), master_key)
        },
    }
}

/// The parts of a JSON value that the token search reads: text, objects
/// (their entries in order, keys distinct), and everything else.
#[derive(Debug)]
pub enum JsonLite {
    Text(String),
    Object(Vec<(String, JsonLite)>),
    Other,
}

/// The index of the first entry with the key, or the number of entries.
pub open spec fn key_index(entries: Seq<(String, JsonLite)>, key: Seq<char>, i: int) -> int
    decreases entries.len() - i,
{
    if 0 <= i < entries.len() && entries[i].0@ != key {
        key_index(entries, key, i + 1)
    } else {
        i
    }
}

pub proof fn lemma_key_index(entries: Seq<(String, JsonLite)>, key: Seq<char>, i: int)
    requires
        0 <= i <= entries.len(),
    ensures
        i <= key_index(entries, key, i) <= entries.len(),
        key_index(entries, key, i) < entries.len() ==> entries[key_index(entries, key, i)].0@ == key,
    decreases entries.len() - i,
{
    if i < entries.len() && entries[i].0@ != key {
        lemma_key_index(entries, key, i + 1);
    }
}

/// The trimmed text under the key, where the entry holds text.
pub open spec fn text_at(entries: Seq<(String, JsonLite)>, key: Seq<char>) -> Option<Seq<char>> {
    let i = key_index(entries, key, 0);
    if 0 <= i < entries.len() {
        match entries[i].1 {
            JsonLite::Text(t) => Some(trim_ws(t@)),
            _ => None,
        }
    } else {
        None
    }
}

/// The first non-blank text, trimmed, among the keys in order (empty if none).
pub open spec fn direct_text(entries: Seq<(String, JsonLite)>, keys: Seq<Seq<char>>) -> Seq<char>
    decreases keys.len(),
{
    if keys.len() == 0 {
        Seq::empty()
    } else {
        match text_at(entries, keys[0]) {
            Some(t) if t.len() > 0 => t,
            _ => direct_text(entries, keys.drop_first()),
        }
    }
}

/// The keys under which a token record may be nested, in the order searched.
pub open spec fn nested_keys() -> Seq<Seq<char>> {
    seq!["data"@, "userInfo"@, "session"@, "auth"@, "user"@]
}

/// The keys that hold a login token, in the order searched.
pub open spec fn token_keys() -> Seq<Seq<char>> {
    seq![
        "token"@,
        "accessToken"@,
        "access_token"@,
        "pat"@,
        "personalAccessToken"@,
        "idToken"@,
        "securityOauthToken"@,
    ]
}

/// The keys that hold a refresh token, in the order searched.
pub open spec fn refresh_keys() -> Seq<Seq<char>> {
    seq!["refreshToken"@, "refresh_token"@]
}

/// The token found in a JSON value: the first non-blank text under one of
/// `keys` (trimmed), else the first found in the records nested under
/// `data`, `userInfo`, `session`, `auth`, `user`, in that order; empty if none.
pub open spec fn find_token(v: JsonLite, keys: Seq<Seq<char>>) -> Seq<char>
    decreases v, 6int,
{
    match v {
        JsonLite::Object(entries) => {
            let d = direct_text(entries@, keys);
            if d.len() > 0 {
                d
            } else {
                nested_token(v, keys, 0)
            }
        },
        _ => Seq::empty(),
    }
}

/// The token found in the records nested under the `j`-th and later nested keys.
pub open spec fn nested_token(v: JsonLite, keys: Seq<Seq<char>>, j: int) -> Seq<char>
    decreases v, 5 - j,
{
    if j < 0 || j >= 5 {
        Seq::empty()
    } else {
        match v {
            JsonLite::Object(entries) => {
                let i = key_index(entries@, nested_keys()[j], 0);
                let t = if 0 <= i < entries@.len() {
                    proof {
                        assert(decreases_to!(v => entries));
                        assert(decreases_to!(entries => entries@));
                        assert(decreases_to!(entries@ => entries@[i]));
                        assert(decreases_to!(entries@[i] => entries@[i].1));
                    }
                    find_token(entries@[i].1, keys)
                } else {
                    Seq::empty()
                };
                if t.len() > 0 {
                    t
                } else {
                    nested_token(v, keys, j + 1)
                }
            },
            _ => Seq::empty(),
        }
    }
}

/// The texts of a list of keys.
pub open spec fn text_views(keys: Seq<&str>) -> Seq<Seq<char>> {
    Seq::new(keys.len(), |i: int| keys[i]@)
}

/// The keys that hold a login token (see `token_keys`).
pub fn token_key_list() -> (r: Vec<&'static str>)
    ensures
        text_views(r@) == token_keys(),
{
    let r = vec![
        "token",
        "accessToken",
        "access_token",
        "pat",
        "personalAccessToken",
        "idToken",
        "securityOauthToken",
    ];
    assert(text_views(r@) =~= token_keys());
    r
}

/// The keys that hold a refresh token (see `refresh_keys`).
pub fn refresh_key_list() -> (r: Vec<&'static str>)
    ensures
        text_views(r@) == refresh_keys(),
{
    let r = vec!["refreshToken", "refresh_token"];
    assert(text_views(r@) =~= refresh_keys());
    r
}

/// The `j`-th key under which a token record may be nested.
fn nested_key_str(j: usize) -> (r: &'static str)
    requires
        j < 5,
    ensures
        r@ == nested_keys()[j as int],
{
    if j == 0 {
        "data"
    } else if j == 1 {
        "userInfo"
    } else if j == 2 {
        "session"
    } else if j == 3 {
        "auth"
    } else {
        "user"
    }
}

/// The index of the first entry with the key (see `key_index`).
fn key_position(entries: &Vec<(String, JsonLite)>, key: &str) -> (r: usize)
    ensures
        r == key_index(entries@, key@, 0),
{
    let kv = chars_of(key);
    let mut i: usize = 0;
    while i < entries.len()
        invariant
            i <= entries@.len(),
            kv@ == key@,
            key_index(entries@, key@, 0) == key_index(entries@, key@, i as int),
        decreases entries@.len() - i,
    {
        if chars_equal(&chars_of(entries[i].0.as_str()), &kv) {
            return i;
        }
        i += 1;
    }
    i
}

/// The trimmed text under the key (see `text_at`).
fn text_at_exec(entries: &Vec<(String, JsonLite)>, key: &str) -> (r: Option<String>)
    ensures
        match text_at(entries@, key@) {
            Some(t) => r matches Some(x) && x@ == t,
            None => r is None,
        },
{
    let i = key_position(entries, key);
    if i < entries.len() {
        match &entries[i].1 {
            JsonLite::Text(t) => Some(trim(t.as_str())),
            _ => None,
        }
    } else {
        None
    }
}

/// The first non-blank text among the keys (see `direct_text`).
fn direct_text_exec(entries: &Vec<(String, JsonLite)>, keys: &Vec<&str>) -> (r: String)
    ensures
        r@ == direct_text(entries@, text_views(keys@)),
{
    let ghost all = text_views(keys@);
    let mut j: usize = 0;
    assert(all.skip(0) =~= all);
    while j < keys.len()
        invariant
            j <= keys@.len(),
            all == text_views(keys@),
            direct_text(entries@, all) == direct_text(entries@, all.skip(j as int)),
        decreases keys@.len() - j,
    {
        assert(all.skip(j as int)[0] == keys@[j as int]@);
        assert(all.skip(j as int).drop_first() =~= all.skip(j + 1));
        match text_at_exec(entries, keys[j]) {
            Some(t) => {
                if !t.as_str().is_empty() {
                    return t;
                }
            },
            None => {},
        }
        j += 1;
    }
    String::new()
}

/// The token found in a JSON value (see `find_token`).
pub fn find_token_exec(v: &JsonLite, keys: &Vec<&str>) -> (r: String)
    ensures
        r@ == find_token(*v, text_views(keys@)),
    decreases *v, 6int,
{
    match v {
        JsonLite::Object(entries) => {
            let d = direct_text_exec(entries, keys);
            if !d.as_str().is_empty() {
                d
            } else {
                nested_token_exec(v, keys, 0)
            }
        },
        _ => String::new(),
    }
}

/// The token found in the nested records (see `nested_token`).
fn nested_token_exec(v: &JsonLite, keys: &Vec<&str>, j: usize) -> (r: String)
    ensures
        r@ == nested_token(*v, text_views(keys@), j as int),
    decreases *v, 5 - j,
{
    if j >= 5 {
        return String::new();
    }
    match v {
        JsonLite::Object(entries) => {
            let i = key_position(entries, nested_key_str(j));
            let t = if i < entries.len() {
                proof {
                    assert(decreases_to!(*v => *entries));
                    assert(decreases_to!(*entries => entries@));
                    assert(decreases_to!(entries@ => entries@[i as int]));
                    assert(decreases_to!(entries@[i as int] => entries@[i as int].1));
                }
                find_token_exec(&entries[i].1, keys)
            } else {
                String::new()
            };
            if !t.as_str().is_empty() {
                t
            } else {
                nested_token_exec(v, keys, j + 1)
            }
        },
        _ => String::new(),
    }
}

/// The Qoder CN user-info record, as far as the login reads it.
#[derive(Debug)]
pub struct QoderUserInfo {
    pub token: String,
    pub access_token: String,
    pub refresh_token: String,
    pub name: Option<String>,
    pub email: Option<String>,
}

/// A Qoder CN login: its token and an account label.
#[derive(Debug)]
pub struct QoderCnAuthSession {
    pub token: String,
    pub label: Option<String>,
}

/// The text of an optional string.
pub open spec fn opt_text(o: Option<String>) -> Option<Seq<char>> {
    match o {
        Some(s) => Some(s@),
        None => None,
    }
}

/// The login read from a user-info record and the same record as JSON: the
/// token is the record's `token`, else its `accessToken` (trimmed, where not
/// blank), else the one found in the JSON; with no token and no refresh
/// token (the record's, else the JSON's) there is no login; the label is
/// the name, else the email. A login may have an empty token when only a
/// refresh token is present.
pub open spec fn qoder_session_spec(info: QoderUserInfo, raw: JsonLite) -> Option<(Seq<char>, Option<Seq<char>>)> {
    let token = if trim_ws(info.token@).len() > 0 {
        trim_ws(info.token@)
    } else if trim_ws(info.access_token@).len() > 0 {
        trim_ws(info.access_token@)
    } else {
        find_token(raw, token_keys())
    };
    let refresh = if trim_ws(info.refresh_token@).len() > 0 {
        trim_ws(info.refresh_token@)
    } else {
        find_token(raw, refresh_keys())
    };
    if token.len() == 0 && refresh.len() == 0 {
        None
    } else {
        Some((token, match info.name {
            Some(n) => Some(n@),
            None => opt_text(info.email),
        }))
    }
}

/// The Qoder CN login from its user-info record (`Err` holds the error of
/// reading the record) and the same record as JSON (see `qoder_session_spec`).
pub fn qoder_session_from_user_info(info: Result<QoderUserInfo, String>, raw: &JsonLite) -> (r: Result<Option<QoderCnAuthSession>, String>)
    ensures
        match info {
            Err(e) => r matches Err(x) && x@ == "Failed to parse Qoder CN user info: "@ + e@,
            Ok(i) => match qoder_session_spec(i, *raw) {
                None => r matches Ok(None),
                Some((t, l)) => r matches Ok(Some(s)) && s.token@ == t && opt_text(s.label) == l,
            },
        },
{
    let info = match info {
        Ok(i) => i,
        Err(e) => return Err(join2("Failed to parse Qoder CN user info: ", e.as_str())),
    };
    let token = match trimmed_non_empty(info.token.as_str()) {
        Some(t) => t,
        None => match trimmed_non_empty(info.access_token.as_str()) {
            Some(t) => t,
            None => find_token_exec(raw, &token_key_list()),
        },
    };
    if token.as_str().is_empty() {
        let refresh = match trimmed_non_empty(info.refresh_token.as_str()) {
            Some(t) => t,
            None => find_token_exec(raw, &refresh_key_list()),
        };
        if refresh.as_str().is_empty() {
            return Ok(None);
        }
    }
    let label = match info.name {
        Some(n) => Some(n),
        None => info.email,
    };
    Ok(Some(QoderCnAuthSession { token, label }))
}

/// The Qoder CN login token and label from the outcome of reading the login:
/// a login with an empty token gives none; errors pass through.
pub fn read_qoder_cn_auth_token(session: Result<Option<QoderCnAuthSession>, String>) -> (r: Result<Option<(String, Option<String>)>, String>)
    ensures
        match session {
            Err(e) => r matches Err(x) && x@ == e@,
            Ok(None) => r matches Ok(None),
            Ok(Some(s)) => if s.token@.len() == 0 {
                r matches Ok(None)
            } else {
                r matches Ok(Some(x)) && x.0@ == s.token@ && opt_text(x.1) == opt_text(s.label)
            },
        },
{
    match session {
        Err(e) => Err(e),
        Ok(None) => Ok(None),
        Ok(Some(s)) => {
            if s.token.as_str().is_empty() {
                Ok(None)
            } else {
                Ok(Some((s.token, s.label)))
            }
        },
    }
}

/// The folder read at a step of the search for a Qoder CN secret.
pub open spec fn qoder_dir(k: int) -> &'static str {
    if k == 0 {
        "QoderCN"
    } else if k == 1 {
        "Qoder CN"
    } else {
        "qoder-cn"
    }
}

/// The folder read at a step (see `qoder_dir`).
fn qoder_dir_at(k: usize) -> (r: &'static str)
    ensures
        r == qoder_dir(k as int),
{
    if k == 0 {
        "QoderCN"
    } else if k == 1 {
        "Qoder CN"
    } else {
        "qoder-cn"
    }
}

/// Whether a folder answered with a secret.
pub open spec fn found_secret(out: Result<Option<Vec<u8>>, String>) -> bool {
    out matches Ok(Some(_))
}

/// The last error among the answers, if any.
pub open spec fn last_error(outs: Seq<Result<Option<Vec<u8>>, String>>) -> Option<String>
    decreases outs.len(),
{
    if outs.len() == 0 {
        None
    } else {
        match outs.last() {
            Err(e) => Some(e),
            _ => last_error(outs.drop_last()),
        }
    }
}

/// Whether `outs` are the answers that the search reads before it stops: one
/// per folder, in order; it stops at the first secret, else after the last folder.
pub open spec fn qoder_answers(outs: Seq<Result<Option<Vec<u8>>, String>>) -> bool {
    &&& 1 <= outs.len() <= 3
    &&& forall|k: int| 0 <= k < outs.len() - 1 ==> !found_secret(#[trigger] outs[k])
    &&& outs.len() < 3 ==> found_secret(outs.last())
}

/// What the search gives once the folders answered `outs`: the secret found;
/// else the last error, if a read failed; else nothing.
pub open spec fn qoder_search_result(outs: Seq<Result<Option<Vec<u8>>, String>>) -> Result<Option<Seq<u8>>, Seq<char>> {
    match outs.last() {
        Ok(Some(v)) => Ok(Some(v@)),
        _ => match last_error(outs) {
            Some(e) => Err(e@),
            None => Ok(None),
        },
    }
}

/// A secret result by its views.
pub open spec fn secret_result_view(r: Result<Option<Vec<u8>>, String>) -> Result<Option<Seq<u8>>, Seq<char>> {
    match r {
        Ok(Some(v)) => Ok(Some(v@)),
        Ok(None) => Ok(None),
        Err(e) => Err(e@),
    }
}

/// A secret stored by the Qoder CN IDE. `read` reads the secret from one
/// storage folder; the folders are read in turn (`QoderCN`, `Qoder CN`,
/// `qoder-cn`) until one holds it. A failed read does not end the search;
/// where no folder holds the secret, the last failure is the error.
pub fn read_qoder_cn_encrypted_secret<F>(read: F) -> (r: Result<Option<Vec<u8>>, String>) where
    F: Fn(&str) -> Result<Option<Vec<u8>>, String>,

    requires
        forall|k: int| 0 <= k < 3 ==> call_requires(read, (#[trigger] qoder_dir(k),)),
    ensures
        exists|outs: Seq<Result<Option<Vec<u8>>, String>>|
            qoder_answers(outs) && (forall|k: int|
                0 <= k < outs.len() ==> call_ensures(read, (qoder_dir(k),), #[trigger] outs[k]))
                && secret_result_view(r) == qoder_search_result(outs),
{
    let ghost mut outs: Seq<Result<Option<Vec<u8>>, String>> = Seq::empty();
    let mut last_err: Option<String> = None;
    let mut i: usize = 0;
    while i < 3
        invariant
            i <= 3,
            outs.len() == i,
            forall|k: int| 0 <= k < 3 ==> call_requires(read, (#[trigger] qoder_dir(k),)),
            forall|k: int| 0 <= k < i ==> !found_secret(#[trigger] outs[k]),
            forall|k: int| 0 <= k < i ==> call_ensures(read, (qoder_dir(k),), #[trigger] outs[k]),
            last_err == last_error(outs),
        decreases 3 - i,
    {
        let dir = qoder_dir_at(i);
        assert(call_requires(read, (qoder_dir(i as int),)));
        let out = read(dir);
        let ghost before = outs;
        proof {
            outs = outs.push(out);
            assert(outs.drop_last() =~= before);
        }
        match out {
            Ok(Some(v)) => {
                assert(qoder_answers(outs));
                return Ok(Some(v));
            },
            Ok(None) => {},
            Err(e) => {
                last_err = Some(e);
            },
        }
        i += 1;
    }
    assert(qoder_answers(outs));
    match last_err {
        Some(e) => Err(e),
        None => Ok(None),
    }
}

} // verus!
