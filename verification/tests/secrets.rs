use aes_gcm::aead::{Aead, KeyInit};
use aes_gcm::{Aes256Gcm, Nonce};
use widgitron::vscode_secrets::{
    copilot_app_names, decode_encrypted_master_key, read_vscode_copilot_github_token,
    decode_secret_blob, decrypt_v10_secret, derive_os_crypt_key, dpapi_payload, find_token_exec,
    open_master_key, pick_github_session, read_qoder_cn_encrypted_secret,
    qoder_session_from_user_info, read_qoder_cn_auth_token, refresh_key_list, secret_blob_is_wrapped,
    session_score, session_token, shared_data_folder_name, token_key_list, BufferSecret, JsonLite,
    QoderCnAuthSession, QoderUserInfo, SecretBlob, SessionAccount, SessionData,
};

fn session(token: &str, label: Option<&str>, scopes: &[&str]) -> SessionData {
    SessionData {
        access_token: token.to_string(),
        account: Some(SessionAccount { label: label.map(|l| l.to_string()) }),
        scopes: scopes.iter().map(|s| s.to_string()).collect(),
    }
}

fn seal(key: &[u8], nonce: &[u8; 12], plain: &[u8]) -> Vec<u8> {
    let cipher = Aes256Gcm::new_from_slice(key).unwrap();
    let sealed = cipher.encrypt(Nonce::from_slice(nonce), plain).unwrap();
    let mut raw = b"v10".to_vec();
    raw.extend_from_slice(nonce);
    raw.extend_from_slice(&sealed);
    raw
}

#[test]
fn shared_folders_follow_the_editor_build() {
    assert_eq!(shared_data_folder_name("Code"), ".vscode-shared");
    assert_eq!(shared_data_folder_name("Code - Insiders"), ".vscode-insiders-shared");
    assert_eq!(shared_data_folder_name("Code - Exploration"), ".vscode-exploration-shared");
}

#[test]
fn scores_each_scope_word_once() {
    let scopes = vec!["read:user".to_string(), "repo".to_string(), "copilot".to_string()];
    assert_eq!(session_score(&scopes), 150);
    let all = vec![
        "copilot repo".to_string(),
        "workflow".to_string(),
        "read:user".to_string(),
        "user:email".to_string(),
    ];
    assert_eq!(session_score(&all), 175);
    assert_eq!(session_score(&Vec::new()), 0);
}

#[test]
fn picks_the_best_scored_session_then_the_first_label() {
    let sessions = vec![
        session("t1", Some("zed"), &["repo"]),
        session("t2", Some("bob"), &["copilot"]),
        session("t3", Some("amy"), &["copilot"]),
        session("t4", Some("amy"), &["copilot"]),
    ];
    let picked = pick_github_session(sessions, None).unwrap();
    assert_eq!(picked.access_token, "t3");
}

#[test]
fn preferred_account_filters_sessions_ignoring_ascii_case() {
    let sessions = vec![
        session("t1", Some("Alice"), &["repo"]),
        session("t2", Some("bob"), &["copilot"]),
    ];
    let picked = pick_github_session(sessions, Some("ALICE")).unwrap();
    assert_eq!(picked.access_token, "t1");

    let sessions = vec![session("t2", Some("bob"), &["copilot"])];
    let err = pick_github_session(sessions, Some("carol")).unwrap_err();
    assert_eq!(
        err,
        "No GitHub session for Copilot account 'carol'. Sign in via VS Code Accounts menu."
    );
    assert_eq!(pick_github_session(Vec::new(), None).unwrap_err(), "No GitHub sessions found");

    let sessions = vec![session("t9", None, &[])];
    assert_eq!(pick_github_session(sessions, Some("")).unwrap().access_token, "t9");
}

#[test]
fn blank_tokens_are_refused() {
    let sessions = vec![session("   ", Some("amy"), &["copilot"])];
    assert_eq!(
        session_token(sessions, None).unwrap_err(),
        "GitHub access token is empty. Please sign in again in VS Code."
    );
    let sessions = vec![session(" tok ", Some("amy"), &["copilot"])];
    let (token, label) = session_token(sessions, None).unwrap();
    assert_eq!(token, " tok ");
    assert_eq!(label.as_deref(), Some("amy"));
}

#[test]
fn the_token_search_stops_at_the_first_answer() {
    assert_eq!(copilot_app_names(), vec!["Code", "Code - Insiders"]);
    let asked = std::cell::RefCell::new(Vec::new());
    let found = read_vscode_copilot_github_token(|app: &str| {
        asked.borrow_mut().push(app.to_string());
        Ok(Some((format!("tok-{}", app), Some("amy".to_string()))))
    })
    .unwrap();
    assert_eq!(found, ("tok-Code".to_string(), Some("amy".to_string())));
    assert_eq!(*asked.borrow(), vec!["Code".to_string()]);

    let second = read_vscode_copilot_github_token(|app: &str| {
        if app == "Code" { Ok(None) } else { Ok(Some(("tok2".to_string(), None))) }
    })
    .unwrap();
    assert_eq!(second.0, "tok2");

    let failed = read_vscode_copilot_github_token(|app: &str| {
        if app == "Code" { Ok(None) } else { Err("boom".to_string()) }
    })
    .unwrap_err();
    assert_eq!(failed, "Code - Insiders: boom");

    let first_failed = read_vscode_copilot_github_token(|_: &str| Err("locked".to_string())).unwrap_err();
    assert_eq!(first_failed, "Code: locked");

    let missing = read_vscode_copilot_github_token(|_: &str| Ok(None)).unwrap_err();
    assert_eq!(
        missing,
        "GitHub token not found in VS Code. Sign in via VS Code Accounts menu (GitHub)."
    );
}

#[test]
fn decrypts_v10_secrets() {
    let key = [7u8; 32];
    let raw = seal(&key, &[1u8; 12], b"hello secret");
    assert_eq!(decrypt_v10_secret(&raw, &key).unwrap(), b"hello secret".to_vec());
}

#[test]
fn v10_errors_name_their_cause() {
    let key = [7u8; 32];
    let raw = seal(&key, &[1u8; 12], b"hello secret");
    assert_eq!(
        decrypt_v10_secret(&raw, &[8u8; 32]).unwrap_err(),
        "AES decrypt failed: aead::Error"
    );
    assert_eq!(
        decrypt_v10_secret(&raw, &[7u8; 16]).unwrap_err(),
        "Invalid AES key: Invalid Length"
    );
    assert_eq!(
        decrypt_v10_secret(b"v11aaaaaaaaaaaaaaaaaaaaaaaaaaaaaaaaa", &key).unwrap_err(),
        "Unsupported secret encryption format"
    );
    assert_eq!(
        decrypt_v10_secret(b"v10short", &key).unwrap_err(),
        "Unsupported secret encryption format"
    );
}

#[test]
fn derives_the_os_crypt_key() {
    let key = derive_os_crypt_key("peanuts");
    let expected = pbkdf2::pbkdf2_hmac_array::<sha1::Sha1, 32>(b"peanuts", b"saltysalt", 1003);
    assert_eq!(key, expected);
    assert_ne!(derive_os_crypt_key("peanuts"), derive_os_crypt_key("walnuts"));
}

#[test]
fn opens_the_master_key_with_the_storage_password() {
    let derived = derive_os_crypt_key("hunter2");
    let master = [42u8; 32];
    let sealed = seal(&derived, &[3u8; 12], &master);
    assert_eq!(open_master_key(&sealed, "hunter2").unwrap(), master.to_vec());
    assert!(open_master_key(&sealed, "wrong").is_err());
}

#[test]
fn decodes_the_encrypted_master_key_text() {
    assert_eq!(decode_encrypted_master_key(Some("aGVsbG8=")).unwrap(), b"hello".to_vec());
    assert_eq!(
        decode_encrypted_master_key(None).unwrap_err(),
        "Missing os_crypt.encrypted_key in Local State"
    );
    let err = decode_encrypted_master_key(Some("%%%")).unwrap_err();
    assert!(err.starts_with("Failed to decode encrypted_key: "));
    assert!(err.len() > "Failed to decode encrypted_key: ".len());
}

#[test]
fn dpapi_keys_need_their_prefix() {
    assert_eq!(dpapi_payload(b"DPAPIabc").unwrap(), b"abc");
    assert_eq!(
        dpapi_payload(b"DPAPI").unwrap_err(),
        "Unexpected encrypted_key format in Local State"
    );
    assert!(dpapi_payload(b"XPAPIabc").is_err());
}

#[test]
fn decodes_raw_and_wrapped_secret_blobs() {
    let key = [9u8; 32];
    let raw = seal(&key, &[2u8; 12], b"[1,2]");
    assert!(!secret_blob_is_wrapped("v10..."));
    assert!(secret_blob_is_wrapped("{\"type\":\"Buffer\"}"));
    assert_eq!(decode_secret_blob(SecretBlob::Raw(raw.clone()), &key).unwrap(), b"[1,2]".to_vec());
    let wrapped = SecretBlob::Wrapped(Ok(BufferSecret { secret_type: "Buffer".to_string(), data: raw.clone() }));
    assert_eq!(decode_secret_blob(wrapped, &key).unwrap(), b"[1,2]".to_vec());
    let other = SecretBlob::Wrapped(Ok(BufferSecret { secret_type: "Blob".to_string(), data: raw }));
    assert_eq!(decode_secret_blob(other, &key).unwrap_err(), "Unsupported secret wrapper type: Blob");
    let broken = SecretBlob::Wrapped(Err("EOF".to_string()));
    assert_eq!(decode_secret_blob(broken, &key).unwrap_err(), "Failed to parse secret JSON: EOF");
}

fn text(s: &str) -> JsonLite {
    JsonLite::Text(s.to_string())
}

fn object(entries: Vec<(&str, JsonLite)>) -> JsonLite {
    JsonLite::Object(entries.into_iter().map(|(k, v)| (k.to_string(), v)).collect())
}

#[test]
fn finds_tokens_directly_then_in_nested_records() {
    let keys = token_key_list();
    let direct = object(vec![("pat", text("  p1  ")), ("idToken", text("i1"))]);
    assert_eq!(find_token_exec(&direct, &keys), "p1");
    let nested = object(vec![
        ("token", text("   ")),
        ("data", object(vec![("user", JsonLite::Other)])),
        ("session", object(vec![("auth", object(vec![("accessToken", text("deep"))]))])),
    ]);
    assert_eq!(find_token_exec(&nested, &keys), "deep");
    assert_eq!(find_token_exec(&JsonLite::Other, &keys), "");
    let refresh = object(vec![("user", object(vec![("refresh_token", text("r1"))]))]);
    assert_eq!(find_token_exec(&refresh, &refresh_key_list()), "r1");
}

fn info(token: &str, access: &str, refresh: &str, name: Option<&str>, email: Option<&str>) -> QoderUserInfo {
    QoderUserInfo {
        token: token.to_string(),
        access_token: access.to_string(),
        refresh_token: refresh.to_string(),
        name: name.map(|s| s.to_string()),
        email: email.map(|s| s.to_string()),
    }
}

#[test]
fn qoder_sessions_prefer_record_tokens_and_labels() {
    let s = qoder_session_from_user_info(Ok(info(" t ", "a", "", None, Some("e@x"))), &JsonLite::Other)
        .unwrap()
        .unwrap();
    assert_eq!(s.token, "t");
    assert_eq!(s.label.as_deref(), Some("e@x"));
    let s = qoder_session_from_user_info(Ok(info("", " a ", "", Some("n"), Some("e"))), &JsonLite::Other)
        .unwrap()
        .unwrap();
    assert_eq!(s.token, "a");
    assert_eq!(s.label.as_deref(), Some("n"));
    let raw = object(vec![("data", object(vec![("securityOauthToken", text("sec"))]))]);
    let s = qoder_session_from_user_info(Ok(info("", "", "", None, None)), &raw).unwrap().unwrap();
    assert_eq!(s.token, "sec");
}

#[test]
fn qoder_sessions_without_tokens() {
    let none = qoder_session_from_user_info(Ok(info("", "", "", Some("n"), None)), &JsonLite::Other).unwrap();
    assert!(none.is_none());
    let refresh_only = qoder_session_from_user_info(Ok(info("", "", "r", None, None)), &JsonLite::Other)
        .unwrap()
        .unwrap();
    assert_eq!(refresh_only.token, "");
    assert_eq!(read_qoder_cn_auth_token(Ok(Some(refresh_only))).unwrap(), None);
    let err = qoder_session_from_user_info(Err("bad".to_string()), &JsonLite::Other).unwrap_err();
    assert_eq!(err, "Failed to parse Qoder CN user info: bad");
}

#[test]
fn qoder_tokens_pass_through() {
    let session = QoderCnAuthSession { token: "tok".to_string(), label: Some("me".to_string()) };
    let (token, label) = read_qoder_cn_auth_token(Ok(Some(session))).unwrap().unwrap();
    assert_eq!(token, "tok");
    assert_eq!(label.as_deref(), Some("me"));
    assert_eq!(read_qoder_cn_auth_token(Ok(None)).unwrap(), None);
    assert_eq!(read_qoder_cn_auth_token(Err("e".to_string())).unwrap_err(), "e");
}

#[test]
fn qoder_secret_search_keeps_the_last_error() {
    let asked = std::cell::RefCell::new(Vec::new());
    let r = read_qoder_cn_encrypted_secret(|dir: &str| {
        asked.borrow_mut().push(dir.to_string());
        match dir {
            "QoderCN" => Err("first".to_string()),
            "Qoder CN" => Ok(None),
            _ => Err("second".to_string()),
        }
    });
    assert_eq!(r.unwrap_err(), "second");
    assert_eq!(*asked.borrow(), vec!["QoderCN", "Qoder CN", "qoder-cn"]);

    let none = read_qoder_cn_encrypted_secret(|_: &str| Ok(None));
    assert_eq!(none.unwrap(), None);

    let found = read_qoder_cn_encrypted_secret(|dir: &str| match dir {
        "QoderCN" => Err("locked".to_string()),
        "Qoder CN" => Ok(Some(vec![1, 2])),
        _ => panic!("searched past the secret"),
    });
    assert_eq!(found.unwrap(), Some(vec![1, 2]));
}
