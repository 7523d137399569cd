use base64::Engine;
use widgitron::antigravity::{
    configured_value, extract_gocspx_secret, extract_google_client_id, is_blacklisted_model,
    oauth_credentials, oauth_tokens_from_blob, parse_oauth_tokens, unique_refresh_tokens,
    unwrap_oauth_token_blob, usable_access_tokens, OAuthTokens,
};
use widgitron::deadline_time::parse_deadline_utc;
use widgitron::protobuf::{field_bytes, field_string, read_protobuf_fields, read_varint, ProtobufField};

fn varint(mut v: u64) -> Vec<u8> {
    let mut out = Vec::new();
    loop {
        let byte = (v & 0x7f) as u8;
        v >>= 7;
        if v == 0 {
            out.push(byte);
            return out;
        }
        out.push(byte | 0x80);
    }
}

fn bytes_field(num: u64, data: &[u8]) -> Vec<u8> {
    let mut out = varint(num << 3 | 2);
    out.extend(varint(data.len() as u64));
    out.extend_from_slice(data);
    out
}

fn varint_field(num: u64, value: u64) -> Vec<u8> {
    let mut out = varint(num << 3);
    out.extend(varint(value));
    out
}

fn b64(data: &[u8]) -> String {
    base64::engine::general_purpose::STANDARD.encode(data)
}

fn token_message() -> Vec<u8> {
    let mut inner = bytes_field(1, b" access-1 ");
    inner.extend(bytes_field(3, b"refresh-1"));
    inner.extend(bytes_field(4, &varint_field(1, 1_900_000_000)));
    inner
}

fn stored_blob(inner: &[u8], sentinel: &str) -> String {
    let payload = bytes_field(1, b64(inner).as_bytes());
    let mut wrapper = bytes_field(1, sentinel.as_bytes());
    wrapper.extend(bytes_field(2, &payload));
    b64(&bytes_field(1, &wrapper))
}

#[test]
fn reads_varints() {
    assert_eq!(read_varint(&[0x96, 0x01], 0), Some((150, 2)));
    assert_eq!(read_varint(&[0x05, 0x7f], 1), Some((127, 2)));
    assert_eq!(read_varint(&[0x80], 0), None);
    assert_eq!(read_varint(&[0xff; 11], 0), None);
}

#[test]
fn reads_protobuf_fields() {
    let mut msg = varint_field(2, 42);
    msg.extend(bytes_field(5, b"  text  "));
    msg.extend(bytes_field(6, &[0xff, 0xfe]));
    let fields = read_protobuf_fields(&msg);
    assert!(matches!(fields.get(&2), Some(ProtobufField::Varint(42))));
    assert_eq!(field_bytes(&fields, 5), Some(&b"  text  "[..]));
    assert_eq!(field_string(&fields, 5), Some("text".to_string()));
    assert_eq!(field_string(&fields, 6), None);
    assert_eq!(field_string(&fields, 2), None);
    let truncated = read_protobuf_fields(&[0x2a, 0x05, b'a']);
    assert!(truncated.is_empty());
}

#[test]
fn unwraps_stored_token_blobs() {
    let inner = token_message();
    let blob = stored_blob(&inner, "oauthTokenInfoSentinelKey");
    assert_eq!(unwrap_oauth_token_blob(&format!("  {}  ", blob)), Some(inner.clone()));
    assert_eq!(unwrap_oauth_token_blob(&stored_blob(&inner, "otherKey")), None);
    assert_eq!(unwrap_oauth_token_blob("%%%"), None);

    let tokens = parse_oauth_tokens(&inner);
    assert_eq!(tokens.access_token.as_deref(), Some("access-1"));
    assert_eq!(tokens.refresh_token.as_deref(), Some("refresh-1"));
    assert_eq!(tokens.expiry_seconds, Some(1_900_000_000));
    assert!(oauth_tokens_from_blob(&blob).is_some());
    let empty = stored_blob(&varint_field(9, 1), "oauthTokenInfoSentinelKey");
    assert!(oauth_tokens_from_blob(&empty).is_none());
}

#[test]
fn finds_client_credentials_in_install_files() {
    assert_eq!(
        extract_gocspx_secret("x = \"GOCSPX-abc_DEF-123\";"),
        Some("GOCSPX-abc_DEF-123".to_string())
    );
    assert_eq!(extract_gocspx_secret("GOCSPX-a"), None);
    assert_eq!(
        extract_google_client_id("{\"clientId\": \"123456789-abc.apps.googleusercontent.com\"}"),
        Some("123456789-abc.apps.googleusercontent.com".to_string())
    );
    assert_eq!(
        extract_google_client_id("'1.apps.googleusercontent.com'"),
        Some("1.apps.googleusercontent.com".to_string())
    );
    assert_eq!(extract_google_client_id("id=1.apps.googleusercontent.com"), None);
    assert_eq!(extract_google_client_id("no marker"), None);
}

#[test]
fn credentials_prefer_the_environment() {
    assert_eq!(configured_value(Some(" env ".to_string()), "cfg"), Some("env".to_string()));
    assert_eq!(configured_value(Some("  ".to_string()), " cfg "), Some("cfg".to_string()));
    assert_eq!(configured_value(None, "  "), None);
    assert_eq!(
        oauth_credentials("id".to_string(), Some("secret".to_string())).unwrap(),
        ("id".to_string(), "secret".to_string())
    );
    assert!(oauth_credentials("id".to_string(), Some(String::new())).unwrap_err().starts_with("Google OAuth client_secret not configured"));
}

#[test]
fn chooses_tokens_to_try() {
    let candidates = vec![
        OAuthTokens { access_token: Some("old".to_string()), refresh_token: Some("r1".to_string()), expiry_seconds: Some(100) },
        OAuthTokens { access_token: Some("fresh".to_string()), refresh_token: Some("r1".to_string()), expiry_seconds: Some(300) },
        OAuthTokens { access_token: Some("forever".to_string()), refresh_token: Some("r2".to_string()), expiry_seconds: None },
    ];
    assert_eq!(usable_access_tokens(&candidates, 200), vec!["fresh".to_string(), "forever".to_string()]);
    assert_eq!(unique_refresh_tokens(&candidates), vec!["r1".to_string(), "r2".to_string()]);
    assert!(is_blacklisted_model("MODEL_PLACEHOLDER_M12"));
    assert!(!is_blacklisted_model("MODEL_PLACEHOLDER_M1"));
}

#[test]
fn nonexistent_local_times_are_reported() {
    let err = parse_deadline_utc("2026-03-08 02:30:00", "America/New_York").unwrap_err();
    assert_eq!(
        err,
        "Deadline time '2026-03-08 02:30:00' does not exist in timezone 'America/New_York'"
    );
}
