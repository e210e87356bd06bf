use base64::Engine;
use quotefeed::errors::CredentialsError;
use quotefeed::oauth::{Credentials, TokenGrant};

const ENCODED: &str = "eyJhY2Nlc3NfdG9rZW4iOiJ0b2stYSIsInJlZnJlc2hfdG9rZW4iOiJ0b2stciIsImV4cGlyZXNfaW4iOjE4MDAsIm1pbnRlZCI6MTcwMDAwMDAwMH0";

fn sample() -> Credentials {
    Credentials::new("tok-a".to_string(), "tok-r".to_string(), 1800, 1_700_000_000)
}

#[test]
fn encode_produces_url_safe_base64_of_the_record() {
    assert_eq!(Credentials::encode(&sample()), ENCODED);
}

#[test]
fn decode_inverts_encode() {
    let c = Credentials::decode(&Credentials::encode(&sample())).unwrap();
    assert_eq!(c.access_token, "tok-a");
    assert_eq!(c.refresh_token, "tok-r");
    assert_eq!(c.expires_in, 1800);
    assert_eq!(c.minted, 1_700_000_000);
}

#[test]
fn decode_accepts_any_member_order() {
    // {"minted":5,"expires_in":6,"refresh_token":"r","access_token":"a"}
    // encoded by hand below
    let text = "{\"minted\":5,\"expires_in\":6,\"refresh_token\":\"r\",\"access_token\":\"a\"}";
    let encoded = base64_url(text.as_bytes());
    let c = Credentials::decode(&encoded).unwrap();
    assert_eq!(c.access_token, "a");
    assert_eq!(c.minted, 5);
}

fn base64_url(b: &[u8]) -> String {
    base64::engine::general_purpose::URL_SAFE_NO_PAD.encode(b)
}

#[test]
fn decode_rejects_bad_base64() {
    let e = Credentials::decode("!!!not-base64!!!").unwrap_err();
    assert!(matches!(e, CredentialsError::Decode(_)));
}

#[test]
fn decode_rejects_invalid_utf8() {
    let encoded = base64_url(&[0xff, 0xfe]);
    let e = Credentials::decode(&encoded).unwrap_err();
    assert!(matches!(e, CredentialsError::Utf8(_)));
}

#[test]
fn decode_rejects_non_credential_json() {
    let e = Credentials::decode(&base64_url(b"notjson")).unwrap_err();
    assert!(matches!(e, CredentialsError::SerDe(_)));
    let e = Credentials::decode(&base64_url(b"{\"access_token\":\"a\"}")).unwrap_err();
    assert!(matches!(e, CredentialsError::SerDe(_)));
}

#[test]
fn expiry_uses_a_five_minute_skew() {
    let c = Credentials::new("a".to_string(), "r".to_string(), 600, 1000);
    // expiry at 1600; expired once within 300 seconds of it
    assert!(!c.is_expired(1299));
    assert!(c.is_expired(1300));
    assert!(c.is_expired_skewed(1600, 0));
    assert!(!c.is_expired_skewed(1599, 0));
    assert!(c.is_expired_skewed(1599, 1));
}

#[test]
fn access_token_is_withheld_once_expired() {
    let c = Credentials::new("a".to_string(), "r".to_string(), 600, 1000);
    assert_eq!(c.access_token_at(1000).map(|s| s.as_str()), Some("a"));
    assert!(c.access_token_at(1300).is_none());
}

#[test]
fn refresh_installs_the_fresh_grant() {
    let mut c = Credentials::new("old-a".to_string(), "old-r".to_string(), 600, 1000);
    let grant = TokenGrant {
        access_token: "new-a".to_string(),
        refresh_token: "new-r".to_string(),
        expires_in: 1800,
    };
    c.apply_refresh(grant, 5000);
    assert_eq!(c.access_token, "new-a");
    assert_eq!(c.refresh_token, "new-r");
    assert_eq!(c.minted, 5000);
    assert!(!c.is_expired(5000));
}

#[test]
fn token_escapes_survive_the_cookie_round_trip() {
    let c = Credentials::new("a\"b\\c".to_string(), "r\n".to_string(), 60, 7);
    let back = Credentials::decode(&Credentials::encode(&c)).unwrap();
    assert_eq!(back.access_token, "a\"b\\c");
    assert_eq!(back.refresh_token, "r\n");
}

#[test]
fn redacted_description_censors_the_tokens() {
    let c = Credentials::new("secret-token".to_string(), "ref".to_string(), 60, -5);
    assert_eq!(
        c.redacted(),
        "Credentials { access_token: secr********, refresh_token: ref, expires_in: 60, minted: -5 }"
    );
}

#[test]
fn grants_mint_fresh_credentials() {
    let grant = TokenGrant {
        access_token: "a".to_string(),
        refresh_token: "r".to_string(),
        expires_in: 1800,
    };
    let c = Credentials::from_grant(grant, 9000);
    assert_eq!(c.minted, 9000);
    assert!(!c.is_expired(9000));
}

#[test]
fn packaged_credentials_unpack() {
    let packaged = quotefeed::oauth::CredentialsPackaged {
        credentials: Credentials::encode(&sample()),
    };
    let c = packaged.unpack().unwrap();
    assert_eq!(c.access_token, "tok-a");
}
