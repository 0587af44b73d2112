use authkit::errors::AuthError;
use authkit::token::issue;
use authkit::token::verify;
use base64::engine::general_purpose::URL_SAFE_NO_PAD;
use base64::Engine;

const SECRET: &str = "top-secret";

#[test]
fn issue_then_verify_within_ttl() {
    let token = issue("user-1", 1000, 60, SECRET);
    assert!(!token.is_empty());
    let claims = verify(&token, SECRET, 1000).expect("fresh token must verify");
    assert_eq!(claims.sub, "user-1");
    assert_eq!(claims.iat, 1000);
    assert_eq!(claims.exp, 1000 + 60 * 60);
}

#[test]
fn verify_succeeds_up_to_the_last_second() {
    let token = issue("user-1", 1000, 60, SECRET);
    assert!(verify(&token, SECRET, 4599).is_ok());
    assert_eq!(verify(&token, SECRET, 4600).unwrap_err(), AuthError::Expired);
    assert_eq!(verify(&token, SECRET, 100_000).unwrap_err(), AuthError::Expired);
}

#[test]
fn token_issued_61_minutes_ago_is_expired() {
    let issued_at: u64 = 1_700_000_000;
    let token = issue("user-1", issued_at, 60, SECRET);
    let now = issued_at + 61 * 60;
    assert_eq!(verify(&token, SECRET, now).unwrap_err(), AuthError::Expired);
}

#[test]
fn verify_rejects_other_secret() {
    let token = issue("user-1", 1000, 60, SECRET);
    assert_eq!(verify(&token, "other-secret", 1000).unwrap_err(), AuthError::InvalidToken);
}

#[test]
fn verify_rejects_garbage() {
    assert_eq!(verify("", SECRET, 0).unwrap_err(), AuthError::InvalidToken);
    assert_eq!(verify("not-a-token", SECRET, 0).unwrap_err(), AuthError::InvalidToken);
    assert_eq!(verify("a.b.c", SECRET, 0).unwrap_err(), AuthError::InvalidToken);
    assert_eq!(verify("....", SECRET, 0).unwrap_err(), AuthError::InvalidToken);
}

#[test]
fn verify_rejects_tampered_token() {
    let token = issue("user-1", 1000, 60, SECRET);
    let mut tampered: Vec<char> = token.chars().collect();
    let i = tampered.len() - 1;
    tampered[i] = if tampered[i] == 'A' { 'B' } else { 'A' };
    let tampered: String = tampered.into_iter().collect();
    assert_eq!(verify(&tampered, SECRET, 1000).unwrap_err(), AuthError::InvalidToken);
}

#[test]
fn token_has_standard_shape() {
    let token = issue("user-1", 1000, 60, SECRET);
    let parts: Vec<&str> = token.split('.').collect();
    assert_eq!(parts.len(), 3);
    // The signed-over parts are unpadded URL-safe base64 of the fixed header
    // and of the canonical claims document.
    let header = URL_SAFE_NO_PAD.decode(parts[0]).expect("header part decodes");
    assert_eq!(header, b"{\"typ\":\"JWT\",\"alg\":\"HS256\"}".to_vec());
    let doc = URL_SAFE_NO_PAD.decode(parts[1]).expect("claims part decodes");
    assert_eq!(doc, b"{\"sub\":\"user-1\",\"iat\":1000,\"exp\":4600}".to_vec());
    assert!(!parts[2].is_empty());
}

#[test]
fn signature_matches_hmac_sha256_of_signing_input() {
    let token = issue("user-1", 1000, 60, SECRET);
    let second_dot = token.rfind('.').unwrap();
    let (message, signature) = token.split_at(second_dot);
    let signature = &signature[1..];
    let key = jsonwebtoken::DecodingKey::from_secret(SECRET.as_bytes());
    let ok = jsonwebtoken::crypto::verify(
        signature,
        message.as_bytes(),
        &key,
        jsonwebtoken::Algorithm::HS256,
    )
    .expect("hmac verification runs");
    assert!(ok);
}

#[test]
fn correctly_signed_but_noncanonical_document_is_rejected() {
    // A token whose claims document reorders the fields carries a valid
    // signature but is not in the codec's one canonical encoding.
    let header = URL_SAFE_NO_PAD.encode(b"{\"typ\":\"JWT\",\"alg\":\"HS256\"}");
    let doc = URL_SAFE_NO_PAD.encode(b"{\"iat\":1000,\"exp\":4600,\"sub\":\"user-1\"}");
    let message = format!("{}.{}", header, doc);
    let key = jsonwebtoken::EncodingKey::from_secret(SECRET.as_bytes());
    let sig = jsonwebtoken::crypto::sign(message.as_bytes(), &key, jsonwebtoken::Algorithm::HS256)
        .expect("hmac signing runs");
    let token = format!("{}.{}", message, sig);
    assert_eq!(verify(&token, SECRET, 1000).unwrap_err(), AuthError::InvalidToken);
}

#[test]
fn wrong_secret_outranks_expiry() {
    // An unverifiable signature is InvalidToken even when the token would
    // also be past its expiry: the signature is checked first.
    let token = issue("user-1", 1000, 60, SECRET);
    assert_eq!(verify(&token, "other-secret", 100_000).unwrap_err(), AuthError::InvalidToken);
}

#[test]
fn timestamps_at_the_top_of_the_range_round_trip() {
    let now = u64::MAX - 60 * 60;
    let token = issue("user-1", now, 60, SECRET);
    let claims = verify(&token, SECRET, now).expect("token at the edge verifies");
    assert_eq!(claims.iat, now);
    assert_eq!(claims.exp, u64::MAX);
}

#[test]
fn empty_subject_round_trips() {
    let token = issue("", 1000, 60, SECRET);
    let claims = verify(&token, SECRET, 1000).expect("empty subject is a subject");
    assert_eq!(claims.sub, "");
}

#[test]
fn distinct_subjects_get_distinct_tokens() {
    let a = issue("user-1", 1000, 60, SECRET);
    let b = issue("user-2", 1000, 60, SECRET);
    assert_ne!(a, b);
}
