use authkit::errors::AuthError;
use authkit::gate::check;
use authkit::gate::decode_token;
use authkit::gate::protect;
use authkit::gate::user_validation;
use authkit::gate::JwtValidator;
use authkit::token::issue;

const SECRET: &str = "top-secret";

fn bearer(token: &str) -> String {
    format!("Bearer {}", token)
}

#[test]
fn gate_rejects_missing_header() {
    let gate = JwtValidator::new(SECRET.to_string());
    assert_eq!(gate.validate(None, 1000).unwrap_err(), AuthError::MissingToken);
}

#[test]
fn gate_rejects_invalid_header() {
    let gate = JwtValidator::new(SECRET.to_string());
    let header = "Bearer definitely-not-a-token".to_string();
    assert_eq!(gate.validate(Some(&header), 1000).unwrap_err(), AuthError::InvalidToken);
}

#[test]
fn gate_rejects_expired_token() {
    let gate = JwtValidator::new(SECRET.to_string());
    let header = bearer(&issue("user-1", 1000, 60, SECRET));
    assert_eq!(gate.validate(Some(&header), 4600).unwrap_err(), AuthError::Expired);
}

#[test]
fn gate_forwards_valid_token() {
    let gate = JwtValidator::new(SECRET.to_string());
    let header = bearer(&issue("user-1", 1000, 60, SECRET));
    let claims = gate.validate(Some(&header), 2000).expect("a valid token is admitted");
    assert_eq!(claims.sub, "user-1");
}

#[test]
fn decode_token_accepts_with_and_without_prefix() {
    let token = issue("user-1", 1000, 60, SECRET);
    assert!(decode_token(&bearer(&token), SECRET, 1000).is_ok());
    assert!(decode_token(&token, SECRET, 1000).is_ok());
    assert_eq!(decode_token("Bearer ", SECRET, 1000).unwrap_err(), AuthError::InvalidToken);
}

#[test]
fn protected_handler_runs_only_on_valid_token() {
    let gate = JwtValidator::new(SECRET.to_string());
    let header = bearer(&issue("user-1", 1000, 60, SECRET));

    let r = protect(&gate, Some(&header), 2000, |claims| format!("hello {}", claims.sub));
    assert_eq!(r, Ok("hello user-1".to_string()));

    let r = protect(&gate, None, 2000, |claims| format!("hello {}", claims.sub));
    assert_eq!(r, Err(AuthError::MissingToken));

    let bad = "Bearer nope".to_string();
    let r = protect(&gate, Some(&bad), 2000, |claims| format!("hello {}", claims.sub));
    assert_eq!(r, Err(AuthError::InvalidToken));

    let r = protect(&gate, Some(&header), 4600, |claims| format!("hello {}", claims.sub));
    assert_eq!(r, Err(AuthError::Expired));
}

#[test]
fn ownership_check_is_exact_string_identity() {
    let token = issue("user-1", 1000, 60, SECRET);
    let claims = authkit::token::verify(&token, SECRET, 1000).unwrap();
    assert!(check(&claims, "user-1").is_ok());
    assert_eq!(check(&claims, "user-2"), Err(AuthError::Forbidden));
    assert_eq!(check(&claims, "User-1"), Err(AuthError::Forbidden));
    assert_eq!(check(&claims, "user-1 "), Err(AuthError::Forbidden));
    assert_eq!(check(&claims, " user-1"), Err(AuthError::Forbidden));
    assert_eq!(check(&claims, ""), Err(AuthError::Forbidden));
}

#[test]
fn user_validation_guards_user_scoped_routes() {
    let header = bearer(&issue("user-a", 1000, 60, SECRET));
    assert_eq!(user_validation(Some(&header), "user-a", SECRET, 2000), Ok(true));
    assert_eq!(
        user_validation(Some(&header), "user-b", SECRET, 2000),
        Err(AuthError::Forbidden)
    );
    assert_eq!(user_validation(None, "user-a", SECRET, 2000), Err(AuthError::MissingToken));
    assert_eq!(
        user_validation(Some(&header), "user-a", SECRET, 4600),
        Err(AuthError::Expired)
    );
}

#[test]
fn statuses_match_the_route_contract() {
    assert_eq!(AuthError::MissingToken.http_status(), 401);
    assert_eq!(AuthError::InvalidToken.http_status(), 401);
    assert_eq!(AuthError::Expired.http_status(), 401);
    assert_eq!(AuthError::Forbidden.http_status(), 401);
    assert_eq!(AuthError::InvalidCredentials.http_status(), 404);
    assert_eq!(AuthError::StoreUnavailable.http_status(), 500);
    assert_eq!(AuthError::InvalidCredentials.login_http_status(), 404);
    assert_eq!(AuthError::StoreUnavailable.login_http_status(), 404);
    assert_eq!(AuthError::Expired.login_http_status(), 401);
}

#[test]
fn error_messages_are_fixed() {
    assert_eq!(AuthError::MissingToken.message(), "Missing authorization token.");
    assert_eq!(AuthError::InvalidToken.message(), "Invalid or missing authorization token.");
    assert_eq!(AuthError::Expired.message(), "Invalid or missing authorization token.");
    assert_eq!(AuthError::Forbidden.message(), "Invalid user.");
}
