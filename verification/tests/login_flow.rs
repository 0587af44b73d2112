use authkit::authentication::Login;
use authkit::authentication::LookupOutcome;
use authkit::authentication::login_from_lookup;
use authkit::authentication::UserRecord;
use authkit::authentication::UserStore;
use authkit::errors::AuthError;
use authkit::gate::user_validation;
use authkit::gate::JwtValidator;
use authkit::hashing::encrypt_password;

const SECRET: &str = "top-secret";
const TTL_MINUTES: u64 = 60;

fn store_with_two_users() -> UserStore {
    UserStore {
        users: vec![
            UserRecord {
                id: "5f6e1c6e-8d11-4b52-93c3-8013f2f03013".to_string(),
                email: "a@example.com".to_string(),
                password: encrypt_password("password-a".to_string()),
            },
            UserRecord {
                id: "e9a2ccb3-12aa-4d2e-b314-b0f70211e7aa".to_string(),
                email: "b@example.com".to_string(),
                password: encrypt_password("password-b".to_string()),
            },
        ],
    }
}

fn login_request(email: &str, password: &str) -> Login {
    Login { email: email.to_string(), password: password.to_string() }
}

#[test]
fn login_with_correct_credentials_yields_usable_token() {
    let store = store_with_two_users();
    let now: u64 = 1_700_000_000;
    let out = store
        .login(&login_request("a@example.com", "password-a"), now, TTL_MINUTES, SECRET)
        .expect("correct credentials must log in");
    assert!(!out.token.is_empty());
    // The token works as a bearer token on a protected route within the TTL.
    let gate = JwtValidator::new(SECRET.to_string());
    let header = format!("Bearer {}", out.token);
    let claims = gate.validate(Some(&header), now + 30 * 60).expect("token is valid in the window");
    assert_eq!(claims.sub, "5f6e1c6e-8d11-4b52-93c3-8013f2f03013");
    assert_eq!(claims.iat, now);
    assert_eq!(claims.exp, now + TTL_MINUTES * 60);
}

#[test]
fn login_with_wrong_password_is_rejected() {
    let store = store_with_two_users();
    let err = store
        .login(&login_request("a@example.com", "password-b"), 1000, TTL_MINUTES, SECRET)
        .unwrap_err();
    assert_eq!(err, AuthError::InvalidCredentials);
    assert_eq!(err.login_http_status(), 404);
}

#[test]
fn login_with_unknown_email_is_rejected() {
    let store = store_with_two_users();
    let err = store
        .login(&login_request("nobody@example.com", "password-a"), 1000, TTL_MINUTES, SECRET)
        .unwrap_err();
    assert_eq!(err, AuthError::InvalidCredentials);
}

#[test]
fn login_matches_exactly_not_by_substring() {
    // Prefixes or fragments of the stored identifier or digest must not match.
    let store = store_with_two_users();
    for (email, password) in [
        ("a@example.com", "password-"),
        ("a@example.", "password-a"),
        ("@example.com", "password-a"),
        ("a@example.com", "password-a "),
    ] {
        assert_eq!(
            store.login(&login_request(email, password), 1000, TTL_MINUTES, SECRET).unwrap_err(),
            AuthError::InvalidCredentials,
            "login with {:?}/{:?} must be rejected",
            email,
            password
        );
    }
}

#[test]
fn own_token_passes_the_ownership_guard_and_anothers_does_not() {
    let store = store_with_two_users();
    let now: u64 = 1_700_000_000;
    let a_id = "5f6e1c6e-8d11-4b52-93c3-8013f2f03013";
    let b_id = "e9a2ccb3-12aa-4d2e-b314-b0f70211e7aa";
    let out = store
        .login(&login_request("a@example.com", "password-a"), now, TTL_MINUTES, SECRET)
        .unwrap();
    let header = format!("Bearer {}", out.token);
    // User A's token against B's record: forbidden, translated to 401.
    let err = user_validation(Some(&header), b_id, SECRET, now + 60).unwrap_err();
    assert_eq!(err, AuthError::Forbidden);
    assert_eq!(err.http_status(), 401);
    // The same token against A's own record proceeds.
    assert_eq!(user_validation(Some(&header), a_id, SECRET, now + 60), Ok(true));
}

#[test]
fn login_against_an_empty_store_is_rejected() {
    let store = UserStore { users: vec![] };
    assert_eq!(
        store.login(&login_request("a@example.com", "password-a"), 1000, TTL_MINUTES, SECRET)
            .unwrap_err(),
        AuthError::InvalidCredentials
    );
}

#[test]
fn lookup_outcomes_map_to_the_login_contract() {
    let found = LookupOutcome::Found("5f6e1c6e-8d11-4b52-93c3-8013f2f03013".to_string());
    let out = login_from_lookup(&found, 1000, TTL_MINUTES, SECRET).expect("a match gets a token");
    assert!(!out.token.is_empty());
    assert_eq!(
        login_from_lookup(&LookupOutcome::NotFound, 1000, TTL_MINUTES, SECRET).unwrap_err(),
        AuthError::InvalidCredentials
    );
    let err = login_from_lookup(&LookupOutcome::Failed, 1000, TTL_MINUTES, SECRET).unwrap_err();
    assert_eq!(err, AuthError::StoreUnavailable);
    assert_eq!(err.login_http_status(), 404);
}

#[test]
fn login_token_equals_direct_issue_for_the_matched_user() {
    let store = store_with_two_users();
    let now: u64 = 1_700_000_000;
    let out = store
        .login(&login_request("b@example.com", "password-b"), now, TTL_MINUTES, SECRET)
        .unwrap();
    let direct = authkit::token::issue(
        "e9a2ccb3-12aa-4d2e-b314-b0f70211e7aa",
        now,
        TTL_MINUTES,
        SECRET,
    );
    assert_eq!(out.token, direct);
}
