//! The failure taxonomy of the authentication subsystem, and its translation
//! to HTTP status codes at the transport boundary.

use vstd::prelude::*;

verus! {

/// Every way a request can fail inside the authentication core. All of these
/// are terminal for the current request; none is retried.
#[derive(Clone, Copy, Debug, PartialEq, Eq, Structural)]
pub enum AuthError {
    /// No `Authorization` header was present on a protected request.
    MissingToken,
    /// The bearer token was malformed, unsigned, or signed with another secret.
    InvalidToken,
    /// The signature was valid but the token is past its expiry.
    Expired,
    /// The login predicate (account identifier and password digest) matched
    /// no stored record.
    InvalidCredentials,
    /// The token's subject does not match the targeted user id.
    Forbidden,
    /// The underlying store call itself failed.
    StoreUnavailable,
}

/// The HTTP status that a protected route returns for each failure.
pub open spec fn spec_http_status(e: AuthError) -> u16 {
    match e {
        AuthError::MissingToken => 401u16,
        AuthError::InvalidToken => 401u16,
        AuthError::Expired => 401u16,
        AuthError::Forbidden => 401u16,
        AuthError::InvalidCredentials => 404u16,
        AuthError::StoreUnavailable => 500u16,
    }
}

/// The HTTP status that the login route returns for each failure: it reports
/// not-found both for rejected credentials and for a store failure.
pub open spec fn spec_login_http_status(e: AuthError) -> u16 {
    match e {
        AuthError::InvalidCredentials => 404u16,
        AuthError::StoreUnavailable => 404u16,
        _ => spec_http_status(e),
    }
}

impl AuthError {
    /// Boundary translation for protected routes: the token and ownership
    /// failures are unauthorized, a missing record is not-found, and a store
    /// failure is a server error.
    pub fn http_status(&self) -> (code: u16)
        ensures
            code == spec_http_status(*self),
    {
        match *self {
            AuthError::MissingToken => 401,
            AuthError::InvalidToken => 401,
            AuthError::Expired => 401,
            AuthError::Forbidden => 401,
            AuthError::InvalidCredentials => 404,
            AuthError::StoreUnavailable => 500,
        }
    }

    /// Boundary translation for the login route, which conflates "no such
    /// credentials" and "store failed" into the same not-found answer.
    pub fn login_http_status(&self) -> (code: u16)
        ensures
            code == spec_login_http_status(*self),
    {
        match *self {
            AuthError::InvalidCredentials => 404,
            AuthError::StoreUnavailable => 404,
            _ => self.http_status(),
        }
    }

    /// The log / response line for this failure.
    pub fn message(&self) -> (msg: &'static str)
        ensures
            *self == AuthError::MissingToken ==> msg@ == "Missing authorization token."@,
            *self == AuthError::InvalidToken ==> msg@ == "Invalid or missing authorization token."@,
            *self == AuthError::Expired ==> msg@ == "Invalid or missing authorization token."@,
            *self == AuthError::Forbidden ==> msg@ == "Invalid user."@,
            *self == AuthError::InvalidCredentials ==> msg@ == "User not found"@,
            *self == AuthError::StoreUnavailable ==> msg@ == "Unable to reach the store"@,
    {
        match *self {
            AuthError::MissingToken => "Missing authorization token.",
            AuthError::InvalidToken => "Invalid or missing authorization token.",
            AuthError::Expired => "Invalid or missing authorization token.",
            AuthError::Forbidden => "Invalid user.",
            AuthError::InvalidCredentials => "User not found",
            AuthError::StoreUnavailable => "Unable to reach the store",
        }
    }
}

} // verus!
