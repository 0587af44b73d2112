//! The request gate that protects routes, and the ownership guard for
//! user-scoped operations.
//!
//! The validator inspects the `Authorization` header before anything else runs:
//! a missing header, or a bearer token that does not verify, short-circuits
//! the request; only a valid token lets it through, carrying the decoded
//! claims. The ownership guard then requires the token's subject to be,
//! character for character, the targeted user id.

use vstd::prelude::*;
use vstd::utf8::encode_utf8;
use crate::ascii::str_eq;
use crate::claims::TokenClaims;
use crate::errors::AuthError;
use crate::token::verify;
use crate::token::verify_model;
use crate::token::VerifyOutcome;

verus! {

/// The characters of `Bearer `.
pub open spec fn bearer_prefix() -> Seq<char> {
    seq!['B', 'e', 'a', 'r', 'e', 'r', ' ']
}

/// The token inside an `Authorization` header value: the text after the
/// bearer prefix, or the whole value where the prefix is absent.
pub open spec fn bearer_token(h: Seq<char>) -> Seq<char> {
    if h.len() >= 7 && h.subrange(0, 7) == bearer_prefix() {
        h.skip(7)
    } else {
        h
    }
}

/// Strips the bearer prefix off a header value.
pub fn strip_bearer(h: &str) -> (r: &str)
    ensures
        r@ == bearer_token(h@),
{
    let n = h.unicode_len();
    if n >= 7 && h.get_char(0) == 'B' && h.get_char(1) == 'e' && h.get_char(2) == 'a' && h.get_char(
        3,
    ) == 'r' && h.get_char(4) == 'e' && h.get_char(5) == 'r' && h.get_char(6) == ' ' {
        proof {
            assert(h@.subrange(0, 7) =~= bearer_prefix());
        }
        let r = h.substring_char(7, n);
        proof {
            assert(r@ =~= h@.skip(7));
        }
        r
    } else {
        proof {
            if h@.len() >= 7 && h@.subrange(0, 7) == bearer_prefix() {
                assert(h@[0] == 'B' && h@[1] == 'e' && h@[2] == 'a' && h@[3] == 'r' && h@[4] == 'e'
                    && h@[5] == 'r' && h@[6] == ' ') by {
                    assert(forall|k: int|
                        0 <= k < 7 ==> h@[k] == #[trigger] bearer_prefix()[k]);
                }
            }
        }
        h
    }
}

/// Decodes the token carried by an `Authorization` header value: strips the
/// bearer prefix and verifies the remainder against `secret` at time `now`.
pub fn decode_token(header_value: &str, secret: &str, now: u64) -> (r: Result<
    TokenClaims,
    AuthError,
>)
    ensures
        match r {
            Ok(c) => verify_model(encode_utf8(bearer_token(header_value@)), encode_utf8(secret@), now)
                == (VerifyOutcome::Valid { sub: c.sub_bytes(), iat: c.iat, exp: c.exp }),
            Err(e) => verify_model(encode_utf8(bearer_token(header_value@)), encode_utf8(secret@), now)
                == VerifyOutcome::Fail(e),
        },
{
    let tok = strip_bearer(header_value);
    verify(tok, secret, now)
}

/// The request gate. It holds the process-wide verification secret,
/// established once at startup, and decides for each request whether the
/// wrapped handler may run.
pub struct JwtValidator {
    pub secret: String,
}

impl JwtValidator {
    pub fn new(secret: String) -> (r: JwtValidator)
        ensures
            r.secret == secret,
    {
        JwtValidator { secret }
    }

    /// The admission decision for one request, from its `Authorization` header:
    /// no header is `MissingToken`; otherwise the bearer token is verified
    /// and the request may proceed exactly when verification succeeds.
    /// Rejection happens strictly before any handler runs: a caller only
    /// obtains claims to act on out of the `Ok` case.
    pub fn validate(&self, header: Option<&String>, now: u64) -> (r: Result<TokenClaims, AuthError>)
        ensures
            match header {
                None => r == Err::<TokenClaims, AuthError>(AuthError::MissingToken),
                Some(h) => match r {
                    Ok(c) => verify_model(
                        encode_utf8(bearer_token(h@)),
                        encode_utf8(self.secret@),
                        now,
                    ) == (VerifyOutcome::Valid { sub: c.sub_bytes(), iat: c.iat, exp: c.exp }),
                    Err(e) => verify_model(
                        encode_utf8(bearer_token(h@)),
                        encode_utf8(self.secret@),
                        now,
                    ) == VerifyOutcome::Fail(e),
                },
            },
    {
        match header {
            None => Err(AuthError::MissingToken),
            Some(h) => decode_token(h.as_str(), self.secret.as_str(), now),
        }
    }
}

/// Runs one protected request behind the validator: the handler runs only once
/// verification has succeeded, on the decoded claims, and its answer is
/// returned unmodified. A missing header or a failed verification
/// short-circuits: the failure is returned and the handler never runs,
/// as the `Err` cases carry no handler answer at all.
pub fn protect<R, F: FnOnce(TokenClaims) -> R>(
    validator: &JwtValidator,
    header: Option<&String>,
    now: u64,
    handler: F,
) -> (r: Result<R, AuthError>)
    requires
        forall|c: TokenClaims| call_requires(handler, (c,)),
    ensures
        r is Ok ==> header is Some && (exists|c: TokenClaims|
            verify_model(encode_utf8(bearer_token(header->Some_0@)), encode_utf8(validator.secret@), now)
                == (VerifyOutcome::Valid { sub: c.sub_bytes(), iat: c.iat, exp: c.exp })
                && #[trigger] call_ensures(handler, (c,), r->Ok_0)),
        r is Err ==> match header {
            None => r->Err_0 == AuthError::MissingToken,
            Some(h) => verify_model(encode_utf8(bearer_token(h@)), encode_utf8(validator.secret@), now)
                == VerifyOutcome::Fail(r->Err_0),
        },
{
    match validator.validate(header, now) {
        Ok(claims) => {
            let ghost c0 = claims;
            let resp = handler(claims);
            let out: Result<R, AuthError> = Ok(resp);
            proof {
                let h = header->Some_0;
                assert(exists|c: TokenClaims|
                    verify_model(
                        encode_utf8(bearer_token(h@)),
                        encode_utf8(validator.secret@),
                        now,
                    ) == (VerifyOutcome::Valid { sub: c.sub_bytes(), iat: c.iat, exp: c.exp })
                        && #[trigger] call_ensures(handler, (c,), out->Ok_0)) by {
                    assert(verify_model(
                        encode_utf8(bearer_token(h@)),
                        encode_utf8(validator.secret@),
                        now,
                    ) == (VerifyOutcome::Valid { sub: c0.sub_bytes(), iat: c0.iat, exp: c0.exp }));
                    assert(call_ensures(handler, (c0,), out->Ok_0));
                }
            }
            out
        },
        Err(e) => Err(e),
    }
}

/// The ownership check: succeeds exactly when the token's subject is the
/// targeted user id, character for character; any mismatch is `Forbidden`.
pub fn check(claims: &TokenClaims, target_user_id: &str) -> (r: Result<(), AuthError>)
    ensures
        r is Ok <==> claims.sub@ == target_user_id@,
        r is Err ==> r == Err::<(), AuthError>(AuthError::Forbidden),
{
    if str_eq(claims.sub.as_str(), target_user_id) {
        Ok(())
    } else {
        Err(AuthError::Forbidden)
    }
}

/// The whole guard on a user-scoped route: extract the bearer token, verify
/// it, and require the asserted subject to own the targeted record. Returns
/// `Ok(true)` only for the owner; every failure upstream is passed through
/// and an ownership mismatch is `Forbidden`.
pub fn user_validation(
    token: Option<&String>,
    user_id: &str,
    secret: &str,
    now: u64,
) -> (r: Result<bool, AuthError>)
    ensures
        match token {
            None => r == Err::<bool, AuthError>(AuthError::MissingToken),
            Some(h) => {
                let model = verify_model(encode_utf8(bearer_token(h@)), encode_utf8(secret@), now);
                match r {
                    Ok(b) => b && (model matches VerifyOutcome::Valid { sub, .. } && sub
                        == encode_utf8(user_id@)),
                    Err(e) => if e == AuthError::Forbidden {
                        model matches VerifyOutcome::Valid { sub, .. } && sub != encode_utf8(
                            user_id@,
                        )
                    } else {
                        model == VerifyOutcome::Fail(e)
                    },
                }
            },
        },
{
    match token {
        None => Err(AuthError::MissingToken),
        Some(h) => {
            let tok = strip_bearer(h.as_str());
            match verify(tok, secret, now) {
                Ok(claims) => {
                    if str_eq(claims.sub.as_str(), user_id) {
                        proof {
                            vstd::utf8::encode_utf8_decode_utf8(claims.sub@);
                            vstd::utf8::encode_utf8_decode_utf8(user_id@);
                        }
                        Ok(true)
                    } else {
                        proof {
                            vstd::utf8::encode_utf8_decode_utf8(claims.sub@);
                            vstd::utf8::encode_utf8_decode_utf8(user_id@);
                        }
                        Err(AuthError::Forbidden)
                    }
                },
                Err(e) => Err(e),
            }
        },
    }
}

} // verus!
