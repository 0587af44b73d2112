//! The token codec: issues and verifies signed, time-bound identity tokens.
//!
//! A token is `b64url(header) "." b64url(claims document) "." tag`, where the
//! tag is the HMAC-SHA256 of everything before the second dot, under the
//! process-wide secret, and the header is the fixed `{"typ":"JWT","alg":"HS256"}`.
//! A token is valid exactly when it is, byte for byte, `token_of` some claims
//! under the verifier's secret and the current time is strictly before its
//! expiry.

use vstd::prelude::*;
use vstd::utf8::encode_utf8;
use crate::ascii::ascii_to_string;
use crate::ascii::chars_of_bytes;
use crate::ascii::lemma_ascii_decode;
use crate::ascii::str_to_bytes;
use crate::base64url::b64_val;
use crate::base64url::b64url;
use crate::base64url::b64url_decode;
use crate::base64url::b64url_decode_x;
use crate::base64url::b64url_encode;
use crate::base64url::lemma_b64url_alphabet;
use crate::base64url::lemma_decode_encode;
use crate::base64url::lemma_encode_decode;
use crate::claims::json_of_claims;
use crate::claims::lemma_json_injective;
use crate::claims::parse_claims_bytes;
use crate::claims::claims_json_bytes;
use crate::claims::valid_subject;
use crate::claims::TokenClaims;
use crate::errors::AuthError;
use crate::signature::hs256_of;
use crate::signature::hs256_sign;

verus! {

/// The bytes of the fixed header `{"typ":"JWT","alg":"HS256"}`.
pub open spec fn header_json() -> Seq<u8> {
    seq![
        123u8, 34, 116, 121, 112, 34, 58, 34, 74, 87, 84, 34, 44, 34, 97, 108, 103, 34, 58, 34,
        72, 83, 50, 53, 54, 34, 125,
    ]
}

/// Where the first dot of any well-formed token stands.
pub open spec fn header_end() -> int {
    b64url(header_json()).len() as int
}

/// The encoded claims part of a token.
pub open spec fn payload_b64(sub: Seq<u8>, iat: u64, exp: u64) -> Seq<u8> {
    b64url(json_of_claims(sub, iat, exp))
}

/// Everything the tag signs: encoded header, a dot, encoded claims.
pub open spec fn signing_input(sub: Seq<u8>, iat: u64, exp: u64) -> Seq<u8> {
    b64url(header_json()) + seq![46u8] + payload_b64(sub, iat, exp)
}

/// A whole token for the given claims under the given secret.
pub open spec fn token_of(sub: Seq<u8>, iat: u64, exp: u64, secret: Seq<u8>) -> Seq<u8> {
    signing_input(sub, iat, exp) + seq![46u8] + hs256_of(secret, signing_input(sub, iat, exp))
}

/// Whether some claims with a valid subject seal `t` under `secret`.
pub open spec fn is_token_of(t: Seq<u8>, secret: Seq<u8>) -> bool {
    exists|sub: Seq<u8>, iat: u64, exp: u64|
        valid_subject(sub) && t == #[trigger] token_of(sub, iat, exp, secret)
}

/// What verification must yield: the unique claims sealing the token, when
/// the time is before their expiry; `Expired` past it; `InvalidToken` for
/// everything that no claims seal under this secret.
pub enum VerifyOutcome {
    Valid { sub: Seq<u8>, iat: u64, exp: u64 },
    Fail(AuthError),
}

pub open spec fn verify_model(t: Seq<u8>, secret: Seq<u8>, now: u64) -> VerifyOutcome {
    if is_token_of(t, secret) {
        let (sub, iat, exp) = choose|sub: Seq<u8>, iat: u64, exp: u64|
            valid_subject(sub) && t == #[trigger] token_of(sub, iat, exp, secret);
        if now < exp {
            VerifyOutcome::Valid { sub, iat, exp }
        } else {
            VerifyOutcome::Fail(AuthError::Expired)
        }
    } else {
        VerifyOutcome::Fail(AuthError::InvalidToken)
    }
}

/// The regions of a token, read off its construction.
pub proof fn lemma_token_layout(sub: Seq<u8>, iat: u64, exp: u64, secret: Seq<u8>)
    ensures
        ({
            let t = token_of(sub, iat, exp, secret);
            let pl = payload_b64(sub, iat, exp);
            let d2 = header_end() + 1 + pl.len();
            let sig = hs256_of(secret, signing_input(sub, iat, exp));
            &&& t.len() == d2 + 1 + sig.len()
            &&& t.subrange(0, header_end()) == b64url(header_json())
            &&& t[header_end()] == 46
            &&& t.subrange(header_end() + 1, d2) == pl
            &&& t[d2] == 46
            &&& t.subrange(d2 + 1, t.len() as int) == sig
            &&& t.subrange(0, d2) == signing_input(sub, iat, exp)
            &&& (forall|k: int| 0 <= k < header_end() ==> t[k] != 46)
            &&& (forall|k: int| header_end() < k < d2 ==> t[k] != 46)
        }),
{
    let t = token_of(sub, iat, exp, secret);
    let pl = payload_b64(sub, iat, exp);
    let d2 = header_end() + 1 + pl.len();
    let sig = hs256_of(secret, signing_input(sub, iat, exp));
    assert(t.subrange(0, header_end()) =~= b64url(header_json()));
    assert(t.subrange(header_end() + 1, d2) =~= pl);
    assert(t.subrange(d2 + 1, t.len() as int) =~= sig);
    assert(t.subrange(0, d2) =~= signing_input(sub, iat, exp));
    lemma_b64url_alphabet(header_json());
    lemma_b64url_alphabet(json_of_claims(sub, iat, exp));
    assert forall|k: int| 0 <= k < header_end() implies t[k] != 46 by {
        assert(t[k] == b64url(header_json())[k]);
        assert(b64_val(b64url(header_json())[k]) is Some);
    }
    assert forall|k: int| header_end() < k < d2 implies t[k] != 46 by {
        assert(t[k] == pl[k - (header_end() + 1)]);
        assert(b64_val(b64url(json_of_claims(sub, iat, exp))[k - (header_end() + 1)]) is Some);
    }
}

/// Two token spellings that agree byte for byte carry the same claims, and
/// their tags agree on the shared signing input.
pub proof fn lemma_token_align(
    s1: Seq<u8>,
    i1: u64,
    e1: u64,
    k1: Seq<u8>,
    s2: Seq<u8>,
    i2: u64,
    e2: u64,
    k2: Seq<u8>,
)
    requires
        valid_subject(s1),
        valid_subject(s2),
        token_of(s1, i1, e1, k1) == token_of(s2, i2, e2, k2),
    ensures
        s1 == s2,
        i1 == i2,
        e1 == e2,
        hs256_of(k1, signing_input(s1, i1, e1)) == hs256_of(k2, signing_input(s1, i1, e1)),
{
    let t = token_of(s1, i1, e1, k1);
    lemma_token_layout(s1, i1, e1, k1);
    lemma_token_layout(s2, i2, e2, k2);
    let p1 = payload_b64(s1, i1, e1);
    let p2 = payload_b64(s2, i2, e2);
    // The second dot is the first dot after the header: the payloads have
    // the same length.
    assert(p1.len() == p2.len()) by {
        let a = header_end() + 1;
        if p1.len() < p2.len() {
            assert(t[a + p1.len()] == 46);
            assert(t[a + p1.len()] != 46);
        } else if p2.len() < p1.len() {
            assert(t[a + p2.len()] == 46);
            assert(t[a + p2.len()] != 46);
        }
    }
    assert(p1 =~= p2) by {
        assert(t.subrange(header_end() + 1, header_end() + 1 + p1.len()) == p1);
        assert(t.subrange(header_end() + 1, header_end() + 1 + p2.len()) == p2);
    }
    lemma_decode_encode(json_of_claims(s1, i1, e1));
    lemma_decode_encode(json_of_claims(s2, i2, e2));
    assert(json_of_claims(s1, i1, e1) == json_of_claims(s2, i2, e2)) by {
        assert(b64url_decode(p1) == Some(json_of_claims(s1, i1, e1)));
        assert(b64url_decode(p2) == Some(json_of_claims(s2, i2, e2)));
    }
    lemma_json_injective(s1, i1, e1, s2, i2, e2);
    assert(hs256_of(k1, signing_input(s1, i1, e1)) == hs256_of(k2, signing_input(s2, i2, e2))) by {
        let d2 = header_end() + 1 + p1.len();
        assert(t.subrange(d2 + 1, t.len() as int) == hs256_of(k1, signing_input(s1, i1, e1)));
        assert(t.subrange(d2 + 1, t.len() as int) == hs256_of(k2, signing_input(s2, i2, e2)));
    }
}

/// Round trip: a token issued for some claims verifies to exactly those
/// claims at any time strictly before its expiry, and is expired at any
/// time at or past it.
pub proof fn lemma_issue_then_verify(sub: Seq<u8>, iat: u64, exp: u64, secret: Seq<u8>, now: u64)
    requires
        valid_subject(sub),
    ensures
        verify_model(token_of(sub, iat, exp, secret), secret, now) == if now < exp {
            VerifyOutcome::Valid { sub, iat, exp }
        } else {
            VerifyOutcome::Fail(AuthError::Expired)
        },
{
    let t = token_of(sub, iat, exp, secret);
    assert(is_token_of(t, secret));
    let (s2, i2, e2) = choose|s2: Seq<u8>, i2: u64, e2: u64|
        valid_subject(s2) && t == #[trigger] token_of(s2, i2, e2, secret);
    lemma_token_align(sub, iat, exp, secret, s2, i2, e2, secret);
}

/// A token sealed under one secret never verifies under another whose tag of
/// the same signing input differs (with HMAC-SHA256, any other secret in
/// practice): it is rejected as invalid, at every time.
pub proof fn lemma_verify_other_secret(
    sub: Seq<u8>,
    iat: u64,
    exp: u64,
    k1: Seq<u8>,
    k2: Seq<u8>,
    now: u64,
)
    requires
        valid_subject(sub),
    ensures
        hs256_of(k2, signing_input(sub, iat, exp)) != hs256_of(k1, signing_input(sub, iat, exp))
            ==> verify_model(token_of(sub, iat, exp, k1), k2, now) == VerifyOutcome::Fail(
            AuthError::InvalidToken,
        ),
{
    let t = token_of(sub, iat, exp, k1);
    if hs256_of(k2, signing_input(sub, iat, exp)) != hs256_of(k1, signing_input(sub, iat, exp)) {
        if is_token_of(t, k2) {
            let (s2, i2, e2) = choose|s2: Seq<u8>, i2: u64, e2: u64|
                valid_subject(s2) && t == #[trigger] token_of(s2, i2, e2, k2);
            lemma_token_align(sub, iat, exp, k1, s2, i2, e2, k2);
        }
    }
}

/// The fixed header document.
fn header_json_bytes() -> (r: Vec<u8>)
    ensures
        r@ == header_json(),
{
    let mut r: Vec<u8> = Vec::new();
    r.push(123);
    r.push(34);
    r.push(116);
    r.push(121);
    r.push(112);
    r.push(34);
    r.push(58);
    r.push(34);
    r.push(74);
    r.push(87);
    r.push(84);
    r.push(34);
    r.push(44);
    r.push(34);
    r.push(97);
    r.push(108);
    r.push(103);
    r.push(34);
    r.push(58);
    r.push(34);
    r.push(72);
    r.push(83);
    r.push(50);
    r.push(53);
    r.push(54);
    r.push(34);
    r.push(125);
    proof {
        assert(r@ =~= header_json());
    }
    r
}

/// Builds a token asserting `subject` from `now` until `ttl_minutes` minutes
/// later, sealed under `secret`.
pub fn issue(subject: &str, now: u64, ttl_minutes: u64, secret: &str) -> (token: String)
    requires
        valid_subject(encode_utf8(subject@)),
        now + ttl_minutes * 60 <= u64::MAX,
    ensures
        encode_utf8(token@) == token_of(
            encode_utf8(subject@),
            now,
            (now + ttl_minutes * 60) as u64,
            encode_utf8(secret@),
        ),
        token@ == chars_of_bytes(
            token_of(
                encode_utf8(subject@),
                now,
                (now + ttl_minutes * 60) as u64,
                encode_utf8(secret@),
            ),
        ),
{
    let sub = str_to_bytes(subject);
    let exp: u64 = now + ttl_minutes * 60;
    let doc = claims_json_bytes(&sub, now, exp);
    let header = header_json_bytes();
    let mut msg = b64url_encode(&header);
    msg.push(46);
    let mut payload = b64url_encode(&doc);
    msg.append(&mut payload);
    proof {
        assert(msg@ =~= signing_input(sub@, now, exp));
    }
    let secret_bytes = str_to_bytes(secret);
    let mut tok = msg;
    let mut sig = hs256_sign(&tok, &secret_bytes);
    tok.push(46);
    tok.append(&mut sig);
    proof {
        assert(tok@ =~= token_of(sub@, now, exp, secret_bytes@));
        lemma_token_layout(sub@, now, exp, secret_bytes@);
        lemma_b64url_alphabet(header_json());
        lemma_b64url_alphabet(json_of_claims(sub@, now, exp));
        assert forall|i: int| 0 <= i < tok@.len() implies tok@[i] < 128 by {
            let t = tok@;
            let pl = payload_b64(sub@, now, exp);
            let d2 = header_end() + 1 + pl.len();
            if i < header_end() {
                assert(t[i] == b64url(header_json())[i]);
                assert(b64_val(b64url(header_json())[i]) is Some);
            } else if i == header_end() || i == d2 {
            } else if i < d2 {
                assert(t[i] == pl[i - (header_end() + 1)]);
                assert(b64_val(b64url(json_of_claims(sub@, now, exp))[i - (header_end() + 1)])
                    is Some);
            } else {
                assert(t[i] == hs256_of(secret_bytes@, signing_input(sub@, now, exp))[i - (d2
                    + 1)]);
            }
        }
        lemma_ascii_decode(tok@);
    }
    ascii_to_string(tok)
}

/// Copies `t[lo..hi]` out.
fn vec_range(t: &Vec<u8>, lo: usize, hi: usize) -> (r: Vec<u8>)
    requires
        lo <= hi <= t@.len(),
    ensures
        r@ == t@.subrange(lo as int, hi as int),
{
    let mut r: Vec<u8> = Vec::new();
    let mut i: usize = lo;
    while i < hi
        invariant
            lo <= i <= hi <= t@.len(),
            r@ == t@.subrange(lo as int, i as int),
        decreases hi - i,
    {
        r.push(t[i]);
        proof {
            assert(r@ =~= t@.subrange(lo as int, i + 1));
        }
        i = i + 1;
    }
    r
}

/// Whether `t[lo..hi]` spells exactly `w`.
fn bytes_eq_range(t: &Vec<u8>, lo: usize, hi: usize, w: &Vec<u8>) -> (r: bool)
    requires
        lo <= hi <= t@.len(),
    ensures
        r == (t@.subrange(lo as int, hi as int) == w@),
{
    if hi - lo != w.len() {
        proof {
            assert(t@.subrange(lo as int, hi as int).len() != w@.len());
        }
        return false;
    }
    let mut i: usize = 0;
    while i < w.len()
        invariant
            i <= w@.len(),
            w@.len() == hi - lo,
            lo <= hi <= t@.len(),
            forall|k: int| 0 <= k < i ==> t@[lo + k] == w@[k],
        decreases w@.len() - i,
    {
        if t[lo + i] != w[i] {
            proof {
                assert(t@.subrange(lo as int, hi as int)[i as int] != w@[i as int]);
            }
            return false;
        }
        i = i + 1;
    }
    proof {
        assert(t@.subrange(lo as int, hi as int) =~= w@);
    }
    true
}

/// Decodes and checks a token against `secret` at time `now`: the claims
/// that seal it if it is valid; `Expired` if it is past its expiry; and
/// `InvalidToken` if it is malformed or no claims seal it under `secret`.
#[verifier::rlimit(100)]
pub fn verify(token: &str, secret: &str, now: u64) -> (r: Result<TokenClaims, AuthError>)
    ensures
        match r {
            Ok(c) => verify_model(encode_utf8(token@), encode_utf8(secret@), now)
                == (VerifyOutcome::Valid { sub: c.sub_bytes(), iat: c.iat, exp: c.exp }),
            Err(e) => verify_model(encode_utf8(token@), encode_utf8(secret@), now)
                == VerifyOutcome::Fail(e),
        },
{
    let t = str_to_bytes(token);
    let ghost sb = encode_utf8(secret@);
    let n = t.len();
    // The first dot.
    let mut d1: usize = 0;
    while d1 < n && t[d1] != 46
        invariant
            d1 <= n == t@.len(),
            forall|k: int| 0 <= k < d1 ==> t@[k] != 46,
        decreases n - d1,
    {
        d1 = d1 + 1;
    }
    proof {
        assert forall|sub: Seq<u8>, iat: u64, exp: u64|
            valid_subject(sub) && t@ == token_of(sub, iat, exp, sb) implies d1 == header_end()
            && t@[d1 as int] == 46 by {
            lemma_token_layout(sub, iat, exp, sb);
            if d1 < header_end() {
                assert(t@[d1 as int] != 46);
                assert(d1 < n);
            } else if d1 > header_end() {
                assert(t@[header_end()] != 46);
            }
        }
    }
    if d1 == n {
        proof {
            assert(!is_token_of(t@, sb)) by {
                assert forall|sub: Seq<u8>, iat: u64, exp: u64|
                    !(valid_subject(sub) && t@ == #[trigger] token_of(sub, iat, exp, sb)) by {
                    if valid_subject(sub) && t@ == token_of(sub, iat, exp, sb) {
                        lemma_token_layout(sub, iat, exp, sb);
                    }
                }
            }
        }
        return Err(AuthError::InvalidToken);
    }
    // The header part must be the one fixed header.
    let header = header_json_bytes();
    let expected_header = b64url_encode(&header);
    if !bytes_eq_range(&t, 0, d1, &expected_header) {
        proof {
            assert(!is_token_of(t@, sb)) by {
                assert forall|sub: Seq<u8>, iat: u64, exp: u64|
                    !(valid_subject(sub) && t@ == #[trigger] token_of(sub, iat, exp, sb)) by {
                    if valid_subject(sub) && t@ == token_of(sub, iat, exp, sb) {
                        lemma_token_layout(sub, iat, exp, sb);
                        assert(t@.subrange(0, d1 as int) == b64url(header_json()));
                    }
                }
            }
        }
        return Err(AuthError::InvalidToken);
    }
    // The second dot.
    let mut d2: usize = d1 + 1;
    while d2 < n && t[d2] != 46
        invariant
            d1 + 1 <= d2 <= n == t@.len(),
            forall|k: int| d1 < k < d2 ==> t@[k] != 46,
        decreases n - d2,
    {
        d2 = d2 + 1;
    }
    proof {
        assert forall|sub: Seq<u8>, iat: u64, exp: u64|
            valid_subject(sub) && t@ == token_of(sub, iat, exp, sb) implies d2 == header_end() + 1
            + payload_b64(sub, iat, exp).len() && t@[d2 as int] == 46 by {
            lemma_token_layout(sub, iat, exp, sb);
            let q = header_end() + 1 + payload_b64(sub, iat, exp).len();
            if d2 < q {
                assert(t@[d2 as int] != 46);
                assert(d2 < n);
            } else if d2 > q {
                assert(t@[q] != 46);
            }
        }
    }
    if d2 == n {
        proof {
            assert(!is_token_of(t@, sb)) by {
                assert forall|sub: Seq<u8>, iat: u64, exp: u64|
                    !(valid_subject(sub) && t@ == #[trigger] token_of(sub, iat, exp, sb)) by {
                    if valid_subject(sub) && t@ == token_of(sub, iat, exp, sb) {
                        lemma_token_layout(sub, iat, exp, sb);
                    }
                }
            }
        }
        return Err(AuthError::InvalidToken);
    }
    // Decode the claims part.
    let payload = vec_range(&t, d1 + 1, d2);
    let doc = match b64url_decode_x(&payload) {
        Some(doc) => doc,
        None => {
            proof {
                assert(!is_token_of(t@, sb)) by {
                    assert forall|sub: Seq<u8>, iat: u64, exp: u64|
                        !(valid_subject(sub) && t@ == #[trigger] token_of(sub, iat, exp, sb)) by {
                        if valid_subject(sub) && t@ == token_of(sub, iat, exp, sb) {
                            lemma_token_layout(sub, iat, exp, sb);
                            assert(payload@ == payload_b64(sub, iat, exp));
                            lemma_decode_encode(json_of_claims(sub, iat, exp));
                        }
                    }
                }
            }
            return Err(AuthError::InvalidToken);
        },
    };
    // Parse the claims document.
    let claims = match parse_claims_bytes(&doc) {
        Some(c) => c,
        None => {
            proof {
                assert(!is_token_of(t@, sb)) by {
                    assert forall|sub: Seq<u8>, iat: u64, exp: u64|
                        !(valid_subject(sub) && t@ == #[trigger] token_of(sub, iat, exp, sb)) by {
                        if valid_subject(sub) && t@ == token_of(sub, iat, exp, sb) {
                            lemma_token_layout(sub, iat, exp, sb);
                            assert(payload@ == payload_b64(sub, iat, exp));
                            lemma_decode_encode(json_of_claims(sub, iat, exp));
                            assert(doc@ == json_of_claims(sub, iat, exp));
                        }
                    }
                }
            }
            return Err(AuthError::InvalidToken);
        },
    };
    // Check the tag over everything before the second dot.
    let msg = vec_range(&t, 0, d2);
    let secret_bytes = str_to_bytes(secret);
    let expected_sig = hs256_sign(&msg, &secret_bytes);
    if !bytes_eq_range(&t, d2 + 1, n, &expected_sig) {
        proof {
            assert(!is_token_of(t@, sb)) by {
                assert forall|sub: Seq<u8>, iat: u64, exp: u64|
                    !(valid_subject(sub) && t@ == #[trigger] token_of(sub, iat, exp, sb)) by {
                    if valid_subject(sub) && t@ == token_of(sub, iat, exp, sb) {
                        lemma_token_layout(sub, iat, exp, sb);
                        assert(msg@ == signing_input(sub, iat, exp));
                        assert(t@.subrange(d2 + 1, n as int) == hs256_of(sb, signing_input(sub,
                            iat, exp)));
                    }
                }
            }
        }
        return Err(AuthError::InvalidToken);
    }
    // The token is, byte for byte, `token_of` the parsed claims.
    proof {
        assert(msg@ == signing_input(claims.sub_bytes(), claims.iat, claims.exp)) by {
            assert(doc@ == json_of_claims(claims.sub_bytes(), claims.iat, claims.exp));
            lemma_encode_decode(payload@);
            assert(payload@ == b64url(doc@));
            assert(t@.subrange(0, d1 as int) == b64url(header_json()));
            assert(msg@ =~= t@.subrange(0, d1 as int) + seq![46u8] + payload@);
        }
        assert(t@ =~= token_of(claims.sub_bytes(), claims.iat, claims.exp, sb)) by {
            assert(t@.subrange(d2 + 1, n as int) == hs256_of(sb, msg@));
            assert(t@[d1 as int] == 46 && t@[d2 as int] == 46);
        }
        assert(is_token_of(t@, sb));
        let (s2, i2, e2) = choose|s2: Seq<u8>, i2: u64, e2: u64|
            valid_subject(s2) && t@ == #[trigger] token_of(s2, i2, e2, sb);
        lemma_token_align(claims.sub_bytes(), claims.iat, claims.exp, sb, s2, i2, e2, sb);
    }
    if now < claims.exp {
        Ok(claims)
    } else {
        Err(AuthError::Expired)
    }
}

} // verus!
