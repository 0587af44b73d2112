//! The signature primitive a token is sealed with.

use vstd::prelude::*;

verus! {

/// The HMAC-SHA256 tag of `msg` under `secret`, written in the unpadded
/// URL-safe base64 alphabet. A function of its two arguments alone.
pub uninterp spec fn hs256_of(secret: Seq<u8>, msg: Seq<u8>) -> Seq<u8>;

/// Relies on `jsonwebtoken::crypto::sign` with `Algorithm::HS256`: it
/// computes the HMAC-SHA256 tag of the message under the secret — a
/// deterministic function of the two — and returns its unpadded URL-safe
/// base64 text, which is ASCII. For the HMAC family `sign` always succeeds.
#[verifier::external_body]
pub(crate) fn hs256_sign(message: &Vec<u8>, secret: &Vec<u8>) -> (r: Vec<u8>)
    ensures
        r@ == hs256_of(secret@, message@),
        forall|i: int| 0 <= i < r@.len() ==> r@[i] < 128,
{
    let key = jsonwebtoken::EncodingKey::from_secret(secret.as_slice());
    let sig = jsonwebtoken::crypto::sign(message.as_slice(), &key, jsonwebtoken::Algorithm::HS256)
        .expect("HMAC signing does not fail");
    sig.into_bytes()
}

} // verus!
