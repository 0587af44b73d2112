//! The password hasher: a deterministic one-way transform of a plaintext
//! password into the stored credential digest. Two digests are compared for
//! equality; equality implies a credential match.

use md5::Digest;
use md5::Md5;
use vstd::prelude::*;

verus! {

/// The MD5 digest of the password text, as 32 lowercase hex characters —
/// a function of the text alone.
pub uninterp spec fn md5_hex_of(password: Seq<char>) -> Seq<char>;

/// Relies on the `md-5` crate: the `Md5` digest of the UTF-8 bytes of the
/// input is a pure function of it, 128 bits long, and the `{:x}` rendering
/// of the digest is its 32 lowercase hex digits.
#[verifier::external_body]
pub fn encrypt_password(password: String) -> (r: String)
    ensures
        r@ == md5_hex_of(password@),
        r@.len() == 32,
{
    let mut hasher = Md5::new();
    hasher.update(password.as_bytes());
    let result = hasher.finalize();
    format!("{:x}", result)
}

} // verus!
