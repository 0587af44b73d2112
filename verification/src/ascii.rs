//! Conversions between character strings and their byte representation.
//!
//! The token machinery works over bytes; the public surface speaks `String`
//! and `&str`. Every byte sequence the codec produces is ASCII, where the
//! UTF-8 encoding is the byte-by-byte image of the characters.

use vstd::prelude::*;
use vstd::utf8::encode_utf8;
use vstd::utf8::is_ascii_chars;
use vstd::utf8::is_ascii_chars_encode_utf8;

verus! {

/// All bytes are ASCII.
pub open spec fn ascii_bytes(b: Seq<u8>) -> bool {
    forall|i: int| 0 <= i < b.len() ==> b[i] < 128
}

/// The characters an ASCII byte sequence spells.
pub open spec fn chars_of_bytes(b: Seq<u8>) -> Seq<char> {
    b.map_values(|x: u8| x as char)
}

/// For an ASCII character sequence, UTF-8 encoding is the byte-by-byte cast.
pub proof fn lemma_ascii_encode(s: Seq<char>)
    requires
        is_ascii_chars(s),
    ensures
        encode_utf8(s) == s.map_values(|c: char| c as u8),
        ascii_bytes(encode_utf8(s)),
        chars_of_bytes(encode_utf8(s)) == s,
{
    is_ascii_chars_encode_utf8(s);
    assert(encode_utf8(s) =~= s.map_values(|c: char| c as u8));
    assert(chars_of_bytes(encode_utf8(s)) =~= s);
}

/// ASCII bytes encode back to themselves through their characters.
pub proof fn lemma_ascii_decode(b: Seq<u8>)
    requires
        ascii_bytes(b),
    ensures
        is_ascii_chars(chars_of_bytes(b)),
        encode_utf8(chars_of_bytes(b)) == b,
{
    let s = chars_of_bytes(b);
    assert forall|i: int| 0 <= i < s.len() implies '\0' <= #[trigger] s[i] <= '\u{7f}' by {
        assert(b[i] < 128);
    }
    lemma_ascii_encode(s);
    assert(s.map_values(|c: char| c as u8) =~= b);
}

/// Turns ASCII bytes into the `String` spelling the same characters.
/// Relies on `String::from_utf8`: for bytes below 128 it succeeds and
/// decodes each byte as the character with that code.
#[verifier::external_body]
pub(crate) fn ascii_to_string(v: Vec<u8>) -> (r: String)
    requires
        ascii_bytes(v@),
    ensures
        r@ == chars_of_bytes(v@),
{
    String::from_utf8(v).unwrap_or_default()
}

/// The UTF-8 bytes of a string slice, as a vector.
pub fn str_to_bytes(s: &str) -> (r: Vec<u8>)
    ensures
        r@ == encode_utf8(s@),
{
    s.as_bytes_vec()
}

/// Character-for-character string equality.
pub fn str_eq(a: &str, b: &str) -> (r: bool)
    ensures
        r == (a@ == b@),
{
    proof {
        vstd::utf8::encode_utf8_decode_utf8(a@);
        vstd::utf8::encode_utf8_decode_utf8(b@);
    }
    let av = str_to_bytes(a);
    let bv = str_to_bytes(b);
    if av.len() != bv.len() {
        return false;
    }
    let mut i: usize = 0;
    while i < av.len()
        invariant
            i <= av@.len() == bv@.len(),
            av@ == encode_utf8(a@),
            bv@ == encode_utf8(b@),
            forall|k: int| 0 <= k < i ==> av@[k] == bv@[k],
        decreases av@.len() - i,
    {
        if av[i] != bv[i] {
            return false;
        }
        i = i + 1;
    }
    proof {
        assert(av@ =~= bv@);
    }
    true
}

} // verus!
