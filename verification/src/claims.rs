//! The claims a token asserts — subject, issued-at, expiry — and their
//! canonical document form: `{"sub":"<subject>","iat":<n>,"exp":<n>}`.
//! Serialization and parsing are verified inverse to each other, and a
//! document determines its claims uniquely.

use vstd::prelude::*;
use vstd::utf8::encode_utf8;
use crate::ascii::ascii_to_string;
use crate::ascii::lemma_ascii_decode;
use crate::decimal::dec_digits;
use crate::decimal::lemma_dec_digits_canonical;
use crate::decimal::lemma_dec_digits_injective;
use crate::decimal::parse_dec;
use crate::decimal::u64_to_dec;

verus! {

/// The decoded assertion inside a token: the caller's identity (`sub`), when
/// the token was issued (`iat`), and when it stops being valid (`exp`), both
/// in seconds since the epoch.
#[derive(Debug)]
pub struct TokenClaims {
    pub sub: String,
    pub iat: u64,
    pub exp: u64,
}

impl TokenClaims {
    /// The byte form of the subject, as it stands in the document.
    pub open spec fn sub_bytes(&self) -> Seq<u8> {
        encode_utf8(self.sub@)
    }
}

/// A byte a subject may contain: printable ASCII, excluding the quote and
/// the backslash, so the subject stands in the document unescaped.
pub open spec fn subject_byte(b: u8) -> bool {
    32 <= b < 127 && b != 34 && b != 92
}

/// A subject identifier as the codec accepts it.
pub open spec fn valid_subject(sub: Seq<u8>) -> bool {
    forall|i: int| 0 <= i < sub.len() ==> subject_byte(#[trigger] sub[i])
}

/// The bytes of `{"sub":"`.
pub open spec fn sub_frame() -> Seq<u8> {
    seq![123u8, 34, 115, 117, 98, 34, 58, 34]
}

/// The bytes of `","iat":`.
pub open spec fn iat_frame() -> Seq<u8> {
    seq![34, 44, 34, 105, 97, 116, 34, 58]
}

/// The bytes of `,"exp":`.
pub open spec fn exp_frame() -> Seq<u8> {
    seq![44, 34, 101, 120, 112, 34, 58]
}

/// The canonical claims document.
pub open spec fn json_of_claims(sub: Seq<u8>, iat: u64, exp: u64) -> Seq<u8> {
    sub_frame() + sub + iat_frame() + dec_digits(iat as nat) + exp_frame() + dec_digits(
        exp as nat,
    ) + seq![125]
}

/// Where each region of the document starts.
pub open spec fn off_iat_frame(sub: Seq<u8>) -> int {
    8 + sub.len() as int
}

pub open spec fn off_iat(sub: Seq<u8>) -> int {
    off_iat_frame(sub) + 8
}

pub open spec fn off_exp_frame(sub: Seq<u8>, iat: u64) -> int {
    off_iat(sub) + dec_digits(iat as nat).len()
}

pub open spec fn off_exp(sub: Seq<u8>, iat: u64) -> int {
    off_exp_frame(sub, iat) + 7
}

pub open spec fn off_end(sub: Seq<u8>, iat: u64, exp: u64) -> int {
    off_exp(sub, iat) + dec_digits(exp as nat).len()
}

/// The regions of a document, read off its construction.
pub proof fn lemma_json_layout(sub: Seq<u8>, iat: u64, exp: u64)
    ensures
        json_of_claims(sub, iat, exp).len() == off_end(sub, iat, exp) + 1,
        json_of_claims(sub, iat, exp).subrange(0, 8) == sub_frame(),
        json_of_claims(sub, iat, exp).subrange(8, off_iat_frame(sub)) == sub,
        json_of_claims(sub, iat, exp).subrange(off_iat_frame(sub), off_iat(sub)) == iat_frame(),
        json_of_claims(sub, iat, exp).subrange(off_iat(sub), off_exp_frame(sub, iat)) == dec_digits(
            iat as nat,
        ),
        json_of_claims(sub, iat, exp).subrange(off_exp_frame(sub, iat), off_exp(sub, iat))
            == exp_frame(),
        json_of_claims(sub, iat, exp).subrange(off_exp(sub, iat), off_end(sub, iat, exp))
            == dec_digits(exp as nat),
        json_of_claims(sub, iat, exp)[off_end(sub, iat, exp)] == 125,
{
    let j = json_of_claims(sub, iat, exp);
    assert(j.subrange(0, 8) =~= sub_frame());
    assert(j.subrange(8, off_iat_frame(sub)) =~= sub);
    assert(j.subrange(off_iat_frame(sub), off_iat(sub)) =~= iat_frame());
    assert(j.subrange(off_iat(sub), off_exp_frame(sub, iat)) =~= dec_digits(iat as nat));
    assert(j.subrange(off_exp_frame(sub, iat), off_exp(sub, iat)) =~= exp_frame());
    assert(j.subrange(off_exp(sub, iat), off_end(sub, iat, exp)) =~= dec_digits(exp as nat));
}

/// A document pins its claims down: equal documents carry equal claims.
#[verifier::rlimit(100)]
pub proof fn lemma_json_injective(s1: Seq<u8>, i1: u64, e1: u64, s2: Seq<u8>, i2: u64, e2: u64)
    requires
        valid_subject(s1),
        valid_subject(s2),
        json_of_claims(s1, i1, e1) == json_of_claims(s2, i2, e2),
    ensures
        s1 == s2,
        i1 == i2,
        e1 == e2,
{
    let j = json_of_claims(s1, i1, e1);
    lemma_json_layout(s1, i1, e1);
    lemma_json_layout(s2, i2, e2);
    lemma_dec_digits_canonical(i1 as nat);
    lemma_dec_digits_canonical(i2 as nat);
    lemma_dec_digits_canonical(e1 as nat);
    lemma_dec_digits_canonical(e2 as nat);
    // The subject ends at the first quote at or after position 8.
    assert(s1.len() == s2.len()) by {
        if s1.len() < s2.len() {
            assert(j[off_iat_frame(s1)] == iat_frame()[0]);
            assert(j[off_iat_frame(s1)] == s2[off_iat_frame(s1) - 8]);
            assert(subject_byte(s2[off_iat_frame(s1) - 8]));
        } else if s2.len() < s1.len() {
            assert(j[off_iat_frame(s2)] == iat_frame()[0]);
            assert(j[off_iat_frame(s2)] == s1[off_iat_frame(s2) - 8]);
            assert(subject_byte(s1[off_iat_frame(s2) - 8]));
        }
    }
    assert(s1 =~= s2) by {
        assert(j.subrange(8, off_iat_frame(s1)) == s1);
        assert(j.subrange(8, off_iat_frame(s2)) == s2);
    }
    // The issued-at digits end at the first non-digit after them.
    let d1 = dec_digits(i1 as nat);
    let d2 = dec_digits(i2 as nat);
    assert(d1.len() == d2.len()) by {
        if d1.len() < d2.len() {
            assert(j[off_exp_frame(s1, i1)] == exp_frame()[0]);
            assert(j[off_exp_frame(s1, i1)] == d2[off_exp_frame(s1, i1) - off_iat(s1)]);
            assert(48 <= d2[off_exp_frame(s1, i1) - off_iat(s1)] <= 57);
        } else if d2.len() < d1.len() {
            assert(j[off_exp_frame(s2, i2)] == exp_frame()[0]);
            assert(j[off_exp_frame(s2, i2)] == d1[off_exp_frame(s2, i2) - off_iat(s2)]);
            assert(48 <= d1[off_exp_frame(s2, i2) - off_iat(s2)] <= 57);
        }
    }
    assert(d1 =~= d2) by {
        assert(j.subrange(off_iat(s1), off_exp_frame(s1, i1)) == d1);
        assert(j.subrange(off_iat(s2), off_exp_frame(s2, i2)) == d2);
    }
    lemma_dec_digits_injective(i1 as nat, i2 as nat);
    // Equal total lengths then force the expiry digit runs to agree.
    let f1 = dec_digits(e1 as nat);
    let f2 = dec_digits(e2 as nat);
    assert(f1.len() == f2.len());
    assert(f1 =~= f2) by {
        assert(j.subrange(off_exp(s1, i1), off_end(s1, i1, e1)) == f1);
        assert(j.subrange(off_exp(s2, i2), off_end(s2, i2, e2)) == f2);
    }
    lemma_dec_digits_injective(e1 as nat, e2 as nat);
}

/// Writes the canonical document for the given claims.
pub fn claims_json_bytes(sub: &Vec<u8>, iat: u64, exp: u64) -> (r: Vec<u8>)
    ensures
        r@ == json_of_claims(sub@, iat, exp),
{
    let mut r: Vec<u8> = Vec::new();
    r.push(123u8);
    r.push(34);
    r.push(115);
    r.push(117);
    r.push(98);
    r.push(34);
    r.push(58);
    r.push(34);
    let ghost pre_sub = r@;
    proof {
        assert(pre_sub =~= sub_frame());
    }
    let mut t: usize = 0;
    proof {
        assert(pre_sub + sub@.subrange(0, 0) =~= pre_sub);
    }
    while t < sub.len()
        invariant
            t <= sub@.len(),
            r@ == pre_sub + sub@.subrange(0, t as int),
            pre_sub == sub_frame(),
        decreases sub@.len() - t,
    {
        r.push(sub[t]);
        proof {
            assert(r@ =~= pre_sub + sub@.subrange(0, t + 1));
        }
        t = t + 1;
    }
    proof {
        assert(sub@.subrange(0, sub@.len() as int) =~= sub@);
    }
    r.push(34);
    r.push(44);
    r.push(34);
    r.push(105);
    r.push(97);
    r.push(116);
    r.push(34);
    r.push(58);
    let ghost pre_iat = r@;
    proof {
        assert(pre_iat =~= sub_frame() + sub@ + iat_frame());
    }
    let mut iat_digits = u64_to_dec(iat);
    r.append(&mut iat_digits);
    r.push(44);
    r.push(34);
    r.push(101);
    r.push(120);
    r.push(112);
    r.push(34);
    r.push(58);
    let ghost pre_exp = r@;
    proof {
        assert(pre_exp =~= sub_frame() + sub@ + iat_frame() + dec_digits(iat as nat) + exp_frame());
    }
    let mut exp_digits = u64_to_dec(exp);
    r.append(&mut exp_digits);
    r.push(125);
    proof {
        assert(r@ =~= json_of_claims(sub@, iat, exp));
    }
    r
}

/// Parses a canonical claims document. Returns the claims exactly when the
/// input is `json_of_claims` of a valid subject and two timestamps; every
/// other byte sequence — reordered or extra fields, spaces, a non-canonical
/// number, a subject needing escapes — is rejected.
#[verifier::rlimit(100)]
pub fn parse_claims_bytes(v: &Vec<u8>) -> (r: Option<TokenClaims>)
    ensures
        match r {
            Some(c) => v@ == json_of_claims(c.sub_bytes(), c.iat, c.exp) && valid_subject(
                c.sub_bytes(),
            ),
            None => forall|sub: Seq<u8>, iat: u64, exp: u64|
                valid_subject(sub) ==> v@ != json_of_claims(sub, iat, exp),
        },
{
    let n = v.len();
    // The opening frame.
    if n < 8 || !(v[0] == 123 && v[1] == 34 && v[2] == 115 && v[3] == 117 && v[4] == 98 && v[5]
        == 34 && v[6] == 58 && v[7] == 34) {
        proof {
            assert forall|sub: Seq<u8>, iat: u64, exp: u64|
                valid_subject(sub) implies v@ != json_of_claims(sub, iat, exp) by {
                lemma_json_layout(sub, iat, exp);
                let j = json_of_claims(sub, iat, exp);
                assert(j.subrange(0, 8) == sub_frame());
                assert(j[0] == 123 && j[1] == 34 && j[2] == 115 && j[3] == 117 && j[4] == 98
                    && j[5] == 34 && j[6] == 58 && j[7] == 34);
                assert(j.len() >= 18);
            }
        }
        return None;
    }
    // The subject runs to the first quote.
    let mut j: usize = 8;
    while j < n && v[j] != 34 && 32 <= v[j] && v[j] < 127 && v[j] != 92
        invariant
            8 <= j <= n == v@.len(),
            forall|k: int| 8 <= k < j ==> subject_byte(#[trigger] v@[k]),
        decreases n - j,
    {
        j = j + 1;
    }
    proof {
        // Against any canonical document, the scan stops exactly at the
        // closing quote of the subject.
        assert forall|sub: Seq<u8>, iat: u64, exp: u64|
            valid_subject(sub) && v@ == json_of_claims(sub, iat, exp) implies j
            == off_iat_frame(sub) && v@[j as int] == 34 by {
            lemma_json_layout(sub, iat, exp);
            let q = off_iat_frame(sub);
            assert(v@[q] == iat_frame()[0]);
            assert(forall|k: int| 8 <= k < q ==> v@[k] == sub[k - 8]);
            if j < q {
                assert(subject_byte(v@[j as int]));
                assert(j < n);
            } else if j > q {
                assert(v@[q] != 34);
            }
        }
    }
    if j == n || v[j] != 34 {
        proof {
            assert forall|sub: Seq<u8>, iat: u64, exp: u64|
                valid_subject(sub) implies v@ != json_of_claims(sub, iat, exp) by {
                lemma_json_layout(sub, iat, exp);
            }
        }
        return None;
    }
    // The issued-at frame.
    if n - j < 9 || !(v[j + 1] == 44 && v[j + 2] == 34 && v[j + 3] == 105 && v[j + 4] == 97 && v[j
        + 5] == 116 && v[j + 6] == 34 && v[j + 7] == 58) {
        proof {
            assert forall|sub: Seq<u8>, iat: u64, exp: u64|
                valid_subject(sub) implies v@ != json_of_claims(sub, iat, exp) by {
                lemma_json_layout(sub, iat, exp);
                lemma_dec_digits_canonical(iat as nat);
                lemma_dec_digits_canonical(exp as nat);
                if v@ == json_of_claims(sub, iat, exp) {
                    let q = off_iat_frame(sub);
                    assert(j == q);
                    assert(forall|t: int|
                        0 <= t < 8 ==> v@[q + t] == #[trigger] iat_frame()[t]);
                    assert(v@.len() >= q + 18);
                }
            }
        }
        return None;
    }
    // The issued-at digits run to the first non-digit.
    let mut k: usize = j + 8;
    while k < n && 48 <= v[k] && v[k] <= 57
        invariant
            j + 8 <= k <= n == v@.len(),
            forall|t: int| j + 8 <= t < k ==> 48 <= #[trigger] v@[t] <= 57,
        decreases n - k,
    {
        k = k + 1;
    }
    proof {
        assert forall|sub: Seq<u8>, iat: u64, exp: u64|
            valid_subject(sub) && v@ == json_of_claims(sub, iat, exp) && j == off_iat_frame(sub)
            implies k == off_exp_frame(sub, iat) && v@[k as int] == 44 by {
            lemma_json_layout(sub, iat, exp);
            lemma_dec_digits_canonical(iat as nat);
            let q = off_exp_frame(sub, iat);
            assert(v@[q] == exp_frame()[0]);
            assert(forall|t: int|
                off_iat(sub) <= t < q ==> 48 <= #[trigger] v@[t] <= 57) by {
                assert(forall|t: int|
                    off_iat(sub) <= t < q ==> v@[t] == dec_digits(iat as nat)[t - off_iat(
                        sub,
                    )]);
            }
            if k < q {
                assert(48 <= v@[k as int] <= 57);
                assert(k < n);
            } else if k > q {
                assert(48 <= v@[q] <= 57);
            }
        }
    }
    if k == n || v[k] != 44 {
        proof {
            assert forall|sub: Seq<u8>, iat: u64, exp: u64|
                valid_subject(sub) implies v@ != json_of_claims(sub, iat, exp) by {
                lemma_json_layout(sub, iat, exp);
            }
        }
        return None;
    }
    let iat_parsed = parse_dec(v, j + 8, k);
    let iat: u64;
    match iat_parsed {
        Some(x) => {
            iat = x;
        },
        None => {
            proof {
                assert forall|sub: Seq<u8>, iat2: u64, exp: u64|
                    valid_subject(sub) implies v@ != json_of_claims(sub, iat2, exp) by {
                    if v@ == json_of_claims(sub, iat2, exp) {
                        lemma_json_layout(sub, iat2, exp);
                        assert(v@.subrange(j + 8, k as int) == dec_digits(iat2 as nat));
                    }
                }
            }
            return None;
        },
    }
    // The expiry frame.
    if n - k < 8 || !(v[k + 1] == 34 && v[k + 2] == 101 && v[k + 3] == 120 && v[k + 4] == 112 && v[k
        + 5] == 34 && v[k + 6] == 58) {
        proof {
            assert forall|sub: Seq<u8>, iat2: u64, exp: u64|
                valid_subject(sub) implies v@ != json_of_claims(sub, iat2, exp) by {
                lemma_json_layout(sub, iat2, exp);
                lemma_dec_digits_canonical(exp as nat);
                if v@ == json_of_claims(sub, iat2, exp) {
                    let q = off_exp_frame(sub, iat2);
                    assert(k == q);
                    assert(forall|t: int|
                        0 <= t < 7 ==> v@[q + t] == #[trigger] exp_frame()[t]);
                    assert(v@.len() >= q + 9);
                }
            }
        }
        return None;
    }
    // The expiry digits run to the first non-digit.
    let mut m: usize = k + 7;
    while m < n && 48 <= v[m] && v[m] <= 57
        invariant
            k + 7 <= m <= n == v@.len(),
            forall|t: int| k + 7 <= t < m ==> 48 <= #[trigger] v@[t] <= 57,
        decreases n - m,
    {
        m = m + 1;
    }
    proof {
        assert forall|sub: Seq<u8>, iat2: u64, exp: u64|
            valid_subject(sub) && v@ == json_of_claims(sub, iat2, exp) && k == off_exp_frame(
                sub,
                iat2,
            ) implies m == off_end(sub, iat2, exp) && v@[m as int] == 125 by {
            lemma_json_layout(sub, iat2, exp);
            lemma_dec_digits_canonical(exp as nat);
            let q = off_end(sub, iat2, exp);
            assert(v@[q] == 125);
            assert(forall|t: int|
                off_exp(sub, iat2) <= t < q ==> 48 <= #[trigger] v@[t] <= 57) by {
                assert(forall|t: int|
                    off_exp(sub, iat2) <= t < q ==> v@[t] == dec_digits(exp as nat)[t - off_exp(
                        sub,
                        iat2,
                    )]);
            }
            if m < q {
                assert(48 <= v@[m as int] <= 57);
                assert(m < n);
            } else if m > q {
                assert(48 <= v@[q] <= 57);
            }
        }
    }
    if m == n || !(v[m] == 125 && m + 1 == n) {
        proof {
            assert forall|sub: Seq<u8>, iat2: u64, exp: u64|
                valid_subject(sub) implies v@ != json_of_claims(sub, iat2, exp) by {
                if v@ == json_of_claims(sub, iat2, exp) {
                    lemma_json_layout(sub, iat2, exp);
                }
            }
        }
        return None;
    }
    let exp_parsed = parse_dec(v, k + 7, m);
    let exp: u64;
    match exp_parsed {
        Some(x) => {
            exp = x;
        },
        None => {
            proof {
                assert forall|sub: Seq<u8>, iat2: u64, exp2: u64|
                    valid_subject(sub) implies v@ != json_of_claims(sub, iat2, exp2) by {
                    if v@ == json_of_claims(sub, iat2, exp2) {
                        lemma_json_layout(sub, iat2, exp2);
                        assert(v@.subrange(k + 7, m as int) == dec_digits(exp2 as nat));
                    }
                }
            }
            return None;
        },
    }
    // Assemble: the checks above spell the document exactly.
    let mut sub_vec: Vec<u8> = Vec::new();
    let mut t: usize = 8;
    while t < j
        invariant
            8 <= t <= j <= v@.len(),
            sub_vec@ == v@.subrange(8, t as int),
        decreases j - t,
    {
        sub_vec.push(v[t]);
        proof {
            assert(sub_vec@ =~= v@.subrange(8, t + 1));
        }
        t = t + 1;
    }
    let ghost sub = sub_vec@;
    proof {
        assert(sub == v@.subrange(8, j as int));
        assert forall|i: int| 0 <= i < sub.len() implies subject_byte(#[trigger] sub[i]) by {
            assert(sub[i] == v@[8 + i]);
        }
        assert(v@ =~= json_of_claims(sub, iat, exp)) by {
            assert(v@.subrange(j + 8, k as int) == dec_digits(iat as nat));
            assert(v@.subrange(k + 7, m as int) == dec_digits(exp as nat));
            lemma_json_layout(sub, iat, exp);
        }
        lemma_ascii_decode(sub);
    }
    let sub_string = ascii_to_string(sub_vec);
    let c = TokenClaims { sub: sub_string, iat, exp };
    proof {
        assert(c.sub_bytes() == sub);
    }
    Some(c)
}

} // verus!
