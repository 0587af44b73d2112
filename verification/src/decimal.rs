//! Canonical decimal rendering and parsing of unsigned 64-bit timestamps,
//! as they appear inside the claims document.

use vstd::prelude::*;

verus! {

/// The canonical decimal digits of `n` (ASCII, no leading zeros, `"0"` for 0).
pub open spec fn dec_digits(n: nat) -> Seq<u8>
    decreases n,
{
    if n < 10 {
        seq![(48 + n) as u8]
    } else {
        dec_digits(n / 10).push((48 + n % 10) as u8)
    }
}

/// A digit run that parses back to a unique value: nonempty, all digits,
/// and no leading zero unless it is exactly `"0"`.
pub open spec fn canonical_dec(s: Seq<u8>) -> bool {
    &&& s.len() > 0
    &&& forall|i: int| 0 <= i < s.len() ==> 48 <= #[trigger] s[i] <= 57
    &&& (s.len() > 1 ==> s[0] != 48)
}

/// The number a digit run denotes.
pub open spec fn dec_val(s: Seq<u8>) -> nat
    decreases s.len(),
{
    if s.len() == 0 {
        0
    } else {
        (dec_val(s.drop_last()) * 10 + (s.last() - 48)) as nat
    }
}

/// Rendering is canonical and denotes the rendered value.
pub proof fn lemma_dec_digits_canonical(n: nat)
    ensures
        canonical_dec(dec_digits(n)),
        dec_val(dec_digits(n)) == n,
        dec_digits(n)[0] != 48 || n < 10,
    decreases n,
{
    if n < 10 {
        let s = dec_digits(n);
        assert(s.drop_last() =~= Seq::<u8>::empty());
        assert(s.len() == 1 && s.last() == (48 + n) as u8);
        assert(dec_val(s.drop_last()) == 0);
        assert(dec_val(s) == (dec_val(s.drop_last()) * 10 + (s.last() - 48)) as nat);
    } else {
        lemma_dec_digits_canonical(n / 10);
        let s = dec_digits(n);
        let p = dec_digits(n / 10);
        assert(s == p.push((48 + n % 10) as u8));
        assert(s.drop_last() =~= p);
        assert(dec_val(s) == dec_val(p) * 10 + n % 10);
        assert(n / 10 * 10 + n % 10 == n) by (nonlinear_arith);
        assert(s[0] == p[0]);
        assert(p[0] != 48) by {
            if n / 10 >= 10 {
            } else {
                assert(n / 10 >= 1);
            }
        }
    }
}

/// A canonical digit run is the rendering of its value: rendering and
/// denotation are inverse, so equal runs mean equal values and conversely.
pub proof fn lemma_canonical_dec_digits(s: Seq<u8>)
    requires
        canonical_dec(s),
    ensures
        dec_digits(dec_val(s)) == s,
    decreases s.len(),
{
    if s.len() == 1 {
        assert(dec_val(s) == dec_val(s.drop_last()) * 10 + (s.last() - 48));
        assert(s.drop_last().len() == 0);
        assert(dec_val(s) == s[0] - 48);
        assert(dec_digits(dec_val(s)) =~= s);
    } else {
        let p = s.drop_last();
        assert(canonical_dec(p)) by {
            assert(forall|i: int| 0 <= i < p.len() ==> 48 <= #[trigger] p[i] <= 57);
        }
        lemma_canonical_dec_digits(p);
        let n = dec_val(s);
        let d = (s.last() - 48) as nat;
        assert(n == dec_val(p) * 10 + d);
        assert(n / 10 == dec_val(p) && n % 10 == d) by (nonlinear_arith)
            requires
                n == dec_val(p) * 10 + d && d < 10,
        ;
        assert(dec_val(p) >= 1) by {
            if dec_val(p) == 0 {
                lemma_canonical_dec_digits(p);
                assert(dec_digits(0nat) == seq![48u8]);
                assert(p[0] == 48);
            }
        }
        assert(n >= 10);
        assert(dec_digits(n) == dec_digits(dec_val(p)).push((48 + d) as u8));
        assert(dec_digits(n) =~= s);
    }
}

/// Values agree exactly when their renderings agree.
pub proof fn lemma_dec_digits_injective(a: nat, b: nat)
    requires
        dec_digits(a) == dec_digits(b),
    ensures
        a == b,
{
    lemma_dec_digits_canonical(a);
    lemma_dec_digits_canonical(b);
}

/// Renders `n` in canonical decimal.
pub fn u64_to_dec(n: u64) -> (r: Vec<u8>)
    ensures
        r@ == dec_digits(n as nat),
    decreases n,
{
    if n < 10 {
        let d: u8 = 48 + (n as u8);
        let mut r: Vec<u8> = Vec::new();
        r.push(d);
        proof {
            assert(r@ =~= dec_digits(n as nat));
        }
        r
    } else {
        let mut r = u64_to_dec(n / 10);
        r.push(48 + ((n % 10) as u8));
        proof {
            assert(r@ =~= dec_digits(n as nat));
        }
        r
    }
}

/// Parses the digit run `v[from..to]` as a canonical decimal `u64`.
/// Returns the value exactly when the run is the canonical rendering of a
/// `u64`; anything else (empty, a stray character, a leading zero, a value
/// past `u64::MAX`) is rejected.
pub fn parse_dec(v: &Vec<u8>, from: usize, to: usize) -> (r: Option<u64>)
    requires
        from <= to <= v@.len(),
    ensures
        match r {
            Some(n) => v@.subrange(from as int, to as int) == dec_digits(n as nat),
            None => forall|n: u64| v@.subrange(from as int, to as int) != dec_digits(n as nat),
        },
{
    let ghost s = v@.subrange(from as int, to as int);
    if from == to {
        proof {
            assert forall|n: u64| s != dec_digits(n as nat) by {
                lemma_dec_digits_canonical(n as nat);
            }
        }
        return None;
    }
    if to - from > 1 && v[from] == 48 {
        proof {
            assert forall|n: u64| s != dec_digits(n as nat) by {
                lemma_dec_digits_canonical(n as nat);
                if s == dec_digits(n as nat) {
                    assert(s[0] == 48 && s.len() > 1);
                }
            }
        }
        return None;
    }
    let mut acc: u64 = 0;
    let mut i: usize = from;
    while i < to
        invariant
            from <= i <= to <= v@.len(),
            s == v@.subrange(from as int, to as int),
            to > from,
            to - from > 1 ==> v@[from as int] != 48,
            acc as nat == dec_val(s.subrange(0, i - from)),
            forall|j: int| from <= j < i ==> 48 <= #[trigger] v@[j] <= 57,
        decreases to - i,
    {
        let b = v[i];
        if b < 48 || b > 57 {
            proof {
                assert(s[i - from] == b);
                assert forall|n: u64| s != dec_digits(n as nat) by {
                    lemma_dec_digits_canonical(n as nat);
                }
            }
            return None;
        }
        let d: u64 = (b - 48) as u64;
        if acc > (u64::MAX - d) / 10 {
            proof {
                let p = s.subrange(0, i + 1 - from);
                assert(p.drop_last() =~= s.subrange(0, i - from));
                assert(p.last() == b);
                assert(dec_val(p) == acc * 10 + d);
                assert(acc * 10 + d > u64::MAX) by (nonlinear_arith)
                    requires
                        acc > (u64::MAX - d) / 10 && d <= 9,
                ;
                assert forall|n: u64| s != dec_digits(n as nat) by {
                    if s == dec_digits(n as nat) {
                        lemma_dec_digits_canonical(n as nat);
                        lemma_dec_val_prefix_monotonic(s, i + 1 - from);
                        assert(dec_val(p) <= dec_val(s));
                    }
                }
            }
            return None;
        }
        proof {
            let p = s.subrange(0, i + 1 - from);
            assert(p.drop_last() =~= s.subrange(0, i - from));
            assert(p.last() == b);
            assert(acc * 10 + d <= u64::MAX) by (nonlinear_arith)
                requires
                    acc <= (u64::MAX - d) / 10 && d <= 9,
            ;
        }
        acc = acc * 10 + d;
        i = i + 1;
    }
    proof {
        assert(s.subrange(0, to - from) =~= s);
        assert(canonical_dec(s)) by {
            assert(forall|j: int| 0 <= j < s.len() ==> 48 <= #[trigger] s[j] <= 57);
        }
        lemma_canonical_dec_digits(s);
    }
    Some(acc)
}

/// The value of a digit run is at least the value of any of its prefixes.
proof fn lemma_dec_val_prefix_monotonic(s: Seq<u8>, k: int)
    requires
        0 <= k <= s.len(),
        forall|i: int| 0 <= i < s.len() ==> 48 <= #[trigger] s[i] <= 57,
    ensures
        dec_val(s.subrange(0, k)) <= dec_val(s),
    decreases s.len() - k,
{
    if k == s.len() {
        assert(s.subrange(0, k) =~= s);
    } else {
        lemma_dec_val_prefix_monotonic(s, k + 1);
        let p = s.subrange(0, k);
        let q = s.subrange(0, k + 1);
        assert(q.drop_last() =~= p);
        assert(dec_val(q) == dec_val(p) * 10 + (q.last() - 48));
        assert(dec_val(p) <= dec_val(p) * 10) by (nonlinear_arith);
    }
}

} // verus!
