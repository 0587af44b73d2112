//! The URL-safe, unpadded base64 alphabet in which both signed-over parts of
//! a token are written. Encoding and decoding are defined here and verified
//! to be mutually inverse; decoding accepts exactly the canonical encodings.

use vstd::prelude::*;

verus! {

/// The alphabet: sextet `v` (below 64) as its ASCII byte.
pub open spec fn b64_char(v: u8) -> u8
    recommends
        v < 64,
{
    if v < 26 {
        (65 + v) as u8
    } else if v < 52 {
        (97 + (v - 26)) as u8
    } else if v < 62 {
        (48 + (v - 52)) as u8
    } else if v == 62 {
        45
    } else {
        95
    }
}

/// The inverse alphabet: the sextet an ASCII byte stands for, if any.
pub open spec fn b64_val(b: u8) -> Option<u8> {
    if 65 <= b <= 90 {
        Some((b - 65) as u8)
    } else if 97 <= b <= 122 {
        Some((26 + (b - 97)) as u8)
    } else if 48 <= b <= 57 {
        Some((52 + (b - 48)) as u8)
    } else if b == 45 {
        Some(62)
    } else if b == 95 {
        Some(63)
    } else {
        None
    }
}

/// Reading a written sextet gives the sextet back.
pub proof fn lemma_char_val(v: u8)
    requires
        v < 64,
    ensures
        b64_val(b64_char(v)) == Some(v),
{
}

/// A byte in the alphabet is the writing of the sextet it stands for.
pub proof fn lemma_val_char(b: u8)
    requires
        b64_val(b) is Some,
    ensures
        b64_val(b)->Some_0 < 64,
        b64_char(b64_val(b)->Some_0) == b,
{
}

/// One full group: three bytes as four alphabet bytes.
pub open spec fn enc3(b0: u8, b1: u8, b2: u8) -> Seq<u8> {
    seq![
        b64_char(b0 >> 2),
        b64_char(((b0 & 3) << 4) | (b1 >> 4)),
        b64_char(((b1 & 15) << 2) | (b2 >> 6)),
        b64_char(b2 & 63),
    ]
}

/// The canonical unpadded URL-safe base64 encoding of a byte sequence.
pub open spec fn b64url(b: Seq<u8>) -> Seq<u8>
    decreases b.len(),
{
    if b.len() == 0 {
        Seq::empty()
    } else if b.len() == 1 {
        seq![b64_char(b[0] >> 2), b64_char((b[0] & 3) << 4)]
    } else if b.len() == 2 {
        seq![
            b64_char(b[0] >> 2),
            b64_char(((b[0] & 3) << 4) | (b[1] >> 4)),
            b64_char((b[1] & 15) << 2),
        ]
    } else {
        enc3(b[0], b[1], b[2]) + b64url(b.skip(3))
    }
}

/// One full group back: four sextets as three bytes.
pub open spec fn dec4(v0: u8, v1: u8, v2: u8, v3: u8) -> Seq<u8> {
    seq![(v0 << 2) | (v1 >> 4), ((v1 & 15) << 4) | (v2 >> 2), ((v2 & 3) << 6) | v3]
}

/// Decodes a byte sequence, accepting exactly the canonical encodings:
/// a length of one more than a multiple of four is malformed, and the unused
/// low bits of a final short group must be zero.
pub open spec fn b64url_decode(s: Seq<u8>) -> Option<Seq<u8>>
    decreases s.len(),
{
    if s.len() == 0 {
        Some(Seq::empty())
    } else if s.len() == 1 {
        None
    } else if s.len() == 2 {
        match (b64_val(s[0]), b64_val(s[1])) {
            (Some(v0), Some(v1)) => if v1 & 15 == 0 {
                Some(seq![(v0 << 2) | (v1 >> 4)])
            } else {
                None
            },
            _ => None,
        }
    } else if s.len() == 3 {
        match (b64_val(s[0]), b64_val(s[1]), b64_val(s[2])) {
            (Some(v0), Some(v1), Some(v2)) => if v2 & 3 == 0 {
                Some(seq![(v0 << 2) | (v1 >> 4), ((v1 & 15) << 4) | (v2 >> 2)])
            } else {
                None
            },
            _ => None,
        }
    } else {
        match (b64_val(s[0]), b64_val(s[1]), b64_val(s[2]), b64_val(s[3])) {
            (Some(v0), Some(v1), Some(v2), Some(v3)) => match b64url_decode(s.skip(4)) {
                Some(rest) => Some(dec4(v0, v1, v2, v3) + rest),
                None => None,
            },
            _ => None,
        }
    }
}

/// Every byte of an encoding lies in the alphabet; in particular it is
/// ASCII and is never a dot.
pub proof fn lemma_b64url_alphabet(b: Seq<u8>)
    ensures
        forall|i: int|
            0 <= i < b64url(b).len() ==> {
                &&& (#[trigger] b64_val(b64url(b)[i])) is Some
                &&& b64url(b)[i] < 128
                &&& b64url(b)[i] != 46
            },
    decreases b.len(),
{
    if b.len() == 0 {
    } else if b.len() == 1 {
        let b0 = b[0];
        assert((b0 >> 2) < 64 && ((b0 & 3) << 4) < 64) by (bit_vector);
        assert forall|i: int| 0 <= i < b64url(b).len() implies {
            &&& (#[trigger] b64_val(b64url(b)[i])) is Some
            &&& b64url(b)[i] < 128
            &&& b64url(b)[i] != 46
        } by {
            lemma_char_val(b64_char_arg(b, i));
        }
    } else if b.len() == 2 {
        let b0 = b[0];
        let b1 = b[1];
        assert((b0 >> 2) < 64 && (((b0 & 3) << 4) | (b1 >> 4)) < 64 && ((b1 & 15) << 2) < 64)
            by (bit_vector);
        assert forall|i: int| 0 <= i < b64url(b).len() implies {
            &&& (#[trigger] b64_val(b64url(b)[i])) is Some
            &&& b64url(b)[i] < 128
            &&& b64url(b)[i] != 46
        } by {
            lemma_char_val(b64_char_arg(b, i));
        }
    } else {
        let b0 = b[0];
        let b1 = b[1];
        let b2 = b[2];
        assert((b0 >> 2) < 64 && (((b0 & 3) << 4) | (b1 >> 4)) < 64 && (((b1 & 15) << 2) | (b2
            >> 6)) < 64 && (b2 & 63) < 64) by (bit_vector);
        lemma_b64url_alphabet(b.skip(3));
        assert forall|i: int| 0 <= i < b64url(b).len() implies {
            &&& (#[trigger] b64_val(b64url(b)[i])) is Some
            &&& b64url(b)[i] < 128
            &&& b64url(b)[i] != 46
        } by {
            if i < 4 {
                lemma_char_val(b64_char_arg(b, i));
            } else {
                assert(b64url(b)[i] == b64url(b.skip(3))[i - 4]);
                assert(b64_val(b64url(b.skip(3))[i - 4]) is Some);
            }
        }
    }
}

/// The sextet that position `i` of `b64url(b)` writes, for the non-recursive
/// positions.
pub open spec fn b64_char_arg(b: Seq<u8>, i: int) -> u8 {
    if b.len() == 1 {
        if i == 0 {
            b[0] >> 2
        } else {
            (b[0] & 3) << 4
        }
    } else if b.len() == 2 {
        if i == 0 {
            b[0] >> 2
        } else if i == 1 {
            ((b[0] & 3) << 4) | (b[1] >> 4)
        } else {
            (b[1] & 15) << 2
        }
    } else {
        if i == 0 {
            b[0] >> 2
        } else if i == 1 {
            ((b[0] & 3) << 4) | (b[1] >> 4)
        } else if i == 2 {
            ((b[1] & 15) << 2) | (b[2] >> 6)
        } else {
            b[2] & 63
        }
    }
}

/// The length of an encoding.
pub proof fn lemma_b64url_len(b: Seq<u8>)
    ensures
        b64url(b).len() == 4 * (b.len() / 3) + (
        if b.len() % 3 == 0 {
            0int
        } else {
            b.len() % 3 + 1int
        }),
    decreases b.len(),
{
    if b.len() <= 2 {
    } else {
        lemma_b64url_len(b.skip(3));
    }
}

/// Encoding distributes over splitting at a multiple of three bytes.
pub proof fn lemma_b64url_append(p: Seq<u8>, q: Seq<u8>)
    requires
        p.len() % 3 == 0,
    ensures
        b64url(p + q) == b64url(p) + b64url(q),
    decreases p.len(),
{
    if p.len() == 0 {
        assert(p + q =~= q);
        assert(b64url(p) + b64url(q) =~= b64url(q));
    } else {
        let t = p + q;
        assert(t.len() >= 3);
        assert(t[0] == p[0] && t[1] == p[1] && t[2] == p[2]);
        assert(t.skip(3) =~= p.skip(3) + q);
        lemma_b64url_append(p.skip(3), q);
        assert(b64url(t) == enc3(p[0], p[1], p[2]) + (b64url(p.skip(3)) + b64url(q)));
        assert(enc3(p[0], p[1], p[2]) + (b64url(p.skip(3)) + b64url(q)) =~= (enc3(
            p[0],
            p[1],
            p[2],
        ) + b64url(p.skip(3))) + b64url(q));
    }
}

/// Decoding an encoding gives the original bytes back.
pub proof fn lemma_decode_encode(b: Seq<u8>)
    ensures
        b64url_decode(b64url(b)) == Some(b),
    decreases b.len(),
{
    if b.len() == 0 {
        assert(b =~= Seq::<u8>::empty());
    } else if b.len() == 1 {
        let b0 = b[0];
        let v0 = b0 >> 2;
        let v1 = (b0 & 3) << 4;
        assert(v0 < 64 && v1 < 64 && v1 & 15 == 0 && ((v0 << 2) | (v1 >> 4)) == b0) by (bit_vector)
            requires
                v0 == b0 >> 2 && v1 == (b0 & 3) << 4,
        ;
        lemma_char_val(v0);
        lemma_char_val(v1);
        let s = b64url(b);
        assert(s.len() == 2 && s[0] == b64_char(v0) && s[1] == b64_char(v1));
        assert(b64url_decode(s) == Some(seq![(v0 << 2) | (v1 >> 4)]));
        assert(seq![(v0 << 2) | (v1 >> 4)] =~= b);
    } else if b.len() == 2 {
        let b0 = b[0];
        let b1 = b[1];
        let v0 = b0 >> 2;
        let v1 = ((b0 & 3) << 4) | (b1 >> 4);
        let v2 = (b1 & 15) << 2;
        assert(v0 < 64 && v1 < 64 && v2 < 64 && v2 & 3 == 0 && ((v0 << 2) | (v1 >> 4)) == b0 && (((
        v1 & 15) << 4) | (v2 >> 2)) == b1) by (bit_vector)
            requires
                v0 == b0 >> 2 && v1 == ((b0 & 3) << 4) | (b1 >> 4) && v2 == (b1 & 15) << 2,
        ;
        lemma_char_val(v0);
        lemma_char_val(v1);
        lemma_char_val(v2);
        let s = b64url(b);
        assert(s.len() == 3 && s[0] == b64_char(v0) && s[1] == b64_char(v1) && s[2] == b64_char(
            v2,
        ));
        assert(b64url_decode(s) == Some(seq![(v0 << 2) | (v1 >> 4), ((v1 & 15) << 4) | (v2 >> 2)]));
        assert(seq![(v0 << 2) | (v1 >> 4), ((v1 & 15) << 4) | (v2 >> 2)] =~= b);
    } else {
        let b0 = b[0];
        let b1 = b[1];
        let b2 = b[2];
        let v0 = b0 >> 2;
        let v1 = ((b0 & 3) << 4) | (b1 >> 4);
        let v2 = ((b1 & 15) << 2) | (b2 >> 6);
        let v3 = b2 & 63;
        assert(v0 < 64 && v1 < 64 && v2 < 64 && v3 < 64 && ((v0 << 2) | (v1 >> 4)) == b0 && (((v1
            & 15) << 4) | (v2 >> 2)) == b1 && (((v2 & 3) << 6) | v3) == b2) by (bit_vector)
            requires
                v0 == b0 >> 2 && v1 == ((b0 & 3) << 4) | (b1 >> 4) && v2 == ((b1 & 15) << 2) | (b2
                    >> 6) && v3 == b2 & 63,
        ;
        lemma_char_val(v0);
        lemma_char_val(v1);
        lemma_char_val(v2);
        lemma_char_val(v3);
        let s = b64url(b);
        let rest = b64url(b.skip(3));
        assert(s == enc3(b0, b1, b2) + rest);
        lemma_b64url_len(b.skip(3));
        assert(s.len() >= 4);
        assert(s[0] == b64_char(v0) && s[1] == b64_char(v1) && s[2] == b64_char(v2) && s[3]
            == b64_char(v3));
        assert(s.skip(4) =~= rest);
        lemma_decode_encode(b.skip(3));
        assert(b64url_decode(s) == Some(dec4(v0, v1, v2, v3) + b.skip(3)));
        assert(dec4(v0, v1, v2, v3) =~= seq![b0, b1, b2]);
        assert(dec4(v0, v1, v2, v3) + b.skip(3) =~= b);
    }
}

/// A sequence that decodes is the encoding of what it decodes to: only
/// canonical encodings are accepted.
pub proof fn lemma_encode_decode(s: Seq<u8>)
    requires
        b64url_decode(s) is Some,
    ensures
        b64url(b64url_decode(s)->Some_0) == s,
    decreases s.len(),
{
    let d = b64url_decode(s)->Some_0;
    if s.len() == 0 {
        assert(b64url(d) =~= s);
    } else if s.len() == 1 {
        assert(false);
    } else if s.len() == 2 {
        let v0 = b64_val(s[0])->Some_0;
        let v1 = b64_val(s[1])->Some_0;
        lemma_val_char(s[0]);
        lemma_val_char(s[1]);
        let b0 = (v0 << 2) | (v1 >> 4);
        assert(d == seq![b0]);
        assert(v0 < 64 && v1 < 64 && v1 & 15 == 0 ==> (b0 >> 2) == v0 && ((b0 & 3) << 4) == v1)
            by (bit_vector)
            requires
                b0 == (v0 << 2) | (v1 >> 4),
        ;
        assert(b64url(d) =~= s);
    } else if s.len() == 3 {
        let v0 = b64_val(s[0])->Some_0;
        let v1 = b64_val(s[1])->Some_0;
        let v2 = b64_val(s[2])->Some_0;
        lemma_val_char(s[0]);
        lemma_val_char(s[1]);
        lemma_val_char(s[2]);
        let b0 = (v0 << 2) | (v1 >> 4);
        let b1 = ((v1 & 15) << 4) | (v2 >> 2);
        assert(d == seq![b0, b1]);
        assert(v0 < 64 && v1 < 64 && v2 < 64 && v2 & 3 == 0 ==> (b0 >> 2) == v0 && (((b0 & 3) << 4)
            | (b1 >> 4)) == v1 && ((b1 & 15) << 2) == v2) by (bit_vector)
            requires
                b0 == (v0 << 2) | (v1 >> 4) && b1 == ((v1 & 15) << 4) | (v2 >> 2),
        ;
        assert(b64url(d) =~= s);
    } else {
        let v0 = b64_val(s[0])->Some_0;
        let v1 = b64_val(s[1])->Some_0;
        let v2 = b64_val(s[2])->Some_0;
        let v3 = b64_val(s[3])->Some_0;
        lemma_val_char(s[0]);
        lemma_val_char(s[1]);
        lemma_val_char(s[2]);
        lemma_val_char(s[3]);
        let rest = b64url_decode(s.skip(4))->Some_0;
        let b0 = (v0 << 2) | (v1 >> 4);
        let b1 = ((v1 & 15) << 4) | (v2 >> 2);
        let b2 = ((v2 & 3) << 6) | v3;
        assert(d == dec4(v0, v1, v2, v3) + rest);
        assert(d.len() >= 3);
        assert(d[0] == b0 && d[1] == b1 && d[2] == b2);
        assert(v0 < 64 && v1 < 64 && v2 < 64 && v3 < 64 ==> (b0 >> 2) == v0 && (((b0 & 3) << 4) | (
        b1 >> 4)) == v1 && (((b1 & 15) << 2) | (b2 >> 6)) == v2 && (b2 & 63) == v3) by (bit_vector)
            requires
                b0 == (v0 << 2) | (v1 >> 4) && b1 == ((v1 & 15) << 4) | (v2 >> 2) && b2 == ((v2 & 3)
                    << 6) | v3,
        ;
        lemma_encode_decode(s.skip(4));
        assert(d.skip(3) =~= rest);
        assert(b64url(d) == enc3(b0, b1, b2) + b64url(rest));
        assert(b64url(d) =~= s);
    }
}

/// Writes sextet `v` as its alphabet byte.
fn b64_char_x(v: u8) -> (r: u8)
    requires
        v < 64,
    ensures
        r == b64_char(v),
{
    if v < 26 {
        65 + v
    } else if v < 52 {
        97 + (v - 26)
    } else if v < 62 {
        48 + (v - 52)
    } else if v == 62 {
        45
    } else {
        95
    }
}

/// Reads an alphabet byte back as its sextet.
fn b64_val_x(b: u8) -> (r: Option<u8>)
    ensures
        r == b64_val(b),
{
    if 65 <= b && b <= 90 {
        Some(b - 65)
    } else if 97 <= b && b <= 122 {
        Some(26 + (b - 97))
    } else if 48 <= b && b <= 57 {
        Some(52 + (b - 48))
    } else if b == 45 {
        Some(62)
    } else if b == 95 {
        Some(63)
    } else {
        None
    }
}

/// Encodes bytes in the unpadded URL-safe alphabet.
pub fn b64url_encode(v: &Vec<u8>) -> (r: Vec<u8>)
    ensures
        r@ == b64url(v@),
{
    let mut r: Vec<u8> = Vec::new();
    let mut i: usize = 0;
    while v.len() - i >= 3
        invariant
            i <= v@.len(),
            i % 3 == 0,
            r@ == b64url(v@.take(i as int)),
        decreases v@.len() - i,
    {
        let b0 = v[i];
        let b1 = v[i + 1];
        let b2 = v[i + 2];
        proof {
            assert((b0 >> 2) < 64 && (((b0 & 3) << 4) | (b1 >> 4)) < 64 && (((b1 & 15) << 2) | (b2
                >> 6)) < 64 && (b2 & 63) < 64) by (bit_vector);
        }
        r.push(b64_char_x(b0 >> 2));
        r.push(b64_char_x(((b0 & 3) << 4) | (b1 >> 4)));
        r.push(b64_char_x(((b1 & 15) << 2) | (b2 >> 6)));
        r.push(b64_char_x(b2 & 63));
        proof {
            let p = v@.take(i as int);
            let c = v@.subrange(i as int, i + 3);
            assert(v@.take(i + 3) =~= p + c);
            lemma_b64url_append(p, c);
            assert(c.skip(3) =~= Seq::<u8>::empty());
            assert(b64url(c) == enc3(b0, b1, b2) + b64url(c.skip(3)));
            assert(r@ =~= b64url(p) + b64url(c));
        }
        i = i + 3;
    }
    proof {
        let p = v@.take(i as int);
        let t = v@.skip(i as int);
        assert(v@ =~= p + t);
        lemma_b64url_append(p, t);
    }
    if v.len() - i == 1 {
        let b0 = v[i];
        proof {
            assert((b0 >> 2) < 64 && ((b0 & 3) << 4) < 64) by (bit_vector);
        }
        r.push(b64_char_x(b0 >> 2));
        r.push(b64_char_x((b0 & 3) << 4));
        proof {
            let t = v@.skip(i as int);
            assert(t =~= seq![b0]);
            assert(r@ =~= b64url(v@.take(i as int)) + b64url(t));
        }
    } else if v.len() - i == 2 {
        let b0 = v[i];
        let b1 = v[i + 1];
        proof {
            assert((b0 >> 2) < 64 && (((b0 & 3) << 4) | (b1 >> 4)) < 64 && ((b1 & 15) << 2) < 64)
                by (bit_vector);
        }
        r.push(b64_char_x(b0 >> 2));
        r.push(b64_char_x(((b0 & 3) << 4) | (b1 >> 4)));
        r.push(b64_char_x((b1 & 15) << 2));
        proof {
            let t = v@.skip(i as int);
            assert(t =~= seq![b0, b1]);
            assert(r@ =~= b64url(v@.take(i as int)) + b64url(t));
        }
    } else {
        proof {
            let t = v@.skip(i as int);
            assert(t =~= Seq::<u8>::empty());
            assert(r@ =~= b64url(v@.take(i as int)) + b64url(t));
        }
    }
    r
}

/// Decodes bytes written in the unpadded URL-safe alphabet; rejects
/// everything that is not a canonical encoding.
pub fn b64url_decode_x(v: &Vec<u8>) -> (r: Option<Vec<u8>>)
    ensures
        match r {
            Some(d) => b64url_decode(v@) == Some(d@),
            None => b64url_decode(v@) is None,
        },
{
    let mut out: Vec<u8> = Vec::new();
    let mut i: usize = 0;
    proof {
        assert(v@.skip(0) =~= v@);
        if b64url_decode(v@) is Some {
            let rest = b64url_decode(v@)->Some_0;
            assert(out@ + rest =~= rest);
        }
    }
    while v.len() - i >= 4
        invariant
            i <= v@.len(),
            match b64url_decode(v@.skip(i as int)) {
                Some(rest) => b64url_decode(v@) == Some(out@ + rest),
                None => b64url_decode(v@) is None,
            },
        decreases v@.len() - i,
    {
        let ghost s = v@.skip(i as int);
        proof {
            assert(s.len() >= 4);
            assert(s[0] == v@[i as int] && s[1] == v@[i + 1] && s[2] == v@[i + 2] && s[3] == v@[i
                + 3]);
        }
        let r0 = b64_val_x(v[i]);
        let r1 = b64_val_x(v[i + 1]);
        let r2 = b64_val_x(v[i + 2]);
        let r3 = b64_val_x(v[i + 3]);
        let ghost out0 = out@;
        match (r0, r1, r2, r3) {
            (Some(v0), Some(v1), Some(v2), Some(v3)) => {
                out.push((v0 << 2) | (v1 >> 4));
                out.push(((v1 & 15) << 4) | (v2 >> 2));
                out.push(((v2 & 3) << 6) | v3);
                proof {
                    assert(out@ =~= out0 + dec4(v0, v1, v2, v3));
                    assert(s.skip(4) =~= v@.skip(i + 4));
                    if b64url_decode(v@.skip(i + 4)) is Some {
                        let rest = b64url_decode(v@.skip(i + 4))->Some_0;
                        assert(b64url_decode(s) == Some(dec4(v0, v1, v2, v3) + rest));
                        assert(out0 + (dec4(v0, v1, v2, v3) + rest) =~= out@ + rest);
                    } else {
                        assert(b64url_decode(s) is None);
                    }
                }
                i = i + 4;
            },
            _ => {
                proof {
                    assert(b64url_decode(s) is None);
                }
                return None;
            },
        }
    }
    let n = v.len() - i;
    if n == 0 {
        proof {
            assert(v@.skip(i as int) =~= Seq::<u8>::empty());
            assert(out@ + Seq::<u8>::empty() =~= out@);
        }
        Some(out)
    } else if n == 1 {
        None
    } else if n == 2 {
        let ghost s = v@.skip(i as int);
        proof {
            assert(s =~= seq![v@[i as int], v@[i + 1]]);
        }
        let r0 = b64_val_x(v[i]);
        let r1 = b64_val_x(v[i + 1]);
        let ghost out0 = out@;
        match (r0, r1) {
            (Some(v0), Some(v1)) => {
                if v1 & 15 == 0 {
                    out.push((v0 << 2) | (v1 >> 4));
                    proof {
                        assert(b64url_decode(s) == Some(seq![(v0 << 2) | (v1 >> 4)]));
                        assert(out0 + seq![(v0 << 2) | (v1 >> 4)] =~= out@);
                    }
                    Some(out)
                } else {
                    None
                }
            },
            _ => None,
        }
    } else {
        let ghost s = v@.skip(i as int);
        proof {
            assert(s =~= seq![v@[i as int], v@[i + 1], v@[i + 2]]);
        }
        let r0 = b64_val_x(v[i]);
        let r1 = b64_val_x(v[i + 1]);
        let r2 = b64_val_x(v[i + 2]);
        let ghost out0 = out@;
        match (r0, r1, r2) {
            (Some(v0), Some(v1), Some(v2)) => {
                if v2 & 3 == 0 {
                    out.push((v0 << 2) | (v1 >> 4));
                    out.push(((v1 & 15) << 4) | (v2 >> 2));
                    proof {
                        assert(b64url_decode(s) == Some(seq![
                            (v0 << 2) | (v1 >> 4),
                            ((v1 & 15) << 4) | (v2 >> 2),
                        ]));
                        assert(out0 + seq![(v0 << 2) | (v1 >> 4), ((v1 & 15) << 4) | (v2 >> 2)]
                            =~= out@);
                    }
                    Some(out)
                } else {
                    None
                }
            },
            _ => None,
        }
    }
}

} // verus!
