//! Base64 encoding and decoding of binary record fields, with a proved
//! round trip.

use vstd::prelude::*;
use crate::bytes::{clean, clean_byte};

verus! {

/// The base64 alphabet: the character standing for sextet `x`.
pub open spec fn b64c(x: int) -> u8 {
    if 0 <= x < 26 {
        (65 + x) as u8
    } else if 26 <= x < 52 {
        (97 + (x - 26)) as u8
    } else if 52 <= x < 62 {
        (48 + (x - 52)) as u8
    } else if x == 62 {
        43
    } else {
        47
    }
}

/// The sextet value of character `ch`, or `-1` outside the alphabet.
pub open spec fn b64v(ch: u8) -> int {
    if 65 <= ch <= 90 {
        ch - 65
    } else if 97 <= ch <= 122 {
        ch - 97 + 26
    } else if 48 <= ch <= 57 {
        ch - 48 + 52
    } else if ch == 43 {
        62
    } else if ch == 47 {
        63
    } else {
        -1
    }
}

/// First decoded byte of a quadruple of sextets.
pub open spec fn dec_b0(v0: u8, v1: u8) -> u8 {
    (v0 << 2) | (v1 >> 4)
}

/// Second decoded byte of a quadruple of sextets.
pub open spec fn dec_b1(v1: u8, v2: u8) -> u8 {
    ((v1 & 15) << 4) | (v2 >> 2)
}

/// Third decoded byte of a quadruple of sextets.
pub open spec fn dec_b2(v2: u8, v3: u8) -> u8 {
    ((v2 & 3) << 6) | v3
}

/// Encoding of a full three-byte group.
pub open spec fn enc3(a: u8, b: u8, c: u8) -> Seq<u8> {
    seq![
        b64c((a >> 2) as int),
        b64c((((a & 3) << 4) | (b >> 4)) as int),
        b64c((((b & 15) << 2) | (c >> 6)) as int),
        b64c((c & 63) as int),
    ]
}

/// Encoding of a trailing two-byte group, padded with one `=`.
pub open spec fn enc2(a: u8, b: u8) -> Seq<u8> {
    seq![
        b64c((a >> 2) as int),
        b64c((((a & 3) << 4) | (b >> 4)) as int),
        b64c(((b & 15) << 2) as int),
        61,
    ]
}

/// Encoding of a trailing one-byte group, padded with two `=`.
pub open spec fn enc1(a: u8) -> Seq<u8> {
    seq![b64c((a >> 2) as int), b64c(((a & 3) << 4) as int), 61, 61]
}

/// Canonical base64 encoding of `s`.
pub open spec fn b64_enc(s: Seq<u8>) -> Seq<u8>
    decreases s.len(),
{
    if s.len() == 0 {
        Seq::empty()
    } else if s.len() == 1 {
        enc1(s[0])
    } else if s.len() == 2 {
        enc2(s[0], s[1])
    } else {
        enc3(s[0], s[1], s[2]) + b64_enc(s.skip(3))
    }
}

/// Decoding of the final quadruple, which may carry padding.
pub open spec fn b64_dec_last(t: Seq<u8>) -> Option<Seq<u8>> {
    let v0 = b64v(t[0]);
    let v1 = b64v(t[1]);
    let v2 = b64v(t[2]);
    let v3 = b64v(t[3]);
    if t[2] == 61 {
        if t[3] != 61 || v0 < 0 || v1 < 0 {
            Option::None
        } else if (v1 as u8) & 15 != 0 {
            Option::None
        } else {
            Option::Some(seq![dec_b0(v0 as u8, v1 as u8)])
        }
    } else if t[3] == 61 {
        if v0 < 0 || v1 < 0 || v2 < 0 {
            Option::None
        } else if (v2 as u8) & 3 != 0 {
            Option::None
        } else {
            Option::Some(seq![dec_b0(v0 as u8, v1 as u8), dec_b1(v1 as u8, v2 as u8)])
        }
    } else {
        if v0 < 0 || v1 < 0 || v2 < 0 || v3 < 0 {
            Option::None
        } else {
            Option::Some(
                seq![
                    dec_b0(v0 as u8, v1 as u8),
                    dec_b1(v1 as u8, v2 as u8),
                    dec_b2(v2 as u8, v3 as u8),
                ],
            )
        }
    }
}

/// Strict base64 decoding: quadruples of alphabet characters, padding
/// only in the final quadruple, canonical spare bits.
pub open spec fn b64_dec(t: Seq<u8>) -> Option<Seq<u8>>
    decreases t.len(),
{
    if t.len() == 0 {
        Option::Some(Seq::empty())
    } else if t.len() < 4 {
        Option::None
    } else if t.len() == 4 {
        b64_dec_last(t)
    } else {
        let v0 = b64v(t[0]);
        let v1 = b64v(t[1]);
        let v2 = b64v(t[2]);
        let v3 = b64v(t[3]);
        if v0 < 0 || v1 < 0 || v2 < 0 || v3 < 0 {
            Option::None
        } else {
            match b64_dec(t.skip(4)) {
                Option::Some(rest) => Option::Some(
                    seq![
                        dec_b0(v0 as u8, v1 as u8),
                        dec_b1(v1 as u8, v2 as u8),
                        dec_b2(v2 as u8, v3 as u8),
                    ] + rest,
                ),
                Option::None => Option::None,
            }
        }
    }
}

/// Alphabet characters invert through `b64v`, are printable, and are
/// neither the quote nor the padding character.
pub proof fn lemma_b64_char(x: int)
    requires
        0 <= x < 64,
    ensures
        b64v(b64c(x)) == x,
        clean_byte(b64c(x)),
        b64c(x) != 61,
        b64c(x) != 34,
{
}

/// An encoding holds only clean bytes, so it can stand inside a quoted
/// JSON field without escaping.
pub proof fn lemma_enc_clean(s: Seq<u8>)
    ensures
        clean(b64_enc(s)),
        s.len() > 0 ==> b64_enc(s).len() >= 4,
        b64_enc(s).len() <= 2 * s.len() + 4,
    decreases s.len(),
{
    if s.len() == 0 {
    } else if s.len() == 1 {
        let a = s[0];
        assert((a >> 2) < 64 && ((a & 3) << 4) < 64) by (bit_vector);
        lemma_b64_char((a >> 2) as int);
        lemma_b64_char(((a & 3) << 4) as int);
        assert(clean_byte(61));
    } else if s.len() == 2 {
        let a = s[0];
        let b = s[1];
        assert((a >> 2) < 64 && (((a & 3) << 4) | (b >> 4)) < 64 && ((b & 15) << 2) < 64)
            by (bit_vector);
        lemma_b64_char((a >> 2) as int);
        lemma_b64_char((((a & 3) << 4) | (b >> 4)) as int);
        lemma_b64_char(((b & 15) << 2) as int);
        assert(clean_byte(61));
    } else {
        let a = s[0];
        let b = s[1];
        let c = s[2];
        assert((a >> 2) < 64 && (((a & 3) << 4) | (b >> 4)) < 64 && (((b & 15) << 2) | (c >> 6))
            < 64 && (c & 63) < 64) by (bit_vector);
        lemma_b64_char((a >> 2) as int);
        lemma_b64_char((((a & 3) << 4) | (b >> 4)) as int);
        lemma_b64_char((((b & 15) << 2) | (c >> 6)) as int);
        lemma_b64_char((c & 63) as int);
        lemma_enc_clean(s.skip(3));
        assert forall|i: int| 0 <= i < b64_enc(s).len() implies clean_byte(#[trigger] b64_enc(s)[i]) by {
            if i >= 4 {
                assert(b64_enc(s)[i] == b64_enc(s.skip(3))[i - 4]);
            }
        }
    }
}

/// Decoding inverts encoding: the round trip restores the input exactly.
pub proof fn lemma_b64_round_trip(s: Seq<u8>)
    ensures
        b64_dec(b64_enc(s)) == Option::Some(s),
    decreases s.len(),
{
    if s.len() == 0 {
        assert(b64_enc(s) =~= Seq::<u8>::empty());
    } else if s.len() == 1 {
        let a = s[0];
        let t = b64_enc(s);
        assert((a >> 2) < 64 && ((a & 3) << 4) < 64) by (bit_vector);
        lemma_b64_char((a >> 2) as int);
        lemma_b64_char(((a & 3) << 4) as int);
        assert((((a & 3) << 4)) & 15 == 0) by (bit_vector);
        assert(((a >> 2) << 2) | (((a & 3) << 4) >> 4) == a) by (bit_vector);
        assert(b64_dec_last(t) == Option::Some(seq![a]));
        assert(s =~= seq![a]);
    } else if s.len() == 2 {
        let a = s[0];
        let b = s[1];
        let t = b64_enc(s);
        assert((a >> 2) < 64 && (((a & 3) << 4) | (b >> 4)) < 64 && ((b & 15) << 2) < 64)
            by (bit_vector);
        lemma_b64_char((a >> 2) as int);
        lemma_b64_char((((a & 3) << 4) | (b >> 4)) as int);
        lemma_b64_char(((b & 15) << 2) as int);
        assert(((b & 15) << 2) & 3 == 0) by (bit_vector);
        assert(((a >> 2) << 2) | ((((a & 3) << 4) | (b >> 4)) >> 4) == a) by (bit_vector);
        assert((((((a & 3) << 4) | (b >> 4)) & 15) << 4) | (((b & 15) << 2) >> 2) == b)
            by (bit_vector);
        assert(b64_dec_last(t) == Option::Some(seq![a, b]));
        assert(s =~= seq![a, b]);
    } else {
        let a = s[0];
        let b = s[1];
        let c = s[2];
        let t = b64_enc(s);
        let g = enc3(a, b, c);
        let tail = b64_enc(s.skip(3));
        assert((a >> 2) < 64 && (((a & 3) << 4) | (b >> 4)) < 64 && (((b & 15) << 2) | (c >> 6))
            < 64 && (c & 63) < 64) by (bit_vector);
        lemma_b64_char((a >> 2) as int);
        lemma_b64_char((((a & 3) << 4) | (b >> 4)) as int);
        lemma_b64_char((((b & 15) << 2) | (c >> 6)) as int);
        lemma_b64_char((c & 63) as int);
        assert(((a >> 2) << 2) | ((((a & 3) << 4) | (b >> 4)) >> 4) == a) by (bit_vector);
        assert((((((a & 3) << 4) | (b >> 4)) & 15) << 4) | (((((b & 15) << 2) | (c >> 6))) >> 2)
            == b) by (bit_vector);
        assert((((((b & 15) << 2) | (c >> 6))) & 3) << 6 | (c & 63) == c) by (bit_vector);
        lemma_b64_round_trip(s.skip(3));
        if s.len() == 3 {
            assert(s.skip(3) =~= Seq::<u8>::empty());
            assert(t =~= g);
            assert(b64_dec_last(g) == Option::Some(seq![a, b, c]));
            assert(s =~= seq![a, b, c]);
        } else {
            lemma_enc_clean(s.skip(3));
            assert(tail.len() >= 4);
            assert(t.len() == 4 + tail.len());
            assert(t[0] == g[0] && t[1] == g[1] && t[2] == g[2] && t[3] == g[3]);
            assert(t.skip(4) =~= tail);
            assert(b64_dec(t) == Option::Some(seq![a, b, c] + s.skip(3)));
            assert(seq![a, b, c] + s.skip(3) =~= s);
        }
    }
}

/// The character standing for sextet `x`.
pub fn b64_char(x: u8) -> (c: u8)
    requires
        x < 64,
    ensures
        c == b64c(x as int),
{
    if x < 26 {
        65 + x
    } else if x < 52 {
        97 + (x - 26)
    } else if x < 62 {
        48 + (x - 52)
    } else if x == 62 {
        43
    } else {
        47
    }
}

/// The sextet value of `ch`, or `None` outside the alphabet.
pub fn b64_val(ch: u8) -> (v: Option<u8>)
    ensures
        match v {
            Some(x) => b64v(ch) == x as int && x < 64,
            None => b64v(ch) < 0,
        },
{
    if 65 <= ch && ch <= 90 {
        Some(ch - 65)
    } else if 97 <= ch && ch <= 122 {
        Some(ch - 97 + 26)
    } else if 48 <= ch && ch <= 57 {
        Some(ch - 48 + 52)
    } else if ch == 43 {
        Some(62)
    } else if ch == 47 {
        Some(63)
    } else {
        None
    }
}

/// Encode `s` as canonical base64.
pub fn b64_encode(s: &Vec<u8>) -> (out: Vec<u8>)
    ensures
        out@ == b64_enc(s@),
{
    let mut out: Vec<u8> = Vec::new();
    let mut i: usize = 0;
    proof {
        assert(s@.skip(0) =~= s@);
        assert(Seq::<u8>::empty() + b64_enc(s@) =~= b64_enc(s@));
    }
    while s.len() - i >= 3
        invariant
            i <= s.len(),
            out@ + b64_enc(s@.skip(i as int)) == b64_enc(s@),
        decreases s.len() - i,
    {
        let ghost out0 = out@;
        let a = s[i];
        let b = s[i + 1];
        let c = s[i + 2];
        proof {
            let rem = s@.skip(i as int);
            assert(rem.len() == s@.len() - i);
            assert(rem[0] == a && rem[1] == b && rem[2] == c);
            assert(rem.skip(3) =~= s@.skip(i + 3));
            assert(b64_enc(rem) == enc3(a, b, c) + b64_enc(s@.skip(i + 3)));
            assert((a >> 2) < 64 && (((a & 3) << 4) | (b >> 4)) < 64 && (((b & 15) << 2) | (c
                >> 6)) < 64 && (c & 63) < 64) by (bit_vector);
        }
        out.push(b64_char(a >> 2));
        out.push(b64_char(((a & 3) << 4) | (b >> 4)));
        out.push(b64_char(((b & 15) << 2) | (c >> 6)));
        out.push(b64_char(c & 63));
        i = i + 3;
        proof {
            assert(out@ =~= out0 + enc3(a, b, c));
            assert((out0 + enc3(a, b, c)) + b64_enc(s@.skip(i as int)) =~= out0 + (enc3(a, b, c)
                + b64_enc(s@.skip(i as int))));
        }
    }
    if s.len() - i == 1 {
        let a = s[i];
        proof {
            let rem = s@.skip(i as int);
            assert(rem.len() == 1 && rem[0] == a);
            assert(b64_enc(rem) == enc1(a));
            assert((a >> 2) < 64 && ((a & 3) << 4) < 64) by (bit_vector);
        }
        out.push(b64_char(a >> 2));
        out.push(b64_char((a & 3) << 4));
        out.push(61);
        out.push(61);
        proof {
            assert(out@ =~= b64_enc(s@));
        }
    } else if s.len() - i == 2 {
        let a = s[i];
        let b = s[i + 1];
        proof {
            let rem = s@.skip(i as int);
            assert(rem.len() == 2 && rem[0] == a && rem[1] == b);
            assert(b64_enc(rem) == enc2(a, b));
            assert((a >> 2) < 64 && (((a & 3) << 4) | (b >> 4)) < 64 && ((b & 15) << 2) < 64)
                by (bit_vector);
        }
        out.push(b64_char(a >> 2));
        out.push(b64_char(((a & 3) << 4) | (b >> 4)));
        out.push(b64_char((b & 15) << 2));
        out.push(61);
        proof {
            assert(out@ =~= b64_enc(s@));
        }
    } else {
        proof {
            assert(s@.skip(i as int) =~= Seq::<u8>::empty());
            assert(out@ =~= b64_enc(s@));
        }
    }
    out
}

/// Decode strict base64; `None` on any departure from the canonical form.
pub fn b64_decode(t: &Vec<u8>) -> (res: Option<Vec<u8>>)
    ensures
        match res {
            Some(v) => b64_dec(t@) == Option::Some(v@),
            None => b64_dec(t@) is None,
        },
{
    let mut out: Vec<u8> = Vec::new();
    let mut i: usize = 0;
    proof {
        assert(t@.skip(0) =~= t@);
        let r = b64_dec(t@);
        if r is Some {
            assert(Seq::<u8>::empty() + r.unwrap() =~= r.unwrap());
        }
    }
    while t.len() - i > 4
        invariant
            i <= t.len(),
            match b64_dec(t@.skip(i as int)) {
                Option::Some(rest) => b64_dec(t@) == Option::Some(out@ + rest),
                Option::None => b64_dec(t@) is None,
            },
        decreases t.len() - i,
    {
        let ghost out0 = out@;
        proof {
            let rem = t@.skip(i as int);
            assert(rem.len() == t@.len() - i);
            assert(rem[0] == t@[i as int] && rem[1] == t@[i + 1] && rem[2] == t@[i + 2] && rem[3]
                == t@[i + 3]);
            assert(rem.skip(4) =~= t@.skip(i + 4));
        }
        let v0 = match b64_val(t[i]) {
            Some(x) => x,
            None => {
                return None;
            },
        };
        let v1 = match b64_val(t[i + 1]) {
            Some(x) => x,
            None => {
                return None;
            },
        };
        let v2 = match b64_val(t[i + 2]) {
            Some(x) => x,
            None => {
                return None;
            },
        };
        let v3 = match b64_val(t[i + 3]) {
            Some(x) => x,
            None => {
                return None;
            },
        };
        out.push((v0 << 2) | (v1 >> 4));
        out.push(((v1 & 15) << 4) | (v2 >> 2));
        out.push(((v2 & 3) << 6) | v3);
        i = i + 4;
        proof {
            let rem_old = t@.skip(i - 4);
            let rem_new = t@.skip(i as int);
            assert(rem_old.len() == t@.len() - (i - 4));
            assert(rem_old[0] == t@[i - 4] && rem_old[1] == t@[i - 3] && rem_old[2] == t@[i - 2]
                && rem_old[3] == t@[i - 1]);
            assert(rem_old.skip(4) =~= rem_new);
            let bytes3 = seq![dec_b0(v0, v1), dec_b1(v1, v2), dec_b2(v2, v3)];
            assert(out@ =~= out0 + bytes3);
            let r = b64_dec(rem_new);
            if r is Some {
                let rest = r.unwrap();
                assert(b64_dec(rem_old) == Option::Some(bytes3 + rest));
                assert(b64_dec(t@) == Option::Some(out0 + (bytes3 + rest)));
                assert(out@ + rest =~= out0 + (bytes3 + rest));
            } else {
                assert(b64_dec(rem_old) is None);
            }
        }
    }
    if t.len() - i == 0 {
        proof {
            assert(t@.skip(i as int) =~= Seq::<u8>::empty());
            assert(b64_dec(t@.skip(i as int)) == Option::Some(Seq::<u8>::empty()));
            assert(out@ + Seq::<u8>::empty() =~= out@);
        }
        return Some(out);
    }
    if t.len() - i != 4 {
        return None;
    }
    proof {
        let rem = t@.skip(i as int);
        assert(rem.len() == 4);
        assert(rem[0] == t@[i as int] && rem[1] == t@[i + 1] && rem[2] == t@[i + 2] && rem[3]
            == t@[i + 3]);
        assert(b64_dec(rem) == b64_dec_last(rem));
    }
    if t[i + 2] == 61 {
        if t[i + 3] != 61 {
            return None;
        }
        let v0 = match b64_val(t[i]) {
            Some(x) => x,
            None => {
                return None;
            },
        };
        let v1 = match b64_val(t[i + 1]) {
            Some(x) => x,
            None => {
                return None;
            },
        };
        if v1 & 15 != 0 {
            return None;
        }
        out.push((v0 << 2) | (v1 >> 4));
        proof {
            assert(out@ =~= out@.take(out@.len() - 1) + seq![dec_b0(v0, v1)]);
        }
        Some(out)
    } else if t[i + 3] == 61 {
        let v0 = match b64_val(t[i]) {
            Some(x) => x,
            None => {
                return None;
            },
        };
        let v1 = match b64_val(t[i + 1]) {
            Some(x) => x,
            None => {
                return None;
            },
        };
        let v2 = match b64_val(t[i + 2]) {
            Some(x) => x,
            None => {
                return None;
            },
        };
        if v2 & 3 != 0 {
            return None;
        }
        out.push((v0 << 2) | (v1 >> 4));
        out.push(((v1 & 15) << 4) | (v2 >> 2));
        proof {
            assert(out@ =~= out@.take(out@.len() - 2) + seq![dec_b0(v0, v1), dec_b1(v1, v2)]);
        }
        Some(out)
    } else {
        let v0 = match b64_val(t[i]) {
            Some(x) => x,
            None => {
                return None;
            },
        };
        let v1 = match b64_val(t[i + 1]) {
            Some(x) => x,
            None => {
                return None;
            },
        };
        let v2 = match b64_val(t[i + 2]) {
            Some(x) => x,
            None => {
                return None;
            },
        };
        let v3 = match b64_val(t[i + 3]) {
            Some(x) => x,
            None => {
                return None;
            },
        };
        out.push((v0 << 2) | (v1 >> 4));
        out.push(((v1 & 15) << 4) | (v2 >> 2));
        out.push(((v2 & 3) << 6) | v3);
        proof {
            assert(out@ =~= out@.take(out@.len() - 3) + seq![
                dec_b0(v0, v1),
                dec_b1(v1, v2),
                dec_b2(v2, v3),
            ]);
        }
        Some(out)
    }
}

} // verus!
