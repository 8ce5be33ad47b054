//! The textual building blocks of the record format: decimal numbers,
//! quoted tokens, and the fixed key literals, with round-trip lemmas.

use vstd::prelude::*;
use crate::bytes::{clean, clean_byte};

verus! {

/// An ASCII decimal digit.
pub open spec fn is_digit(b: u8) -> bool {
    48 <= b <= 57
}

/// Powers of ten.
pub open spec fn pow10(k: nat) -> int
    decreases k,
{
    if k == 0 {
        1
    } else {
        10 * pow10((k - 1) as nat)
    }
}

/// Canonical decimal digits of `n`, most significant first.
pub open spec fn dec_u32(n: int) -> Seq<u8>
    decreases n,
{
    if n < 10 {
        seq![(48 + if n >= 0 { n } else { 0 }) as u8]
    } else {
        dec_u32(n / 10) + seq![(48 + n % 10) as u8]
    }
}

/// The value of a digit string.
pub open spec fn digits_val(d: Seq<u8>) -> int
    decreases d.len(),
{
    if d.len() == 0 {
        0
    } else {
        digits_val(d.take(d.len() - 1)) * 10 + (d[d.len() - 1] - 48)
    }
}

/// Every byte of `d` is a digit.
pub open spec fn all_digits(d: Seq<u8>) -> bool {
    forall|i: int| 0 <= i < d.len() ==> is_digit(#[trigger] d[i])
}

/// Split `s` into its leading digit run and the rest.
pub open spec fn take_digits(s: Seq<u8>) -> (Seq<u8>, Seq<u8>)
    decreases s.len(),
{
    if s.len() > 0 && is_digit(s[0]) {
        let (d, r) = take_digits(s.skip(1));
        (seq![s[0]] + d, r)
    } else {
        (Seq::empty(), s)
    }
}

/// Parse a canonical `u32`: a digit run of at most ten digits, no
/// leading zero, value within range.
pub open spec fn parse_u32(s: Seq<u8>) -> Option<(u32, Seq<u8>)> {
    let (d, r) = take_digits(s);
    if d.len() == 0 || d.len() > 10 {
        Option::None
    } else if d.len() > 1 && d[0] == 48 {
        Option::None
    } else if digits_val(d) > u32::MAX {
        Option::None
    } else {
        Option::Some((digits_val(d) as u32, r))
    }
}

/// `pre` is a prefix of `s`.
pub open spec fn starts_with(s: Seq<u8>, pre: Seq<u8>) -> bool {
    pre.len() <= s.len() && s.take(pre.len() as int) == pre
}

/// Parse a quoted field body: clean bytes up to the closing quote,
/// which is consumed.
pub open spec fn parse_token(s: Seq<u8>) -> Option<(Seq<u8>, Seq<u8>)>
    decreases s.len(),
{
    if s.len() == 0 {
        Option::None
    } else if s[0] == 34 {
        Option::Some((Seq::empty(), s.skip(1)))
    } else if !clean_byte(s[0]) {
        Option::None
    } else {
        match parse_token(s.skip(1)) {
            Option::Some((t, r)) => Option::Some((seq![s[0]] + t, r)),
            Option::None => Option::None,
        }
    }
}

/// Digits of a number are digits; one digit for small values; no
/// leading zero above zero; at most `k` digits below `pow10(k)`.
pub proof fn lemma_dec_u32_digits(n: int)
    requires
        0 <= n,
    ensures
        all_digits(dec_u32(n)),
        dec_u32(n).len() >= 1,
        n < 10 ==> dec_u32(n).len() == 1,
        n >= 1 ==> dec_u32(n)[0] != 48,
        n >= 10 ==> dec_u32(n).len() >= 2,
    decreases n,
{
    if n >= 10 {
        lemma_dec_u32_digits(n / 10);
        let d = dec_u32(n);
        let h = dec_u32(n / 10);
        assert(d == h + seq![(48 + n % 10) as u8]);
        assert(d[0] == h[0]);
        assert forall|i: int| 0 <= i < d.len() implies is_digit(#[trigger] d[i]) by {
            if i < h.len() {
                assert(d[i] == h[i]);
            }
        }
    }
}

/// At most `k` digits are needed below `pow10(k)`.
pub proof fn lemma_dec_u32_len(n: int, k: nat)
    requires
        0 <= n < pow10(k),
        1 <= k,
    ensures
        dec_u32(n).len() <= k,
    decreases k,
{
    if n >= 10 {
        assert(pow10(k) == 10 * pow10((k - 1) as nat));
        lemma_dec_u32_len(n / 10, (k - 1) as nat);
    }
}

/// The digit string of `n` evaluates back to `n`.
pub proof fn lemma_digits_val(n: int)
    requires
        0 <= n,
    ensures
        digits_val(dec_u32(n)) == n,
    decreases n,
{
    vstd::arithmetic::div_mod::lemma_fundamental_div_mod(n, 10);
    if n < 10 {
        let d = dec_u32(n);
        assert(d.take(0) =~= Seq::<u8>::empty());
        assert(digits_val(d) == digits_val(d.take(0)) * 10 + (d[0] - 48));
    } else {
        lemma_digits_val(n / 10);
        let d = dec_u32(n);
        let h = dec_u32(n / 10);
        assert(d.take(d.len() - 1) =~= h);
        assert(digits_val(d) == digits_val(h) * 10 + (d[d.len() - 1] - 48));
    }
}

/// The value of a digit string is bounded by `pow10` of its length.
pub proof fn lemma_digits_val_bound(d: Seq<u8>)
    requires
        all_digits(d),
    ensures
        0 <= digits_val(d) < pow10(d.len()),
    decreases d.len(),
{
    if d.len() > 0 {
        let h = d.take(d.len() - 1);
        assert(all_digits(h));
        lemma_digits_val_bound(h);
        assert(pow10(d.len()) == 10 * pow10((d.len() - 1) as nat));
    }
}

/// A digit run followed by a non-digit splits exactly.
pub proof fn lemma_take_digits_split(d: Seq<u8>, rest: Seq<u8>)
    requires
        all_digits(d),
        rest.len() == 0 || !is_digit(rest[0]),
    ensures
        take_digits(d + rest) == (d, rest),
    decreases d.len(),
{
    if d.len() == 0 {
        assert(d + rest =~= rest);
    } else {
        let s = d + rest;
        assert(s[0] == d[0] && is_digit(d[0]));
        assert(s.skip(1) =~= d.skip(1) + rest);
        assert(all_digits(d.skip(1)));
        lemma_take_digits_split(d.skip(1), rest);
        assert(seq![s[0]] + d.skip(1) =~= d);
    }
}

/// Parsing the canonical digits of `n` restores `n` and the rest.
pub proof fn lemma_parse_u32_round(n: u32, rest: Seq<u8>)
    requires
        rest.len() == 0 || !is_digit(rest[0]),
    ensures
        parse_u32(dec_u32(n as int) + rest) == Option::Some((n, rest)),
{
    let d = dec_u32(n as int);
    lemma_dec_u32_digits(n as int);
    lemma_take_digits_split(d, rest);
    lemma_digits_val(n as int);
    assert(pow10(10) == 10000000000) by {
        reveal_with_fuel(pow10, 11);
    }
    lemma_dec_u32_len(n as int, 10);
}

/// A clean token followed by a quote parses back exactly.
pub proof fn lemma_parse_token_round(tok: Seq<u8>, rest: Seq<u8>)
    requires
        clean(tok),
    ensures
        parse_token(tok + seq![34u8] + rest) == Option::Some((tok, rest)),
    decreases tok.len(),
{
    let s = tok + seq![34u8] + rest;
    if tok.len() == 0 {
        assert(s[0] == 34);
        assert(s.skip(1) =~= rest);
    } else {
        assert(s[0] == tok[0]);
        assert(clean_byte(tok[0]));
        assert(tok[0] != 34);
        assert(s.skip(1) =~= tok.skip(1) + seq![34u8] + rest);
        assert(clean(tok.skip(1)));
        lemma_parse_token_round(tok.skip(1), rest);
        assert(seq![s[0]] + tok.skip(1) =~= tok);
    }
}

/// A sequence of clean bytes with no quote has no parse.
pub proof fn lemma_parse_token_no_quote(s: Seq<u8>)
    requires
        forall|i: int| 0 <= i < s.len() ==> clean_byte(#[trigger] s[i]),
    ensures
        parse_token(s) is None,
    decreases s.len(),
{
    if s.len() > 0 {
        assert(clean_byte(s[0]) && s[0] != 34);
        assert(forall|i: int| 0 <= i < s.skip(1).len() ==> clean_byte(#[trigger] s.skip(1)[i]));
        lemma_parse_token_no_quote(s.skip(1));
    }
}

/// A dirty byte before any quote stops the parse.
pub proof fn lemma_parse_token_dirty(s: Seq<u8>, m: int)
    requires
        0 <= m < s.len(),
        forall|i: int| 0 <= i < m ==> clean_byte(#[trigger] s[i]),
        !clean_byte(s[m]),
        s[m] != 34,
    ensures
        parse_token(s) is None,
    decreases m,
{
    if m == 0 {
    } else {
        assert(clean_byte(s[0]) && s[0] != 34);
        assert(s.skip(1)[m - 1] == s[m]);
        assert(forall|i: int| 0 <= i < m - 1 ==> clean_byte(#[trigger] s.skip(1)[i]));
        lemma_parse_token_dirty(s.skip(1), m - 1);
    }
}

/// A literal prefixes its own concatenation, leaving the rest.
pub proof fn lemma_prefix(pre: Seq<u8>, rest: Seq<u8>)
    ensures
        starts_with(pre + rest, pre),
        (pre + rest).skip(pre.len() as int) == rest,
{
    assert((pre + rest).take(pre.len() as int) =~= pre);
    assert((pre + rest).skip(pre.len() as int) =~= rest);
}

/// Match `lit` at position `i` of `s`.
pub fn expect_at(s: &Vec<u8>, i: usize, lit: &Vec<u8>) -> (r: Option<usize>)
    requires
        i <= s@.len(),
    ensures
        match r {
            Some(j) => starts_with(s@.skip(i as int), lit@) && j == i + lit@.len() && j <= s@.len(),
            None => !starts_with(s@.skip(i as int), lit@),
        },
{
    if s.len() - i < lit.len() {
        return None;
    }
    let mut m: usize = 0;
    while m < lit.len()
        invariant
            s@.len() <= usize::MAX,
            i + lit@.len() <= s@.len(),
            m <= lit@.len(),
            forall|x: int| 0 <= x < m ==> s@[i + x] == lit@[x],
        decreases lit.len() - m,
    {
        if s[i + m] != lit[m] {
            proof {
                assert(s@.skip(i as int).take(lit@.len() as int)[m as int] == s@[i + m]);
            }
            return None;
        }
        m = m + 1;
    }
    proof {
        assert(s@.skip(i as int).take(lit@.len() as int) =~= lit@);
    }
    Some(i + lit.len())
}

/// Parse a quoted field body starting at `i`; on success the returned
/// position stands after the closing quote.
pub fn parse_token_at(s: &Vec<u8>, i: usize) -> (r: Option<(Vec<u8>, usize)>)
    requires
        i <= s@.len(),
    ensures
        match r {
            Some(t) => parse_token(s@.skip(i as int)) == Option::Some((t.0@, s@.skip(t.1 as int)))
                && i <= t.1 <= s@.len() && clean(t.0@),
            None => parse_token(s@.skip(i as int)) is None,
        },
{
    let mut j: usize = i;
    while j < s.len() && s[j] != 34 && 0x20 <= s[j] && s[j] <= 0x7e && s[j] != 0x5c
        invariant
            i <= j <= s@.len(),
            forall|x: int| i <= x < j ==> clean_byte(#[trigger] s@[x]),
        decreases s.len() - j,
    {
        j = j + 1;
    }
    proof {
        let rem = s@.skip(i as int);
        assert(forall|x: int| 0 <= x < j - i ==> clean_byte(#[trigger] rem[x]));
    }
    if j == s.len() {
        proof {
            lemma_parse_token_no_quote(s@.skip(i as int));
        }
        return None;
    }
    if s[j] != 34 {
        proof {
            let rem = s@.skip(i as int);
            assert(rem[j - i] == s@[j as int]);
            assert(!clean_byte(s@[j as int]));
            lemma_parse_token_dirty(rem, j - i);
        }
        return None;
    }
    let mut tok: Vec<u8> = Vec::new();
    let mut m: usize = i;
    while m < j
        invariant
            i <= m <= j <= s@.len(),
            tok@ == s@.subrange(i as int, m as int),
        decreases j - m,
    {
        tok.push(s[m]);
        m = m + 1;
        proof {
            assert(s@.subrange(i as int, m as int)
                =~= s@.subrange(i as int, m - 1) + seq![s@[m - 1]]);
        }
    }
    proof {
        let rem = s@.skip(i as int);
        assert(clean(tok@));
        assert(rem =~= tok@ + seq![34u8] + s@.skip(j + 1));
        lemma_parse_token_round(tok@, s@.skip(j + 1));
    }
    Some((tok, j + 1))
}

/// Parse a canonical `u32` starting at `i`.
pub fn parse_u32_at(s: &Vec<u8>, i: usize) -> (r: Option<(u32, usize)>)
    requires
        i <= s@.len(),
    ensures
        match r {
            Some(t) => parse_u32(s@.skip(i as int)) == Option::Some((t.0, s@.skip(t.1 as int)))
                && i <= t.1 <= s@.len(),
            None => parse_u32(s@.skip(i as int)) is None,
        },
{
    let mut j: usize = i;
    while j < s.len() && 48 <= s[j] && s[j] <= 57
        invariant
            i <= j <= s@.len(),
            forall|x: int| i <= x < j ==> is_digit(#[trigger] s@[x]),
        decreases s.len() - j,
    {
        j = j + 1;
    }
    proof {
        let rem = s@.skip(i as int);
        let d = s@.subrange(i as int, j as int);
        assert(all_digits(d));
        assert(rem =~= d + s@.skip(j as int));
        let tail = s@.skip(j as int);
        assert(tail.len() == 0 || !is_digit(tail[0]));
        lemma_take_digits_split(d, tail);
    }
    let count = j - i;
    if count == 0 || count > 10 {
        return None;
    }
    if count > 1 && s[i] == 48 {
        return None;
    }
    let mut acc: u64 = 0;
    let mut m: usize = i;
    while m < j
        invariant
            i <= m <= j <= s@.len(),
            j - i <= 10,
            forall|x: int| i <= x < j ==> is_digit(#[trigger] s@[x]),
            acc == digits_val(s@.subrange(i as int, m as int)),
            acc < 10000000000,
        decreases j - m,
    {
        proof {
            let d0 = s@.subrange(i as int, m as int);
            let d1 = s@.subrange(i as int, m + 1);
            assert(d1.take(d1.len() - 1) =~= d0);
            assert(all_digits(d1));
            lemma_digits_val_bound(d1);
            assert(d1.len() <= 10);
            lemma_pow10_mono(d1.len(), 10);
            assert(pow10(10) == 10000000000) by {
                reveal_with_fuel(pow10, 11);
            }
        }
        acc = acc * 10 + ((s[m] - 48) as u64);
        m = m + 1;
    }
    if acc > 0xffff_ffff {
        return None;
    }
    proof {
        assert(s@.subrange(i as int, j as int) == s@.subrange(i as int, m as int));
    }
    Some((acc as u32, j))
}

/// `pow10` is monotone in its exponent.
pub proof fn lemma_pow10_mono(a: nat, b: nat)
    requires
        a <= b,
    ensures
        pow10(a) <= pow10(b),
        pow10(a) >= 1,
    decreases b,
{
    if a < b {
        lemma_pow10_mono(a, (b - 1) as nat);
    } else if b > 0 {
        lemma_pow10_mono((a - 1) as nat, (b - 1) as nat);
    }
}

/// The text `{` as bytes.
pub open spec fn lit_obj_open() -> Seq<u8> {
    seq![123u8]
}

/// Build the `lit_obj_open` literal.
pub fn make_lit_obj_open() -> (v: Vec<u8>)
    ensures
        v@ == lit_obj_open(),
{
    let mut v: Vec<u8> = Vec::new();
    v.push(123);
    proof {
        assert(v@ =~= lit_obj_open());
    }
    v
}

/// The text `}` as bytes.
pub open spec fn lit_obj_close() -> Seq<u8> {
    seq![125u8]
}

/// Build the `lit_obj_close` literal.
pub fn make_lit_obj_close() -> (v: Vec<u8>)
    ensures
        v@ == lit_obj_close(),
{
    let mut v: Vec<u8> = Vec::new();
    v.push(125);
    proof {
        assert(v@ =~= lit_obj_close());
    }
    v
}

/// The text `"` as bytes.
pub open spec fn lit_quote() -> Seq<u8> {
    seq![34u8]
}

/// Build the `lit_quote` literal.
pub fn make_lit_quote() -> (v: Vec<u8>)
    ensures
        v@ == lit_quote(),
{
    let mut v: Vec<u8> = Vec::new();
    v.push(34);
    proof {
        assert(v@ =~= lit_quote());
    }
    v
}

/// The text `,` as bytes.
pub open spec fn lit_comma() -> Seq<u8> {
    seq![44u8]
}

/// Build the `lit_comma` literal.
pub fn make_lit_comma() -> (v: Vec<u8>)
    ensures
        v@ == lit_comma(),
{
    let mut v: Vec<u8> = Vec::new();
    v.push(44);
    proof {
        assert(v@ =~= lit_comma());
    }
    v
}

/// The text `"hostname":"` as bytes.
pub open spec fn lit_hostname_key() -> Seq<u8> {
    seq![34u8, 104, 111, 115, 116, 110, 97, 109, 101, 34, 58, 34]
}

/// Build the `lit_hostname_key` literal.
pub fn make_lit_hostname_key() -> (v: Vec<u8>)
    ensures
        v@ == lit_hostname_key(),
{
    let mut v: Vec<u8> = Vec::new();
    v.push(34);
    v.push(104);
    v.push(111);
    v.push(115);
    v.push(116);
    v.push(110);
    v.push(97);
    v.push(109);
    v.push(101);
    v.push(34);
    v.push(58);
    v.push(34);
    proof {
        assert(v@ =~= lit_hostname_key());
    }
    v
}

/// The text `"username":"` as bytes.
pub open spec fn lit_username_key() -> Seq<u8> {
    seq![34u8, 117, 115, 101, 114, 110, 97, 109, 101, 34, 58, 34]
}

/// Build the `lit_username_key` literal.
pub fn make_lit_username_key() -> (v: Vec<u8>)
    ensures
        v@ == lit_username_key(),
{
    let mut v: Vec<u8> = Vec::new();
    v.push(34);
    v.push(117);
    v.push(115);
    v.push(101);
    v.push(114);
    v.push(110);
    v.push(97);
    v.push(109);
    v.push(101);
    v.push(34);
    v.push(58);
    v.push(34);
    proof {
        assert(v@ =~= lit_username_key());
    }
    v
}

/// The text `"created":"` as bytes.
pub open spec fn lit_created_key() -> Seq<u8> {
    seq![34u8, 99, 114, 101, 97, 116, 101, 100, 34, 58, 34]
}

/// Build the `lit_created_key` literal.
pub fn make_lit_created_key() -> (v: Vec<u8>)
    ensures
        v@ == lit_created_key(),
{
    let mut v: Vec<u8> = Vec::new();
    v.push(34);
    v.push(99);
    v.push(114);
    v.push(101);
    v.push(97);
    v.push(116);
    v.push(101);
    v.push(100);
    v.push(34);
    v.push(58);
    v.push(34);
    proof {
        assert(v@ =~= lit_created_key());
    }
    v
}

/// The text `"kdf":"` as bytes.
pub open spec fn lit_kdf_key() -> Seq<u8> {
    seq![34u8, 107, 100, 102, 34, 58, 34]
}

/// Build the `lit_kdf_key` literal.
pub fn make_lit_kdf_key() -> (v: Vec<u8>)
    ensures
        v@ == lit_kdf_key(),
{
    let mut v: Vec<u8> = Vec::new();
    v.push(34);
    v.push(107);
    v.push(100);
    v.push(102);
    v.push(34);
    v.push(58);
    v.push(34);
    proof {
        assert(v@ =~= lit_kdf_key());
    }
    v
}

/// The text `,"N":` as bytes.
pub open spec fn lit_n_key() -> Seq<u8> {
    seq![44u8, 34, 78, 34, 58]
}

/// Build the `lit_n_key` literal.
pub fn make_lit_n_key() -> (v: Vec<u8>)
    ensures
        v@ == lit_n_key(),
{
    let mut v: Vec<u8> = Vec::new();
    v.push(44);
    v.push(34);
    v.push(78);
    v.push(34);
    v.push(58);
    proof {
        assert(v@ =~= lit_n_key());
    }
    v
}

/// The text `,"r":` as bytes.
pub open spec fn lit_r_key() -> Seq<u8> {
    seq![44u8, 34, 114, 34, 58]
}

/// Build the `lit_r_key` literal.
pub fn make_lit_r_key() -> (v: Vec<u8>)
    ensures
        v@ == lit_r_key(),
{
    let mut v: Vec<u8> = Vec::new();
    v.push(44);
    v.push(34);
    v.push(114);
    v.push(34);
    v.push(58);
    proof {
        assert(v@ =~= lit_r_key());
    }
    v
}

/// The text `,"p":` as bytes.
pub open spec fn lit_p_key() -> Seq<u8> {
    seq![44u8, 34, 112, 34, 58]
}

/// Build the `lit_p_key` literal.
pub fn make_lit_p_key() -> (v: Vec<u8>)
    ensures
        v@ == lit_p_key(),
{
    let mut v: Vec<u8> = Vec::new();
    v.push(44);
    v.push(34);
    v.push(112);
    v.push(34);
    v.push(58);
    proof {
        assert(v@ =~= lit_p_key());
    }
    v
}

/// The text `,"data":"` as bytes.
pub open spec fn lit_data_key() -> Seq<u8> {
    seq![44u8, 34, 100, 97, 116, 97, 34, 58, 34]
}

/// Build the `lit_data_key` literal.
pub fn make_lit_data_key() -> (v: Vec<u8>)
    ensures
        v@ == lit_data_key(),
{
    let mut v: Vec<u8> = Vec::new();
    v.push(44);
    v.push(34);
    v.push(100);
    v.push(97);
    v.push(116);
    v.push(97);
    v.push(34);
    v.push(58);
    v.push(34);
    proof {
        assert(v@ =~= lit_data_key());
    }
    v
}

/// The text `,"salt":"` as bytes.
pub open spec fn lit_salt_key() -> Seq<u8> {
    seq![44u8, 34, 115, 97, 108, 116, 34, 58, 34]
}

/// Build the `lit_salt_key` literal.
pub fn make_lit_salt_key() -> (v: Vec<u8>)
    ensures
        v@ == lit_salt_key(),
{
    let mut v: Vec<u8> = Vec::new();
    v.push(44);
    v.push(34);
    v.push(115);
    v.push(97);
    v.push(108);
    v.push(116);
    v.push(34);
    v.push(58);
    v.push(34);
    proof {
        assert(v@ =~= lit_salt_key());
    }
    v
}

/// The text `{"mac":{"k":"` as bytes.
pub open spec fn lit_mac_open() -> Seq<u8> {
    seq![123u8, 34, 109, 97, 99, 34, 58, 123, 34, 107, 34, 58, 34]
}

/// Build the `lit_mac_open` literal.
pub fn make_lit_mac_open() -> (v: Vec<u8>)
    ensures
        v@ == lit_mac_open(),
{
    let mut v: Vec<u8> = Vec::new();
    v.push(123);
    v.push(34);
    v.push(109);
    v.push(97);
    v.push(99);
    v.push(34);
    v.push(58);
    v.push(123);
    v.push(34);
    v.push(107);
    v.push(34);
    v.push(58);
    v.push(34);
    proof {
        assert(v@ =~= lit_mac_open());
    }
    v
}

/// The text `,"r":"` as bytes.
pub open spec fn lit_mac_r_key() -> Seq<u8> {
    seq![44u8, 34, 114, 34, 58, 34]
}

/// Build the `lit_mac_r_key` literal.
pub fn make_lit_mac_r_key() -> (v: Vec<u8>)
    ensures
        v@ == lit_mac_r_key(),
{
    let mut v: Vec<u8> = Vec::new();
    v.push(44);
    v.push(34);
    v.push(114);
    v.push(34);
    v.push(58);
    v.push(34);
    proof {
        assert(v@ =~= lit_mac_r_key());
    }
    v
}

/// The text `},"encrypt":"` as bytes.
pub open spec fn lit_encrypt_key() -> Seq<u8> {
    seq![125u8, 44, 34, 101, 110, 99, 114, 121, 112, 116, 34, 58, 34]
}

/// Build the `lit_encrypt_key` literal.
pub fn make_lit_encrypt_key() -> (v: Vec<u8>)
    ensures
        v@ == lit_encrypt_key(),
{
    let mut v: Vec<u8> = Vec::new();
    v.push(125);
    v.push(44);
    v.push(34);
    v.push(101);
    v.push(110);
    v.push(99);
    v.push(114);
    v.push(121);
    v.push(112);
    v.push(116);
    v.push(34);
    v.push(58);
    v.push(34);
    proof {
        assert(v@ =~= lit_encrypt_key());
    }
    v
}

} // verus!
