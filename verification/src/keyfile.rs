//! Key records: the persisted structure protecting the master key, its
//! canonical byte format, and the operations that generate records and
//! recover the master key from them.

use vstd::prelude::*;
use crate::error::KeyFileError;
use crate::bytes::{clean, append_bytes};
use crate::base64::{b64_enc, b64_dec, b64_encode, b64_decode, lemma_enc_clean, lemma_b64_round_trip};
use crate::crypto::{Key, KeyV, wf_key, seal_spec, unseal_spec};
use crate::envelope::{
    MasterKey, enc_env, parse_env, env_key, env_of_key, encode_envelope, parse_envelope,
};
use crate::kdf::{
    derived_key_of, kdf_params_valid, random_salt, lemma_recommended_params, is_pow2,
};
use crate::jsontext::{
    starts_with, parse_token, parse_u32, dec_u32, is_digit, lemma_prefix, lemma_parse_token_round,
    lemma_parse_u32_round, expect_at, parse_token_at, parse_u32_at, lit_obj_open, lit_obj_close,
    lit_comma, lit_hostname_key, lit_username_key, lit_created_key, lit_kdf_key, lit_n_key,
    lit_r_key, lit_p_key, lit_data_key, lit_salt_key, make_lit_obj_open, make_lit_obj_close,
    make_lit_comma, make_lit_hostname_key, make_lit_username_key, make_lit_created_key,
    make_lit_kdf_key, make_lit_n_key, make_lit_r_key, make_lit_p_key, make_lit_data_key,
    make_lit_salt_key,
};

verus! {

/// The mathematical value of a [`KeyFile`].
pub ghost struct KeyFileV {
    pub hostname: Option<Seq<u8>>,
    pub username: Option<Seq<u8>>,
    pub created: Option<Seq<u8>>,
    pub kdf: Seq<u8>,
    pub n: u32,
    pub r: u32,
    pub p: u32,
    pub data: Seq<u8>,
    pub salt: Seq<u8>,
}

/// A stored key record: provenance metadata, the derivation function
/// name and cost parameters, the salt, and the sealed envelope.
#[derive(Debug)]
pub struct KeyFile {
    /// Hostname where the key was created.
    pub hostname: Option<Vec<u8>>,
    /// User which created the key.
    pub username: Option<Vec<u8>>,
    /// Creation time of the key, as timestamp text.
    pub created: Option<Vec<u8>>,
    /// The used key derivation function.
    pub kdf: Vec<u8>,
    /// The linear cost value of the derivation function.
    pub n: u32,
    /// The block-size parameter of the derivation function.
    pub r: u32,
    /// The parallelism parameter of the derivation function.
    pub p: u32,
    /// The sealed envelope holding the master key.
    pub data: Vec<u8>,
    /// The salt used by the derivation function.
    pub salt: Vec<u8>,
}

/// The value of an optional byte field.
pub open spec fn opt_view(o: Option<Vec<u8>>) -> Option<Seq<u8>> {
    match o {
        Option::Some(v) => Option::Some(v@),
        Option::None => Option::None,
    }
}

impl View for KeyFile {
    type V = KeyFileV;

    open spec fn view(&self) -> KeyFileV {
        KeyFileV {
            hostname: opt_view(self.hostname),
            username: opt_view(self.username),
            created: opt_view(self.created),
            kdf: self.kdf@,
            n: self.n,
            r: self.r,
            p: self.p,
            data: self.data@,
            salt: self.salt@,
        }
    }
}

/// The name of the one supported derivation function.
pub open spec fn kdf_name() -> Seq<u8> {
    seq![115u8, 99, 114, 121, 112, 116]
}

/// Build the derivation-function name.
pub fn make_kdf_name() -> (v: Vec<u8>)
    ensures
        v@ == kdf_name(),
{
    let mut v: Vec<u8> = Vec::new();
    v.push(115);
    v.push(99);
    v.push(114);
    v.push(121);
    v.push(112);
    v.push(116);
    proof {
        assert(v@ =~= kdf_name());
    }
    v
}

/// A record is encodable when its textual fields are clean.
pub open spec fn wf_record(rv: KeyFileV) -> bool {
    &&& clean(rv.kdf)
    &&& match rv.hostname {
        Option::Some(v) => clean(v),
        Option::None => true,
    }
    &&& match rv.username {
        Option::Some(v) => clean(v),
        Option::None => true,
    }
    &&& match rv.created {
        Option::Some(v) => clean(v),
        Option::None => true,
    }
}

/// Encoding of one optional text field with its trailing comma.
pub open spec fn opt_part(o: Option<Seq<u8>>, key: Seq<u8>) -> Seq<u8> {
    match o {
        Option::Some(v) => key + (v + seq![34u8, 44u8]),
        Option::None => Seq::empty(),
    }
}

/// Canonical encoding of a key record.
pub open spec fn enc_record(rv: KeyFileV) -> Seq<u8> {
    lit_obj_open() + (opt_part(rv.hostname, lit_hostname_key()) + (opt_part(
        rv.username,
        lit_username_key(),
    ) + (opt_part(rv.created, lit_created_key()) + enc_record_tail(rv))))
}

/// The required fields of the record encoding.
pub open spec fn enc_record_tail(rv: KeyFileV) -> Seq<u8> {
    lit_kdf_key() + (rv.kdf + (seq![34u8] + (lit_n_key() + (dec_u32(rv.n as int) + (lit_r_key()
        + (dec_u32(rv.r as int) + (lit_p_key() + (dec_u32(rv.p as int) + (lit_data_key()
        + (b64_enc(rv.data) + (seq![34u8] + (lit_salt_key() + (b64_enc(rv.salt) + (seq![34u8]
        + lit_obj_close()))))))))))))))
}

/// Parse of one optional text field: present when its key literal
/// stands here, absent otherwise.
pub open spec fn parse_opt(s: Seq<u8>, key: Seq<u8>) -> Option<(Option<Seq<u8>>, Seq<u8>)> {
    if starts_with(s, key) {
        match parse_token(s.skip(key.len() as int)) {
            Option::Some((t, r)) => if starts_with(r, lit_comma()) {
                Option::Some((Option::Some(t), r.skip(1)))
            } else {
                Option::None
            },
            Option::None => Option::None,
        }
    } else {
        Option::Some((Option::None, s))
    }
}

/// Strict parse of a key record; `None` on any departure from the
/// canonical form.
pub open spec fn parse_record(s: Seq<u8>) -> Option<KeyFileV> {
    if !starts_with(s, lit_obj_open()) {
        Option::None
    } else {
        match parse_opt(s.skip(1), lit_hostname_key()) {
            Option::None => Option::None,
            Option::Some((hostname, s2)) => match parse_opt(s2, lit_username_key()) {
                Option::None => Option::None,
                Option::Some((username, s3)) => match parse_opt(s3, lit_created_key()) {
                    Option::None => Option::None,
                    Option::Some((created, s4)) => parse_record_tail(s4, hostname, username, created),
                },
            },
        }
    }
}

/// Parse of the required fields of a record.
pub open spec fn parse_record_tail(
    s4: Seq<u8>,
    hostname: Option<Seq<u8>>,
    username: Option<Seq<u8>>,
    created: Option<Seq<u8>>,
) -> Option<KeyFileV> {
    if !starts_with(s4, lit_kdf_key()) {
        Option::None
    } else {
        match parse_token(s4.skip(lit_kdf_key().len() as int)) {
            Option::None => Option::None,
            Option::Some((kdftok, s5)) => if !starts_with(s5, lit_n_key()) {
                Option::None
            } else {
                match parse_u32(s5.skip(lit_n_key().len() as int)) {
                    Option::None => Option::None,
                    Option::Some((nv, s6)) => if !starts_with(s6, lit_r_key()) {
                        Option::None
                    } else {
                        match parse_u32(s6.skip(lit_r_key().len() as int)) {
                            Option::None => Option::None,
                            Option::Some((rv2, s7)) => if !starts_with(s7, lit_p_key()) {
                                Option::None
                            } else {
                                match parse_u32(s7.skip(lit_p_key().len() as int)) {
                                    Option::None => Option::None,
                                    Option::Some((pv, s8)) => if !starts_with(s8, lit_data_key()) {
                                        Option::None
                                    } else {
                                        match parse_token(s8.skip(lit_data_key().len() as int)) {
                                            Option::None => Option::None,
                                            Option::Some((dtok, s9)) => match b64_dec(dtok) {
                                                Option::None => Option::None,
                                                Option::Some(data) => if !starts_with(
                                                    s9,
                                                    lit_salt_key(),
                                                ) {
                                                    Option::None
                                                } else {
                                                    match parse_token(
                                                        s9.skip(lit_salt_key().len() as int),
                                                    ) {
                                                        Option::None => Option::None,
                                                        Option::Some((stok, s10)) => match b64_dec(
                                                            stok,
                                                        ) {
                                                            Option::None => Option::None,
                                                            Option::Some(salt) => if s10
                                                                == lit_obj_close() {
                                                                Option::Some(
                                                                    KeyFileV {
                                                                        hostname,
                                                                        username,
                                                                        created,
                                                                        kdf: kdftok,
                                                                        n: nv,
                                                                        r: rv2,
                                                                        p: pv,
                                                                        data,
                                                                        salt,
                                                                    },
                                                                )
                                                            } else {
                                                                Option::None
                                                            },
                                                        },
                                                    }
                                                },
                                            },
                                        }
                                    },
                                }
                            },
                        }
                    },
                }
            },
        }
    }
}

/// A sequence whose second byte differs cannot start with `key`.
proof fn lemma_prefix_mismatch(s: Seq<u8>, key: Seq<u8>)
    requires
        key.len() >= 2,
        s.len() < key.len() || s[1] != key[1],
    ensures
        !starts_with(s, key),
{
    if starts_with(s, key) {
        assert(s.take(key.len() as int)[1] == s[1]);
    }
}

/// The parse of one present optional field.
proof fn lemma_parse_opt_some(v: Seq<u8>, key: Seq<u8>, rest: Seq<u8>)
    requires
        clean(v),
        key.len() >= 2,
    ensures
        parse_opt(opt_part(Option::Some(v), key) + rest, key) == Option::Some(
            (Option::Some(v), rest),
        ),
{
    let s = opt_part(Option::Some(v), key) + rest;
    let inner = v + seq![34u8] + (seq![44u8] + rest);
    assert(s =~= key + inner);
    lemma_prefix(key, inner);
    lemma_parse_token_round(v, seq![44u8] + rest);
    lemma_prefix(seq![44u8], rest);
    assert(seq![44u8] + rest =~= lit_comma() + rest);
    assert(starts_with(seq![44u8] + rest, lit_comma()));
    assert((seq![44u8] + rest).skip(1) == rest);
}

/// The parse of one absent optional field, given the rest opens with a
/// different second byte.
proof fn lemma_parse_opt_none(s: Seq<u8>, key: Seq<u8>)
    requires
        key.len() >= 2,
        s.len() < key.len() || s[1] != key[1],
    ensures
        parse_opt(s, key) == Option::Some((Option::None::<Seq<u8>>, s)),
{
    lemma_prefix_mismatch(s, key);
}

/// Round trip: an encodable record parses back from its encoding, every
/// field preserved, absent metadata staying absent.
#[verifier::rlimit(100)]
pub proof fn lemma_record_round_trip(rv: KeyFileV)
    requires
        wf_record(rv),
    ensures
        parse_record(enc_record(rv)) == Option::Some(rv),
{
    let tail = enc_record_tail(rv);
    let oc = opt_part(rv.created, lit_created_key());
    let ou = opt_part(rv.username, lit_username_key());
    let oh = opt_part(rv.hostname, lit_hostname_key());
    let s1 = oh + (ou + (oc + tail));
    let s2 = ou + (oc + tail);
    let s3 = oc + tail;
    let s = enc_record(rv);
    lemma_prefix(lit_obj_open(), s1);
    assert(s.skip(1) == s1);
    // the hostname field
    if rv.hostname is Some {
        let v = rv.hostname.unwrap();
        assert(s1 =~= opt_part(rv.hostname, lit_hostname_key()) + s2);
        lemma_parse_opt_some(v, lit_hostname_key(), s2);
    } else {
        assert(s1 =~= s2);
        assert(s2.len() >= 2 && s3.len() >= 2 && tail.len() >= 2);
        if rv.username is Some {
            assert(s2[1] == lit_username_key()[1]);
        } else if rv.created is Some {
            assert(s2 =~= s3);
            assert(s2[1] == lit_created_key()[1]);
        } else {
            assert(s2 =~= tail);
            assert(s2[1] == lit_kdf_key()[1]);
        }
        lemma_parse_opt_none(s1, lit_hostname_key());
    }
    // the username field
    if rv.username is Some {
        let v = rv.username.unwrap();
        assert(s2 =~= opt_part(rv.username, lit_username_key()) + s3);
        lemma_parse_opt_some(v, lit_username_key(), s3);
    } else {
        assert(s2 =~= s3);
        if rv.created is Some {
            assert(s2[1] == lit_created_key()[1]);
        } else {
            assert(s2 =~= tail);
            assert(s2[1] == lit_kdf_key()[1]);
        }
        lemma_parse_opt_none(s2, lit_username_key());
    }
    // the created field
    if rv.created is Some {
        let v = rv.created.unwrap();
        assert(s3 =~= opt_part(rv.created, lit_created_key()) + tail);
        lemma_parse_opt_some(v, lit_created_key(), tail);
    } else {
        assert(s3 =~= tail);
        assert(s3[1] == lit_kdf_key()[1]);
        lemma_parse_opt_none(s3, lit_created_key());
    }
    lemma_record_tail_round_trip(rv);
}

/// Round trip of the required fields.
proof fn lemma_record_tail_round_trip(rv: KeyFileV)
    requires
        wf_record(rv),
    ensures
        parse_record_tail(enc_record_tail(rv), rv.hostname, rv.username, rv.created)
            == Option::Some(rv),
{
    let tail = enc_record_tail(rv);
    let d64 = b64_enc(rv.data);
    let s64 = b64_enc(rv.salt);
    lemma_enc_clean(rv.data);
    lemma_enc_clean(rv.salt);
    lemma_b64_round_trip(rv.data);
    lemma_b64_round_trip(rv.salt);
    let r1 = rv.kdf + (seq![34u8] + (lit_n_key() + (dec_u32(rv.n as int) + (lit_r_key() + (dec_u32(
        rv.r as int,
    ) + (lit_p_key() + (dec_u32(rv.p as int) + (lit_data_key() + (d64 + (seq![34u8]
        + (lit_salt_key() + (s64 + (seq![34u8] + lit_obj_close())))))))))))));
    lemma_prefix(lit_kdf_key(), r1);
    let r2 = lit_n_key() + (dec_u32(rv.n as int) + (lit_r_key() + (dec_u32(rv.r as int) + (
    lit_p_key() + (dec_u32(rv.p as int) + (lit_data_key() + (d64 + (seq![34u8] + (lit_salt_key()
        + (s64 + (seq![34u8] + lit_obj_close())))))))))));
    assert(r1 =~= rv.kdf + seq![34u8] + r2);
    lemma_parse_token_round(rv.kdf, r2);
    let r3 = dec_u32(rv.n as int) + (lit_r_key() + (dec_u32(rv.r as int) + (lit_p_key() + (dec_u32(
        rv.p as int,
    ) + (lit_data_key() + (d64 + (seq![34u8] + (lit_salt_key() + (s64 + (seq![34u8]
        + lit_obj_close()))))))))));
    lemma_prefix(lit_n_key(), r3);
    let r4 = lit_r_key() + (dec_u32(rv.r as int) + (lit_p_key() + (dec_u32(rv.p as int) + (
    lit_data_key() + (d64 + (seq![34u8] + (lit_salt_key() + (s64 + (seq![34u8]
        + lit_obj_close())))))))));
    assert(r3 =~= dec_u32(rv.n as int) + r4);
    assert(!is_digit(r4[0]));
    lemma_parse_u32_round(rv.n, r4);
    let r5 = dec_u32(rv.r as int) + (lit_p_key() + (dec_u32(rv.p as int) + (lit_data_key() + (d64
        + (seq![34u8] + (lit_salt_key() + (s64 + (seq![34u8] + lit_obj_close()))))))));
    lemma_prefix(lit_r_key(), r5);
    let r6 = lit_p_key() + (dec_u32(rv.p as int) + (lit_data_key() + (d64 + (seq![34u8] + (
    lit_salt_key() + (s64 + (seq![34u8] + lit_obj_close())))))));
    assert(r5 =~= dec_u32(rv.r as int) + r6);
    assert(!is_digit(r6[0]));
    lemma_parse_u32_round(rv.r, r6);
    let r7 = dec_u32(rv.p as int) + (lit_data_key() + (d64 + (seq![34u8] + (lit_salt_key() + (s64
        + (seq![34u8] + lit_obj_close()))))));
    lemma_prefix(lit_p_key(), r7);
    let r8 = lit_data_key() + (d64 + (seq![34u8] + (lit_salt_key() + (s64 + (seq![34u8]
        + lit_obj_close())))));
    assert(r7 =~= dec_u32(rv.p as int) + r8);
    assert(!is_digit(r8[0]));
    lemma_parse_u32_round(rv.p, r8);
    let r9 = d64 + (seq![34u8] + (lit_salt_key() + (s64 + (seq![34u8] + lit_obj_close()))));
    lemma_prefix(lit_data_key(), r9);
    let r10 = lit_salt_key() + (s64 + (seq![34u8] + lit_obj_close()));
    assert(r9 =~= d64 + seq![34u8] + r10);
    lemma_parse_token_round(d64, r10);
    let r11 = s64 + (seq![34u8] + lit_obj_close());
    lemma_prefix(lit_salt_key(), r11);
    assert(r11 =~= s64 + seq![34u8] + lit_obj_close());
    lemma_parse_token_round(s64, lit_obj_close());
}

/// Whether every byte of `v` is clean.
pub fn is_clean_vec(v: &Vec<u8>) -> (r: bool)
    ensures
        r <==> clean(v@),
{
    let mut i: usize = 0;
    while i < v.len()
        invariant
            i <= v@.len(),
            forall|j: int| 0 <= j < i ==> crate::bytes::clean_byte(#[trigger] v@[j]),
        decreases v.len() - i,
    {
        let b = v[i];
        if b < 0x20 || b > 0x7e || b == 0x22 || b == 0x5c {
            proof {
                assert(!crate::bytes::clean_byte(v@[i as int]));
            }
            return false;
        }
        i = i + 1;
    }
    true
}

/// Append the canonical decimal digits of `n`.
pub fn push_u32(out: &mut Vec<u8>, n: u32)
    ensures
        final(out)@ == old(out)@ + dec_u32(n as int),
    decreases n,
{
    if n < 10 {
        out.push(48 + n as u8);
        proof {
            assert(old(out)@ + dec_u32(n as int) =~= out@);
        }
    } else {
        push_u32(out, n / 10);
        out.push(48 + (n % 10) as u8);
        proof {
            assert(old(out)@ + dec_u32(n as int) =~= out@);
        }
    }
}

/// Append an optional field with its key literal and trailing comma.
fn push_opt_field(out: &mut Vec<u8>, o: &Option<Vec<u8>>, key: &Vec<u8>)
    ensures
        final(out)@ == old(out)@ + opt_part(opt_view(*o), key@),
{
    match o {
        Some(v) => {
            append_bytes(out, key);
            append_bytes(out, v);
            out.push(34);
            out.push(44);
            proof {
                assert(out@ =~= old(out)@ + opt_part(opt_view(*o), key@));
            }
        },
        None => {
            proof {
                assert(out@ =~= old(out)@ + opt_part(opt_view(*o), key@));
            }
        },
    }
}

impl KeyFile {
    /// Encode the record canonically.  Fails with `SerializationFailed`
    /// exactly when a textual field holds a byte that cannot stand
    /// unescaped in the format.
    /// Append the required fields of the encoding.
    #[verifier::rlimit(100)]
    fn encode_tail(&self, out: &mut Vec<u8>)
        ensures
            final(out)@ == old(out)@ + enc_record_tail(self@),
    {
        let kk = make_lit_kdf_key();
        append_bytes(out, &kk);
        append_bytes(out, &self.kdf);
        out.push(34);
        let kn = make_lit_n_key();
        append_bytes(out, &kn);
        push_u32(out, self.n);
        let kr = make_lit_r_key();
        append_bytes(out, &kr);
        push_u32(out, self.r);
        let kp = make_lit_p_key();
        append_bytes(out, &kp);
        push_u32(out, self.p);
        let kd = make_lit_data_key();
        append_bytes(out, &kd);
        let d64 = b64_encode(&self.data);
        append_bytes(out, &d64);
        out.push(34);
        let ks = make_lit_salt_key();
        append_bytes(out, &ks);
        let s64 = b64_encode(&self.salt);
        append_bytes(out, &s64);
        out.push(34);
        let kz = make_lit_obj_close();
        append_bytes(out, &kz);
        proof {
            assert(out@ =~= old(out)@ + enc_record_tail(self@));
        }
    }

    /// Encode the record canonically.  Fails with `SerializationFailed`
    /// exactly when a textual field holds a byte that cannot stand
    /// unescaped in the format.
    #[verifier::rlimit(100)]
    pub fn encode_key_record(&self) -> (res: Result<Vec<u8>, KeyFileError>)
        ensures
            res is Ok <==> wf_record(self@),
            res matches Ok(out) ==> out@ == enc_record(self@),
            res matches Err(e) ==> e == KeyFileError::SerializationFailed,
    {
        if !is_clean_vec(&self.kdf) {
            return Err(KeyFileError::SerializationFailed);
        }
        match &self.hostname {
            Some(v) => if !is_clean_vec(v) {
                return Err(KeyFileError::SerializationFailed);
            },
            None => {},
        }
        match &self.username {
            Some(v) => if !is_clean_vec(v) {
                return Err(KeyFileError::SerializationFailed);
            },
            None => {},
        }
        match &self.created {
            Some(v) => if !is_clean_vec(v) {
                return Err(KeyFileError::SerializationFailed);
            },
            None => {},
        }
        let mut out = make_lit_obj_open();
        let kh = make_lit_hostname_key();
        push_opt_field(&mut out, &self.hostname, &kh);
        let ku = make_lit_username_key();
        push_opt_field(&mut out, &self.username, &ku);
        let kc = make_lit_created_key();
        push_opt_field(&mut out, &self.created, &kc);
        self.encode_tail(&mut out);
        proof {
            assert(out@ =~= enc_record(self@));
        }
        Ok(out)
    }
}

/// Parse one optional field at position `i`.
fn parse_opt_at(s: &Vec<u8>, i: usize, key: &Vec<u8>) -> (r: Option<(Option<Vec<u8>>, usize)>)
    requires
        i <= s@.len(),
    ensures
        match r {
            Some(t) => parse_opt(s@.skip(i as int), key@) == Option::Some(
                (opt_view(t.0), s@.skip(t.1 as int)),
            ) && i <= t.1 <= s@.len() && (t.0 matches Some(v) ==> clean(v@)),
            None => parse_opt(s@.skip(i as int), key@) is None,
        },
{
    let j = match expect_at(s, i, key) {
        Some(j) => j,
        None => {
            return Some((None, i));
        },
    };
    proof {
        assert(s@.skip(i as int).skip(key@.len() as int) =~= s@.skip(j as int));
    }
    let (tok, j2) = match parse_token_at(s, j) {
        Some(t) => t,
        None => {
            return None;
        },
    };
    let lc = make_lit_comma();
    let j3 = match expect_at(s, j2, &lc) {
        Some(j3) => j3,
        None => {
            return None;
        },
    };
    proof {
        assert(s@.skip(j2 as int).skip(1) =~= s@.skip(j3 as int));
    }
    Some((Some(tok), j3))
}

/// Parse a key record strictly.
pub fn parse_key_record(s: &Vec<u8>) -> (res: Option<KeyFile>)
    ensures
        match res {
            Some(rec) => parse_record(s@) == Option::Some(rec@) && wf_record(rec@),
            None => parse_record(s@) is None,
        },
{
    proof {
        assert(s@.skip(0) =~= s@);
    }
    let lo = make_lit_obj_open();
    let i1 = match expect_at(s, 0, &lo) {
        Some(i) => i,
        None => {
            return None;
        },
    };
    let kh = make_lit_hostname_key();
    let (hostname, i2) = match parse_opt_at(s, i1, &kh) {
        Some(t) => t,
        None => {
            return None;
        },
    };
    let ku = make_lit_username_key();
    let (username, i3) = match parse_opt_at(s, i2, &ku) {
        Some(t) => t,
        None => {
            return None;
        },
    };
    let kc = make_lit_created_key();
    let (created, i4) = match parse_opt_at(s, i3, &kc) {
        Some(t) => t,
        None => {
            return None;
        },
    };
    let kk = make_lit_kdf_key();
    let i5 = match expect_at(s, i4, &kk) {
        Some(i) => i,
        None => {
            return None;
        },
    };
    proof {
        assert(s@.skip(i4 as int).skip(lit_kdf_key().len() as int) =~= s@.skip(i5 as int));
    }
    let (kdftok, i6) = match parse_token_at(s, i5) {
        Some(t) => t,
        None => {
            return None;
        },
    };
    let kn = make_lit_n_key();
    let i7 = match expect_at(s, i6, &kn) {
        Some(i) => i,
        None => {
            return None;
        },
    };
    proof {
        assert(s@.skip(i6 as int).skip(lit_n_key().len() as int) =~= s@.skip(i7 as int));
    }
    let (nv, i8) = match parse_u32_at(s, i7) {
        Some(t) => t,
        None => {
            return None;
        },
    };
    let kr = make_lit_r_key();
    let i9 = match expect_at(s, i8, &kr) {
        Some(i) => i,
        None => {
            return None;
        },
    };
    proof {
        assert(s@.skip(i8 as int).skip(lit_r_key().len() as int) =~= s@.skip(i9 as int));
    }
    let (rv2, i10) = match parse_u32_at(s, i9) {
        Some(t) => t,
        None => {
            return None;
        },
    };
    let kp = make_lit_p_key();
    let i11 = match expect_at(s, i10, &kp) {
        Some(i) => i,
        None => {
            return None;
        },
    };
    proof {
        assert(s@.skip(i10 as int).skip(lit_p_key().len() as int) =~= s@.skip(i11 as int));
    }
    let (pv, i12) = match parse_u32_at(s, i11) {
        Some(t) => t,
        None => {
            return None;
        },
    };
    let kd = make_lit_data_key();
    let i13 = match expect_at(s, i12, &kd) {
        Some(i) => i,
        None => {
            return None;
        },
    };
    proof {
        assert(s@.skip(i12 as int).skip(lit_data_key().len() as int) =~= s@.skip(i13 as int));
    }
    let (dtok, i14) = match parse_token_at(s, i13) {
        Some(t) => t,
        None => {
            return None;
        },
    };
    let data = match b64_decode(&dtok) {
        Some(v) => v,
        None => {
            return None;
        },
    };
    let ks = make_lit_salt_key();
    let i15 = match expect_at(s, i14, &ks) {
        Some(i) => i,
        None => {
            return None;
        },
    };
    proof {
        assert(s@.skip(i14 as int).skip(lit_salt_key().len() as int) =~= s@.skip(i15 as int));
    }
    let (stok, i16) = match parse_token_at(s, i15) {
        Some(t) => t,
        None => {
            return None;
        },
    };
    let salt = match b64_decode(&stok) {
        Some(v) => v,
        None => {
            return None;
        },
    };
    let kz = make_lit_obj_close();
    let j = match expect_at(s, i16, &kz) {
        Some(j) => j,
        None => {
            proof {
                if s@.skip(i16 as int) == lit_obj_close() {
                    assert(s@.skip(i16 as int).take(lit_obj_close().len() as int)
                        =~= lit_obj_close());
                }
            }
            return None;
        },
    };
    if j != s.len() {
        proof {
            assert(s@.skip(i16 as int).len() == s@.len() - i16);
            assert(s@.skip(i16 as int) != lit_obj_close());
        }
        return None;
    }
    proof {
        assert(s@.skip(i16 as int) =~= lit_obj_close());
    }
    Some(KeyFile { hostname, username, created, kdf: kdftok, n: nv, r: rv2, p: pv, data, salt })
}

/// The outcome of unsealing a record's payload with a derived key:
/// `AuthenticationFailed` when the tag check rejects, and
/// `DeserializationFailed` when the plaintext is no valid envelope.
pub open spec fn unseal_outcome(rv: KeyFileV, kv: KeyV) -> Result<KeyV, KeyFileError> {
    match unseal_spec(kv, rv.data) {
        Option::None => Result::Err(KeyFileError::AuthenticationFailed),
        Option::Some(pt) => match parse_env(pt) {
            Option::None => Result::Err(KeyFileError::DeserializationFailed),
            Option::Some(env) => Result::Ok(env_key(env)),
        },
    }
}

/// The outcome of the full password-to-master-key pipeline on a record.
pub open spec fn recover_spec(rv: KeyFileV, pw: Seq<u8>) -> Result<KeyV, KeyFileError> {
    if !kdf_params_valid(rv.n, rv.r, rv.p) {
        Result::Err(KeyFileError::InvalidParameters)
    } else {
        unseal_outcome(rv, derived_key_of(pw, rv.salt, rv.n, rv.r, rv.p))
    }
}

/// A record whose payload seals master key `kv` under the key derived
/// from `pw` with the record's own salt and parameters.
pub open spec fn sealed_record(rv: KeyFileV, kv: KeyV, pw: Seq<u8>) -> bool {
    &&& wf_key(kv)
    &&& rv.salt.len() == 64
    &&& rv.data == seal_spec(derived_key_of(pw, rv.salt, rv.n, rv.r, rv.p), enc_env(env_of_key(kv)))
}

/// What the generation operation promises of a record it builds for
/// master key `kv` and password `pw`: a sealed record with the
/// recommended cost parameters.
pub open spec fn generated_record(rv: KeyFileV, kv: KeyV, pw: Seq<u8>) -> bool {
    &&& sealed_record(rv, kv, pw)
    &&& rv.n == 0x20000u32
    &&& rv.r == 8u32
    &&& rv.p == 1u32
}

/// Relies on `chrono::Local::now` and `DateTime::to_rfc3339`: the
/// current local time rendered in a fixed notation of digits, sign,
/// colon, dash, dot and the letter marking the time, all printable
/// ASCII without quote or backslash.
#[verifier::external_body]
fn current_timestamp() -> (t: Vec<u8>)
    ensures
        t@.len() > 0,
        clean(t@),
{
    chrono::Local::now().to_rfc3339().into_bytes()
}

impl KeyFile {
    /// Derive the record's key from a password, using the stored salt
    /// and cost parameters.
    pub fn kdf_key(&self, passwd: &Vec<u8>) -> (res: Result<Key, KeyFileError>)
        ensures
            res is Ok <==> kdf_params_valid(self@.n, self@.r, self@.p),
            res matches Ok(k) ==> k@ == derived_key_of(passwd@, self@.salt, self@.n, self@.r, self@.p)
                && wf_key(k@),
            res matches Err(e) ==> e == KeyFileError::InvalidParameters,
    {
        match crate::kdf::derive(passwd, &self.salt, self.n, self.r, self.p) {
            Ok(bytes) => Ok(Key::from_slice(&bytes)),
            Err(e) => Err(e),
        }
    }

    /// Unseal the record's payload with an already-derived key and
    /// rebuild the master key from the envelope inside.
    pub fn key_from_data(&self, key: &Key) -> (res: Result<Key, KeyFileError>)
        requires
            wf_key(key@),
        ensures
            res matches Ok(k) ==> unseal_outcome(self@, key@) == Result::<KeyV, KeyFileError>::Ok(k@)
                && wf_key(k@),
            res matches Err(e) ==> unseal_outcome(self@, key@) == Result::<KeyV, KeyFileError>::Err(e),
    {
        let pt = match key.decrypt_data(&self.data) {
            Ok(pt) => pt,
            Err(e) => {
                return Err(e);
            },
        };
        match parse_envelope(&pt) {
            Some(env) => Ok(env.key()),
            None => Err(KeyFileError::DeserializationFailed),
        }
    }

    /// Recover the master key from the record and a password: derive,
    /// unseal, rebuild.
    pub fn key_from_password(&self, passwd: &Vec<u8>) -> (res: Result<Key, KeyFileError>)
        ensures
            res matches Ok(k) ==> recover_spec(self@, passwd@) == Result::<KeyV, KeyFileError>::Ok(k@)
                && wf_key(k@),
            res matches Err(e) ==> recover_spec(self@, passwd@) == Result::<KeyV, KeyFileError>::Err(e),
    {
        let dk = match self.kdf_key(passwd) {
            Ok(dk) => dk,
            Err(e) => {
                return Err(e);
            },
        };
        self.key_from_data(&dk)
    }

    /// Build a record sealing `key` under `passwd` with the given cost
    /// parameters: a fresh 64-byte random salt, and the envelope sealed
    /// by the derived key.  Fails with `InvalidParameters` exactly when
    /// the parameters do not admit derivation.
    pub fn generate_with_params(
        key: Key,
        passwd: &Vec<u8>,
        hostname: Option<Vec<u8>>,
        username: Option<Vec<u8>>,
        with_created: bool,
        n: u32,
        r: u32,
        p: u32,
    ) -> (res: Result<KeyFile, KeyFileError>)
        requires
            wf_key(key@),
        ensures
            res is Ok <==> kdf_params_valid(n, r, p),
            res matches Ok(rec) ==> {
                &&& sealed_record(rec@, key@, passwd@)
                &&& rec@.n == n
                &&& rec@.r == r
                &&& rec@.p == p
                &&& rec@.kdf == kdf_name()
                &&& rec@.hostname == opt_view(hostname)
                &&& rec@.username == opt_view(username)
                &&& (with_created <==> rec@.created is Some)
                &&& match rec@.created {
                    Option::Some(c) => clean(c) && c.len() > 0,
                    Option::None => true,
                }
            },
            res matches Err(e) ==> e == KeyFileError::InvalidParameters,
    {
        let ghost kv = key@;
        let masterkey = MasterKey::from_key(key);
        let env_bytes = encode_envelope(&masterkey);
        let salt = random_salt();
        proof {
            lemma_enc_clean(kv.k);
            lemma_enc_clean(kv.r);
            lemma_enc_clean(kv.encrypt);
            assert(env_bytes@.len() <= 300);
            assert(usize::MAX >= 0xffff_ffff) by {
                assert(usize::MAX as int >= u32::MAX as int || usize::MAX as int >= u64::MAX
                    as int);
            }
        }
        let dk_bytes = match crate::kdf::derive(passwd, &salt, n, r, p) {
            Ok(b) => b,
            Err(e) => {
                return Err(e);
            },
        };
        let dkey = Key::from_slice(&dk_bytes);
        let data = dkey.encrypt_data(&env_bytes);
        let created = if with_created {
            Some(current_timestamp())
        } else {
            None
        };
        Ok(
            KeyFile {
                hostname,
                username,
                created,
                kdf: make_kdf_name(),
                n,
                r,
                p,
                data,
                salt,
            },
        )
    }

    /// Generate a new record sealing `key` under `passwd`: a fresh
    /// 64-byte random salt, the recommended cost parameters with the
    /// linear cost value an exact power of two, and the envelope sealed
    /// by the derived key.
    pub fn generate(
        key: Key,
        passwd: &Vec<u8>,
        hostname: Option<Vec<u8>>,
        username: Option<Vec<u8>>,
        with_created: bool,
    ) -> (res: Result<KeyFile, KeyFileError>)
        requires
            wf_key(key@),
        ensures
            res is Ok,
            res matches Ok(rec) ==> {
                &&& generated_record(rec@, key@, passwd@)
                &&& is_pow2(rec@.n as int)
                &&& kdf_params_valid(rec@.n, rec@.r, rec@.p)
                &&& rec@.kdf == kdf_name()
                &&& rec@.hostname == opt_view(hostname)
                &&& rec@.username == opt_view(username)
                &&& (with_created <==> rec@.created is Some)
            },
    {
        proof {
            lemma_recommended_params();
        }
        match KeyFile::generate_with_params(
            key,
            passwd,
            hostname,
            username,
            with_created,
            0x20000,
            8,
            1,
        ) {
            Ok(rec) => Ok(rec),
            Err(e) => {
                proof {
                    assert(false);
                }
                Err(e)
            },
        }
    }
}

} // verus!
