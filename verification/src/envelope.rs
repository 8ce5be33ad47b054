//! The master-key envelope: the plaintext structure sealed inside a key
//! record, and its canonical byte encoding.

use vstd::prelude::*;
use crate::bytes::append_bytes;
use crate::base64::{b64_enc, b64_dec, b64_encode, b64_decode, lemma_enc_clean, lemma_b64_round_trip};
use crate::crypto::{Key, KeyV};
use crate::jsontext::{
    starts_with, parse_token, lemma_prefix, lemma_parse_token_round, expect_at, parse_token_at,
    lit_mac_open, lit_mac_r_key, lit_encrypt_key, lit_obj_close, make_lit_mac_open,
    make_lit_mac_r_key, make_lit_encrypt_key, make_lit_obj_close,
};

verus! {

/// The mathematical value of a [`Mac`].
pub ghost struct MacV {
    pub k: Seq<u8>,
    pub r: Seq<u8>,
}

/// The mathematical value of a [`MasterKey`].
pub ghost struct MasterKeyV {
    pub mac: MacV,
    pub encrypt: Seq<u8>,
}

/// The MAC material of the master key.
#[derive(Debug)]
pub struct Mac {
    /// The key used for the MAC.
    pub k: Vec<u8>,
    /// The random value used for the MAC.
    pub r: Vec<u8>,
}

impl View for Mac {
    type V = MacV;

    open spec fn view(&self) -> MacV {
        MacV { k: self.k@, r: self.r@ }
    }
}

/// The master key of the repository, as it stands inside a decrypted
/// record payload.
#[derive(Debug)]
pub struct MasterKey {
    /// The MAC material of the key.
    pub mac: Mac,
    /// The encryption sub-key.
    pub encrypt: Vec<u8>,
}

impl View for MasterKey {
    type V = MasterKeyV;

    open spec fn view(&self) -> MasterKeyV {
        MasterKeyV { mac: self.mac@, encrypt: self.encrypt@ }
    }
}

/// A well-formed envelope carries sub-keys of the exact widths the key
/// capability is built from.
pub open spec fn wf_envelope(mv: MasterKeyV) -> bool {
    mv.encrypt.len() == 32 && mv.mac.k.len() == 16 && mv.mac.r.len() == 16
}

/// The key reconstructed from an envelope.
pub open spec fn env_key(mv: MasterKeyV) -> KeyV {
    KeyV { encrypt: mv.encrypt, k: mv.mac.k, r: mv.mac.r }
}

/// The envelope holding a key's sub-key material.
pub open spec fn env_of_key(kv: KeyV) -> MasterKeyV {
    MasterKeyV { mac: MacV { k: kv.k, r: kv.r }, encrypt: kv.encrypt }
}

/// Canonical encoding of an envelope.
pub open spec fn enc_env(mv: MasterKeyV) -> Seq<u8> {
    lit_mac_open() + (b64_enc(mv.mac.k) + (seq![34u8] + (lit_mac_r_key() + (b64_enc(mv.mac.r)
        + (seq![34u8] + (lit_encrypt_key() + (b64_enc(mv.encrypt) + (seq![34u8]
        + lit_obj_close()))))))))
}

/// Strict parse of an envelope; `None` on any departure from the
/// canonical form or the expected sub-key widths.
pub open spec fn parse_env(s: Seq<u8>) -> Option<MasterKeyV> {
    if !starts_with(s, lit_mac_open()) {
        Option::None
    } else {
        match parse_token(s.skip(lit_mac_open().len() as int)) {
            Option::None => Option::None,
            Option::Some((ktok, s2)) => match b64_dec(ktok) {
                Option::None => Option::None,
                Option::Some(kb) => if !starts_with(s2, lit_mac_r_key()) {
                    Option::None
                } else {
                    match parse_token(s2.skip(lit_mac_r_key().len() as int)) {
                        Option::None => Option::None,
                        Option::Some((rtok, s4)) => match b64_dec(rtok) {
                            Option::None => Option::None,
                            Option::Some(rb) => if !starts_with(s4, lit_encrypt_key()) {
                                Option::None
                            } else {
                                match parse_token(s4.skip(lit_encrypt_key().len() as int)) {
                                    Option::None => Option::None,
                                    Option::Some((etok, s6)) => match b64_dec(etok) {
                                        Option::None => Option::None,
                                        Option::Some(eb) => if s6 == lit_obj_close() && kb.len()
                                            == 16 && rb.len() == 16 && eb.len() == 32 {
                                            Option::Some(
                                                MasterKeyV {
                                                    mac: MacV { k: kb, r: rb },
                                                    encrypt: eb,
                                                },
                                            )
                                        } else {
                                            Option::None
                                        },
                                    },
                                }
                            },
                        },
                    }
                },
            },
        }
    }
}

/// Round trip: a well-formed envelope parses back from its encoding.
pub proof fn lemma_env_round_trip(mv: MasterKeyV)
    requires
        wf_envelope(mv),
    ensures
        parse_env(enc_env(mv)) == Option::Some(mv),
{
    let k64 = b64_enc(mv.mac.k);
    let r64 = b64_enc(mv.mac.r);
    let e64 = b64_enc(mv.encrypt);
    lemma_enc_clean(mv.mac.k);
    lemma_enc_clean(mv.mac.r);
    lemma_enc_clean(mv.encrypt);
    lemma_b64_round_trip(mv.mac.k);
    lemma_b64_round_trip(mv.mac.r);
    lemma_b64_round_trip(mv.encrypt);
    let s = enc_env(mv);
    let r1 = k64 + (seq![34u8] + (lit_mac_r_key() + (r64 + (seq![34u8] + (lit_encrypt_key()
        + (e64 + (seq![34u8] + lit_obj_close())))))));
    lemma_prefix(lit_mac_open(), r1);
    assert(s.skip(lit_mac_open().len() as int) == r1);
    let r2 = lit_mac_r_key() + (r64 + (seq![34u8] + (lit_encrypt_key() + (e64 + (seq![34u8]
        + lit_obj_close())))));
    assert(r1 =~= k64 + seq![34u8] + r2);
    lemma_parse_token_round(k64, r2);
    let r3 = r64 + (seq![34u8] + (lit_encrypt_key() + (e64 + (seq![34u8] + lit_obj_close()))));
    lemma_prefix(lit_mac_r_key(), r3);
    let r4 = lit_encrypt_key() + (e64 + (seq![34u8] + lit_obj_close()));
    assert(r3 =~= r64 + seq![34u8] + r4);
    lemma_parse_token_round(r64, r4);
    let r5 = e64 + (seq![34u8] + lit_obj_close());
    lemma_prefix(lit_encrypt_key(), r5);
    assert(r5 =~= e64 + seq![34u8] + lit_obj_close());
    lemma_parse_token_round(e64, lit_obj_close());
}

/// Encode an envelope canonically.
pub fn encode_envelope(mv: &MasterKey) -> (out: Vec<u8>)
    ensures
        out@ == enc_env(mv@),
{
    let mut out = make_lit_mac_open();
    let k64 = b64_encode(&mv.mac.k);
    append_bytes(&mut out, &k64);
    out.push(34);
    let lit_r = make_lit_mac_r_key();
    append_bytes(&mut out, &lit_r);
    let r64 = b64_encode(&mv.mac.r);
    append_bytes(&mut out, &r64);
    out.push(34);
    let lit_e = make_lit_encrypt_key();
    append_bytes(&mut out, &lit_e);
    let e64 = b64_encode(&mv.encrypt);
    append_bytes(&mut out, &e64);
    out.push(34);
    let lit_c = make_lit_obj_close();
    append_bytes(&mut out, &lit_c);
    proof {
        assert(out@ =~= enc_env(mv@));
    }
    out
}

/// Parse an envelope strictly.
pub fn parse_envelope(s: &Vec<u8>) -> (res: Option<MasterKey>)
    ensures
        match res {
            Some(mv) => parse_env(s@) == Option::Some(mv@) && wf_envelope(mv@),
            None => parse_env(s@) is None,
        },
{
    proof {
        assert(s@.skip(0) =~= s@);
    }
    let lit_open = make_lit_mac_open();
    let i1 = match expect_at(s, 0, &lit_open) {
        Some(i) => i,
        None => {
            return None;
        },
    };
    let (ktok, i2) = match parse_token_at(s, i1) {
        Some(t) => t,
        None => {
            return None;
        },
    };
    let kb = match b64_decode(&ktok) {
        Some(v) => v,
        None => {
            return None;
        },
    };
    let lit_r = make_lit_mac_r_key();
    let i3 = match expect_at(s, i2, &lit_r) {
        Some(i) => i,
        None => {
            return None;
        },
    };
    proof {
        assert(s@.skip(i2 as int).skip(lit_mac_r_key().len() as int) =~= s@.skip(i3 as int));
    }
    let (rtok, i4) = match parse_token_at(s, i3) {
        Some(t) => t,
        None => {
            return None;
        },
    };
    let rb = match b64_decode(&rtok) {
        Some(v) => v,
        None => {
            return None;
        },
    };
    let lit_e = make_lit_encrypt_key();
    let i5 = match expect_at(s, i4, &lit_e) {
        Some(i) => i,
        None => {
            return None;
        },
    };
    proof {
        assert(s@.skip(i4 as int).skip(lit_encrypt_key().len() as int) =~= s@.skip(i5 as int));
    }
    let (etok, i6) = match parse_token_at(s, i5) {
        Some(t) => t,
        None => {
            return None;
        },
    };
    let eb = match b64_decode(&etok) {
        Some(v) => v,
        None => {
            return None;
        },
    };
    let lit_c = make_lit_obj_close();
    let j = match expect_at(s, i6, &lit_c) {
        Some(j) => j,
        None => {
            proof {
                if s@.skip(i6 as int) == lit_obj_close() {
                    assert(s@.skip(i6 as int).take(lit_obj_close().len() as int)
                        =~= lit_obj_close());
                }
            }
            return None;
        },
    };
    if j != s.len() {
        proof {
            assert(s@.skip(i6 as int).len() == s@.len() - i6);
            assert(s@.skip(i6 as int) != lit_obj_close());
        }
        return None;
    }
    proof {
        assert(s@.skip(i6 as int) =~= lit_obj_close());
    }
    if kb.len() != 16 || rb.len() != 16 || eb.len() != 32 {
        return None;
    }
    Some(MasterKey { mac: Mac { k: kb, r: rb }, encrypt: eb })
}

impl MasterKey {
    /// Build the envelope from a key's decomposed sub-keys.
    pub fn from_key(key: Key) -> (mv: MasterKey)
        ensures
            mv@ == env_of_key(key@),
    {
        let (encrypt, k, r) = key.to_keys();
        MasterKey { encrypt, mac: Mac { k, r } }
    }

    /// Reconstruct the key from the envelope's sub-key material.
    pub fn key(&self) -> (key: Key)
        ensures
            key@ == env_key(self@),
    {
        Key::from_keys(&self.encrypt, &self.mac.k, &self.mac.r)
    }
}

} // verus!
