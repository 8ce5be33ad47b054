//! The key capability: a 64-byte key split into an encryption sub-key and
//! MAC material, able to seal and unseal byte buffers.
//!
//! Sealing is encrypt-then-authenticate: the plaintext is masked with a
//! keystream drawn from the encryption sub-key, and a 16-byte tag keyed by
//! the MAC material is appended.  Unsealing recomputes the tag and fails
//! rather than returning corrupted plaintext when the tag does not match.

use vstd::prelude::*;
use crate::error::KeyFileError;
use crate::bytes::bytes_eq;

verus! {

/// The mathematical value of a [`Key`]: its three raw sub-key components.
pub ghost struct KeyV {
    pub encrypt: Seq<u8>,
    pub k: Seq<u8>,
    pub r: Seq<u8>,
}

/// A well-formed key holds a 32-byte encryption sub-key and 16 bytes each
/// of MAC key and MAC nonce material.
pub open spec fn wf_key(kv: KeyV) -> bool {
    kv.encrypt.len() == 32 && kv.k.len() == 16 && kv.r.len() == 16
}

/// The repository key capability.
#[derive(Debug)]
pub struct Key {
    pub encrypt: Vec<u8>,
    pub k: Vec<u8>,
    pub r: Vec<u8>,
}

impl View for Key {
    type V = KeyV;

    open spec fn view(&self) -> KeyV {
        KeyV { encrypt: self.encrypt@, k: self.k@, r: self.r@ }
    }
}

/// The three sub-key components laid out in one 64-byte buffer:
/// encryption sub-key, MAC key, MAC nonce.
pub open spec fn key_of_bytes(s: Seq<u8>) -> KeyV {
    KeyV {
        encrypt: Seq::new(32, |i: int| s[i]),
        k: Seq::new(16, |i: int| s[32 + i]),
        r: Seq::new(16, |i: int| s[48 + i]),
    }
}

/// The keystream mask applied to position `i`.
pub open spec fn cipher_of(kv: KeyV, p: Seq<u8>) -> Seq<u8> {
    Seq::new(p.len(), |i: int| p[i] ^ kv.encrypt[i % 32])
}

/// Exclusive-or fold over the bytes of `c` at positions `j, j+16, j+32, ...`.
pub open spec fn class_fold(c: Seq<u8>, j: nat) -> u8
    decreases c.len() + 16 - j,
{
    if j >= c.len() {
        0
    } else {
        c[j as int] ^ class_fold(c, j + 16)
    }
}

/// The per-key tag pad: MAC key and MAC nonce folded together.
pub open spec fn mac_pad(kv: KeyV) -> Seq<u8> {
    Seq::new(16, |j: int| kv.k[j] ^ kv.r[j])
}

/// The 16-byte authentication tag of ciphertext `c` under key `kv`.
pub open spec fn tag_of(kv: KeyV, c: Seq<u8>) -> Seq<u8> {
    Seq::new(16, |j: int| kv.k[j] ^ kv.r[j] ^ class_fold(c, j as nat))
}

/// Sealed form of plaintext `p`: ciphertext followed by its tag.
pub open spec fn seal_spec(kv: KeyV, p: Seq<u8>) -> Seq<u8> {
    cipher_of(kv, p) + tag_of(kv, cipher_of(kv, p))
}

/// Unsealing of buffer `d`: split off the trailing tag, accept only when
/// it matches the recomputed tag, and unmask the ciphertext.
pub open spec fn unseal_spec(kv: KeyV, d: Seq<u8>) -> Option<Seq<u8>> {
    if d.len() < 16 {
        Option::None
    } else {
        let cl = d.len() - 16;
        let c = d.take(cl as int);
        let t = d.skip(cl as int);
        if t == tag_of(kv, c) {
            Option::Some(cipher_of(kv, c))
        } else {
            Option::None
        }
    }
}

impl Key {
    /// Reassemble a key from a 64-byte buffer, as the derivation step
    /// produces it.
    pub fn from_slice(s: &Vec<u8>) -> (key: Key)
        requires
            s@.len() == 64,
        ensures
            key@ == key_of_bytes(s@),
            wf_key(key@),
    {
        let mut encrypt: Vec<u8> = Vec::new();
        let mut k: Vec<u8> = Vec::new();
        let mut r: Vec<u8> = Vec::new();
        let mut i: usize = 0;
        while i < 32
            invariant
                s@.len() == 64,
                i <= 32,
                encrypt@ == s@.subrange(0, i as int),
            decreases 32 - i,
        {
            encrypt.push(s[i]);
            i = i + 1;
            proof {
                assert(s@.subrange(0, i as int) =~= s@.subrange(0, i - 1) + seq![s@[i - 1]]);
            }
        }
        let mut i: usize = 32;
        while i < 48
            invariant
                s@.len() == 64,
                32 <= i <= 48,
                k@ == s@.subrange(32, i as int),
            decreases 48 - i,
        {
            k.push(s[i]);
            i = i + 1;
            proof {
                assert(s@.subrange(32, i as int) =~= s@.subrange(32, i - 1) + seq![s@[i - 1]]);
            }
        }
        let mut i: usize = 48;
        while i < 64
            invariant
                s@.len() == 64,
                48 <= i <= 64,
                r@ == s@.subrange(48, i as int),
            decreases 64 - i,
        {
            r.push(s[i]);
            i = i + 1;
            proof {
                assert(s@.subrange(48, i as int) =~= s@.subrange(48, i - 1) + seq![s@[i - 1]]);
            }
        }
        proof {
            assert(encrypt@ =~= key_of_bytes(s@).encrypt);
            assert(k@ =~= key_of_bytes(s@).k);
            assert(r@ =~= key_of_bytes(s@).r);
        }
        Key { encrypt, k, r }
    }

    /// Rebuild a key from its three raw sub-key components.
    pub fn from_keys(encrypt: &Vec<u8>, k: &Vec<u8>, r: &Vec<u8>) -> (key: Key)
        ensures
            key@.encrypt == encrypt@,
            key@.k == k@,
            key@.r == r@,
    {
        Key {
            encrypt: crate::bytes::copy_bytes(encrypt),
            k: crate::bytes::copy_bytes(k),
            r: crate::bytes::copy_bytes(r),
        }
    }

    /// Decompose the key into its three raw sub-key components.
    pub fn to_keys(self) -> (t: (Vec<u8>, Vec<u8>, Vec<u8>))
        ensures
            t.0@ == self@.encrypt,
            t.1@ == self@.k,
            t.2@ == self@.r,
    {
        (self.encrypt, self.k, self.r)
    }

    /// Mask `input` with the keystream.  Applying it twice restores the input.
    fn apply_stream(&self, input: &Vec<u8>) -> (out: Vec<u8>)
        requires
            wf_key(self@),
        ensures
            out@ == cipher_of(self@, input@),
    {
        let mut out: Vec<u8> = Vec::new();
        let mut i: usize = 0;
        while i < input.len()
            invariant
                wf_key(self@),
                i <= input.len(),
                out@ == cipher_of(self@, input@).take(i as int),
            decreases input.len() - i,
        {
            out.push(input[i] ^ self.encrypt[i % 32]);
            i = i + 1;
            proof {
                assert(cipher_of(self@, input@).take(i as int)
                    =~= cipher_of(self@, input@).take(i - 1) + seq![cipher_of(self@, input@)[i - 1]]);
            }
        }
        proof {
            assert(cipher_of(self@, input@).take(input@.len() as int) =~= cipher_of(self@, input@));
        }
        out
    }

    /// Recompute the 16-byte authentication tag of ciphertext `c`.
    fn compute_tag(&self, c: &Vec<u8>) -> (out: Vec<u8>)
        requires
            wf_key(self@),
            c@.len() + 16 <= usize::MAX,
        ensures
            out@ == tag_of(self@, c@),
    {
        let mut out: Vec<u8> = Vec::new();
        let mut j: usize = 0;
        while j < 16
            invariant
                wf_key(self@),
                c@.len() + 16 <= usize::MAX,
                j <= 16,
                out@ == tag_of(self@, c@).take(j as int),
            decreases 16 - j,
        {
            let mut acc: u8 = 0;
            let mut i: usize = j;
            proof {
                let f0 = class_fold(c@, j as nat);
                assert(0u8 ^ f0 == f0) by (bit_vector);
            }
            while i < c.len()
                invariant
                    j < 16,
                    c@.len() + 16 <= usize::MAX,
                    i <= c.len() + 16,
                    i % 16 == j % 16,
                    j <= i,
                    acc ^ class_fold(c@, i as nat) == class_fold(c@, j as nat),
                decreases c.len() + 16 - i,
            {
                proof {
                    let a = acc;
                    let b = c@[i as int];
                    let f = class_fold(c@, (i + 16) as nat);
                    assert(class_fold(c@, i as nat) == b ^ f);
                    assert((a ^ b) ^ f == a ^ (b ^ f)) by (bit_vector);
                }
                acc = acc ^ c[i];
                i = i + 16;
            }
            proof {
                assert(class_fold(c@, i as nat) == 0);
                assert(acc ^ 0u8 == acc) by (bit_vector);
                assert(acc == class_fold(c@, j as nat));
            }
            out.push(self.k[j] ^ self.r[j] ^ acc);
            j = j + 1;
            proof {
                assert(tag_of(self@, c@).take(j as int)
                    =~= tag_of(self@, c@).take(j - 1) + seq![tag_of(self@, c@)[j - 1]]);
            }
        }
        proof {
            assert(tag_of(self@, c@).take(16) =~= tag_of(self@, c@));
        }
        out
    }

    /// Seal `data`: mask it with the keystream and append the tag.
    pub fn encrypt_data(&self, data: &Vec<u8>) -> (out: Vec<u8>)
        requires
            wf_key(self@),
            data@.len() + 16 <= usize::MAX,
        ensures
            out@ == seal_spec(self@, data@),
    {
        let mut out = self.apply_stream(data);
        let tag = self.compute_tag(&out);
        proof {
            assert(tag@ == tag_of(self@, cipher_of(self@, data@)));
        }
        crate::bytes::append_bytes(&mut out, &tag);
        out
    }

    /// Unseal `data`.  Fails with `AuthenticationFailed` whenever the
    /// recomputed tag does not match the stored one: a wrong key or a
    /// tampered buffer is rejected, never silently decrypted.
    pub fn decrypt_data(&self, data: &Vec<u8>) -> (res: Result<Vec<u8>, KeyFileError>)
        requires
            wf_key(self@),
        ensures
            match res {
                Ok(p) => unseal_spec(self@, data@) == Option::Some(p@),
                Err(e) => unseal_spec(self@, data@) is None && e == KeyFileError::AuthenticationFailed,
            },
    {
        if data.len() < 16 {
            return Err(KeyFileError::AuthenticationFailed);
        }
        let cl = data.len() - 16;
        let mut c: Vec<u8> = Vec::new();
        let mut i: usize = 0;
        while i < cl
            invariant
                cl <= data@.len(),
                i <= cl,
                c@ == data@.subrange(0, i as int),
            decreases cl - i,
        {
            c.push(data[i]);
            i = i + 1;
            proof {
                assert(data@.subrange(0, i as int) =~= data@.subrange(0, i - 1) + seq![data@[i - 1]]);
            }
        }
        let mut t: Vec<u8> = Vec::new();
        let mut i: usize = cl;
        while i < data.len()
            invariant
                cl <= data@.len(),
                cl <= i <= data@.len(),
                t@ == data@.subrange(cl as int, i as int),
            decreases data.len() - i,
        {
            t.push(data[i]);
            i = i + 1;
            proof {
                assert(data@.subrange(cl as int, i as int)
                    =~= data@.subrange(cl as int, i - 1) + seq![data@[i - 1]]);
            }
        }
        proof {
            assert(c@ =~= data@.take(cl as int));
            assert(t@ =~= data@.skip(cl as int));
        }
        let expected = self.compute_tag(&c);
        if bytes_eq(&t, &expected) {
            Ok(self.apply_stream(&c))
        } else {
            Err(KeyFileError::AuthenticationFailed)
        }
    }
}

/// Unmasking is the inverse of masking: the keystream cancels itself.
pub proof fn lemma_stream_cancels(kv: KeyV, p: Seq<u8>)
    requires
        wf_key(kv),
    ensures
        cipher_of(kv, cipher_of(kv, p)) == p,
{
    assert forall|i: int| 0 <= i < p.len() implies cipher_of(kv, cipher_of(kv, p))[i] == p[i] by {
        let a = p[i];
        let m = kv.encrypt[i % 32];
        assert((a ^ m) ^ m == a) by (bit_vector);
    }
    assert(cipher_of(kv, cipher_of(kv, p)) =~= p);
}

/// Sealing round trip: unsealing a sealed buffer under the same key
/// returns the plaintext byte for byte.
pub proof fn lemma_seal_unseal(kv: KeyV, p: Seq<u8>)
    requires
        wf_key(kv),
    ensures
        unseal_spec(kv, seal_spec(kv, p)) == Option::Some(p),
{
    let c = cipher_of(kv, p);
    let t = tag_of(kv, c);
    let d = seal_spec(kv, p);
    assert(d.len() == p.len() + 16);
    assert(d.take(p.len() as int) =~= c);
    assert(d.skip(p.len() as int) =~= t);
    lemma_stream_cancels(kv, p);
}

/// Folds over two buffers that agree at every position from `j` on are equal.
proof fn lemma_fold_eq_from(c1: Seq<u8>, c2: Seq<u8>, j: nat)
    requires
        c1.len() == c2.len(),
        forall|i: int| j <= i < c1.len() ==> c1[i] == c2[i],
    ensures
        class_fold(c1, j) == class_fold(c2, j),
    decreases c1.len() + 16 - j,
{
    if j < c1.len() {
        lemma_fold_eq_from(c1, c2, j + 16);
    }
}

/// Changing the single byte at `j + 16*k` shifts the fold at `j` by
/// exactly the exclusive-or of the old and new byte.
proof fn lemma_fold_flip(c1: Seq<u8>, c2: Seq<u8>, j: int, k: int)
    requires
        c1.len() == c2.len(),
        0 <= j,
        0 <= k,
        j + 16 * k < c1.len(),
        c1[j + 16 * k] != c2[j + 16 * k],
        forall|i: int| 0 <= i < c1.len() && i != j + 16 * k ==> c1[i] == c2[i],
    ensures
        class_fold(c2, j as nat) == class_fold(c1, j as nat) ^ c1[j + 16 * k] ^ c2[j + 16 * k],
    decreases k,
{
    let i0: int = j + 16 * k;
    let a = c1[i0];
    let b = c2[i0];
    if k == 0 {
        assert(i0 == j);
        lemma_fold_eq_from(c1, c2, (j + 16) as nat);
        let f = class_fold(c1, (j + 16) as nat);
        assert(class_fold(c1, j as nat) == a ^ f);
        assert(class_fold(c2, j as nat) == b ^ f);
        assert(b ^ f == (a ^ f) ^ a ^ b) by (bit_vector);
    } else {
        assert((j + 16) + 16 * (k - 1) == j + 16 * k);
        lemma_fold_flip(c1, c2, j + 16, k - 1);
        let x = c1[j];
        let f1 = class_fold(c1, (j + 16) as nat);
        assert(class_fold(c2, (j + 16) as nat) == f1 ^ a ^ b);
        assert(c2[j] == x);
        assert(class_fold(c1, j as nat) == x ^ f1);
        assert(class_fold(c2, j as nat) == x ^ (f1 ^ a ^ b));
        assert(x ^ (f1 ^ a ^ b) == (x ^ f1) ^ a ^ b) by (bit_vector);
    }
}

/// Tamper detection: a sealed buffer with any single byte changed is
/// rejected by unsealing under the sealing key.
pub proof fn lemma_tamper_detected(kv: KeyV, p: Seq<u8>, d2: Seq<u8>, i0: int)
    requires
        wf_key(kv),
        d2.len() == seal_spec(kv, p).len(),
        0 <= i0 < d2.len(),
        d2[i0] != seal_spec(kv, p)[i0],
        forall|i: int| 0 <= i < d2.len() && i != i0 ==> d2[i] == seal_spec(kv, p)[i],
    ensures
        unseal_spec(kv, d2) is None,
{
    let d1 = seal_spec(kv, p);
    let cl = p.len() as int;
    let c1 = cipher_of(kv, p);
    let t1 = tag_of(kv, c1);
    assert(d1.take(cl) =~= c1);
    assert(d1.skip(cl) =~= t1);
    let c2 = d2.take(cl);
    let t2 = d2.skip(cl);
    if i0 < cl {
        assert(t2 =~= t1);
        let j0 = i0 % 16;
        let k0 = i0 / 16;
        vstd::arithmetic::div_mod::lemma_fundamental_div_mod(i0, 16);
        assert(i0 == 16 * k0 + j0);
        assert(c2[i0] == d2[i0] && c1[i0] == d1[i0]);
        lemma_fold_flip(c1, c2, j0, k0);
        let a = c1[i0];
        let b = c2[i0];
        let f1 = class_fold(c1, j0 as nat);
        let pd = kv.k[j0] ^ kv.r[j0];
        assert(class_fold(c2, j0 as nat) == f1 ^ a ^ b);
        assert(a != b ==> pd ^ (f1 ^ a ^ b) != pd ^ f1) by (bit_vector);
        assert(tag_of(kv, c2)[j0] == pd ^ (f1 ^ a ^ b));
        assert(t2[j0] == t1[j0] && t1[j0] == pd ^ f1);
        assert(t2 != tag_of(kv, c2));
    } else {
        assert(c2 =~= c1);
        assert(tag_of(kv, c2) == tag_of(kv, c1));
        let j0 = i0 - cl;
        assert(t2[j0] == d2[i0] && t1[j0] == d1[i0]);
        assert(t2[j0] != tag_of(kv, c2)[j0]);
        assert(t2 != tag_of(kv, c2));
    }
}

/// Wrong-key rejection: a key whose MAC pad differs anywhere from the
/// sealing key's fails to unseal the buffer.
pub proof fn lemma_wrong_key_rejected(kv1: KeyV, kv2: KeyV, p: Seq<u8>)
    requires
        wf_key(kv1),
        wf_key(kv2),
        mac_pad(kv1) != mac_pad(kv2),
    ensures
        unseal_spec(kv2, seal_spec(kv1, p)) is None,
{
    let c = cipher_of(kv1, p);
    let t1 = tag_of(kv1, c);
    let d = seal_spec(kv1, p);
    assert(d.take(p.len() as int) =~= c);
    assert(d.skip(p.len() as int) =~= t1);
    assert(!(mac_pad(kv1) =~= mac_pad(kv2)));
    let j = choose|j: int| 0 <= j < 16 && mac_pad(kv1)[j] != mac_pad(kv2)[j];
    let p1 = kv1.k[j] ^ kv1.r[j];
    let p2 = kv2.k[j] ^ kv2.r[j];
    let f = class_fold(c, j as nat);
    assert(p1 != p2 ==> p1 ^ f != p2 ^ f) by (bit_vector);
    assert(t1[j] == p1 ^ f);
    assert(tag_of(kv2, c)[j] == p2 ^ f);
    assert(t1 != tag_of(kv2, c));
}

} // verus!
