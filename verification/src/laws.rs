//! The guarantees the protocol gives as a whole, proved over the
//! contracts of generation and recovery.

use vstd::prelude::*;
use crate::error::KeyFileError;
use crate::crypto::{
    KeyV, wf_key, mac_pad, lemma_seal_unseal, lemma_tamper_detected, lemma_wrong_key_rejected,
};
use crate::envelope::{enc_env, env_of_key, env_key, lemma_env_round_trip, wf_envelope};
use crate::kdf::derived_key_of;
use crate::keyfile::{KeyFileV, sealed_record, recover_spec};

verus! {

/// Round trip: recovering a generated record with the password it was
/// generated for returns the sealed master key, byte for byte.
pub proof fn lemma_generate_recover(rv: KeyFileV, kv: KeyV, pw: Seq<u8>)
    requires
        sealed_record(rv, kv, pw),
        crate::kdf::kdf_params_valid(rv.n, rv.r, rv.p),
    ensures
        recover_spec(rv, pw) == Result::<KeyV, KeyFileError>::Ok(kv),
{
    let dk = derived_key_of(pw, rv.salt, rv.n, rv.r, rv.p);
    assert(wf_key(dk));
    assert(wf_envelope(env_of_key(kv)));
    lemma_seal_unseal(dk, enc_env(env_of_key(kv)));
    lemma_env_round_trip(env_of_key(kv));
    assert(env_key(env_of_key(kv)) == kv);
}

/// Wrong-password rejection: recovering a generated record with a
/// password whose derived key carries a different MAC pad fails with
/// `AuthenticationFailed`, never with a different key.
pub proof fn lemma_wrong_password_rejected(rv: KeyFileV, kv: KeyV, pw1: Seq<u8>, pw2: Seq<u8>)
    requires
        sealed_record(rv, kv, pw1),
        crate::kdf::kdf_params_valid(rv.n, rv.r, rv.p),
        mac_pad(derived_key_of(pw2, rv.salt, rv.n, rv.r, rv.p)) != mac_pad(
            derived_key_of(pw1, rv.salt, rv.n, rv.r, rv.p),
        ),
    ensures
        recover_spec(rv, pw2) == Result::<KeyV, KeyFileError>::Err(
            KeyFileError::AuthenticationFailed,
        ),
{
    let dk1 = derived_key_of(pw1, rv.salt, rv.n, rv.r, rv.p);
    let dk2 = derived_key_of(pw2, rv.salt, rv.n, rv.r, rv.p);
    lemma_wrong_key_rejected(dk1, dk2, enc_env(env_of_key(kv)));
}

/// Tamper detection: changing any single byte of a generated record's
/// sealed payload makes recovery with the correct password fail with
/// `AuthenticationFailed` rather than return a subtly wrong key.
pub proof fn lemma_tamper_rejected(rv: KeyFileV, rv2: KeyFileV, kv: KeyV, pw: Seq<u8>, i0: int)
    requires
        sealed_record(rv, kv, pw),
        crate::kdf::kdf_params_valid(rv.n, rv.r, rv.p),
        rv2.n == rv.n,
        rv2.r == rv.r,
        rv2.p == rv.p,
        rv2.salt == rv.salt,
        rv2.data.len() == rv.data.len(),
        0 <= i0 < rv.data.len(),
        rv2.data[i0] != rv.data[i0],
        forall|j: int| 0 <= j < rv.data.len() && j != i0 ==> rv2.data[j] == rv.data[j],
    ensures
        recover_spec(rv2, pw) == Result::<KeyV, KeyFileError>::Err(
            KeyFileError::AuthenticationFailed,
        ),
{
    let dk = derived_key_of(pw, rv.salt, rv.n, rv.r, rv.p);
    lemma_tamper_detected(dk, enc_env(env_of_key(kv)), rv2.data, i0);
}

} // verus!
