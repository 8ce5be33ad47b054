//! Password-based key derivation: scrypt behind a trusted boundary, with
//! verified cost-parameter validation.

use vstd::prelude::*;
use vstd::arithmetic::power2::{pow2, lemma2_to64};
use rand::RngCore;
use crate::error::KeyFileError;
use crate::crypto::{KeyV, key_of_bytes};

verus! {

/// Floor of the base-two logarithm.
pub open spec fn log2n(n: int) -> nat
    decreases n,
{
    if n <= 1 {
        0
    } else {
        1 + log2n(n / 2)
    }
}

/// `n` is an exact power of two (and at least one).
pub open spec fn is_pow2(n: int) -> bool
    decreases n,
{
    if n < 1 {
        false
    } else if n == 1 {
        true
    } else if n % 2 == 1 {
        false
    } else {
        is_pow2(n / 2)
    }
}

/// Values below `pow2(b)` have a logarithm below `b`.
pub proof fn lemma_log2n_lt(b: nat, x: int)
    requires
        1 <= b,
        0 <= x < pow2(b),
    ensures
        log2n(x) < b,
    decreases b,
{
    vstd::arithmetic::power2::lemma_pow2_unfold(b);
    if x > 1 {
        vstd::arithmetic::div_mod::lemma_fundamental_div_mod(x, 2);
        assert(pow2(b) == 2 * pow2((b - 1) as nat));
        if b == 1 {
            assert(pow2(1) == 2) by {
                lemma2_to64();
            }
        } else {
            lemma_log2n_lt((b - 1) as nat, x / 2);
        }
    }
}

/// The bit test `n & (n - 1) == 0` decides powers of two.
pub proof fn lemma_pow2_bit(n: u32)
    requires
        n >= 1,
    ensures
        is_pow2(n as int) <==> (n & (vstd::prelude::sub(n, 1))) == 0,
    decreases n,
{
    if n == 1 {
        assert(1u32 & 0u32 == 0) by (bit_vector);
    } else {
        assert((n & 1) == n % 2) by (bit_vector);
        assert(n >> 1 == n / 2) by (bit_vector);
        if n % 2 == 1 {
            assert(n >= 2 && (n & 1) == 1 ==> (n & vstd::prelude::sub(n, 1)) != 0)
                by (bit_vector);
        } else {
            lemma_pow2_bit(n / 2);
            assert(n >= 2 && (n & 1) == 0 ==> ((n & vstd::prelude::sub(n, 1)) == 0 <==> ((n >> 1)
                & vstd::prelude::sub(n >> 1, 1)) == 0)) by (bit_vector);
        }
    }
}

/// The number of bits of the cost-parameter type.
pub fn num_bits() -> (n: usize)
    ensures
        n == 32,
{
    proof {
        broadcast use vstd::layout::layout_of_primitives;
    }
    core::mem::size_of::<u32>() * 8
}

/// Floor of the base-two logarithm of `x`.
pub fn log_2(x: u32) -> (r: u8)
    requires
        x >= 1,
    ensures
        r as nat == log2n(x as int),
        r <= 31,
{
    proof {
        lemma2_to64();
        lemma_log2n_lt(32, x as int);
    }
    let mut m: u32 = x;
    let mut k: u8 = 0;
    while m >= 2
        invariant
            1 <= m,
            k + log2n(m as int) == log2n(x as int),
            log2n(x as int) <= 31,
        decreases m,
    {
        m = m / 2;
        k = k + 1;
    }
    k
}

/// What the scrypt function computes from a password, a salt, and valid
/// cost parameters.  The result depends on those arguments alone.
pub uninterp spec fn scrypt_of(passwd: Seq<u8>, salt: Seq<u8>, log_n: u8, r: u32, p: u32) -> Seq<u8>;

/// The conditions under which the scrypt cost-parameter constructor
/// accepts `(log_n, r, p)` with a 64-byte output length: positive `r`
/// and `p`, memory and product bounds, and the scrypt-required
/// relations between the parameters.
pub open spec fn scrypt_params_ok(log_n: u8, r: u32, p: u32) -> bool {
    &&& r >= 1
    &&& p >= 1
    &&& (log_n as int) < 64
    &&& (r as int) * 128 * (pow2(log_n as nat) as int) <= usize::MAX as int
    &&& (r as int) * 128 * (p as int) <= usize::MAX as int
    &&& (log_n as int) < (r as int) * 16
    &&& (r as int) * (p as int) < 0x4000_0000
}

/// Relies on `scrypt::Params::new` to accept exactly the parameter
/// combinations stated by `scrypt_params_ok` for a 64-byte output, and
/// on `scrypt::scrypt` to fill a 64-byte buffer deterministically from
/// the password, the salt and the parameters alone.
#[verifier::external_body]
fn scrypt_derive(passwd: &Vec<u8>, salt: &Vec<u8>, log_n: u8, r: u32, p: u32) -> (res: Result<
    Vec<u8>,
    KeyFileError,
>)
    ensures
        res is Ok <==> scrypt_params_ok(log_n, r, p),
        res matches Ok(key) ==> key@.len() == 64 && key@ == scrypt_of(passwd@, salt@, log_n, r, p),
        res matches Err(e) ==> e == KeyFileError::InvalidParameters,
{
    let params = match scrypt::Params::new(log_n, r, p, 64) {
        Ok(params) => params,
        Err(_) => return Err(KeyFileError::InvalidParameters),
    };
    let mut out = vec![0u8; 64];
    match scrypt::scrypt(passwd.as_slice(), salt.as_slice(), &params, &mut out) {
        Ok(()) => Ok(out),
        Err(_) => Err(KeyFileError::OutputLengthInvalid),
    }
}

/// Relies on `rand::thread_rng` and `RngCore::fill_bytes` to fill the
/// whole buffer from a cryptographically secure source.  Nothing is
/// promised of the bytes themselves.
#[verifier::external_body]
pub fn random_salt() -> (salt: Vec<u8>)
    ensures
        salt@.len() == 64,
{
    let mut salt = vec![0u8; 64];
    rand::thread_rng().fill_bytes(&mut salt);
    salt
}

/// The stored linear cost value and the block-size and parallelism
/// parameters admit derivation: an exact power of two of at least two,
/// whose exponent the scrypt constructor accepts.
pub open spec fn kdf_params_valid(n: u32, r: u32, p: u32) -> bool {
    is_pow2(n as int) && n >= 2 && scrypt_params_ok(log2n(n as int) as u8, r, p)
}

/// The key derived from a password under a record's salt and parameters.
pub open spec fn derived_key_of(pw: Seq<u8>, salt: Seq<u8>, n: u32, r: u32, p: u32) -> KeyV {
    key_of_bytes(scrypt_of(pw, salt, log2n(n as int) as u8, r, p))
}

/// Derive 64 bytes of key material from a password.  Rejects a linear
/// cost value that is zero, one, or not an exact power of two, and any
/// parameters the scrypt constructor rejects, with `InvalidParameters`.
pub fn derive(passwd: &Vec<u8>, salt: &Vec<u8>, n: u32, r: u32, p: u32) -> (res: Result<
    Vec<u8>,
    KeyFileError,
>)
    ensures
        res is Ok <==> kdf_params_valid(n, r, p),
        res matches Ok(key) ==> key@.len() == 64 && key@ == scrypt_of(
            passwd@,
            salt@,
            log2n(n as int) as u8,
            r,
            p,
        ),
        res matches Err(e) ==> e == KeyFileError::InvalidParameters,
{
    if n < 2 {
        return Err(KeyFileError::InvalidParameters);
    }
    proof {
        lemma_pow2_bit(n);
    }
    if (n & (n - 1)) != 0 {
        return Err(KeyFileError::InvalidParameters);
    }
    let k = log_2(n);
    scrypt_derive(passwd, salt, k, r, p)
}

/// The recommended cost parameters are valid, and the linear cost value
/// they store is the seventeenth power of two.
pub proof fn lemma_recommended_params()
    ensures
        kdf_params_valid(0x20000, 8, 1),
        log2n(0x20000) == 17,
        is_pow2(0x20000),
{
    assert(log2n(0x20000) == 17 && is_pow2(0x20000)) by {
        reveal_with_fuel(log2n, 20);
        reveal_with_fuel(is_pow2, 20);
    }
    lemma2_to64();
    assert(pow2(17) == 131072);
    assert(8int * 128 * 131072 == 134217728);
    assert(usize::MAX >= 0xffff_ffff) by {
        assert(usize::MAX as int >= u32::MAX as int || usize::MAX as int >= u64::MAX as int);
    }
}

} // verus!
