use keyfile::crypto::Key;
use keyfile::envelope::{MasterKey, encode_envelope};
use keyfile::error::KeyFileError;
use keyfile::keyfile::KeyFile;

fn test_key(seed: u8) -> Key {
    let mut bytes = Vec::new();
    for i in 0..64u16 {
        bytes.push((i as u8).wrapping_mul(3).wrapping_add(seed));
    }
    Key::from_slice(&bytes)
}

/// A record with cheap cost parameters, sealed the same way `generate`
/// seals, so that tests need not pay the recommended scrypt cost.
fn cheap_record(key: Key, passwd: &[u8], n: u32, r: u32, p: u32, salt: Vec<u8>) -> KeyFile {
    let masterkey = MasterKey::from_key(key);
    let env = encode_envelope(&masterkey);
    let mut rec = KeyFile {
        hostname: None,
        username: None,
        created: None,
        kdf: b"scrypt".to_vec(),
        n,
        r,
        p,
        data: Vec::new(),
        salt,
    };
    let dk = rec.kdf_key(&passwd.to_vec()).unwrap();
    rec.data = dk.encrypt_data(&env);
    rec
}

fn key_bytes(k: &Key) -> (Vec<u8>, Vec<u8>, Vec<u8>) {
    (k.encrypt.clone(), k.k.clone(), k.r.clone())
}

#[test]
fn generate_and_recover_roundtrip() {
    let key = test_key(7);
    let expected = key_bytes(&key);
    let pw = b"correct horse".to_vec();
    let rec = KeyFile::generate_with_params(
        key,
        &pw,
        Some(b"host".to_vec()),
        Some(b"user".to_vec()),
        false,
        4,
        8,
        1,
    )
    .unwrap();
    let back = rec.key_from_password(&pw).unwrap();
    assert_eq!(key_bytes(&back), expected);
}

#[test]
fn generated_record_parameters() {
    let key = test_key(1);
    let pw = b"pw".to_vec();
    let rec = KeyFile::generate_with_params(key, &pw, None, None, false, 16, 8, 1).unwrap();
    assert_eq!(rec.n, 16);
    assert_eq!(rec.n & (rec.n - 1), 0);
    assert_eq!(rec.r, 8);
    assert_eq!(rec.p, 1);
    assert_eq!(rec.salt.len(), 64);
    assert_eq!(rec.kdf, b"scrypt".to_vec());
    assert_eq!(rec.hostname, None);
    assert_eq!(rec.username, None);
    assert_eq!(rec.created, None);
}

#[test]
fn generate_with_params_rejects_bad_cost() {
    let pw = b"pw".to_vec();
    let err = KeyFile::generate_with_params(test_key(2), &pw, None, None, false, 3, 8, 1)
        .unwrap_err();
    assert_eq!(err, KeyFileError::InvalidParameters);
    let err = KeyFile::generate_with_params(test_key(2), &pw, None, None, false, 4, 0, 1)
        .unwrap_err();
    assert_eq!(err, KeyFileError::InvalidParameters);
}

#[test]
fn generate_salt_uniqueness() {
    let pw = b"same password".to_vec();
    let rec1 = KeyFile::generate_with_params(test_key(9), &pw, None, None, false, 4, 8, 1).unwrap();
    let rec2 = KeyFile::generate_with_params(test_key(9), &pw, None, None, false, 4, 8, 1).unwrap();
    assert_ne!(rec1.salt, rec2.salt);
    assert_ne!(rec1.data, rec2.data);
}

#[test]
fn generate_created_flag() {
    let pw = b"pw".to_vec();
    let with = KeyFile::generate_with_params(test_key(2), &pw, None, None, true, 4, 8, 1).unwrap();
    let created = with.created.expect("created must be set");
    assert!(!created.is_empty());
    let without = KeyFile::generate_with_params(test_key(2), &pw, None, None, false, 4, 8, 1)
        .unwrap();
    assert_eq!(without.created, None);
}

#[test]
fn wrong_password_rejected() {
    let rec = cheap_record(test_key(5), b"right", 4, 8, 1, vec![9; 64]);
    let err = rec.key_from_password(&b"wrong".to_vec()).unwrap_err();
    assert_eq!(err, KeyFileError::AuthenticationFailed);
    assert!(rec.key_from_password(&b"right".to_vec()).is_ok());
}

#[test]
fn derive_rejects_invalid_cost_values() {
    for bad_n in [0u32, 1, 3, 6, 100] {
        let rec = cheap_record(test_key(4), b"pw", 4, 8, 1, vec![1; 64]);
        let rec = KeyFile { n: bad_n, ..rec };
        let err = rec.kdf_key(&b"pw".to_vec()).unwrap_err();
        assert_eq!(err, KeyFileError::InvalidParameters, "n = {bad_n}");
    }
    // a zero block size is rejected by the cost-parameter constructor
    let rec = cheap_record(test_key(4), b"pw", 4, 8, 1, vec![1; 64]);
    let rec = KeyFile { r: 0, ..rec };
    assert_eq!(rec.kdf_key(&b"pw".to_vec()).unwrap_err(), KeyFileError::InvalidParameters);
}

#[test]
fn tamper_detection_byte_flips() {
    let pw = b"secret".to_vec();
    let rec = cheap_record(test_key(8), b"secret", 4, 8, 1, vec![3; 64]);
    let positions = [0, rec.data.len() / 2, rec.data.len() - 1];
    for &pos in &positions {
        let mut data = rec.data.clone();
        data[pos] ^= 0x40;
        let tampered = KeyFile { data, salt: rec.salt.clone(), kdf: rec.kdf.clone(), ..rec_copy(&rec) };
        let err = tampered.key_from_password(&pw).unwrap_err();
        assert_eq!(err, KeyFileError::AuthenticationFailed, "flip at {pos}");
    }
}

fn rec_copy(rec: &KeyFile) -> KeyFile {
    KeyFile {
        hostname: rec.hostname.clone(),
        username: rec.username.clone(),
        created: rec.created.clone(),
        kdf: rec.kdf.clone(),
        n: rec.n,
        r: rec.r,
        p: rec.p,
        data: rec.data.clone(),
        salt: rec.salt.clone(),
    }
}

#[test]
fn valid_seal_with_invalid_envelope() {
    // decryption succeeds but the plaintext is no envelope encoding
    let rec0 = cheap_record(test_key(5), b"pw", 4, 8, 1, vec![2; 64]);
    let dk = rec0.kdf_key(&b"pw".to_vec()).unwrap();
    let mut rec = rec_copy(&rec0);
    rec.data = dk.encrypt_data(&b"not an envelope".to_vec());
    let err = rec.key_from_password(&b"pw".to_vec()).unwrap_err();
    assert_eq!(err, KeyFileError::DeserializationFailed);
    let err = rec.key_from_data(&dk).unwrap_err();
    assert_eq!(err, KeyFileError::DeserializationFailed);
}

#[test]
fn kdf_deterministic_and_sensitive() {
    let rec = cheap_record(test_key(3), b"pw", 4, 8, 1, vec![7; 64]);
    let k1 = rec.kdf_key(&b"pw".to_vec()).unwrap();
    let k2 = rec.kdf_key(&b"pw".to_vec()).unwrap();
    assert_eq!(key_bytes(&k1), key_bytes(&k2));
    assert_ne!(k1.encrypt, vec![0u8; 32]);
    let other_salt = KeyFile { salt: vec![8; 64], ..rec_copy(&rec) };
    let k3 = other_salt.kdf_key(&b"pw".to_vec()).unwrap();
    assert_ne!(key_bytes(&k1), key_bytes(&k3));
    let k4 = rec.kdf_key(&b"pw2".to_vec()).unwrap();
    assert_ne!(key_bytes(&k1), key_bytes(&k4));
}

#[test]
fn master_key_envelope_roundtrip() {
    let key = test_key(11);
    let expected = key_bytes(&key);
    let mk = MasterKey::from_key(key);
    let back = mk.key();
    assert_eq!(key_bytes(&back), expected);
}

#[test]
fn log_2_and_num_bits() {
    assert_eq!(keyfile::kdf::num_bits(), 32);
    assert_eq!(keyfile::kdf::log_2(1), 0);
    assert_eq!(keyfile::kdf::log_2(2), 1);
    assert_eq!(keyfile::kdf::log_2(131072), 17);
    assert_eq!(keyfile::kdf::log_2(u32::MAX), 31);
}
