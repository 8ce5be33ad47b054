use keyfile::backend::{Id, MemBackend};
use keyfile::crypto::Key;
use keyfile::envelope::{MasterKey, encode_envelope};
use keyfile::error::KeyFileError;
use keyfile::keyfile::KeyFile;
use keyfile::resolver::{key_from_backend, find_key_in_backend};

fn test_key(seed: u8) -> Key {
    let mut bytes = Vec::new();
    for i in 0..64u16 {
        bytes.push((i as u8).wrapping_mul(5).wrapping_add(seed));
    }
    Key::from_slice(&bytes)
}

fn record_blob(key: Key, passwd: &[u8], salt_byte: u8) -> Vec<u8> {
    let masterkey = MasterKey::from_key(key);
    let env = encode_envelope(&masterkey);
    let mut rec = KeyFile {
        hostname: None,
        username: None,
        created: None,
        kdf: b"scrypt".to_vec(),
        n: 4,
        r: 8,
        p: 1,
        data: Vec::new(),
        salt: vec![salt_byte; 64],
    };
    let dk = rec.kdf_key(&passwd.to_vec()).unwrap();
    rec.data = dk.encrypt_data(&env);
    rec.encode_key_record().unwrap()
}

fn three_record_backend(pw: &[u8]) -> (MemBackend, Vec<u8>) {
    // only the second record matches `pw`
    let wanted = test_key(42);
    let wanted_encrypt = wanted.encrypt.clone();
    let mut be = MemBackend::new();
    be.put(Id(b"record-a".to_vec()), record_blob(test_key(1), b"other password", 1));
    be.put(Id(b"record-b".to_vec()), record_blob(wanted, pw, 2));
    be.put(Id(b"record-c".to_vec()), record_blob(test_key(3), b"third password", 3));
    (be, wanted_encrypt)
}

#[test]
fn resolver_hint_path() {
    let pw = b"open sesame".to_vec();
    let (be, wanted_encrypt) = three_record_backend(&pw);
    // the hint names a record the password does not unlock: no fallback search
    let err = find_key_in_backend(&be, &pw, Some(&Id(b"record-a".to_vec()))).unwrap_err();
    assert_eq!(err, KeyFileError::AuthenticationFailed);
    // without a hint the search finds the one matching record
    let found = find_key_in_backend(&be, &pw, None).unwrap();
    assert_eq!(found.encrypt, wanted_encrypt);
    // the right hint works directly
    let found = find_key_in_backend(&be, &pw, Some(&Id(b"record-b".to_vec()))).unwrap();
    assert_eq!(found.encrypt, wanted_encrypt);
}

#[test]
fn resolver_exhaustion() {
    let mut be = MemBackend::new();
    be.put(Id(b"a".to_vec()), record_blob(test_key(1), b"pw-a", 1));
    be.put(Id(b"b".to_vec()), record_blob(test_key(2), b"pw-b", 2));
    be.put(Id(b"c".to_vec()), record_blob(test_key(3), b"pw-c", 3));
    let err = find_key_in_backend(&be, &b"matches nothing".to_vec(), None).unwrap_err();
    assert_eq!(err, KeyFileError::NoSuitableKeyFound);
}

#[test]
fn resolver_missing_hint_record() {
    let (be, _) = three_record_backend(b"pw");
    let err = find_key_in_backend(&be, &b"pw".to_vec(), Some(&Id(b"absent".to_vec()))).unwrap_err();
    assert_eq!(err, KeyFileError::ReadingFromBackendFailed);
}

#[test]
fn resolver_skips_malformed_records() {
    let pw = b"pw".to_vec();
    let key = test_key(9);
    let wanted_encrypt = key.encrypt.clone();
    let mut be = MemBackend::new();
    be.put(Id(b"junk".to_vec()), b"this is not a key record".to_vec());
    be.put(Id(b"good".to_vec()), record_blob(key, &pw, 4));
    let found = find_key_in_backend(&be, &pw, None).unwrap();
    assert_eq!(found.encrypt, wanted_encrypt);
}

#[test]
fn from_backend_errors() {
    let mut be = MemBackend::new();
    be.put(Id(b"junk".to_vec()), b"{not json".to_vec());
    let err = KeyFile::from_backend(&be, &Id(b"junk".to_vec())).unwrap_err();
    assert_eq!(err, KeyFileError::DeserializationFailed);
    let err = KeyFile::from_backend(&be, &Id(b"absent".to_vec())).unwrap_err();
    assert_eq!(err, KeyFileError::ReadingFromBackendFailed);
    let err = key_from_backend(&be, &Id(b"junk".to_vec()), &b"pw".to_vec()).unwrap_err();
    assert_eq!(err, KeyFileError::DeserializationFailed);
}

#[test]
fn stored_record_roundtrip_through_backend() {
    let pw = b"door".to_vec();
    let key = test_key(6);
    let wanted_encrypt = key.encrypt.clone();
    let mut be = MemBackend::new();
    be.put(Id(b"only".to_vec()), record_blob(key, &pw, 5));
    let rec = KeyFile::from_backend(&be, &Id(b"only".to_vec())).unwrap();
    assert_eq!(rec.kdf, b"scrypt".to_vec());
    assert_eq!(rec.n, 4);
    let got = key_from_backend(&be, &Id(b"only".to_vec()), &pw).unwrap();
    assert_eq!(got.encrypt, wanted_encrypt);
}
