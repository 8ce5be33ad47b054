use keyfile::base64::{b64_encode, b64_decode};
use keyfile::error::KeyFileError;
use keyfile::keyfile::{KeyFile, parse_key_record};

fn plain_record() -> KeyFile {
    KeyFile {
        hostname: None,
        username: None,
        created: None,
        kdf: b"scrypt".to_vec(),
        n: 2,
        r: 1,
        p: 1,
        data: vec![1, 2, 3],
        salt: vec![4, 5, 6],
    }
}

#[test]
fn record_encoding_exact_bytes() {
    let rec = plain_record();
    let out = rec.encode_key_record().unwrap();
    let expected = b"{\"kdf\":\"scrypt\",\"N\":2,\"r\":1,\"p\":1,\"data\":\"AQID\",\"salt\":\"BAUG\"}";
    assert_eq!(out, expected.to_vec());
}

#[test]
fn record_roundtrip_with_metadata() {
    let rec = KeyFile {
        hostname: Some(b"box".to_vec()),
        username: Some(b"alex".to_vec()),
        created: Some(b"2024-05-01T10:00:00+02:00".to_vec()),
        ..plain_record()
    };
    let out = rec.encode_key_record().unwrap();
    let back = parse_key_record(&out).expect("canonical encoding must parse");
    assert_eq!(back.hostname, rec.hostname);
    assert_eq!(back.username, rec.username);
    assert_eq!(back.created, rec.created);
    assert_eq!(back.kdf, rec.kdf);
    assert_eq!(back.n, rec.n);
    assert_eq!(back.r, rec.r);
    assert_eq!(back.p, rec.p);
    assert_eq!(back.data, rec.data);
    assert_eq!(back.salt, rec.salt);
}

#[test]
fn record_roundtrip_unset_metadata() {
    let rec = plain_record();
    let out = rec.encode_key_record().unwrap();
    let back = parse_key_record(&out).expect("canonical encoding must parse");
    assert_eq!(back.hostname, None);
    assert_eq!(back.username, None);
    assert_eq!(back.created, None);
    assert_eq!(back.n, rec.n);
    assert_eq!(back.data, rec.data);
    assert_eq!(back.salt, rec.salt);
}

#[test]
fn record_roundtrip_partial_metadata() {
    let rec = KeyFile { username: Some(b"only-user".to_vec()), ..plain_record() };
    let out = rec.encode_key_record().unwrap();
    let back = parse_key_record(&out).expect("canonical encoding must parse");
    assert_eq!(back.hostname, None);
    assert_eq!(back.username, Some(b"only-user".to_vec()));
    assert_eq!(back.created, None);
}

#[test]
fn record_parser_is_strict() {
    // an unrecognized field name is rejected
    let unknown = b"{\"kdfx\":\"scrypt\",\"N\":2,\"r\":1,\"p\":1,\"data\":\"AQID\",\"salt\":\"BAUG\"}";
    assert!(parse_key_record(&unknown.to_vec()).is_none());
    // trailing bytes are rejected
    let mut trailing = plain_record().encode_key_record().unwrap();
    trailing.push(b' ');
    assert!(parse_key_record(&trailing).is_none());
    // a leading zero in a number is rejected
    let padded = b"{\"kdf\":\"scrypt\",\"N\":02,\"r\":1,\"p\":1,\"data\":\"AQID\",\"salt\":\"BAUG\"}";
    assert!(parse_key_record(&padded.to_vec()).is_none());
    // plain garbage is rejected
    assert!(parse_key_record(&b"not a record".to_vec()).is_none());
    assert!(parse_key_record(&Vec::new()).is_none());
}

#[test]
fn encode_rejects_dirty_metadata() {
    let rec = KeyFile { hostname: Some(b"a\"b".to_vec()), ..plain_record() };
    assert_eq!(rec.encode_key_record().unwrap_err(), KeyFileError::SerializationFailed);
    let rec = KeyFile { created: Some(vec![0x07]), ..plain_record() };
    assert_eq!(rec.encode_key_record().unwrap_err(), KeyFileError::SerializationFailed);
}

#[test]
fn base64_known_values() {
    assert_eq!(b64_encode(&Vec::new()), Vec::<u8>::new());
    assert_eq!(b64_encode(&vec![1, 2, 3]), b"AQID".to_vec());
    assert_eq!(b64_encode(&vec![0xff, 0xee]), b"/+4=".to_vec());
    assert_eq!(b64_encode(&vec![0x4d]), b"TQ==".to_vec());
    assert_eq!(b64_decode(&b"AQID".to_vec()), Some(vec![1, 2, 3]));
    assert_eq!(b64_decode(&b"/+4=".to_vec()), Some(vec![0xff, 0xee]));
    assert_eq!(b64_decode(&b"TQ==".to_vec()), Some(vec![0x4d]));
    // wrong length, alien characters, and non-canonical spare bits fail
    assert_eq!(b64_decode(&b"AQI".to_vec()), None);
    assert_eq!(b64_decode(&b"A!ID".to_vec()), None);
    assert_eq!(b64_decode(&b"TR==".to_vec()), None);
}

#[test]
fn base64_roundtrip_all_tail_shapes() {
    for len in 0..10usize {
        let bytes: Vec<u8> = (0..len as u8).map(|b| b.wrapping_mul(37).wrapping_add(11)).collect();
        let enc = b64_encode(&bytes);
        assert_eq!(b64_decode(&enc), Some(bytes), "length {len}");
    }
}
