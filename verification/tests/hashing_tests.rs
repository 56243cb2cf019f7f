use notevault::hashing::get_hash;
use notevault::hexcodec::hex_decode;
use notevault::keys::new_key;

#[test]
fn get_hash_known_vector() {
    let h = get_hash(b"abc");
    assert_eq!(
        h,
        b"ba7816bf8f01cfea414140de5dae2223b00361a396177a9cb410ff61f20015ad".to_vec()
    );
}

#[test]
fn get_hash_contents_vector() {
    // the storage key of the index record, as it appears on disk
    let h = get_hash(b"contents");
    assert_eq!(
        h,
        b"d1b2a59fbea7e20077af9f91b27e95e865061b270be03ff539ab3b73587882e8".to_vec()
    );
}

#[test]
fn get_hash_is_deterministic() {
    assert_eq!(get_hash(b"some title"), get_hash(b"some title"));
}

#[test]
fn get_hash_length_and_digits() {
    let h = get_hash(b"");
    assert_eq!(h.len(), 64);
    for b in h {
        assert!((b'0'..=b'9').contains(&b) || (b'a'..=b'f').contains(&b));
    }
}

#[test]
fn hex_decode_valid() {
    let d = hex_decode(b"2b7e151628aed2a6abf7158809cf4f3c").unwrap();
    assert_eq!(
        d,
        vec![
            0x2b, 0x7e, 0x15, 0x16, 0x28, 0xae, 0xd2, 0xa6, 0xab, 0xf7, 0x15, 0x88, 0x09, 0xcf,
            0x4f, 0x3c
        ]
    );
}

#[test]
fn hex_decode_empty() {
    assert_eq!(hex_decode(b"").unwrap(), Vec::<u8>::new());
}

#[test]
fn hex_decode_odd_length_rejected() {
    assert!(hex_decode(b"abc").is_none());
}

#[test]
fn hex_decode_bad_digit_rejected() {
    assert!(hex_decode(b"2g").is_none());
    // uppercase digits are not the canonical form and are rejected
    assert!(hex_decode(b"2B").is_none());
}

#[test]
fn new_key_exact_value() {
    // first half of the hex digest of "my password" ++ "my salt"
    let k = new_key(b"my password");
    assert_eq!(k, b"ae4ab225f4a8f022f0107e36da013a96".to_vec());
}

#[test]
fn new_key_same_password_same_key() {
    assert_eq!(new_key(b"hunter2"), new_key(b"hunter2"));
    assert_ne!(new_key(b"hunter2"), new_key(b"hunter3"));
}
