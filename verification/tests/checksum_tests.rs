use backup::checksum::{
    new_hasher, new_hasher_salt, DigestImpl, HashAlgo, HashResult, Hasher, HexError,
    OUTPUT_SIZE_SHORT,
};

const HELLO_SHA256: &str = "5891b5b522d5df086d0ff0b110fbd9d21bb4fc7163af34d08286a2e846f6be03";

#[test]
fn hash_result_keeps_its_bytes() {
    let h = HashResult::from_data(&[1, 2, 3, 15, 16]);
    assert_eq!(h.data(), &[1u8, 2, 3, 15, 16][..]);
}

#[test]
fn hex_output_is_lowercase_two_digits_per_byte() {
    let h = HashResult::from_data(&[1, 2, 3, 15, 16, 0xab, 0xff, 0x00]);
    assert_eq!(h.to_string(), "0102030f10abff00");
    assert_eq!(HashResult::from_data(&[]).to_string(), "");
}

#[test]
fn hex_input_accepts_both_cases() {
    let lower = HashResult::from_hex_string("0a1b2c3d4e5f").unwrap();
    let upper = HashResult::from_hex_string("0A1B2C3D4E5F").unwrap();
    let mixed = HashResult::from_hex_string("0a1B2c3D4e5F").unwrap();
    assert_eq!(lower.data(), &[0x0a, 0x1b, 0x2c, 0x3d, 0x4e, 0x5f][..]);
    assert_eq!(upper.data(), lower.data());
    assert_eq!(mixed.data(), lower.data());
    assert_eq!(upper.to_string(), "0a1b2c3d4e5f");
}

#[test]
fn hex_round_trip_of_every_byte() {
    let all: Vec<u8> = (0..=255u8).collect();
    let text = HashResult::from_data(&all).to_string();
    assert_eq!(text.len(), 512);
    let back = HashResult::from_hex_string(&text).unwrap();
    assert_eq!(back.data(), &all[..]);
}

#[test]
fn hex_input_of_odd_length_is_refused() {
    assert_eq!(HashResult::from_hex_string("123").err(), Some(HexError::OddLength));
    assert_eq!(HashResult::from_hex_string("g").err(), Some(HexError::OddLength));
}

#[test]
fn hex_input_reports_the_first_bad_digit() {
    assert_eq!(
        HashResult::from_hex_string("12g4zz").err(),
        Some(HexError::InvalidHexCharacter { c: 'g', index: 2 })
    );
    assert_eq!(
        HashResult::from_hex_string("ab d").err(),
        Some(HexError::InvalidHexCharacter { c: ' ', index: 2 })
    );
}

#[test]
fn short_form_shows_four_bytes_and_dots() {
    assert_eq!(OUTPUT_SIZE_SHORT, 4);
    let h = HashResult::from_hex_string(HELLO_SHA256).unwrap();
    assert_eq!(h.to_string_short(), "5891b5b5...");
    assert_eq!(HashResult::from_data(&[0xab, 0xcd]).to_string_short(), "abcd...");
    assert_eq!(HashResult::from_data(&[]).to_string_short(), "...");
    assert_eq!(HashResult::from_data(&[1, 2, 3, 4]).to_string_short(), "01020304...");
}

#[test]
fn sha256_of_known_inputs() {
    let mut hasher = new_hasher(HashAlgo::Sha256);
    hasher.update(b"hello\n");
    assert_eq!(hasher.finalize().to_string(), HELLO_SHA256);
    let mut empty = DigestImpl::new();
    assert_eq!(
        empty.finalize().to_string(),
        "e3b0c44298fc1c149afbf4c8996fb92427ae41e4649b934ca495991b7852b855"
    );
    let mut abc = DigestImpl::new();
    abc.update(b"abc");
    let digest = abc.finalize();
    assert_eq!(digest.data().len(), 32);
    assert_eq!(
        digest.to_string(),
        "ba7816bf8f01cfea414140de5dae2223b00361a396177a9cb410ff61f20015ad"
    );
}

#[test]
fn hasher_starts_over_after_finalize() {
    let mut hasher = new_hasher(HashAlgo::Sha256);
    hasher.update(b"something else");
    let _ = hasher.finalize();
    hasher.update(b"hello\n");
    assert_eq!(hasher.finalize().to_string(), HELLO_SHA256);
}

#[test]
fn hashing_in_chunks_is_hashing_whole() {
    let mut whole = new_hasher(HashAlgo::Sha256);
    whole.update(b"hello\n");
    let expected = whole.finalize().to_string();
    let mut piecewise = new_hasher(HashAlgo::Sha256);
    let chunks = vec![b"he".to_vec(), Vec::new(), b"llo".to_vec(), b"\n".to_vec()];
    assert_eq!(piecewise.stream(&chunks).to_string(), expected);
    let mut none = new_hasher(HashAlgo::Sha256);
    assert_eq!(
        none.stream(&Vec::new()).to_string(),
        "e3b0c44298fc1c149afbf4c8996fb92427ae41e4649b934ca495991b7852b855"
    );
}

#[test]
fn salted_hasher_has_taken_in_the_salt() {
    let mut salted = new_hasher_salt(HashAlgo::Sha256, b"hel");
    salted.update(b"lo\n");
    assert_eq!(salted.finalize().to_string(), HELLO_SHA256);
}
