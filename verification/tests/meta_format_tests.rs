use backup::checksum::HashAlgo;
use backup::meta_format::{check_trailer, verify, FormatError, Reader, VerifyError, Writer};
use backup::checksum::{HashResult, HexError};

fn sample_manifest() -> Vec<u8> {
    let mut writer = Writer::new(HashAlgo::Sha256);
    let mut out = Vec::new();
    out.extend(writer.add_entry("file", "a.txt").unwrap());
    writer.increase_depth();
    out.extend(
        writer
            .add_entry("hash", "5891b5b522d5df086d0ff0b110fbd9d21bb4fc7163af34d08286a2e846f6be03")
            .unwrap(),
    );
    writer.decrease_depth();
    out.extend(writer.finish());
    out
}

#[test]
fn writer_lines_are_indented_key_colon_value() {
    let mut writer = Writer::new(HashAlgo::Sha256);
    assert_eq!(writer.add_entry("file", "a.txt").unwrap(), b"file:a.txt\n".to_vec());
    writer.increase_depth();
    assert_eq!(writer.add_entry("hash", "00ff").unwrap(), b"\thash:00ff\n".to_vec());
    writer.increase_depth();
    assert_eq!(writer.add_entry("k", "").unwrap(), b"\t\tk:\n".to_vec());
    writer.decrease_depth();
    writer.decrease_depth();
    assert_eq!(writer.add_entry("dir", "d:e").unwrap(), b"dir:d:e\n".to_vec());
    assert_eq!(writer.add_entry("", "v").unwrap(), b":v\n".to_vec());
}

#[test]
fn writer_refuses_separator_in_key_and_newline_in_value() {
    let mut writer = Writer::new(HashAlgo::Sha256);
    assert_eq!(writer.add_entry("a:b", "v").err(), Some(FormatError::KeyHasSeparator));
    assert_eq!(writer.add_entry("k", "a\nb").err(), Some(FormatError::ValueHasNewline));
    assert_eq!(writer.add_entry("a:b", "a\nb").err(), Some(FormatError::KeyHasSeparator));
    assert_eq!(writer.finish(), Vec::<u8>::new());
}

#[test]
fn empty_writer_emits_no_trailer() {
    let mut writer = Writer::new(HashAlgo::Sha256);
    writer.increase_depth();
    writer.decrease_depth();
    assert_eq!(writer.finish(), Vec::<u8>::new());
}

#[test]
fn trailer_holds_the_hash_of_the_body_with_its_newlines() {
    let manifest = sample_manifest();
    let expected = "file:a.txt\n\thash:5891b5b522d5df086d0ff0b110fbd9d21bb4fc7163af34d08286a2e846f6be03\n__end:c31a986f37738aece1cbfb9c60e97257c747deabc3e8e2ef426693ae4fb2fd1c\n";
    assert_eq!(String::from_utf8(manifest).unwrap(), expected);
}

#[test]
fn trailer_has_marker_sixty_four_hex_digits_and_newline() {
    let mut writer = Writer::new(HashAlgo::Sha256);
    let _ = writer.add_entry("k", "v").unwrap();
    let trailer = writer.finish();
    assert_eq!(trailer.len(), 6 + 64 + 1);
    assert_eq!(&trailer[..6], b"__end:");
    assert_eq!(trailer[70], b'\n');
    assert!(trailer[6..70].iter().all(|b| b.is_ascii_digit() || (b'a'..=b'f').contains(b)));
}

#[test]
fn writer_starts_over_after_finish() {
    let mut writer = Writer::new(HashAlgo::Sha256);
    let _ = writer.add_entry("x", "y").unwrap();
    let _ = writer.finish();
    let mut out = writer.add_entry("file", "a.txt").unwrap();
    writer.increase_depth();
    out.extend(
        writer
            .add_entry("hash", "5891b5b522d5df086d0ff0b110fbd9d21bb4fc7163af34d08286a2e846f6be03")
            .unwrap(),
    );
    out.extend(writer.finish());
    assert_eq!(out, sample_manifest());
}

#[test]
fn written_manifest_verifies() {
    assert_eq!(verify(&sample_manifest(), HashAlgo::Sha256), Ok(()));
}

#[test]
fn any_flipped_body_byte_is_detected() {
    let manifest = sample_manifest();
    let body_len = manifest.len() - "__end:".len() - 64 - 1;
    for i in 0..body_len {
        let mut changed = manifest.clone();
        changed[i] ^= 0x01;
        let outcome = verify(&changed, HashAlgo::Sha256);
        assert!(outcome.is_err(), "byte {} flipped", i);
    }
    let mut changed = manifest.clone();
    changed[5] = b'b';
    assert_eq!(verify(&changed, HashAlgo::Sha256), Err(VerifyError::HashsumMismatch));
    assert_eq!(VerifyError::HashsumMismatch.message(), "hashsum mismatch");
}

#[test]
fn changed_trailer_is_detected() {
    let mut manifest = sample_manifest();
    let last_digit = manifest.len() - 2;
    manifest[last_digit] = if manifest[last_digit] == b'0' { b'1' } else { b'0' };
    assert_eq!(verify(&manifest, HashAlgo::Sha256), Err(VerifyError::HashsumMismatch));
}

#[test]
fn manifest_without_trailer_fails() {
    assert_eq!(verify(b"", HashAlgo::Sha256), Err(VerifyError::MissingEndMarker));
    assert_eq!(
        verify(b"file:a.txt\n\thash:00\n", HashAlgo::Sha256),
        Err(VerifyError::MissingEndMarker)
    );
    assert_eq!(
        verify(b"file:a.txt\n\t__end:00\n", HashAlgo::Sha256),
        Err(VerifyError::MissingEndMarker)
    );
    assert_eq!(VerifyError::MissingEndMarker.message(), "cannot read __end marker");
}

#[test]
fn trailer_that_is_no_hex_fails() {
    assert_eq!(
        verify(b"a:b\n__end:xyz\n", HashAlgo::Sha256),
        Err(VerifyError::InvalidHash(HexError::OddLength))
    );
    assert_eq!(
        verify(b"a:b\n__end:zz\n", HashAlgo::Sha256),
        Err(VerifyError::InvalidHash(HexError::InvalidHexCharacter { c: 'z', index: 0 }))
    );
}

#[test]
fn trailer_need_not_end_in_newline_and_what_follows_is_ignored() {
    let manifest = sample_manifest();
    let without_newline = &manifest[..manifest.len() - 1];
    assert_eq!(verify(without_newline, HashAlgo::Sha256), Ok(()));
    let mut with_more = manifest.clone();
    with_more.extend_from_slice(b"anything\n");
    assert_eq!(verify(&with_more, HashAlgo::Sha256), Ok(()));
}

#[test]
fn trailer_check_compares_hashes() {
    let computed = HashResult::from_data(&[0xab, 0xcd]);
    assert_eq!(check_trailer(b"abcd", &computed), Ok(()));
    assert_eq!(check_trailer(b"ABCD", &computed), Ok(()));
    assert_eq!(check_trailer(b"abce", &computed), Err(VerifyError::HashsumMismatch));
    assert_eq!(check_trailer(b"abc", &computed), Err(VerifyError::InvalidHash(HexError::OddLength)));
}

#[test]
fn line_parser_splits_depth_key_value() {
    let entry = Reader::key_value_dept(b"\t\thash:00ff\n").unwrap();
    assert_eq!((entry.key.as_str(), entry.value.as_str(), entry.depth), ("hash", "00ff", 2));
    let entry = Reader::key_value_dept(b"file:a:b.txt").unwrap();
    assert_eq!((entry.key.as_str(), entry.value.as_str(), entry.depth), ("file", "a:b.txt", 0));
    let entry = Reader::key_value_dept(b":\n").unwrap();
    assert_eq!((entry.key.as_str(), entry.value.as_str(), entry.depth), ("", "", 0));
    let entry = Reader::key_value_dept(b"k:v\n\n").unwrap();
    assert_eq!((entry.key.as_str(), entry.value.as_str(), entry.depth), ("k", "v\n", 0));
    let entry = Reader::key_value_dept("k\u{e4}:v\u{20ac}\n".as_bytes()).unwrap();
    assert_eq!((entry.key.as_str(), entry.value.as_str()), ("k\u{e4}", "v\u{20ac}"));
}

#[test]
fn line_parser_refuses_malformed_lines() {
    assert_eq!(Reader::key_value_dept(b"no separator\n").err(), Some(FormatError::MissingSeparator));
    assert_eq!(Reader::key_value_dept(b"").err(), Some(FormatError::MissingSeparator));
    assert_eq!(Reader::key_value_dept(b"\t\t\n").err(), Some(FormatError::MissingSeparator));
    assert_eq!(Reader::key_value_dept(b"k:\xff\n").err(), Some(FormatError::InvalidUtf8));
    assert_eq!(Reader::key_value_dept(b"\xc3:v\n").err(), Some(FormatError::InvalidUtf8));
}

#[test]
fn reader_yields_entries_and_stops_at_the_trailer() {
    let mut reader = Reader::new(sample_manifest());
    let first = reader.next().unwrap().unwrap();
    assert_eq!((first.key.as_str(), first.value.as_str(), first.depth), ("file", "a.txt", 0));
    let second = reader.next().unwrap().unwrap();
    assert_eq!(second.key, "hash");
    assert_eq!(second.value, "5891b5b522d5df086d0ff0b110fbd9d21bb4fc7163af34d08286a2e846f6be03");
    assert_eq!(second.depth, 1);
    assert!(reader.next().is_none());
    assert!(reader.next().is_none());
}

#[test]
fn reader_reads_to_the_end_without_trailer() {
    let mut reader = Reader::new(b"a:1\n\tb:2\n\t\tc:3\n\td:4\ne:5".to_vec());
    let mut seen = Vec::new();
    while let Some(entry) = reader.next() {
        let entry = entry.unwrap();
        seen.push((entry.key, entry.value, entry.depth));
    }
    let expected: Vec<(String, String, usize)> = vec![
        ("a".into(), "1".into(), 0),
        ("b".into(), "2".into(), 1),
        ("c".into(), "3".into(), 2),
        ("d".into(), "4".into(), 1),
        ("e".into(), "5".into(), 0),
    ];
    assert_eq!(seen, expected);
}

#[test]
fn reader_refuses_a_depth_jump() {
    let mut reader = Reader::new(b"a:1\n\t\tb:2\nc:3\n".to_vec());
    assert!(reader.next().unwrap().is_ok());
    assert_eq!(reader.next().unwrap().err(), Some(FormatError::DepthJump));
    assert!(reader.next().is_none());
    let mut down = Reader::new(b"a:1\n\tb:2\n\t\tc:3\nd:4\n".to_vec());
    assert!(down.next().unwrap().is_ok());
    assert!(down.next().unwrap().is_ok());
    assert!(down.next().unwrap().is_ok());
    assert_eq!(down.next().unwrap().err(), Some(FormatError::DepthJump));
    let mut first = Reader::new(b"\t\ta:1\n".to_vec());
    assert_eq!(first.next().unwrap().err(), Some(FormatError::DepthJump));
    assert_eq!(
        FormatError::DepthJump.message(),
        "MetaFormat: every element need a parent element"
    );
}

#[test]
fn reader_refuses_a_line_without_separator() {
    let mut reader = Reader::new(b"a:1\nbroken\nc:3\n".to_vec());
    assert!(reader.next().unwrap().is_ok());
    assert_eq!(reader.next().unwrap().err(), Some(FormatError::MissingSeparator));
    assert!(reader.next().is_none());
    assert_eq!(FormatError::MissingSeparator.message(), "MetaFormat: invalid line");
}

#[test]
fn reader_of_nothing_yields_nothing() {
    let mut reader = Reader::new(Vec::new());
    assert!(reader.next().is_none());
}
