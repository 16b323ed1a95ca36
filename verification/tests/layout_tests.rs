use backup::archive::defs::{
    channel_dir, channel_file, channel_file_at, channel_file_for, channel_rev_last, content_dir,
    content_file, join, lock_file, next_channel_file, revision_name, settings_file, timestamp_at,
    LayoutError, Timestamp,
    CHANNEL_DIR, CONTENT_DIR, LOCK_FILE, SETTINGS_FILE,
};
use backup::archive::keys::{DIR, FILE, HASH};

fn moment() -> Timestamp {
    Timestamp { year: 2024, month: 1, day: 5, hour: 7, minute: 8, second: 9 }
}

#[test]
fn names_of_the_layout() {
    assert_eq!(CONTENT_DIR, "content");
    assert_eq!(CHANNEL_DIR, "channels");
    assert_eq!(LOCK_FILE, "lock");
    assert_eq!(SETTINGS_FILE, "settings.json");
    assert_eq!((FILE, DIR, HASH), ("file", "dir", "hash"));
}

#[test]
fn join_puts_one_separator_between() {
    assert_eq!(join("a", "b"), "a/b");
    assert_eq!(join("a/", "b"), "a/b");
    assert_eq!(join("", "b"), "b");
    assert_eq!(join("a", ""), "a/");
    assert_eq!(join("/", "b"), "/b");
    assert_eq!(join("a/b", "c/d"), "a/b/c/d");
    assert_eq!(join("\u{e4}rchiv", "\u{20ac}"), "\u{e4}rchiv/\u{20ac}");
}

#[test]
fn join_with_an_absolute_child_is_the_child() {
    assert_eq!(join("a", "/b"), "/b");
    assert_eq!(join("", "/"), "/");
}

#[test]
fn paths_of_an_archive() {
    assert_eq!(settings_file("/arch"), "/arch/settings.json");
    assert_eq!(content_dir("/arch/"), "/arch/content");
    assert_eq!(lock_file("arch"), "arch/lock");
    assert_eq!(channel_dir("/arch", "main"), "/arch/channels/main");
    assert_eq!(channel_file("/arch", "main", "rev1"), "/arch/channels/main/rev1");
    assert_eq!(channel_file("/arch", "main", "/abs/rev1"), "/abs/rev1");
}

#[test]
fn blob_is_named_by_lowercase_hex_without_separators() {
    assert_eq!(content_file("/arch", &[0x00, 0xab, 0xcd, 0xef, 0x10]), "/arch/content/00abcdef10");
    assert_eq!(content_file("/arch", &[]), "/arch/content/");
}

#[test]
fn revision_name_has_fixed_width_fields() {
    assert_eq!(
        revision_name(moment(), 0x1234_abcd).unwrap(),
        "20240105_0708_09_000000001234abcd"
    );
    let late = Timestamp { year: 9999, month: 12, day: 31, hour: 23, minute: 59, second: 59 };
    assert_eq!(revision_name(late, u64::MAX).unwrap(), "99991231_2359_59_ffffffffffffffff");
    let early = Timestamp { year: 0, month: 1, day: 1, hour: 0, minute: 0, second: 0 };
    assert_eq!(revision_name(early, 0).unwrap(), "00000101_0000_00_0000000000000000");
}

#[test]
fn revision_name_refuses_fields_out_of_range() {
    let base = moment();
    assert!(revision_name(Timestamp { year: 10000, ..base }, 0).is_none());
    assert!(revision_name(Timestamp { year: -1, ..base }, 0).is_none());
    assert!(revision_name(Timestamp { month: 0, ..base }, 0).is_none());
    assert!(revision_name(Timestamp { month: 13, ..base }, 0).is_none());
    assert!(revision_name(Timestamp { day: 0, ..base }, 0).is_none());
    assert!(revision_name(Timestamp { day: 32, ..base }, 0).is_none());
    assert!(revision_name(Timestamp { hour: 24, ..base }, 0).is_none());
    assert!(revision_name(Timestamp { minute: 60, ..base }, 0).is_none());
    assert!(revision_name(Timestamp { second: 60, ..base }, 0).is_none());
}

#[test]
fn later_revisions_have_greater_names() {
    let first = revision_name(moment(), u64::MAX).unwrap();
    let second = revision_name(Timestamp { second: 10, ..moment() }, 0).unwrap();
    let third = revision_name(Timestamp { month: 10, day: 1, ..moment() }, 0).unwrap();
    assert!(first < second);
    assert!(second < third);
}

#[test]
fn revision_file_lies_in_its_channel() {
    assert_eq!(
        channel_file_at("/arch", "main", moment(), 255),
        Ok("/arch/channels/main/20240105_0708_09_00000000000000ff".to_string())
    );
    assert_eq!(
        channel_file_at("/arch", "main", Timestamp { year: 12345, ..moment() }, 255),
        Err(LayoutError::ClockOutOfRange)
    );
}

#[test]
fn moment_of_a_number_of_seconds() {
    assert_eq!(
        timestamp_at(0),
        Some(Timestamp { year: 1970, month: 1, day: 1, hour: 0, minute: 0, second: 0 })
    );
    assert_eq!(
        timestamp_at(1_431_648_000),
        Some(Timestamp { year: 2015, month: 5, day: 15, hour: 0, minute: 0, second: 0 })
    );
    assert_eq!(
        timestamp_at(1_704_438_489),
        Some(Timestamp { year: 2024, month: 1, day: 5, hour: 7, minute: 8, second: 9 })
    );
    assert_eq!(timestamp_at(u64::MAX), None);
    assert_eq!(timestamp_at(i64::MAX as u64), None);
}

#[test]
fn revision_file_needs_clock_and_random_number() {
    assert_eq!(
        channel_file_for("/arch", "main", Some(moment()), Some(255)),
        Ok("/arch/channels/main/20240105_0708_09_00000000000000ff".to_string())
    );
    assert_eq!(
        channel_file_for("/arch", "main", None, Some(255)),
        Err(LayoutError::ClockOutOfRange)
    );
    assert_eq!(channel_file_for("/arch", "main", None, None), Err(LayoutError::ClockOutOfRange));
    assert_eq!(
        channel_file_for("/arch", "main", Some(Timestamp { year: 12345, ..moment() }), Some(1)),
        Err(LayoutError::ClockOutOfRange)
    );
    assert_eq!(
        channel_file_for("/arch", "main", Some(moment()), None),
        Err(LayoutError::NoEntropy)
    );
    assert_eq!(
        LayoutError::NoEntropy.message("main"),
        "cannot get a random number for channel main"
    );
    assert_eq!(
        LayoutError::ClockOutOfRange.message("main"),
        "cannot name a revision in channel main"
    );
}

#[test]
fn next_revision_file_is_named_after_now() {
    let path = next_channel_file("/arch", "main").unwrap();
    let name = path.strip_prefix("/arch/channels/main/").unwrap();
    assert_eq!(name.len(), 8 + 1 + 4 + 1 + 2 + 1 + 16);
    let bytes = name.as_bytes();
    assert_eq!((bytes[8], bytes[13], bytes[16]), (b'_', b'_', b'_'));
    assert!(name[..8].bytes().all(|b| b.is_ascii_digit()));
    assert!(name[17..].bytes().all(|b| b.is_ascii_digit() || (b'a'..=b'f').contains(&b)));
    assert!(&name[..4] >= "2024");
    let other = next_channel_file("/arch", "main").unwrap();
    assert_ne!(path, other);
}

#[test]
fn latest_revision_is_the_greatest_name() {
    let names: Vec<String> = vec![
        "20240105_0708_09_0000000000000001".into(),
        "20240105_0708_10_0000000000000000".into(),
        "20231231_2359_59_ffffffffffffffff".into(),
        "20240105_0708_09_ffffffffffffffff".into(),
    ];
    assert_eq!(channel_rev_last(&names), Ok("20240105_0708_10_0000000000000000".to_string()));
    assert_eq!(channel_rev_last(&vec!["a".to_string()]), Ok("a".to_string()));
    assert_eq!(
        channel_rev_last(&vec!["b".to_string(), "ab".to_string(), "b".to_string(), "a".to_string()]),
        Ok("b".to_string())
    );
    assert_eq!(
        channel_rev_last(&vec!["a".to_string(), "a/".to_string(), "a-".to_string()]),
        Ok("a/".to_string())
    );
}

#[test]
fn empty_channel_has_no_latest_revision() {
    let outcome = channel_rev_last(&Vec::new());
    assert_eq!(outcome, Err(LayoutError::NoRevision));
    assert_eq!(
        outcome.unwrap_err().message("main"),
        "cannot get latest revision in channel main"
    );
}
