use backup::archive::channel_reader::{
    ChannelReader, ChannelReaderItem, ChannelReaderOptions, ReadError,
};
use backup::archive::channel_writer::{ChannelWriter, ChannelWriterAdd};
use backup::archive::content::{compress_copy, decompress_copy, ContentCompression, ContentSettings};
use backup::archive::defs::LayoutError;
use backup::archive::session::{BackupSession, GetSession, ToSession};
use backup::checksum::{new_hasher, HashAlgo, HashResult, Hasher, HexError};
use backup::meta_format::{verify, FormatError, VerifyError};
use backup::misc_helper::EntryKind;
use backup::pipeline::{
    backup_file, parent_dir, restore_dest, restore_file, BackupAction, RestoreAction, SourceEntry,
};
use std::collections::BTreeMap;

const HELLO_SHA256: &str = "5891b5b522d5df086d0ff0b110fbd9d21bb4fc7163af34d08286a2e846f6be03";
const SAME_SHA256: &str = "0967115f2813a3541eaef77de9d9d5773f1c0c04314b0bbfe4ff3b3b1c55b5d5";

fn session() -> BackupSession {
    BackupSession {
        archive_dir: "/arch".to_string(),
        settings: ContentSettings {
            compression: ContentCompression::Bzip2 { level: 1 },
            hash_algo: HashAlgo::Sha256,
        },
    }
}

fn options(entry: Option<&str>) -> ChannelReaderOptions {
    ChannelReaderOptions { channel: "main".to_string(), entry: entry.map(|e| e.to_string()) }
}

fn hash_of(content: &[u8]) -> HashResult {
    let mut hasher = new_hasher(HashAlgo::Sha256);
    hasher.update(content);
    hasher.finalize()
}

fn writer() -> ChannelWriter {
    ChannelWriter::new(session(), "main").unwrap().0
}

fn items_of(manifest: &[u8]) -> Vec<Result<(String, String), ReadError>> {
    let mut reader = ChannelReader::new(session(), options(None), manifest.to_vec());
    let mut items = Vec::new();
    while let Some(item) = reader.next() {
        items.push(item.map(|i| (i.relative_path, i.content_path)));
    }
    assert!(reader.next().is_none());
    items
}

#[test]
fn new_revision_lies_in_its_channel() {
    let (writer, plan) = ChannelWriter::new(session(), "main").unwrap();
    assert_eq!(plan.channel_dir, "/arch/channels/main");
    assert_eq!(plan.content_dir, "/arch/content");
    assert!(plan.revision_file.starts_with("/arch/channels/main/20"));
    assert_eq!(plan.revision_file.len(), "/arch/channels/main/".len() + 33);
    assert_eq!(writer.get_session().archive_dir, "/arch");
    assert_eq!(writer.to_session().archive_dir, "/arch");
}

#[test]
fn single_file_backup() {
    let mut writer = writer();
    let hash = hash_of(b"hello\n");
    assert_eq!(writer.blob_path(&hash), format!("/arch/content/{}", HELLO_SHA256));
    let added = writer.add_file("a.txt", &hash, false).unwrap();
    assert_eq!(
        String::from_utf8(added.lines.clone()).unwrap(),
        format!("file:a.txt\n\thash:{}\n", HELLO_SHA256)
    );
    match added.action {
        ChannelWriterAdd::HashFile(target) => {
            assert_eq!(target, format!("/arch/content/{}", HELLO_SHA256))
        }
        ChannelWriterAdd::AlreadyExist => panic!("the blob is not there yet"),
    }
    let trailer = writer.finish();
    assert_eq!(
        String::from_utf8(trailer).unwrap(),
        "__end:c31a986f37738aece1cbfb9c60e97257c747deabc3e8e2ef426693ae4fb2fd1c\n"
    );
}

#[test]
fn dedup_across_paths() {
    let mut writer = writer();
    let mut blobs: BTreeMap<String, Vec<u8>> = BTreeMap::new();
    let mut manifest = Vec::new();
    for path in ["x/a", "y/b"] {
        let hash = hash_of(b"same");
        let present = blobs.contains_key(&writer.blob_path(&hash));
        let added = writer.add_file(path, &hash, present).unwrap();
        manifest.extend(added.lines);
        if let ChannelWriterAdd::HashFile(target) = added.action {
            blobs.insert(target, b"same".to_vec());
        }
    }
    manifest.extend(writer.finish());
    assert_eq!(blobs.len(), 1);
    assert!(blobs.contains_key(&format!("/arch/content/{}", SAME_SHA256)));
    let text = String::from_utf8(manifest.clone()).unwrap();
    let hashes: Vec<&str> = text.lines().filter(|l| l.starts_with("\thash:")).collect();
    assert_eq!(hashes.len(), 2);
    assert_eq!(hashes[0], hashes[1]);
    assert_eq!(text.lines().filter(|l| l.starts_with("file:")).count(), 2);
    let items = items_of(&manifest);
    assert_eq!(items.len(), 2);
    assert_eq!(items[0].as_ref().unwrap().1, items[1].as_ref().unwrap().1);
}

#[test]
fn present_blob_is_not_written_again() {
    let mut writer = writer();
    let added = writer.add_file("a.txt", &hash_of(b"hello\n"), true).unwrap();
    assert!(matches!(added.action, ChannelWriterAdd::AlreadyExist));
    assert_eq!(
        String::from_utf8(added.lines).unwrap(),
        format!("file:a.txt\n\thash:{}\n", HELLO_SHA256)
    );
}

#[test]
fn directory_is_recorded_at_top_level() {
    let mut writer = writer();
    assert_eq!(writer.add_dir("d").unwrap(), b"dir:d\n".to_vec());
    let _ = writer.add_file("d/f", &hash_of(b"1"), false).unwrap();
    assert_eq!(writer.add_dir("d/e").unwrap(), b"dir:d/e\n".to_vec());
}

#[test]
fn path_with_line_break_is_refused_and_nothing_recorded() {
    let mut writer = writer();
    assert_eq!(
        writer.add_file("a\nb", &hash_of(b"1"), false).err(),
        Some(FormatError::ValueHasNewline)
    );
    assert_eq!(writer.add_dir("a\n").err(), Some(FormatError::ValueHasNewline));
    assert_eq!(writer.finish(), Vec::<u8>::new());
}

#[test]
fn every_written_revision_verifies() {
    let mut writer = writer();
    let mut manifest = Vec::new();
    manifest.extend(writer.add_dir("d").unwrap());
    manifest.extend(writer.add_file("d/f1", &hash_of(b"1"), false).unwrap().lines);
    manifest.extend(writer.add_file("f:2", &hash_of(b"22"), false).unwrap().lines);
    manifest.extend(writer.finish());
    assert_eq!(verify(&manifest, HashAlgo::Sha256), Ok(()));
    let mut corrupt = manifest.clone();
    corrupt[7] ^= 0x20;
    assert_eq!(verify(&corrupt, HashAlgo::Sha256), Err(VerifyError::HashsumMismatch));
}

#[test]
fn reader_yields_files_with_their_blobs() {
    let manifest = format!(
        "dir:d\nfile:d/f1\n\thash:{}\n\tsize:1\nfile:f2\n\thash:{}\n__end:00\n",
        HELLO_SHA256,
        SAME_SHA256.to_uppercase()
    );
    assert_eq!(
        items_of(manifest.as_bytes()),
        vec![
            Ok(("d/f1".to_string(), format!("/arch/content/{}", HELLO_SHA256))),
            Ok(("f2".to_string(), format!("/arch/content/{}", SAME_SHA256))),
        ]
    );
}

#[test]
fn group_without_hash_fails_and_the_next_goes_on() {
    let manifest = format!(
        "file:a\n\tsize:1\nfile:b\n\thash:zz\nfile:c\n\thash:{}\nfile:d\n",
        HELLO_SHA256
    );
    assert_eq!(
        items_of(manifest.as_bytes()),
        vec![
            Err(ReadError::MissingHash),
            Err(ReadError::InvalidHash(HexError::InvalidHexCharacter { c: 'z', index: 0 })),
            Ok(("c".to_string(), format!("/arch/content/{}", HELLO_SHA256))),
            Err(ReadError::MissingHash),
        ]
    );
    assert_eq!(ReadError::MissingHash.message(), "checksum is missing");
}

#[test]
fn hash_counts_only_at_depth_one_below_a_file() {
    let manifest = format!(
        "hash:{h}\ndir:d\n\thash:{h}\nfile:a\n\tx:1\n\t\thash:{h}\n",
        h = HELLO_SHA256
    );
    assert_eq!(items_of(manifest.as_bytes()), vec![Err(ReadError::MissingHash)]);
}

#[test]
fn malformed_manifest_ends_the_iteration_with_an_error() {
    let manifest = format!("file:a\n\thash:{}\nbroken line\nfile:b\n", HELLO_SHA256);
    assert_eq!(
        items_of(manifest.as_bytes()),
        vec![
            Ok(("a".to_string(), format!("/arch/content/{}", HELLO_SHA256))),
            Err(ReadError::Format(FormatError::MissingSeparator)),
        ]
    );
    assert_eq!(
        items_of(b"file:a\n\t\t\tdeep:1\n"),
        vec![Err(ReadError::MissingHash), Err(ReadError::Format(FormatError::DepthJump))]
    );
}

#[test]
fn empty_manifest_yields_nothing() {
    assert_eq!(items_of(b""), Vec::new());
    assert_eq!(items_of(b"__end:00\nfile:a\n"), Vec::new());
    assert_eq!(items_of(b"dir:a\ndir:b\n"), Vec::new());
}

#[test]
fn reader_keeps_session_and_channel() {
    let reader = ChannelReader::new(session(), options(None), Vec::new());
    assert_eq!(reader.get_session().archive_dir, "/arch");
    assert_eq!(reader.to_session().settings, session().settings);
}

#[test]
fn revision_selection_takes_the_entry_or_the_latest() {
    let revisions: Vec<String> = vec![
        "20240105_0708_09_0000000000000001".into(),
        "20240106_0000_00_0000000000000000".into(),
        "20231231_2359_59_ffffffffffffffff".into(),
    ];
    assert_eq!(
        ChannelReader::select(&session(), &options(None), &revisions),
        Ok("/arch/channels/main/20240106_0000_00_0000000000000000".to_string())
    );
    assert_eq!(
        ChannelReader::select(&session(), &options(Some("20231231_2359_59_ffffffffffffffff")), &revisions),
        Ok("/arch/channels/main/20231231_2359_59_ffffffffffffffff".to_string())
    );
    assert_eq!(
        ChannelReader::select(&session(), &options(Some("other")), &Vec::new()),
        Ok("/arch/channels/main/other".to_string())
    );
}

#[test]
fn empty_channel_select() {
    let outcome = ChannelReader::select(&session(), &options(None), &Vec::new());
    assert_eq!(outcome, Err(LayoutError::NoRevision));
    assert_eq!(
        outcome.unwrap_err().message("main"),
        "cannot get latest revision in channel main"
    );
}

#[test]
fn backup_decides_by_what_was_found() {
    let mut writer = writer();
    let step = backup_file(&mut writer, "/src/a.txt", "/src", SourceEntry::Unreadable).unwrap();
    assert!(step.lines.is_empty() && matches!(step.action, BackupAction::SkipNoMetadata));
    let step = backup_file(&mut writer, "/src/a.txt", "/src", SourceEntry::Other).unwrap();
    assert!(step.lines.is_empty() && matches!(step.action, BackupAction::Invalid));
    let unread = SourceEntry::File { checksum: None, blob_present: false };
    let step = backup_file(&mut writer, "/src/a.txt", "/src", unread).unwrap();
    assert!(step.lines.is_empty() && matches!(step.action, BackupAction::SkipNoChecksum));
    assert_eq!(writer.finish(), Vec::<u8>::new());

    let found = SourceEntry::File { checksum: Some(hash_of(b"hello\n")), blob_present: false };
    let step = backup_file(&mut writer, "/src/sub/a.txt", "/src", found).unwrap();
    assert_eq!(
        String::from_utf8(step.lines).unwrap(),
        format!("file:sub/a.txt\n\thash:{}\n", HELLO_SHA256)
    );
    assert!(matches!(step.action, BackupAction::StoreBlob { target }
        if target == format!("/arch/content/{}", HELLO_SHA256)));

    let found = SourceEntry::File { checksum: Some(hash_of(b"hello\n")), blob_present: true };
    let step = backup_file(&mut writer, "/src/b.txt", "/src", found).unwrap();
    assert_eq!(
        String::from_utf8(step.lines).unwrap(),
        format!("file:b.txt\n\thash:{}\n", HELLO_SHA256)
    );
    assert!(matches!(step.action, BackupAction::Deduplicated));

    let step = backup_file(&mut writer, "/src/sub", "/src", SourceEntry::Dir).unwrap();
    assert_eq!(step.lines, b"dir:sub\n".to_vec());
    assert!(matches!(step.action, BackupAction::DirRecorded));

    let outcome = backup_file(&mut writer, "/src/a\nb", "/src", SourceEntry::Dir);
    assert_eq!(outcome.err(), Some(FormatError::ValueHasNewline));
}

#[test]
fn restore_goes_below_the_destination() {
    let item = ChannelReaderItem {
        relative_path: "d/f1".to_string(),
        content_path: "/arch/content/00".to_string(),
    };
    assert_eq!(restore_dest("/dst", &item), "/dst/d/f1");
    match restore_file("/dst", &item, EntryKind::Missing) {
        RestoreAction::Restore { source, dest, parent } => {
            assert_eq!(source, "/arch/content/00");
            assert_eq!(dest, "/dst/d/f1");
            assert_eq!(parent, "/dst/d");
        }
        RestoreAction::SkipExisting { .. } => panic!("nothing is there"),
    }
    for kind in [EntryKind::File, EntryKind::Dir] {
        assert!(matches!(restore_file("/dst", &item, kind),
            RestoreAction::SkipExisting { dest } if dest == "/dst/d/f1"));
    }
}

#[test]
fn parent_of_a_path() {
    assert_eq!(parent_dir("/dst/d/f1"), "/dst/d");
    assert_eq!(parent_dir("/dst/d/"), "/dst");
    assert_eq!(parent_dir("a//b"), "a");
    assert_eq!(parent_dir("/a"), "/");
    assert_eq!(parent_dir("a"), "");
    assert_eq!(parent_dir(""), "");
    assert_eq!(parent_dir("/"), "");
}

#[test]
fn simple() {
    // source tree {d/, d/f1 = "1", f2 = "22", same content at x/a and y/b}
    let source: Vec<(&str, Option<&[u8]>)> = vec![
        ("/src/d", None),
        ("/src/d/f1", Some(b"1")),
        ("/src/f2", Some(b"22")),
        ("/src/x", None),
        ("/src/x/a", Some(b"same")),
        ("/src/y", None),
        ("/src/y/b", Some(b"same")),
    ];
    let session = session();
    let compression = session.settings.compression;
    let (mut writer, _) = ChannelWriter::new(session, "main").unwrap();
    let mut blobs: BTreeMap<String, Vec<u8>> = BTreeMap::new();
    let mut manifest = Vec::new();
    for (path, content) in &source {
        let found = match content {
            None => SourceEntry::Dir,
            Some(content) => {
                let checksum = hash_of(content);
                let blob_present = blobs.contains_key(&writer.blob_path(&checksum));
                SourceEntry::File { checksum: Some(checksum), blob_present }
            }
        };
        let step = backup_file(&mut writer, path, "/src", found).unwrap();
        manifest.extend(step.lines);
        if let BackupAction::StoreBlob { target } = step.action {
            blobs.insert(target, compress_copy(content.unwrap(), &compression).unwrap());
        }
    }
    manifest.extend(writer.finish());
    assert_eq!(blobs.len(), 3);
    assert!(String::from_utf8(manifest.clone()).unwrap().contains("dir:d\n"));
    assert_eq!(verify(&manifest, HashAlgo::Sha256), Ok(()));

    let mut reader = ChannelReader::new(writer.to_session(), options(None), manifest);
    let mut restored: BTreeMap<String, Vec<u8>> = BTreeMap::new();
    while let Some(item) = reader.next() {
        let item = item.unwrap();
        let kind = if restored.contains_key(&restore_dest("/dst", &item)) {
            EntryKind::File
        } else {
            EntryKind::Missing
        };
        if let RestoreAction::Restore { source, dest, .. } = restore_file("/dst", &item, kind) {
            restored.insert(dest, decompress_copy(&blobs[&source], &compression).unwrap());
        }
    }
    let expected: BTreeMap<String, Vec<u8>> = source
        .iter()
        .filter_map(|(path, content)| {
            content.map(|c| (path.replacen("/src", "/dst", 1), c.to_vec()))
        })
        .collect();
    assert_eq!(restored, expected);

    // an entry that the source does not have makes the trees differ
    restored.insert("/dst/invalid_entry".to_string(), Vec::new());
    assert_ne!(restored, expected);
}

#[test]
fn restore_steps_follow_the_revision() {
    let manifest = format!(
        "dir:d\nfile:d/f1\n\thash:{}\nfile:a\nfile:/abs\n\thash:{}\nbroken\n",
        HELLO_SHA256, SAME_SHA256
    );
    let reader = ChannelReader::new(session(), options(None), manifest.into_bytes());
    let steps = backup::pipeline::restore(reader, "/dst");
    assert_eq!(steps.len(), 4);
    match &steps[0] {
        backup::pipeline::RestoreStep::File { item, dest } => {
            assert_eq!(item.relative_path, "d/f1");
            assert_eq!(item.content_path, format!("/arch/content/{}", HELLO_SHA256));
            assert_eq!(dest, "/dst/d/f1");
        }
        backup::pipeline::RestoreStep::Failed(_) => panic!("the first file is complete"),
    }
    assert!(matches!(steps[1], backup::pipeline::RestoreStep::Failed(ReadError::MissingHash)));
    assert!(matches!(&steps[2],
        backup::pipeline::RestoreStep::File { item, dest }
            if item.relative_path == "/abs" && dest == "/abs"));
    assert!(matches!(
        steps[3],
        backup::pipeline::RestoreStep::Failed(ReadError::Format(FormatError::MissingSeparator))
    ));
    let none = backup::pipeline::restore(
        ChannelReader::new(session(), options(None), Vec::new()),
        "/dst",
    );
    assert!(none.is_empty());
}

#[test]
fn hash_results_compare_by_their_bytes() {
    assert!(hash_of(b"same") == hash_of(b"same"));
    assert!(hash_of(b"same") != hash_of(b"other"));
    assert!(HashResult::from_data(&[]) == HashResult::from_data(&[]));
    assert!(HashResult::from_data(&[1]) != HashResult::from_data(&[1, 0]));
    assert!(HashResult::from_hex_string("ABCD").unwrap() == HashResult::from_data(&[0xab, 0xcd]));
}
