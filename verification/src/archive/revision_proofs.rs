//! What holds of every revision that the channel writer can produce: it
//! passes the integrity check, and the channel reader yields its files, each
//! with its path and the blob of its content.

use crate::archive::channel_reader::{
    absorb, channel_items, close_group, items_from, open_group, Group, ItemModel, ReadError,
};
use crate::archive::channel_writer::{dir_record, file_record, recordable};
use crate::archive::defs::content_file_path;
use crate::archive::keys::{dir_key, file_key, hash_key, lemma_key_bytes, DIR, FILE, HASH};
use crate::checksum::{digest_of, hex_encode, hex_text, lemma_hex_text, HashAlgo};
use crate::manifest_proofs::{
    all_text, all_writable, depth_chain, end_key, lemma_written_manifest_reads_back,
    lemma_written_manifest_verifies, line_of, manifest_body, writable,
};
use crate::meta_format::{
    trailer_for, verify_spec, RawEntry, VerifyError, NEWLINE, SEPARATOR,
    TAB,
};
use vstd::prelude::*;
use vstd::string::StringSliceAdditionalSpecFns;
use vstd::utf8::{encode_utf8, valid_utf8};

verus! {

/// What a backup run records of one path.
pub ghost enum Record {
    /// A regular file and the hash of its content.
    File { path: Seq<char>, hash: Seq<u8> },
    /// A directory.
    Dir { path: Seq<char> },
}

impl Record {
    /// The path recorded, relative to the backed-up directory.
    pub open spec fn path(self) -> Seq<char> {
        match self {
            Record::File { path, hash } => path,
            Record::Dir { path } => path,
        }
    }

    /// The lines that the channel writer hands out for the record.
    pub open spec fn lines(self) -> Seq<u8> {
        match self {
            Record::File { path, hash } => file_record(encode_utf8(path), hash),
            Record::Dir { path } => dir_record(encode_utf8(path)),
        }
    }

    /// The manifest records that those lines hold.
    pub open spec fn entries(self) -> Seq<RawEntry> {
        match self {
            Record::File { path, hash } => seq![
                RawEntry { key: file_key(), value: encode_utf8(path), depth: 0 },
                RawEntry { key: hash_key(), value: hex_text(hash), depth: 1 },
            ],
            Record::Dir { path } => seq![
                RawEntry { key: dir_key(), value: encode_utf8(path), depth: 0 },
            ],
        }
    }

    /// What the channel reader is to yield for the record.
    pub open spec fn items(self, archive_dir: Seq<char>) -> Seq<Result<ItemModel, ReadError>> {
        match self {
            Record::File { path, hash } => seq![
                Ok(
                    ItemModel {
                        relative_path: path,
                        content_path: content_file_path(archive_dir, hash),
                    },
                ),
            ],
            Record::Dir { path } => Seq::empty(),
        }
    }
}

/// Whether the channel writer accepts every one of `records`.
pub open spec fn all_recordable(records: Seq<Record>) -> bool {
    forall|i: int| 0 <= i < records.len() ==> recordable(encode_utf8((#[trigger] records[i]).path()))
}

/// The body of the revision that holds `records`, in order.
pub open spec fn revision_body(records: Seq<Record>) -> Seq<u8>
    decreases records.len(),
{
    if records.len() == 0 {
        Seq::empty()
    } else {
        records[0].lines() + revision_body(records.drop_first())
    }
}

/// The manifest records of `records`, in order.
pub open spec fn revision_entries(records: Seq<Record>) -> Seq<RawEntry>
    decreases records.len(),
{
    if records.len() == 0 {
        Seq::empty()
    } else {
        records[0].entries() + revision_entries(records.drop_first())
    }
}

/// What the channel reader is to yield for `records`: one item for each file,
/// in order.
pub open spec fn revision_items(archive_dir: Seq<char>, records: Seq<Record>) -> Seq<
    Result<ItemModel, ReadError>,
>
    decreases records.len(),
{
    if records.len() == 0 {
        Seq::empty()
    } else {
        records[0].items(archive_dir) + revision_items(archive_dir, records.drop_first())
    }
}

/// What holds of all records holds of all but the first.
proof fn lemma_drop_first_recordable(records: Seq<Record>)
    requires
        records.len() > 0,
        all_recordable(records),
    ensures
        all_recordable(records.drop_first()),
{
    let rest = records.drop_first();
    assert forall|i: int| 0 <= i < rest.len() implies recordable(
        encode_utf8((#[trigger] rest[i]).path()),
    ) by {
        assert(rest[i] == records[i + 1]);
    }
}

/// The manifest records of one accepted record are written as its lines and
/// read back as themselves.
#[verifier::rlimit(40)]
proof fn lemma_record_entries(record: Record)
    requires
        recordable(encode_utf8(record.path())),
    ensures
        manifest_body(record.entries()) == record.lines(),
        all_writable(record.entries()),
        all_text(record.entries()),
        record.entries().len() > 0,
        record.entries()[0].depth == 0,
        record.entries().last().depth <= 1,
        depth_chain(0, record.entries()),
        depth_chain(1, record.entries()),
{
    lemma_key_bytes();
    let entries = record.entries();
    vstd::utf8::encode_utf8_valid_utf8(record.path());
    vstd::utf8::encode_utf8_valid_utf8(FILE@);
    vstd::utf8::encode_utf8_valid_utf8(DIR@);
    vstd::utf8::encode_utf8_valid_utf8(HASH@);
    assert(!file_key().contains(SEPARATOR) && !file_key().contains(NEWLINE)) by {
        if file_key().contains(SEPARATOR) || file_key().contains(NEWLINE) {
            let i = choose|i: int|
                0 <= i < file_key().len() && (file_key()[i] == SEPARATOR || file_key()[i]
                    == NEWLINE);
        }
    }
    assert(!dir_key().contains(SEPARATOR) && !dir_key().contains(NEWLINE)) by {
        if dir_key().contains(SEPARATOR) || dir_key().contains(NEWLINE) {
            let i = choose|i: int|
                0 <= i < dir_key().len() && (dir_key()[i] == SEPARATOR || dir_key()[i] == NEWLINE);
        }
    }
    assert(!hash_key().contains(SEPARATOR) && !hash_key().contains(NEWLINE)) by {
        if hash_key().contains(SEPARATOR) || hash_key().contains(NEWLINE) {
            let i = choose|i: int|
                0 <= i < hash_key().len() && (hash_key()[i] == SEPARATOR || hash_key()[i]
                    == NEWLINE);
        }
    }
    assert(file_key() != end_key()) by {
        assert(file_key().len() != end_key().len());
    }
    assert(dir_key() != end_key()) by {
        assert(dir_key().len() != end_key().len());
    }
    assert(file_key()[0] != TAB && dir_key()[0] != TAB && hash_key()[0] != TAB);
    match record {
        Record::File { path, hash } => {
            lemma_hex_text(hash);
            vstd::utf8::encode_utf8_valid_utf8(hex_encode(hash));
            let first = entries[0];
            let second = entries[1];
            assert(writable(first));
            assert(writable(second));
            assert(entries.drop_first() =~= seq![second]);
            assert(entries.drop_first().drop_first() =~= Seq::<RawEntry>::empty());
            assert(manifest_body(Seq::<RawEntry>::empty()) =~= Seq::<u8>::empty());
            assert(manifest_body(seq![second]) =~= line_of(second)) by {
                assert(seq![second].drop_first() =~= Seq::<RawEntry>::empty());
            }
            assert(manifest_body(entries) =~= line_of(first) + line_of(second));
            assert(depth_chain(1, Seq::<RawEntry>::empty()));
            assert(depth_chain(0, seq![second])) by {
                assert(seq![second].drop_first() =~= Seq::<RawEntry>::empty());
            }
        },
        Record::Dir { path } => {
            let first = entries[0];
            assert(writable(first));
            assert(entries.drop_first() =~= Seq::<RawEntry>::empty());
            assert(manifest_body(Seq::<RawEntry>::empty()) =~= Seq::<u8>::empty());
            assert(manifest_body(entries) =~= line_of(first));
            assert(depth_chain(0, Seq::<RawEntry>::empty()));
        },
    }
}

/// The lines of one list of manifest records after another are the lines of
/// the two lists put together.
proof fn lemma_manifest_body_concat(a: Seq<RawEntry>, b: Seq<RawEntry>)
    ensures
        manifest_body(a + b) == manifest_body(a) + manifest_body(b),
    decreases a.len(),
{
    if a.len() == 0 {
        assert(a + b =~= b);
        assert(manifest_body(a) + manifest_body(b) =~= manifest_body(b));
    } else {
        assert((a + b).drop_first() =~= a.drop_first() + b);
        lemma_manifest_body_concat(a.drop_first(), b);
        assert(manifest_body(a + b) =~= manifest_body(a) + manifest_body(b));
    }
}

/// A chain of depths goes on through a second list that starts within one
/// level of where the first ends.
proof fn lemma_depth_chain_concat(depth: nat, a: Seq<RawEntry>, b: Seq<RawEntry>)
    requires
        a.len() > 0,
        depth_chain(depth, a),
        depth_chain(a.last().depth, b),
    ensures
        depth_chain(depth, a + b),
    decreases a.len(),
{
    assert((a + b).drop_first() =~= a.drop_first() + b);
    assert((a + b)[0] == a[0]);
    if a.len() == 1 {
        assert(a.drop_first() + b =~= b);
    } else {
        assert(a.drop_first().last() == a.last());
        lemma_depth_chain_concat(a[0].depth, a.drop_first(), b);
    }
}

/// The manifest records of accepted records are written as the body of the
/// revision and read back as themselves.
#[verifier::rlimit(40)]
pub proof fn lemma_revision_entries(records: Seq<Record>)
    requires
        all_recordable(records),
    ensures
        manifest_body(revision_entries(records)) == revision_body(records),
        all_writable(revision_entries(records)),
        all_text(revision_entries(records)),
        depth_chain(0, revision_entries(records)),
        depth_chain(1, revision_entries(records)),
        records.len() > 0 ==> revision_entries(records).len() > 0,
    decreases records.len(),
{
    if records.len() > 0 {
        let first = records[0].entries();
        let rest = revision_entries(records.drop_first());
        lemma_drop_first_recordable(records);
        lemma_record_entries(records[0]);
        lemma_revision_entries(records.drop_first());
        lemma_manifest_body_concat(first, rest);
        if first.last().depth == 0 {
            lemma_depth_chain_concat(0, first, rest);
            lemma_depth_chain_concat(1, first, rest);
        } else {
            lemma_depth_chain_concat(0, first, rest);
            lemma_depth_chain_concat(1, first, rest);
        }
        assert forall|i: int| 0 <= i < (first + rest).len() implies writable(
            #[trigger] (first + rest)[i],
        ) && valid_utf8((first + rest)[i].key) && valid_utf8((first + rest)[i].value) by {
            if i < first.len() {
                assert((first + rest)[i] == first[i]);
            } else {
                assert((first + rest)[i] == rest[i - first.len()]);
            }
        }
    }
}

/// Grouping the manifest records of `records`, from position `i` of `all` on
/// and with `group` open, yields what `group` yields and then one item for
/// each file.
#[verifier::rlimit(40)]
proof fn lemma_grouping(
    archive_dir: Seq<char>,
    all: Seq<RawEntry>,
    i: int,
    group: Option<Group>,
    records: Seq<Record>,
)
    requires
        0 <= i <= all.len(),
        all.skip(i) == revision_entries(records),
    ensures
        items_from(archive_dir, all, i, group) == close_group(archive_dir, group) + revision_items(
            archive_dir,
            records,
        ),
    decreases records.len(),
{
    if records.len() == 0 {
        assert(all.skip(i).len() == 0);
        assert(close_group(archive_dir, group) + Seq::empty() =~= close_group(
            archive_dir,
            group,
        ));
    } else {
        let first = records[0].entries();
        let rest = records.drop_first();
        let tail = revision_entries(rest);
        assert(all.skip(i) == first + tail);
        assert(first.len() > 0);
        assert(all.skip(i).len() == first.len() + tail.len());
        assert(i + first.len() <= all.len());
        assert(all[i] == all.skip(i)[0]);
        assert(all.skip(i)[0] == first[0]);
        match records[0] {
            Record::File { path, hash } => {
                assert(all[i + 1] == all.skip(i)[1]);
                assert(all.skip(i)[1] == first[1]);
                assert(first.len() == 2);
                assert((first + tail).skip(2) =~= tail);
                assert(all.skip(i).skip(2) =~= all.skip(i + 2));
                lemma_hex_text(hash);
                vstd::utf8::encode_utf8_decode_utf8(path);
                let opened = open_group(all[i]);
                let filled = absorb(opened, all[i + 1]);
                lemma_grouping(archive_dir, all, i + 2, filled, rest);
                assert(items_from(archive_dir, all, i + 1, opened) == items_from(
                    archive_dir,
                    all,
                    i + 2,
                    filled,
                ));
                assert(close_group(archive_dir, filled) =~= records[0].items(archive_dir));
                assert(items_from(archive_dir, all, i, group) =~= close_group(archive_dir, group)
                    + revision_items(archive_dir, records));
            },
            Record::Dir { path } => {
                assert(first.len() == 1);
                assert((first + tail).skip(1) =~= tail);
                assert(all.skip(i).skip(1) =~= all.skip(i + 1));
                assert(file_key() != dir_key()) by {
                    assert(file_key().len() != dir_key().len());
                }
                lemma_grouping(archive_dir, all, i + 1, None, rest);
                assert(items_from(archive_dir, all, i, group) =~= close_group(archive_dir, group)
                    + revision_items(archive_dir, records));
            },
        }
    }
}

/// A revision that holds accepted records, closed by its trailer, yields one
/// item for each file recorded, in order: the path as it was recorded, and
/// the blob named after the hash recorded.
pub proof fn lemma_revision_round_trip(
    archive_dir: Seq<char>,
    records: Seq<Record>,
    algo: HashAlgo,
)
    requires
        all_recordable(records),
    ensures
        channel_items(
            archive_dir,
            revision_body(records) + trailer_for(algo, revision_body(records)),
        ) == revision_items(archive_dir, records),
{
    let entries = revision_entries(records);
    lemma_revision_entries(records);
    lemma_written_manifest_reads_back(entries, algo);
    assert(entries.skip(0) =~= entries);
    lemma_grouping(archive_dir, entries, 0, None, records);
    assert(revision_items(archive_dir, records) + Seq::empty() =~= revision_items(
        archive_dir,
        records,
    ));
    assert(close_group(archive_dir, None) + revision_items(archive_dir, records)
        =~= revision_items(archive_dir, records));
}

/// A revision that holds at least one accepted record, closed by its
/// trailer, passes the integrity check.
pub proof fn lemma_revision_verifies(records: Seq<Record>, algo: HashAlgo)
    requires
        records.len() > 0,
        all_recordable(records),
    ensures
        verify_spec(revision_body(records) + trailer_for(algo, revision_body(records)), algo)
            == Ok::<(), VerifyError>(()),
{
    lemma_revision_entries(records);
    lemma_written_manifest_verifies(revision_entries(records), algo);
}

/// Files of the same content share one blob: their hashes are the same, and
/// so are the paths of their blobs.
pub proof fn lemma_same_content_same_blob(
    archive_dir: Seq<char>,
    algo: HashAlgo,
    first: Seq<u8>,
    second: Seq<u8>,
)
    requires
        first == second,
    ensures
        digest_of(algo, first) == digest_of(algo, second),
        hex_text(digest_of(algo, first)) == hex_text(digest_of(algo, second)),
        content_file_path(archive_dir, digest_of(algo, first)) == content_file_path(
            archive_dir,
            digest_of(algo, second),
        ),
{
}

} // verus!
