//! Reading one revision of a channel.

use crate::archive::defs::{
    channel_file, channel_file_path, channel_rev_last, content_file, content_file_path, is_latest,
    LayoutError,
};
use crate::archive::keys::{file_key, hash_key, lemma_key_bytes, FILE, HASH};
use crate::archive::session::{BackupSession, GetSession, ToSession};
use crate::checksum::{parse_hex, HashResult, HexError};
use crate::meta_format::{FormatError, Parsed, RawEntry, Reader, parse_manifest};
use crate::text::bytes_eq;
use vstd::prelude::*;
use vstd::string::{StringExecFns, StringSliceAdditionalSpecFns};
use vstd::utf8::{decode_utf8, encode_utf8};

verus! {

/// Which revision to read.
pub struct ChannelReaderOptions {
    pub channel: String,
    /// The name of the revision; the latest one if `None`.
    pub entry: Option<String>,
}

/// One file of a revision: where it was, and where its blob lies.
#[derive(Debug)]
pub struct ChannelReaderItem {
    pub relative_path: String,
    pub content_path: String,
}

/// Why a file of a revision cannot be restored.
#[derive(Clone, Copy, Debug, PartialEq, Eq, Structural)]
pub enum ReadError {
    /// The manifest is malformed from here on.
    Format(FormatError),
    /// The file has no hash below it.
    MissingHash,
    /// The hash of the file is no hex text.
    InvalidHash(HexError),
}

/// One file of a revision, as text.
pub ghost struct ItemModel {
    pub relative_path: Seq<char>,
    pub content_path: Seq<char>,
}

/// A file record whose children are still being read.
pub ghost struct Group {
    /// The value of the `file` record.
    pub path: Seq<u8>,
    /// What the last `hash` record below it holds, if there was one.
    pub hash: Option<Result<Seq<u8>, HexError>>,
}

/// What a finished group yields: nothing if no file record is open.
pub open spec fn close_group(archive_dir: Seq<char>, group: Option<Group>) -> Seq<
    Result<ItemModel, ReadError>,
> {
    match group {
        None => Seq::empty(),
        Some(g) => seq![
            match g.hash {
                None => Err(ReadError::MissingHash),
                Some(Err(e)) => Err(ReadError::InvalidHash(e)),
                Some(Ok(hash)) => Ok(
                    ItemModel {
                        relative_path: decode_utf8(g.path),
                        content_path: content_file_path(archive_dir, hash),
                    },
                ),
            },
        ],
    }
}

/// The group that a top-level record opens: a `file` record opens one, any
/// other none.
pub open spec fn open_group(e: RawEntry) -> Option<Group> {
    if e.key == file_key() {
        Some(Group { path: e.value, hash: None })
    } else {
        None
    }
}

/// The open group after a record below the top level: a `hash` record at
/// depth 1 sets the hash, any other changes nothing.
pub open spec fn absorb(group: Option<Group>, e: RawEntry) -> Option<Group> {
    match group {
        Some(g) => if e.depth == 1 && e.key == hash_key() {
            Some(Group { path: g.path, hash: Some(parse_hex(e.value)) })
        } else {
            group
        },
        None => None,
    }
}

/// What the records from position `i` on yield, with `group` open.
pub open spec fn items_from(
    archive_dir: Seq<char>,
    entries: Seq<RawEntry>,
    i: int,
    group: Option<Group>,
) -> Seq<Result<ItemModel, ReadError>>
    decreases entries.len() - i,
{
    if i < 0 || i >= entries.len() {
        close_group(archive_dir, group)
    } else if entries[i].depth == 0 {
        close_group(archive_dir, group) + items_from(
            archive_dir,
            entries,
            i + 1,
            open_group(entries[i]),
        )
    } else {
        items_from(archive_dir, entries, i + 1, absorb(group, entries[i]))
    }
}

/// What a manifest yields: one item or error for each file record, in order,
/// and at the end the error of the line at which reading stopped, if any.
pub open spec fn channel_items(archive_dir: Seq<char>, manifest: Seq<u8>) -> Seq<
    Result<ItemModel, ReadError>,
> {
    let parsed = parse_manifest(manifest);
    items_from(archive_dir, parsed.entries, 0, None) + match parsed.error {
        Some(e) => seq![Err(ReadError::Format(e))],
        None => Seq::empty(),
    }
}

/// An item as text.
pub open spec fn item_model(r: Result<ChannelReaderItem, ReadError>) -> Result<
    ItemModel,
    ReadError,
> {
    match r {
        Ok(item) => Ok(
            ItemModel { relative_path: item.relative_path@, content_path: item.content_path@ },
        ),
        Err(e) => Err(e),
    }
}

/// Items as text.
pub open spec fn item_models(items: Seq<Result<ChannelReaderItem, ReadError>>) -> Seq<
    Result<ItemModel, ReadError>,
> {
    items.map_values(|r: Result<ChannelReaderItem, ReadError>| item_model(r))
}

/// A file record that is being read.
struct OpenGroup {
    path: String,
    hash: Option<Result<HashResult, HexError>>,
}

impl OpenGroup {
    spec fn model(&self) -> Group {
        Group {
            path: encode_utf8(self.path@),
            hash: match self.hash {
                None => None,
                Some(Ok(h)) => Some(Ok(h@)),
                Some(Err(e)) => Some(Err(e)),
            },
        }
    }
}

/// The open group as bytes, if there is one.
spec fn group_model(group: Option<OpenGroup>) -> Option<Group> {
    match group {
        None => None,
        Some(g) => Some(g.model()),
    }
}

/// Puts what the finished `group` yields at the end of `items`.
fn push_closed(
    archive_dir: &str,
    group: Option<OpenGroup>,
    items: &mut Vec<Result<ChannelReaderItem, ReadError>>,
)
    ensures
        item_models(final(items)@) == item_models(old(items)@) + close_group(
            archive_dir@,
            group_model(group),
        ),
{
    match group {
        None => {
            assert(item_models(items@) =~= item_models(old(items)@) + close_group(
                archive_dir@,
                group_model(group),
            ));
        },
        Some(g) => {
            let ghost model = g.model();
            let item = match g.hash {
                None => Err(ReadError::MissingHash),
                Some(Err(e)) => Err(ReadError::InvalidHash(e)),
                Some(Ok(hash)) => {
                    proof {
                        vstd::utf8::encode_utf8_decode_utf8(g.path@);
                    }
                    Ok(
                        ChannelReaderItem {
                            content_path: content_file(archive_dir, hash.data()),
                            relative_path: g.path,
                        },
                    )
                },
            };
            items.push(item);
            assert(item_models(items@) =~= item_models(old(items)@) + close_group(
                archive_dir@,
                Some(model),
            ));
        },
    }
}

/// Yields the files of one revision.
pub struct ChannelReader {
    session: BackupSession,
    channel: String,
    items: Vec<Result<ChannelReaderItem, ReadError>>,
}

impl ChannelReader {
    /// The session the reader was made with.
    pub closed spec fn session(&self) -> BackupSession {
        self.session
    }

    /// The channel that is read.
    pub closed spec fn channel(&self) -> Seq<char> {
        self.channel@
    }

    /// What is still to come, in order.
    pub closed spec fn remaining(&self) -> Seq<Result<ItemModel, ReadError>> {
        item_models(self.items@).reverse()
    }

    /// The file of the revision that `opt` asks for: the one it names, or
    /// the latest of `revisions`, the names of the revisions of the channel.
    pub fn select(session: &BackupSession, opt: &ChannelReaderOptions, revisions: &Vec<String>)
        -> (r: Result<String, LayoutError>)
        ensures
            match opt.entry {
                Some(entry) => r is Ok && r->Ok_0@ == channel_file_path(
                    session.archive_dir@,
                    opt.channel@,
                    entry@,
                ),
                None => match r {
                    Ok(path) => exists|name: Seq<char>|
                        #![trigger is_latest(revisions@, name)]
                        is_latest(revisions@, name) && path@ == channel_file_path(
                            session.archive_dir@,
                            opt.channel@,
                            name,
                        ),
                    Err(e) => revisions@.len() == 0 && e == LayoutError::NoRevision,
                },
            },
    {
        match &opt.entry {
            Some(entry) => Ok(
                channel_file(session.archive_dir.as_str(), opt.channel.as_str(), entry.as_str()),
            ),
            None => match channel_rev_last(revisions) {
                Ok(name) => Ok(
                    channel_file(session.archive_dir.as_str(), opt.channel.as_str(), name.as_str()),
                ),
                Err(e) => Err(e),
            },
        }
    }

    /// A reader of the revision whose manifest is `manifest`.
    #[verifier::rlimit(40)]
    pub fn new(backup_session: BackupSession, opt: ChannelReaderOptions, manifest: Vec<u8>) -> (r:
        ChannelReader)
        ensures
            r.session() == backup_session,
            r.channel() == opt.channel@,
            r.remaining() == channel_items(backup_session.archive_dir@, manifest@),
    {
        let ghost archive = backup_session.archive_dir@;
        let ghost parsed = parse_manifest(manifest@);
        let mut reader = Reader::new(manifest);
        let mut items: Vec<Result<ChannelReaderItem, ReadError>> = Vec::new();
        let mut group: Option<OpenGroup> = None;
        let ghost mut i: int = 0;
        let mut failure: Option<FormatError> = None;
        proof {
            assert(parsed.entries.skip(0) =~= parsed.entries);
            assert(item_models(items@) =~= Seq::empty());
            lemma_key_bytes();
        }
        loop
            invariant_except_break
                failure is None,
                reader.remaining() == (Parsed {
                    entries: parsed.entries.skip(i),
                    error: parsed.error,
                }),
                item_models(items@) + items_from(archive, parsed.entries, i, group_model(group))
                    == items_from(archive, parsed.entries, 0, None),
            invariant
                archive == backup_session.archive_dir@,
                0 <= i <= parsed.entries.len(),
                FILE.spec_bytes() == file_key(),
                HASH.spec_bytes() == hash_key(),
            ensures
                i == parsed.entries.len(),
                failure == parsed.error,
                item_models(items@) + close_group(archive, group_model(group)) == items_from(
                    archive,
                    parsed.entries,
                    0,
                    None,
                ),
            decreases parsed.entries.len() - i,
        {
            match reader.next() {
                None => {
                    break ;
                },
                Some(Err(e)) => {
                    failure = Some(e);
                    break ;
                },
                Some(Ok(entry)) => {
                    proof {
                        assert(parsed.entries.skip(i)[0] == parsed.entries[i]);
                        assert(parsed.entries.skip(i).drop_first() =~= parsed.entries.skip(i + 1));
                    }
                    let ghost before = item_models(items@);
                    let ghost open = group_model(group);
                    if entry.depth == 0 {
                        push_closed(backup_session.archive_dir.as_str(), group, &mut items);
                        if bytes_eq(entry.key.as_str().as_bytes(), FILE.as_bytes()) {
                            group = Some(OpenGroup { path: entry.value, hash: None });
                        } else {
                            group = None;
                        }
                        proof {
                            let rest = items_from(
                                archive,
                                parsed.entries,
                                i + 1,
                                group_model(group),
                            );
                            assert(before + (close_group(archive, open) + rest) =~= (before
                                + close_group(archive, open)) + rest);
                        }
                    } else {
                        let is_hash = entry.depth == 1 && bytes_eq(
                            entry.key.as_str().as_bytes(),
                            HASH.as_bytes(),
                        );
                        group = match group {
                            Some(g) if is_hash => {
                                let hash = HashResult::from_hex_string(entry.value.as_str());
                                Some(OpenGroup { path: g.path, hash: Some(hash) })
                            },
                            other => other,
                        };
                    }
                    proof {
                        i = i + 1;
                    }
                },
            }
        }
        push_closed(backup_session.archive_dir.as_str(), group, &mut items);
        match failure {
            Some(e) => {
                let ghost before = item_models(items@);
                items.push(Err(ReadError::Format(e)));
                assert(item_models(items@) =~= before + seq![
                    Err::<ItemModel, ReadError>(ReadError::Format(e)),
                ]);
            },
            None => {
                assert(item_models(items@) + Seq::empty() =~= item_models(items@));
            },
        }
        let ghost forward = item_models(items@);
        reverse_items(&mut items);
        proof {
            assert(forward.reverse().reverse() =~= forward);
        }
        ChannelReader { session: backup_session, channel: opt.channel, items }
    }

    /// The next file of the revision, or why it cannot be restored; `None`
    /// when all were given.
    pub fn next(&mut self) -> (r: Option<Result<ChannelReaderItem, ReadError>>)
        ensures
            final(self).session() == old(self).session(),
            final(self).channel() == old(self).channel(),
            match r {
                None => old(self).remaining().len() == 0 && final(self).remaining().len() == 0,
                Some(item) => {
                    &&& old(self).remaining().len() > 0
                    &&& item_model(item) == old(self).remaining()[0]
                    &&& final(self).remaining() == old(self).remaining().drop_first()
                },
            },
    {
        let r = self.items.pop();
        proof {
            let before = item_models(old(self).items@);
            let after = item_models(self.items@);
            if r is Some {
                assert(after =~= before.drop_last());
                assert(before.reverse().drop_first() =~= before.drop_last().reverse());
            }
        }
        r
    }
}

/// Turns the order of `items` round.
#[verifier::rlimit(40)]
fn reverse_items(items: &mut Vec<Result<ChannelReaderItem, ReadError>>)
    ensures
        item_models(final(items)@) == item_models(old(items)@).reverse(),
{
    let mut turned: Vec<Result<ChannelReaderItem, ReadError>> = Vec::new();
    let ghost start = item_models(items@);
    while items.len() > 0
        invariant
            item_models(turned@).len() + item_models(items@).len() == start.len(),
            item_models(items@) == start.take(items@.len() as int),
            forall|k: int|
                0 <= k < turned@.len() ==> #[trigger] item_models(turned@)[k] == start[start.len()
                    - 1 - k],
        decreases items@.len(),
    {
        let ghost before = item_models(items@);
        let ghost done = item_models(turned@);
        let last = items.pop();
        match last {
            Some(item) => {
                turned.push(item);
                proof {
                    assert(item_models(items@) =~= before.drop_last());
                    assert(item_models(turned@) =~= done.push(before.last()));
                    assert(before.drop_last() =~= start.take(items@.len() as int));
                }
            },
            None => {},
        }
    }
    assert(item_models(turned@) =~= start.reverse());
    *items = turned;
}

impl ToSession for ChannelReader {
    open spec fn held_session(&self) -> BackupSession {
        self.session()
    }

    fn to_session(self) -> (r: BackupSession) {
        self.session
    }
}

impl GetSession for ChannelReader {
    open spec fn shown_session(&self) -> BackupSession {
        self.session()
    }

    fn get_session(&self) -> (r: &BackupSession) {
        &self.session
    }
}

impl ReadError {
    /// What went wrong, in words.
    pub open spec fn message_text(self) -> Seq<char> {
        match self {
            ReadError::Format(e) => e.message_text(),
            ReadError::MissingHash => "checksum is missing"@,
            ReadError::InvalidHash(e) => "checksum is no hex text"@,
        }
    }

    /// What went wrong, in words.
    pub fn message(&self) -> (r: String)
        ensures
            r@ == self.message_text(),
    {
        match self {
            ReadError::Format(e) => e.message(),
            ReadError::MissingHash => String::from_str("checksum is missing"),
            ReadError::InvalidHash(_) => String::from_str("checksum is no hex text"),
        }
    }
}

} // verus!
