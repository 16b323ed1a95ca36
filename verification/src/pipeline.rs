//! The decisions of the backup and restore pipelines.
//!
//! Reading the source tree, writing blobs and revision files, and handing the
//! work to threads is the caller's part. What is decided here is what to
//! record for a path and what to do with its content, and where a file of a
//! revision is restored to.

use crate::archive::channel_reader::{
    ChannelReader, ChannelReaderItem, ItemModel, ReadError,
};
use crate::archive::channel_writer::{
    dir_record, file_record, recordable, ChannelWriter, ChannelWriterAdd,
};
use crate::archive::defs::{content_file_path, join, join_path};
use crate::archive::session::{component_start, trimmed_len};
use crate::checksum::HashResult;
use crate::meta_format::FormatError;
use crate::misc_helper::{
    is_file_or_dir, is_path_prefix, relative_path, relative_path_of, EntryKind,
};
use crate::text::{str_chars, string_of};
use vstd::prelude::*;
use vstd::string::StringSliceAdditionalSpecFns;
use vstd::utf8::encode_utf8;

verus! {

/// What was found at a path of the source tree.
pub enum SourceEntry {
    /// The metadata could not be read.
    Unreadable,
    /// A regular file: the hash of its content, or `None` if it could not be
    /// read, and whether its blob is already in the archive.
    File { checksum: Option<HashResult>, blob_present: bool },
    /// A directory.
    Dir,
    /// Neither a regular file nor a directory.
    Other,
}

/// What the backup does with a path.
pub enum BackupAction {
    /// Nothing: its metadata could not be read.
    SkipNoMetadata,
    /// Nothing: its content could not be hashed.
    SkipNoChecksum,
    /// The file was recorded; its content is to be stored at `target`.
    StoreBlob { target: String },
    /// The file was recorded; its content is already stored.
    Deduplicated,
    /// The directory was recorded.
    DirRecorded,
    /// Nothing: it is neither a regular file nor a directory.
    Invalid,
}

/// The outcome of one path of a backup.
pub struct BackupStep {
    /// The bytes to append to the revision file.
    pub lines: Vec<u8>,
    pub action: BackupAction,
}

/// Records the path `file_path`, which lies below `base_dir`, by its path
/// relative to `base_dir`, and decides what to do with its content.
pub fn backup_file(
    channel_writer: &mut ChannelWriter,
    file_path: &str,
    base_dir: &str,
    found: SourceEntry,
) -> (r: Result<BackupStep, FormatError>)
    requires
        old(channel_writer).well_formed(),
        is_path_prefix(base_dir@, file_path@),
    ensures
        final(channel_writer).well_formed(),
        final(channel_writer).session() == old(channel_writer).session(),
        match r {
            Ok(step) => {
                &&& final(channel_writer).written() == old(channel_writer).written() + step.lines@
                &&& match found {
                    SourceEntry::Unreadable => step.lines@.len() == 0
                        && step.action is SkipNoMetadata,
                    SourceEntry::Other => step.lines@.len() == 0 && step.action is Invalid,
                    SourceEntry::File { checksum: None, blob_present } => step.lines@.len() == 0
                        && step.action is SkipNoChecksum,
                    SourceEntry::File { checksum: Some(hash), blob_present } => {
                        &&& recordable(encode_utf8(relative_path_of(base_dir@, file_path@)))
                        &&& step.lines@ == file_record(
                            encode_utf8(relative_path_of(base_dir@, file_path@)),
                            hash@,
                        )
                        &&& match step.action {
                            BackupAction::Deduplicated => blob_present,
                            BackupAction::StoreBlob { target } => !blob_present && target@
                                == content_file_path(
                                old(channel_writer).session().archive_dir@,
                                hash@,
                            ),
                            _ => false,
                        }
                    },
                    SourceEntry::Dir => {
                        &&& recordable(encode_utf8(relative_path_of(base_dir@, file_path@)))
                        &&& step.lines@ == dir_record(
                            encode_utf8(relative_path_of(base_dir@, file_path@)),
                        )
                        &&& step.action is DirRecorded
                    },
                }
            },
            Err(e) => {
                &&& e == FormatError::ValueHasNewline
                &&& !recordable(encode_utf8(relative_path_of(base_dir@, file_path@)))
                &&& found is Dir || (found matches SourceEntry::File { checksum, .. }
                    && checksum is Some)
                &&& final(channel_writer).written() == old(channel_writer).written()
            },
        },
{
    match found {
        SourceEntry::Unreadable => {
            let lines: Vec<u8> = Vec::new();
            assert(channel_writer.written() + lines@ =~= channel_writer.written());
            Ok(BackupStep { lines, action: BackupAction::SkipNoMetadata })
        },
        SourceEntry::Other => {
            let lines: Vec<u8> = Vec::new();
            assert(channel_writer.written() + lines@ =~= channel_writer.written());
            Ok(BackupStep { lines, action: BackupAction::Invalid })
        },
        SourceEntry::File { checksum: None, blob_present: _ } => {
            let lines: Vec<u8> = Vec::new();
            assert(channel_writer.written() + lines@ =~= channel_writer.written());
            Ok(BackupStep { lines, action: BackupAction::SkipNoChecksum })
        },
        SourceEntry::File { checksum: Some(hash), blob_present } => {
            let relative = relative_path(base_dir, file_path);
            match channel_writer.add_file(relative.as_str(), &hash, blob_present) {
                Err(e) => Err(e),
                Ok(added) => {
                    let action = match added.action {
                        ChannelWriterAdd::AlreadyExist => BackupAction::Deduplicated,
                        ChannelWriterAdd::HashFile(target) => BackupAction::StoreBlob { target },
                    };
                    Ok(BackupStep { lines: added.lines, action })
                },
            }
        },
        SourceEntry::Dir => {
            let relative = relative_path(base_dir, file_path);
            match channel_writer.add_dir(relative.as_str()) {
                Err(e) => Err(e),
                Ok(lines) => Ok(BackupStep { lines, action: BackupAction::DirRecorded }),
            }
        },
    }
}

/// The directory that holds `path`: `path` without its last component.
pub open spec fn parent_path(path: Seq<char>) -> Seq<char> {
    let start = component_start(path, trimmed_len(path, path.len() as int));
    let end = trimmed_len(path, start);
    if end == 0 && start > 0 {
        path.take(1)
    } else {
        path.take(end)
    }
}

/// The directory that holds `path`.
pub fn parent_dir(path: &str) -> (r: String)
    ensures
        r@ == parent_path(path@),
{
    let chars = str_chars(path);
    let mut end: usize = chars.len();
    while end > 0 && chars[end - 1] == '/'
        invariant
            end <= chars@.len(),
            trimmed_len(chars@, chars@.len() as int) == trimmed_len(chars@, end as int),
        decreases end,
    {
        end -= 1;
    }
    let mut start: usize = end;
    while start > 0 && chars[start - 1] != '/'
        invariant
            start <= end <= chars@.len(),
            component_start(chars@, end as int) == component_start(chars@, start as int),
        decreases start,
    {
        start -= 1;
    }
    let mut cut: usize = start;
    while cut > 0 && chars[cut - 1] == '/'
        invariant
            cut <= start <= chars@.len(),
            trimmed_len(chars@, start as int) == trimmed_len(chars@, cut as int),
        decreases cut,
    {
        cut -= 1;
    }
    if cut == 0 && start > 0 {
        string_of(chars.as_slice(), 0, 1)
    } else {
        string_of(chars.as_slice(), 0, cut)
    }
}

/// What the restore does with a file of a revision.
pub enum RestoreAction {
    /// Nothing: something is already there where the file would go.
    SkipExisting { dest: String },
    /// The directory `parent` is to be created if missing, and the content
    /// of the blob `source` written to `dest`.
    Restore { source: String, dest: String, parent: String },
}

/// Where a file of a revision is restored to below `restore_dir`.
pub fn restore_dest(restore_dir: &str, item: &ChannelReaderItem) -> (r: String)
    ensures
        r@ == join_path(restore_dir@, item.relative_path@),
{
    join(restore_dir, item.relative_path.as_str())
}

/// What to do with `item`, where `found` lies at
/// [`restore_dest`](restore_dest): a file or directory that is there is left
/// alone.
pub fn restore_file(restore_dir: &str, item: &ChannelReaderItem, found: EntryKind) -> (r:
    RestoreAction)
    ensures
        match r {
            RestoreAction::SkipExisting { dest } => {
                &&& found == EntryKind::File || found == EntryKind::Dir
                &&& dest@ == join_path(restore_dir@, item.relative_path@)
            },
            RestoreAction::Restore { source, dest, parent } => {
                &&& found != EntryKind::File && found != EntryKind::Dir
                &&& source@ == item.content_path@
                &&& dest@ == join_path(restore_dir@, item.relative_path@)
                &&& parent@ == parent_path(join_path(restore_dir@, item.relative_path@))
            },
        },
{
    let dest = restore_dest(restore_dir, item);
    if is_file_or_dir(found) {
        RestoreAction::SkipExisting { dest }
    } else {
        let parent = parent_dir(dest.as_str());
        RestoreAction::Restore { source: item.content_path.clone(), dest, parent }
    }
}

/// One step of a restore.
pub enum RestoreStep {
    /// A file of the revision, and where it is restored to.
    File { item: ChannelReaderItem, dest: String },
    /// A file of the revision that cannot be restored.
    Failed(ReadError),
}

/// What a step of a restore says, as text.
pub open spec fn step_model(restore_dir: Seq<char>, step: RestoreStep) -> Result<
    (ItemModel, Seq<char>),
    ReadError,
> {
    match step {
        RestoreStep::File { item, dest } => Ok(
            (
                ItemModel { relative_path: item.relative_path@, content_path: item.content_path@ },
                dest@,
            ),
        ),
        RestoreStep::Failed(e) => Err(e),
    }
}

/// What a restore into `restore_dir` makes of what the reader yields.
pub open spec fn planned(restore_dir: Seq<char>, item: Result<ItemModel, ReadError>) -> Result<
    (ItemModel, Seq<char>),
    ReadError,
> {
    match item {
        Ok(model) => Ok((model, join_path(restore_dir, model.relative_path))),
        Err(e) => Err(e),
    }
}

/// The steps of restoring what `channel_reader` still yields into
/// `restore_dir`: one for each file of the revision, in order. A file that
/// cannot be restored does not stop the others.
pub fn restore(channel_reader: ChannelReader, restore_dir: &str) -> (r: Vec<RestoreStep>)
    ensures
        r@.len() == channel_reader.remaining().len(),
        forall|i: int|
            0 <= i < r@.len() ==> step_model(restore_dir@, #[trigger] r@[i]) == planned(
                restore_dir@,
                channel_reader.remaining()[i],
            ),
{
    let mut reader = channel_reader;
    let mut steps: Vec<RestoreStep> = Vec::new();
    let ghost all = reader.remaining();
    loop
        invariant
            steps@.len() + reader.remaining().len() == all.len(),
            reader.remaining() == all.skip(steps@.len() as int),
            forall|i: int|
                0 <= i < steps@.len() ==> step_model(restore_dir@, #[trigger] steps@[i])
                    == planned(restore_dir@, all[i]),
        ensures
            steps@.len() == all.len(),
        decreases reader.remaining().len(),
    {
        let ghost done = steps@.len() as int;
        match reader.next() {
            None => {
                break ;
            },
            Some(Ok(item)) => {
                proof {
                    assert(all.skip(done)[0] == all[done]);
                    assert(all.skip(done).drop_first() =~= all.skip(done + 1));
                }
                let dest = restore_dest(restore_dir, &item);
                steps.push(RestoreStep::File { item, dest });
            },
            Some(Err(e)) => {
                proof {
                    assert(all.skip(done)[0] == all[done]);
                    assert(all.skip(done).drop_first() =~= all.skip(done + 1));
                }
                steps.push(RestoreStep::Failed(e));
            },
        }
    }
    steps
}

} // verus!
