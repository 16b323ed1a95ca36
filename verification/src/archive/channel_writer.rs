//! Writing one revision of a channel.

use crate::archive::defs::{
    channel_dir, channel_dir_path, channel_file_path, content_dir, content_dir_path, content_file,
    content_file_path, next_channel_file, revision_name_text, LayoutError, Timestamp,
};
use crate::archive::keys::{dir_key, file_key, hash_key, lemma_key_bytes, DIR, FILE, HASH};
use crate::archive::session::{BackupSession, GetSession, ToSession};
use crate::checksum::{hex_text, lemma_hex_text, HashResult};
use crate::meta_format::{
    entry_fault, entry_line, trailer_for, trailer_len, FormatError, Writer, NEWLINE,
};
use vstd::prelude::*;
use vstd::string::StringSliceAdditionalSpecFns;

verus! {

/// Records the files and directories of one backup run.
///
/// The writer owns no file: each call hands back the bytes to append to the
/// revision file.
pub struct ChannelWriter {
    session: BackupSession,
    writer: Writer,
}

/// What is to be done with the content of a file that was recorded.
pub enum ChannelWriterAdd {
    /// The blob is missing: it is to be written to this path.
    HashFile(String),
    /// The blob is already there.
    AlreadyExist,
}

/// What a new revision needs on disk.
pub struct RevisionPlan {
    /// The directory of the channel, to be created if missing.
    pub channel_dir: String,
    /// The directory of the blobs, to be created if missing.
    pub content_dir: String,
    /// The file of the revision, to be created.
    pub revision_file: String,
}

/// The outcome of recording one file.
pub struct AddedFile {
    /// The bytes to append to the revision file.
    pub lines: Vec<u8>,
    /// What to do with the content.
    pub action: ChannelWriterAdd,
}

/// The two lines that record a file: its path, and below it its hash.
pub open spec fn file_record(path: Seq<u8>, hash: Seq<u8>) -> Seq<u8> {
    entry_line(0, file_key(), path) + entry_line(1, hash_key(), hex_text(hash))
}

/// The line that records a directory.
pub open spec fn dir_record(path: Seq<u8>) -> Seq<u8> {
    entry_line(0, dir_key(), path)
}

/// Whether a path can be recorded: it holds no line break.
pub open spec fn recordable(path: Seq<u8>) -> bool {
    !path.contains(NEWLINE)
}

impl ChannelWriter {
    /// The writer stands at the top level of its manifest.
    pub closed spec fn well_formed(&self) -> bool {
        &&& self.writer.well_formed()
        &&& self.writer.depth() == 0
        &&& self.writer.algo() == self.session.settings.hash_algo
    }

    /// The session the writer was made with.
    pub closed spec fn session(&self) -> BackupSession {
        self.session
    }

    /// All bytes handed out since the writer was made or last finished.
    pub closed spec fn written(&self) -> Seq<u8> {
        self.writer.written()
    }

    /// A writer for a new revision of `channel`, and what the revision needs
    /// on disk.
    pub fn new(backup_session: BackupSession, channel: &str) -> (r: Result<
        (ChannelWriter, RevisionPlan),
        LayoutError,
    >)
        ensures
            match r {
                Ok((writer, plan)) => {
                    &&& writer.well_formed()
                    &&& writer.session() == backup_session
                    &&& writer.written() == Seq::<u8>::empty()
                    &&& plan.channel_dir@ == channel_dir_path(
                        backup_session.archive_dir@,
                        channel@,
                    )
                    &&& plan.content_dir@ == content_dir_path(backup_session.archive_dir@)
                    &&& exists|t: Timestamp, random: u64|
                        t.fits_name() && plan.revision_file@ == channel_file_path(
                            backup_session.archive_dir@,
                            channel@,
                            #[trigger] revision_name_text(t, random),
                        )
                },
                Err(e) => e == LayoutError::ClockOutOfRange || e == LayoutError::NoEntropy,
            },
    {
        let revision_file = match next_channel_file(backup_session.archive_dir.as_str(), channel) {
            Ok(path) => path,
            Err(e) => {
                return Err(e);
            },
        };
        let plan = RevisionPlan {
            channel_dir: channel_dir(backup_session.archive_dir.as_str(), channel),
            content_dir: content_dir(backup_session.archive_dir.as_str()),
            revision_file,
        };
        let writer = Writer::new(backup_session.settings.hash_algo);
        Ok((ChannelWriter { session: backup_session, writer }, plan))
    }

    /// Where the blob of the content with hash `checksum` lies.
    pub fn blob_path(&self, checksum: &HashResult) -> (r: String)
        ensures
            r@ == content_file_path(self.session().archive_dir@, checksum@),
    {
        content_file(self.session.archive_dir.as_str(), checksum.data())
    }

    /// Records the file at `path`, relative to the backed-up directory, with
    /// the hash `checksum` of its content, and decides on its blob:
    /// `blob_present` says whether a regular file lies at
    /// [`blob_path`](Self::blob_path). A path with a line break is refused and
    /// nothing is recorded.
    pub fn add_file(&mut self, path: &str, checksum: &HashResult, blob_present: bool) -> (r:
        Result<AddedFile, FormatError>)
        requires
            old(self).well_formed(),
        ensures
            final(self).well_formed(),
            final(self).session() == old(self).session(),
            match r {
                Ok(added) => {
                    &&& recordable(path.spec_bytes())
                    &&& added.lines@ == file_record(path.spec_bytes(), checksum@)
                    &&& final(self).written() == old(self).written() + added.lines@
                    &&& match added.action {
                        ChannelWriterAdd::AlreadyExist => blob_present,
                        ChannelWriterAdd::HashFile(target) => !blob_present && target@
                            == content_file_path(old(self).session().archive_dir@, checksum@),
                    }
                },
                Err(e) => {
                    &&& !recordable(path.spec_bytes())
                    &&& e == FormatError::ValueHasNewline
                    &&& final(self).written() == old(self).written()
                },
            },
    {
        proof {
            lemma_key_bytes();
            lemma_hex_text(checksum@);
        }
        let mut lines = match self.writer.add_entry(FILE, path) {
            Ok(line) => line,
            Err(e) => {
                return Err(e);
            },
        };
        let hex = checksum.to_string();
        self.writer.increase_depth();
        let hash_line = self.writer.add_entry(HASH, hex.as_str());
        self.writer.decrease_depth();
        match hash_line {
            Ok(line) => {
                lines.extend_from_slice(line.as_slice());
            },
            Err(_) => {
                proof {
                    assert(entry_fault(hash_key(), hex_text(checksum@)) is None);
                }
            },
        }
        assert(self.writer.written() =~= old(self).writer.written() + lines@);
        let action = if blob_present {
            ChannelWriterAdd::AlreadyExist
        } else {
            ChannelWriterAdd::HashFile(self.blob_path(checksum))
        };
        Ok(AddedFile { lines, action })
    }

    /// Records the directory at `path`, relative to the backed-up directory.
    /// A path with a line break is refused and nothing is recorded.
    pub fn add_dir(&mut self, path: &str) -> (r: Result<Vec<u8>, FormatError>)
        requires
            old(self).well_formed(),
        ensures
            final(self).well_formed(),
            final(self).session() == old(self).session(),
            match r {
                Ok(line) => {
                    &&& recordable(path.spec_bytes())
                    &&& line@ == dir_record(path.spec_bytes())
                    &&& final(self).written() == old(self).written() + line@
                },
                Err(e) => {
                    &&& !recordable(path.spec_bytes())
                    &&& e == FormatError::ValueHasNewline
                    &&& final(self).written() == old(self).written()
                },
            },
    {
        proof {
            lemma_key_bytes();
        }
        self.writer.add_entry(DIR, path)
    }

    /// The trailer line that closes the revision, or nothing if nothing was
    /// recorded.
    pub fn finish(&mut self) -> (r: Vec<u8>)
        requires
            old(self).well_formed(),
        ensures
            final(self).well_formed(),
            final(self).session() == old(self).session(),
            r@ == trailer_for(old(self).session().settings.hash_algo, old(self).written()),
            r@.len() == (if old(self).written().len() == 0 {
                0
            } else {
                trailer_len(old(self).session().settings.hash_algo)
            }),
            final(self).written() == Seq::<u8>::empty(),
    {
        self.writer.finish()
    }
}

impl ToSession for ChannelWriter {
    open spec fn held_session(&self) -> BackupSession {
        self.session()
    }

    fn to_session(self) -> (r: BackupSession) {
        self.session
    }
}

impl GetSession for ChannelWriter {
    open spec fn shown_session(&self) -> BackupSession {
        self.session()
    }

    fn get_session(&self) -> (r: &BackupSession) {
        &self.session
    }
}

} // verus!
