//! Creating and opening an archive.

use crate::archive::content::ContentSettings;
use crate::archive::defs::{
    content_dir, content_dir_path, join, join_path, settings_file, settings_file_path, CHANNEL_DIR,
};
use crate::misc_helper::{is_dir_expected, is_file_or_dir, EntryKind};
use crate::text::{str_chars, string_of};
use vstd::prelude::*;
use vstd::string::{StrSliceExecFns, StringExecFns};

verus! {

/// Why an archive could not be created or opened.
#[derive(Clone, Copy, Debug, PartialEq, Eq, Structural)]
pub enum SessionError {
    /// Something is already there where the archive is to be created.
    AlreadyExists,
    /// The archive directory is missing.
    ArchiveDirMissing,
    /// The directory of the channels is missing.
    ChannelDirMissing,
    /// The directory of the blobs is missing.
    ContentDirMissing,
    /// The settings file cannot be read.
    SettingsUnreadable,
    /// The settings file is not valid UTF-8.
    SettingsNotUtf8,
    /// The settings file does not hold settings.
    SettingsInvalid,
    /// The lock file is already there.
    Locked,
    /// A path in the channel directory has no last component.
    NoChannelName,
}

/// What was found in place of the settings file.
#[derive(Clone, Copy, Debug, PartialEq, Eq, Structural)]
pub enum SettingsFile {
    Unreadable,
    NotUtf8,
    Invalid,
    Valid(ContentSettings),
}

/// What was found where an archive is to be opened.
#[derive(Clone, Copy, Debug, PartialEq, Eq, Structural)]
pub struct ArchiveProbe {
    pub archive_dir: EntryKind,
    pub channel_dir: EntryKind,
    pub content_dir: EntryKind,
    pub settings: SettingsFile,
}

/// What has to be created for a new archive, in this order.
pub struct InitPlan {
    /// The archive directory, the channel directory and the blob directory.
    pub directories: Vec<String>,
    /// Where the settings are written.
    pub settings_file: String,
    /// The settings to write there.
    pub settings: ContentSettings,
}

/// An open archive.
pub struct BackupSession {
    pub archive_dir: String,
    pub settings: ContentSettings,
}

/// The outcome of looking at an archive before it is locked.
pub open spec fn probe_outcome(probe: ArchiveProbe) -> Result<ContentSettings, SessionError> {
    if probe.archive_dir != EntryKind::Dir {
        Err(SessionError::ArchiveDirMissing)
    } else if probe.channel_dir != EntryKind::Dir {
        Err(SessionError::ChannelDirMissing)
    } else if probe.content_dir != EntryKind::Dir {
        Err(SessionError::ContentDirMissing)
    } else {
        match probe.settings {
            SettingsFile::Unreadable => Err(SessionError::SettingsUnreadable),
            SettingsFile::NotUtf8 => Err(SessionError::SettingsNotUtf8),
            SettingsFile::Invalid => Err(SessionError::SettingsInvalid),
            SettingsFile::Valid(settings) => Ok(settings),
        }
    }
}

/// The length of `path` without the separators at its end.
pub open spec fn trimmed_len(path: Seq<char>, end: int) -> int
    decreases end,
{
    if 0 < end <= path.len() && path[end - 1] == '/' {
        trimmed_len(path, end - 1)
    } else {
        end
    }
}

/// Where the component that ends before `end` starts.
pub open spec fn component_start(path: Seq<char>, end: int) -> int
    decreases end,
{
    if 0 < end <= path.len() && path[end - 1] != '/' {
        component_start(path, end - 1)
    } else {
        end
    }
}

/// The last component of `path`: what stands after its last separator,
/// separators at the end left aside.
pub open spec fn last_component(path: Seq<char>) -> Seq<char> {
    let end = trimmed_len(path, path.len() as int);
    path.subrange(component_start(path, end), end)
}

/// The last component of `path`.
pub fn file_name(path: &str) -> (r: String)
    ensures
        r@ == last_component(path@),
{
    let chars = str_chars(path);
    let mut end: usize = chars.len();
    while end > 0 && chars[end - 1] == '/'
        invariant
            end <= chars@.len(),
            trimmed_len(chars@, chars@.len() as int) == trimmed_len(chars@, end as int),
        decreases end,
    {
        end -= 1;
    }
    let mut start: usize = end;
    while start > 0 && chars[start - 1] != '/'
        invariant
            start <= end <= chars@.len(),
            component_start(chars@, end as int) == component_start(chars@, start as int),
        decreases start,
    {
        start -= 1;
    }
    string_of(chars.as_slice(), start, end)
}

impl BackupSession {
    /// What to create for a new archive at `archive_dir`, where `target` was
    /// found. Refused if a file or directory is already there.
    pub fn init_session(archive_dir: &str, target: EntryKind, settings: ContentSettings) -> (r:
        Result<InitPlan, SessionError>)
        ensures
            match r {
                Ok(plan) => {
                    &&& target != EntryKind::File && target != EntryKind::Dir
                    &&& plan.directories@.len() == 3
                    &&& plan.directories@[0]@ == archive_dir@
                    &&& plan.directories@[1]@ == join_path(archive_dir@, CHANNEL_DIR@)
                    &&& plan.directories@[2]@ == content_dir_path(archive_dir@)
                    &&& plan.settings_file@ == settings_file_path(archive_dir@)
                    &&& plan.settings == settings
                },
                Err(e) => {
                    &&& target == EntryKind::File || target == EntryKind::Dir
                    &&& e == SessionError::AlreadyExists
                },
            },
    {
        if is_file_or_dir(target) {
            return Err(SessionError::AlreadyExists);
        }
        let mut directories: Vec<String> = Vec::new();
        directories.push(archive_dir.to_owned());
        directories.push(join(archive_dir, CHANNEL_DIR));
        directories.push(content_dir(archive_dir));
        Ok(InitPlan { directories, settings_file: settings_file(archive_dir), settings })
    }

    /// Whether what was found is an archive, and with which settings.
    pub fn check(probe: &ArchiveProbe) -> (r: Result<ContentSettings, SessionError>)
        ensures
            r == probe_outcome(*probe),
    {
        match is_dir_expected(probe.archive_dir, SessionError::ArchiveDirMissing) {
            Err(e) => {
                return Err(e);
            },
            Ok(_) => {},
        }
        match is_dir_expected(probe.channel_dir, SessionError::ChannelDirMissing) {
            Err(e) => {
                return Err(e);
            },
            Ok(_) => {},
        }
        match is_dir_expected(probe.content_dir, SessionError::ContentDirMissing) {
            Err(e) => {
                return Err(e);
            },
            Ok(_) => {},
        }
        match probe.settings {
            SettingsFile::Unreadable => Err(SessionError::SettingsUnreadable),
            SettingsFile::NotUtf8 => Err(SessionError::SettingsNotUtf8),
            SettingsFile::Invalid => Err(SessionError::SettingsInvalid),
            SettingsFile::Valid(settings) => Ok(settings),
        }
    }

    /// Opens the archive at `archive_dir`, where `probe` was found and the
    /// lock file was then created, or not.
    pub fn new(archive_dir: &str, probe: &ArchiveProbe, lock_created: bool) -> (r: Result<
        BackupSession,
        SessionError,
    >)
        ensures
            match r {
                Ok(session) => {
                    &&& probe_outcome(*probe) == Ok::<ContentSettings, SessionError>(
                        session.settings,
                    )
                    &&& lock_created
                    &&& session.archive_dir@ == archive_dir@
                },
                Err(e) => match probe_outcome(*probe) {
                    Err(found) => e == found,
                    Ok(_) => !lock_created && e == SessionError::Locked,
                },
            },
    {
        match BackupSession::check(probe) {
            Err(e) => Err(e),
            Ok(settings) => {
                if lock_created {
                    Ok(BackupSession { archive_dir: archive_dir.to_owned(), settings })
                } else {
                    Err(SessionError::Locked)
                }
            },
        }
    }

    /// The directory of the archive.
    pub fn get_archive_dir(&self) -> (r: &str)
        ensures
            r@ == self.archive_dir@,
    {
        self.archive_dir.as_str()
    }

    /// The settings of the archive.
    pub fn get_settings(&self) -> (r: &ContentSettings)
        ensures
            *r == self.settings,
    {
        &self.settings
    }

    /// The names of the channels, given the paths of their directories: the
    /// last component of each, in the order given.
    pub fn channel_names(&self, channel_paths: &Vec<String>) -> (r: Result<
        Vec<String>,
        SessionError,
    >)
        ensures
            match r {
                Ok(names) => {
                    &&& names@.len() == channel_paths@.len()
                    &&& forall|i: int|
                        0 <= i < names@.len() ==> (#[trigger] names@[i])@ == last_component(
                            channel_paths@[i]@,
                        ) && names@[i]@.len() > 0
                },
                Err(e) => {
                    &&& e == SessionError::NoChannelName
                    &&& exists|i: int|
                        0 <= i < channel_paths@.len() && last_component(
                            (#[trigger] channel_paths@[i])@,
                        ).len() == 0
                },
            },
    {
        let mut names: Vec<String> = Vec::new();
        let mut i: usize = 0;
        while i < channel_paths.len()
            invariant
                i <= channel_paths@.len(),
                names@.len() == i,
                forall|k: int|
                    0 <= k < i ==> (#[trigger] names@[k])@ == last_component(channel_paths@[k]@)
                        && names@[k]@.len() > 0,
            decreases channel_paths@.len() - i,
        {
            let name = file_name(channel_paths[i].as_str());
            if name.as_str().unicode_len() == 0 {
                return Err(SessionError::NoChannelName);
            }
            names.push(name);
            i += 1;
        }
        Ok(names)
    }
}

/// What holds a session and gives it up.
pub trait ToSession {
    /// The session held.
    spec fn held_session(&self) -> BackupSession;

    fn to_session(self) -> (r: BackupSession)
        ensures
            r == self.held_session(),
    ;
}

/// What holds a session and shows it.
pub trait GetSession {
    /// The session held.
    spec fn shown_session(&self) -> BackupSession;

    fn get_session(&self) -> (r: &BackupSession)
        ensures
            *r == self.shown_session(),
    ;
}

impl SessionError {
    /// What went wrong, in words.
    pub open spec fn message_text(self) -> Seq<char> {
        match self {
            SessionError::AlreadyExists => "init archive failed"@,
            SessionError::ArchiveDirMissing => "archive dir does not exist"@,
            SessionError::ChannelDirMissing => "channel dir does not exist"@,
            SessionError::ContentDirMissing => "content dir does not exist"@,
            SessionError::SettingsUnreadable => "cannot read settings file"@,
            SessionError::SettingsNotUtf8 => "settings file is not valid Utf-8"@,
            SessionError::SettingsInvalid => "settings file holds no settings"@,
            SessionError::Locked => "backup storage is locked"@,
            SessionError::NoChannelName => "cannot unpack channel name"@,
        }
    }

    /// What went wrong, in words.
    pub fn message(&self) -> (r: String)
        ensures
            r@ == self.message_text(),
    {
        match self {
            SessionError::AlreadyExists => String::from_str("init archive failed"),
            SessionError::ArchiveDirMissing => String::from_str("archive dir does not exist"),
            SessionError::ChannelDirMissing => String::from_str("channel dir does not exist"),
            SessionError::ContentDirMissing => String::from_str("content dir does not exist"),
            SessionError::SettingsUnreadable => String::from_str("cannot read settings file"),
            SessionError::SettingsNotUtf8 => String::from_str("settings file is not valid Utf-8"),
            SessionError::SettingsInvalid => String::from_str("settings file holds no settings"),
            SessionError::Locked => String::from_str("backup storage is locked"),
            SessionError::NoChannelName => String::from_str("cannot unpack channel name"),
        }
    }
}

} // verus!
