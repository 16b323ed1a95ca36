//! Where things lie in an archive, and how revisions are named.

use crate::checksum::{encode_hex, hex_encode};
use crate::dirwalk::{sorted_by_path, DirWalk, DirWalkParameters, Entry, WalkFilter};
use crate::text::{bytes_less, digits, lex_less, push_digits, string_push};
use vstd::prelude::*;
use vstd::string::{StrSliceExecFns, StringExecFns, StringSliceAdditionalSpecFns};
use vstd::utf8::encode_utf8;

verus! {

/// Directory of the blobs, below the archive directory.
pub const CONTENT_DIR: &'static str = "content";

/// Directory of the channels, below the archive directory.
pub const CHANNEL_DIR: &'static str = "channels";

/// The file whose presence locks the archive.
pub const LOCK_FILE: &'static str = "lock";

/// The file that holds the archive's settings.
pub const SETTINGS_FILE: &'static str = "settings.json";

/// `child` below `base`: an absolute `child` stands for itself; otherwise the
/// two are put together, with one `/` between them unless `base` is empty or
/// ends in one.
pub open spec fn join_path(base: Seq<char>, child: Seq<char>) -> Seq<char> {
    if child.len() > 0 && child[0] == '/' {
        child
    } else if base.len() == 0 || base.last() == '/' {
        base + child
    } else {
        base + seq!['/'] + child
    }
}

/// The path of `child` below `base`.
pub fn join(base: &str, child: &str) -> (r: String)
    ensures
        r@ == join_path(base@, child@),
{
    let child_len = child.unicode_len();
    if child_len > 0 && child.get_char(0) == '/' {
        return String::from_str(child);
    }
    let base_len = base.unicode_len();
    let joined = String::from_str(base);
    if base_len == 0 || base.get_char(base_len - 1) == '/' {
        joined.concat(child)
    } else {
        proof {
            reveal_strlit("/");
            assert("/"@ =~= seq!['/']);
        }
        joined.concat("/").concat(child)
    }
}

/// Path of the settings file.
pub open spec fn settings_file_path(archive_dir: Seq<char>) -> Seq<char> {
    join_path(archive_dir, SETTINGS_FILE@)
}

/// Path of the directory that holds the blobs.
pub open spec fn content_dir_path(archive_dir: Seq<char>) -> Seq<char> {
    join_path(archive_dir, CONTENT_DIR@)
}

/// The blob of the content with hash `hash`: named by the lowercase hex of
/// the hash.
pub open spec fn content_file_path(archive_dir: Seq<char>, hash: Seq<u8>) -> Seq<char> {
    join_path(content_dir_path(archive_dir), hex_encode(hash))
}

/// Path of the directory of one channel.
pub open spec fn channel_dir_path(archive_dir: Seq<char>, channel: Seq<char>) -> Seq<char> {
    join_path(join_path(archive_dir, CHANNEL_DIR@), channel)
}

/// Path of one revision of a channel.
pub open spec fn channel_file_path(
    archive_dir: Seq<char>,
    channel: Seq<char>,
    channel_rev: Seq<char>,
) -> Seq<char> {
    join_path(channel_dir_path(archive_dir, channel), channel_rev)
}

/// Path of the lock file.
pub open spec fn lock_file_path(archive_dir: Seq<char>) -> Seq<char> {
    join_path(archive_dir, LOCK_FILE@)
}

/// Path of the settings file.
pub fn settings_file(archive_dir: &str) -> (r: String)
    ensures
        r@ == settings_file_path(archive_dir@),
{
    join(archive_dir, SETTINGS_FILE)
}

/// Path of the directory that holds the blobs.
pub fn content_dir(archive_dir: &str) -> (r: String)
    ensures
        r@ == content_dir_path(archive_dir@),
{
    join(archive_dir, CONTENT_DIR)
}

/// Path of the blob for the content with hash `hash`.
pub fn content_file(archive_dir: &str, hash: &[u8]) -> (r: String)
    ensures
        r@ == content_file_path(archive_dir@, hash@),
{
    let dir = content_dir(archive_dir);
    let name = encode_hex(hash);
    join(dir.as_str(), name.as_str())
}

/// Path of the directory of one channel.
pub fn channel_dir(archive_dir: &str, channel: &str) -> (r: String)
    ensures
        r@ == channel_dir_path(archive_dir@, channel@),
{
    let channels = join(archive_dir, CHANNEL_DIR);
    join(channels.as_str(), channel)
}

/// Path of one revision of a channel.
pub fn channel_file(archive_dir: &str, channel: &str, channel_rev: &str) -> (r: String)
    ensures
        r@ == channel_file_path(archive_dir@, channel@, channel_rev@),
{
    let dir = channel_dir(archive_dir, channel);
    join(dir.as_str(), channel_rev)
}

/// Path of the lock file.
pub fn lock_file(archive_dir: &str) -> (r: String)
    ensures
        r@ == lock_file_path(archive_dir@),
{
    join(archive_dir, LOCK_FILE)
}

/// A moment in UTC, to the second.
#[derive(Clone, Copy, Debug, PartialEq, Eq, Structural)]
pub struct Timestamp {
    pub year: i32,
    pub month: u32,
    pub day: u32,
    pub hour: u32,
    pub minute: u32,
    pub second: u32,
}

impl Timestamp {
    /// Whether each field fits the digits that a revision name has for it.
    pub open spec fn fits_name(&self) -> bool {
        &&& 0 <= self.year <= 9999
        &&& 1 <= self.month <= 12
        &&& 1 <= self.day <= 31
        &&& self.hour <= 23
        &&& self.minute <= 59
        &&& self.second <= 59
    }
}

/// Why an archive operation was refused.
#[derive(Clone, Copy, Debug, PartialEq, Eq, Structural)]
pub enum LayoutError {
    /// The channel holds no revision.
    NoRevision,
    /// The clock shows a moment that has no revision name: one before 1970,
    /// or in a year that has no four digits.
    ClockOutOfRange,
    /// The operating system gave no random number.
    NoEntropy,
}

/// The name of the revision made at `t` with the random number `random`:
/// `YYYYMMDD_HHMM_SS_` and sixteen hex digits.
pub open spec fn revision_name_text(t: Timestamp, random: u64) -> Seq<char> {
    digits(t.year as nat, 10, 4) + digits(t.month as nat, 10, 2) + digits(t.day as nat, 10, 2)
        + seq!['_'] + digits(t.hour as nat, 10, 2) + digits(t.minute as nat, 10, 2) + seq!['_']
        + digits(t.second as nat, 10, 2) + seq!['_'] + digits(random as nat, 16, 16)
}

/// The name of the revision made at `t` with the random number `random`;
/// `None` for a moment whose fields do not fit the name.
pub fn revision_name(t: Timestamp, random: u64) -> (r: Option<String>)
    ensures
        match r {
            Some(name) => t.fits_name() && name@ == revision_name_text(t, random),
            None => !t.fits_name(),
        },
{
    if t.year < 0 || t.year > 9999 || t.month < 1 || t.month > 12 || t.day < 1 || t.day > 31
        || t.hour > 23 || t.minute > 59 || t.second > 59 {
        return None;
    }
    let mut name = String::new();
    push_digits(&mut name, t.year as u64, 10, 4);
    push_digits(&mut name, t.month as u64, 10, 2);
    push_digits(&mut name, t.day as u64, 10, 2);
    string_push(&mut name, '_');
    push_digits(&mut name, t.hour as u64, 10, 2);
    push_digits(&mut name, t.minute as u64, 10, 2);
    string_push(&mut name, '_');
    push_digits(&mut name, t.second as u64, 10, 2);
    string_push(&mut name, '_');
    push_digits(&mut name, random, 16, 16);
    assert(name@ =~= revision_name_text(t, random));
    Some(name)
}

/// `std::time::SystemTime`, a reading of the system clock.
#[verifier::external_type_specification]
#[verifier::external_body]
pub struct ExSystemTime(std::time::SystemTime);

/// The moment that `chrono` finds `seconds` seconds after the start of 1970
/// in UTC; `None` where `chrono` has no such moment.
pub uninterp spec fn utc_fields(seconds: int) -> Option<Timestamp>;

/// `std::time::SystemTime::now`: the system clock, read now.
#[verifier::external_body]
fn system_now() -> std::time::SystemTime {
    std::time::SystemTime::now()
}

/// `std::time::SystemTime::duration_since` the start of 1970; `None` for a
/// clock that stands before it.
#[verifier::external_body]
fn since_unix_epoch(now: &std::time::SystemTime) -> Option<core::time::Duration> {
    now.duration_since(std::time::UNIX_EPOCH).ok()
}

/// `core::time::Duration::as_secs`: the whole seconds of a duration.
#[verifier::external_body]
fn whole_seconds(duration: &core::time::Duration) -> u64 {
    duration.as_secs()
}

/// `chrono::DateTime::from_timestamp`, read field by field: `None` for a
/// number of seconds out of its range; else the month is 1 to 12, the day 1
/// to 31, the hour at most 23, minute and second at most 59.
#[verifier::external_body]
fn utc_from_seconds(seconds: i64) -> (r: Option<Timestamp>)
    ensures
        r == utc_fields(seconds as int),
        r matches Some(t) ==> 1 <= t.month <= 12 && 1 <= t.day <= 31 && t.hour <= 23 && t.minute
            <= 59 && t.second <= 59,
{
    match chrono::DateTime::from_timestamp(seconds, 0) {
        None => None,
        Some(at) => Some(
            Timestamp {
                year: chrono::Datelike::year(&at),
                month: chrono::Datelike::month(&at),
                day: chrono::Datelike::day(&at),
                hour: chrono::Timelike::hour(&at),
                minute: chrono::Timelike::minute(&at),
                second: chrono::Timelike::second(&at),
            },
        ),
    }
}

/// `rand::rngs::StdRng::try_from_os_rng` and `next_u64`: 64 bits from a
/// generator seeded by the operating system; `None` if it gives no seed.
#[verifier::external_body]
fn random_u64() -> Option<u64> {
    match <rand::rngs::StdRng as rand::SeedableRng>::try_from_os_rng() {
        Ok(mut rng) => Some(rand::RngCore::next_u64(&mut rng)),
        Err(_) => None,
    }
}

/// The moment in UTC that lies `seconds` seconds after the start of 1970, if
/// there is one.
pub fn timestamp_at(seconds: u64) -> (r: Option<Timestamp>)
    ensures
        r == (if seconds <= i64::MAX {
            utc_fields(seconds as int)
        } else {
            None
        }),
{
    if seconds > i64::MAX as u64 {
        None
    } else {
        utc_from_seconds(seconds as i64)
    }
}

/// Path of a revision in `channel` named after the moment and the random
/// number that were found, if both were.
pub fn channel_file_for(
    archive_dir: &str,
    channel: &str,
    now: Option<Timestamp>,
    random: Option<u64>,
) -> (r: Result<String, LayoutError>)
    ensures
        match (now, random) {
            (Some(t), Some(number)) => if t.fits_name() {
                r is Ok && r->Ok_0@ == channel_file_path(
                    archive_dir@,
                    channel@,
                    revision_name_text(t, number),
                )
            } else {
                r == Err::<String, LayoutError>(LayoutError::ClockOutOfRange)
            },
            (None, _) => r == Err::<String, LayoutError>(LayoutError::ClockOutOfRange),
            (Some(t), None) => r == Err::<String, LayoutError>(LayoutError::NoEntropy),
        },
{
    match now {
        None => Err(LayoutError::ClockOutOfRange),
        Some(t) => match random {
            None => Err(LayoutError::NoEntropy),
            Some(number) => channel_file_at(archive_dir, channel, t, number),
        },
    }
}

/// Path of a revision in `channel` named after `t` and `random`.
pub fn channel_file_at(archive_dir: &str, channel: &str, t: Timestamp, random: u64) -> (r: Result<
    String,
    LayoutError,
>)
    ensures
        match r {
            Ok(path) => t.fits_name() && path@ == channel_file_path(
                archive_dir@,
                channel@,
                revision_name_text(t, random),
            ),
            Err(e) => !t.fits_name() && e == LayoutError::ClockOutOfRange,
        },
{
    match revision_name(t, random) {
        Some(name) => Ok(channel_file(archive_dir, channel, name.as_str())),
        None => Err(LayoutError::ClockOutOfRange),
    }
}

/// Path of a new revision in `channel`, named after the current time and a
/// random number.
pub fn next_channel_file(archive_dir: &str, channel: &str) -> (r: Result<String, LayoutError>)
    ensures
        match r {
            Ok(path) => exists|t: Timestamp, random: u64|
                t.fits_name() && path@ == channel_file_path(
                    archive_dir@,
                    channel@,
                    #[trigger] revision_name_text(t, random),
                ),
            Err(e) => e == LayoutError::ClockOutOfRange || e == LayoutError::NoEntropy,
        },
{
    let clock = system_now();
    let now = match since_unix_epoch(&clock) {
        None => None,
        Some(elapsed) => timestamp_at(whole_seconds(&elapsed)),
    };
    channel_file_for(archive_dir, channel, now, random_u64())
}

/// Whether `name` is the greatest of `names` as a string: none of them comes
/// after it.
pub open spec fn is_latest(names: Seq<String>, name: Seq<char>) -> bool {
    &&& exists|k: int| 0 <= k < names.len() && (#[trigger] names[k])@ == name
    &&& forall|i: int|
        0 <= i < names.len() ==> !lex_less(encode_utf8(name), encode_utf8((#[trigger] names[i])@))
}

/// A channel has one latest revision: two names that are both the greatest
/// are the same name.
pub proof fn lemma_latest_unique(names: Seq<String>, a: Seq<char>, b: Seq<char>)
    requires
        is_latest(names, a),
        is_latest(names, b),
    ensures
        a == b,
{
    let i = choose|k: int| 0 <= k < names.len() && (#[trigger] names[k])@ == a;
    let j = choose|k: int| 0 <= k < names.len() && (#[trigger] names[k])@ == b;
    assert(!lex_less(encode_utf8(a), encode_utf8(names[j]@)));
    assert(!lex_less(encode_utf8(b), encode_utf8(names[i]@)));
    crate::text::lemma_lex_less_total(encode_utf8(a), encode_utf8(b));
    crate::text::lemma_encode_utf8_injective(a, b);
}

/// The greatest of the revision names of a channel, which names its latest
/// revision.
pub fn channel_rev_last(revisions: &Vec<String>) -> (r: Result<String, LayoutError>)
    ensures
        match r {
            Ok(name) => is_latest(revisions@, name@),
            Err(e) => revisions@.len() == 0 && e == LayoutError::NoRevision,
        },
{
    if revisions.len() == 0 {
        return Err(LayoutError::NoRevision);
    }
    let mut latest: usize = 0;
    let mut i: usize = 1;
    proof {
        let first = encode_utf8(revisions@[0]@);
        crate::text::lemma_lex_less_order(first, first, first);
    }
    while i < revisions.len()
        invariant
            latest < i <= revisions@.len(),
            forall|k: int|
                0 <= k < i ==> !lex_less(
                    encode_utf8(revisions@[latest as int]@),
                    encode_utf8((#[trigger] revisions@[k])@),
                ),
        decreases revisions@.len() - i,
    {
        if bytes_less(revisions[latest].as_str().as_bytes(), revisions[i].as_str().as_bytes()) {
            proof {
                assert forall|k: int| 0 <= k < i + 1 implies !lex_less(
                    encode_utf8(revisions@[i as int]@),
                    encode_utf8((#[trigger] revisions@[k])@),
                ) by {
                    let newer = encode_utf8(revisions@[i as int]@);
                    crate::text::lemma_lex_less_order(
                        encode_utf8(revisions@[latest as int]@),
                        newer,
                        encode_utf8(revisions@[k]@),
                    );
                    crate::text::lemma_lex_less_order(newer, newer, newer);
                }
            }
            latest = i;
        }
        i += 1;
    }
    Ok(revisions[latest].clone())
}

impl LayoutError {
    /// What went wrong, in words, for the channel in question.
    pub open spec fn message_text(self, channel: Seq<char>) -> Seq<char> {
        match self {
            LayoutError::NoRevision => "cannot get latest revision in channel "@ + channel,
            LayoutError::ClockOutOfRange => "cannot name a revision in channel "@ + channel,
            LayoutError::NoEntropy => "cannot get a random number for channel "@ + channel,
        }
    }

    /// What went wrong, in words, for the channel in question.
    pub fn message(&self, channel: &str) -> (r: String)
        ensures
            r@ == self.message_text(channel@),
    {
        match self {
            LayoutError::NoRevision => String::from_str(
                "cannot get latest revision in channel ",
            ).concat(channel),
            LayoutError::ClockOutOfRange => String::from_str(
                "cannot name a revision in channel ",
            ).concat(channel),
            LayoutError::NoEntropy => String::from_str(
                "cannot get a random number for channel ",
            ).concat(channel),
        }
    }
}

/// A walk over the direct children of `root_dir` that `filter` lets through,
/// given the listing of `root_dir`.
fn flat_walk(root_dir: String, filter: WalkFilter, listing: Option<Vec<Entry>>) -> (r: Option<
    DirWalk,
>)
    ensures
        match listing {
            None => r is None,
            Some(children) => {
                &&& r is Some
                &&& r->0.parameters().root_dir == root_dir
                &&& !r->0.parameters().recursive
                &&& r->0.parameters().filter == Some(filter)
                &&& r->0.awaiting() is None
                &&& sorted_by_path(r->0.queue())
                &&& r->0.queue().to_multiset() == children@.to_multiset()
            },
        },
{
    DirWalk::new(DirWalkParameters { root_dir, recursive: false, filter: Some(filter) }, listing)
}

/// A walk over the blobs of the archive, given the listing of its blob
/// directory; `None` if the directory could not be listed.
pub fn content_paths(archive_dir: &str, listing: Option<Vec<Entry>>) -> (r: Option<DirWalk>)
    ensures
        match listing {
            None => r is None,
            Some(children) => {
                &&& r is Some
                &&& r->0.parameters().root_dir@ == content_dir_path(archive_dir@)
                &&& !r->0.parameters().recursive
                &&& r->0.parameters().filter == Some(WalkFilter::Files)
                &&& r->0.awaiting() is None
                &&& sorted_by_path(r->0.queue())
                &&& r->0.queue().to_multiset() == children@.to_multiset()
            },
        },
{
    flat_walk(content_dir(archive_dir), WalkFilter::Files, listing)
}

/// A walk over the revisions of `channel`, given the listing of the
/// directory of the channel; `None` if the directory could not be listed.
pub fn channel_rev_paths(archive_dir: &str, channel: &str, listing: Option<Vec<Entry>>) -> (r:
    Option<DirWalk>)
    ensures
        match listing {
            None => r is None,
            Some(children) => {
                &&& r is Some
                &&& r->0.parameters().root_dir@ == channel_dir_path(archive_dir@, channel@)
                &&& !r->0.parameters().recursive
                &&& r->0.parameters().filter == Some(WalkFilter::Files)
                &&& r->0.awaiting() is None
                &&& sorted_by_path(r->0.queue())
                &&& r->0.queue().to_multiset() == children@.to_multiset()
            },
        },
{
    flat_walk(channel_dir(archive_dir, channel), WalkFilter::Files, listing)
}

/// A walk over the channels of the archive, given the listing of its channel
/// directory; `None` if the directory could not be listed.
pub fn channel_paths(archive_dir: &str, listing: Option<Vec<Entry>>) -> (r: Option<DirWalk>)
    ensures
        match listing {
            None => r is None,
            Some(children) => {
                &&& r is Some
                &&& r->0.parameters().root_dir@ == join_path(archive_dir@, CHANNEL_DIR@)
                &&& !r->0.parameters().recursive
                &&& r->0.parameters().filter == Some(WalkFilter::Dirs)
                &&& r->0.awaiting() is None
                &&& sorted_by_path(r->0.queue())
                &&& r->0.queue().to_multiset() == children@.to_multiset()
            },
        },
{
    flat_walk(join(archive_dir, CHANNEL_DIR), WalkFilter::Dirs, listing)
}

} // verus!
