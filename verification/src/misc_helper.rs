//! Paths relative to a base, kinds of directory entries, and the conversion
//! between content and blob.

use crate::archive::content::{
    compress_copy, compressed, decompress_copy, decompressed, CodecError, ContentCompression,
};
use crate::text::{str_chars, string_of};
use vstd::prelude::*;
use vstd::string::StrSliceExecFns;

verus! {

/// The number of bytes in `value` mebibytes.
pub open spec fn mebibyte_bytes(value: nat) -> nat {
    value * 1024 * 1024
}

/// The number of bytes in `value` mebibytes.
pub fn mebibyte(value: usize) -> (r: usize)
    requires
        mebibyte_bytes(value as nat) <= usize::MAX,
    ensures
        r == mebibyte_bytes(value as nat),
{
    value * 1024 * 1024
}

/// Size of the buffers that content is copied through: one mebibyte.
pub const BUFFER_SIZE: usize = 1048576;

/// What a path leads to.
#[derive(Clone, Copy, Debug, PartialEq, Eq, Structural)]
pub enum EntryKind {
    /// A regular file.
    File,
    /// A directory.
    Dir,
    /// Something else, such as a device or a socket.
    Other,
    /// Nothing, or nothing whose metadata can be read.
    Missing,
}

/// Whether the path leads to a regular file.
pub fn is_file(kind: EntryKind) -> (r: bool)
    ensures
        r == (kind == EntryKind::File),
{
    match kind {
        EntryKind::File => true,
        _ => false,
    }
}

/// Whether the path leads to a directory.
pub fn is_dir(kind: EntryKind) -> (r: bool)
    ensures
        r == (kind == EntryKind::Dir),
{
    match kind {
        EntryKind::Dir => true,
        _ => false,
    }
}

/// Whether the path leads to a regular file or a directory.
pub fn is_file_or_dir(kind: EntryKind) -> (r: bool)
    ensures
        r == (kind == EntryKind::File || kind == EntryKind::Dir),
{
    is_file(kind) || is_dir(kind)
}

/// `Ok` for a directory, else the error that the caller has for the case.
pub fn is_dir_expected<E>(kind: EntryKind, error: E) -> (r: Result<(), E>)
    ensures
        kind == EntryKind::Dir ==> r == Ok::<(), E>(()),
        kind != EntryKind::Dir ==> r == Err::<(), E>(error),
{
    if is_dir(kind) {
        Ok(())
    } else {
        Err(error)
    }
}

/// The first position at or after `from` where `s` holds no `/`.
pub open spec fn skip_slashes(s: Seq<char>, from: int) -> int
    decreases s.len() - from,
{
    if 0 <= from < s.len() && s[from] == '/' {
        skip_slashes(s, from + 1)
    } else {
        from
    }
}

/// Whether `sub` lies at or below `base`: it begins with `base`, and what
/// follows, if anything, starts a new component.
pub open spec fn is_path_prefix(base: Seq<char>, sub: Seq<char>) -> bool {
    &&& base.len() <= sub.len()
    &&& sub.subrange(0, base.len() as int) == base
    &&& (base.len() == sub.len() || base.len() == 0 || base.last() == '/' || sub[base.len() as int]
        == '/')
}

/// What is left of `sub` without the leading `base` and the separators after
/// it.
pub open spec fn relative_path_of(base: Seq<char>, sub: Seq<char>) -> Seq<char> {
    if base.len() == 0 {
        sub
    } else {
        sub.skip(skip_slashes(sub, base.len() as int))
    }
}

/// Whether `sub` lies at or below `base`.
pub fn path_starts_with(base: &str, sub: &str) -> (r: bool)
    ensures
        r == is_path_prefix(base@, sub@),
{
    let base_chars = str_chars(base);
    let sub_chars = str_chars(sub);
    let n = base_chars.len();
    if n > sub_chars.len() {
        return false;
    }
    let mut i: usize = 0;
    while i < n
        invariant
            i <= n,
            base_chars@ == base@,
            sub_chars@ == sub@,
            n == base_chars@.len(),
            n <= sub_chars@.len(),
            forall|k: int| 0 <= k < i ==> sub_chars@[k] == base_chars@[k],
        decreases n - i,
    {
        if sub_chars[i] != base_chars[i] {
            proof {
                assert(sub_chars@.subrange(0, n as int)[i as int] != base_chars@[i as int]);
            }
            return false;
        }
        i += 1;
    }
    assert(sub_chars@.subrange(0, n as int) =~= base_chars@);
    n == sub_chars.len() || n == 0 || base_chars[n - 1] == '/' || sub_chars[n] == '/'
}

/// The path of `sub_path` relative to `base_path`, below which it lies.
pub fn relative_path(base_path: &str, sub_path: &str) -> (r: String)
    requires
        is_path_prefix(base_path@, sub_path@),
    ensures
        r@ == relative_path_of(base_path@, sub_path@),
{
    let base_len = base_path.unicode_len();
    let sub_chars = str_chars(sub_path);
    let mut start: usize = base_len;
    if base_len == 0 {
        proof {
            assert(sub_chars@.subrange(0, sub_chars@.len() as int) =~= sub_path@);
        }
        return string_of(sub_chars.as_slice(), 0, sub_chars.len());
    }
    while start < sub_chars.len() && sub_chars[start] == '/'
        invariant
            base_len <= start <= sub_chars@.len(),
            skip_slashes(sub_chars@, base_len as int) == skip_slashes(sub_chars@, start as int),
        decreases sub_chars@.len() - start,
    {
        start += 1;
    }
    string_of(sub_chars.as_slice(), start, sub_chars.len())
}

/// Which way content is converted.
#[derive(Clone, Copy, Debug, PartialEq, Eq, Structural)]
pub enum CopyAction {
    /// From content to blob.
    Compress,
    /// From blob to content.
    UnCompress,
}

/// Converts `src` between content and blob, as `options` says, with the
/// archive's compression.
pub fn copy_convert(src: &[u8], compression: &ContentCompression, options: CopyAction) -> (r:
    Result<Vec<u8>, CodecError>)
    ensures
        options == CopyAction::UnCompress ==> match r {
            Ok(content) => decompressed(*compression, src@) == Ok::<Seq<u8>, CodecError>(
                content@,
            ),
            Err(e) => decompressed(*compression, src@) == Err::<Seq<u8>, CodecError>(e),
        },
        options == CopyAction::Compress ==> match r {
            Ok(blob) => {
                &&& compressed(*compression, src@) == Ok::<Seq<u8>, CodecError>(blob@)
                &&& decompressed(*compression, blob@) == Ok::<Seq<u8>, CodecError>(src@)
            },
            Err(e) => compressed(*compression, src@) == Err::<Seq<u8>, CodecError>(e),
        },
{
    match options {
        CopyAction::Compress => compress_copy(src, compression),
        CopyAction::UnCompress => decompress_copy(src, compression),
    }
}

} // verus!
