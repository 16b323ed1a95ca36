//! The keys of the records in a revision manifest.

use vstd::prelude::*;
use vstd::string::StringSliceAdditionalSpecFns;
use vstd::utf8::{is_ascii_chars, is_ascii_chars_encode_utf8};

verus! {

/// A file, with the path relative to the backed-up directory as value.
pub const FILE: &'static str = "file";

/// A directory, with its relative path as value.
pub const DIR: &'static str = "dir";

/// The hash of the file above, in hex.
pub const HASH: &'static str = "hash";

/// The bytes of the key `file`.
pub open spec fn file_key() -> Seq<u8> {
    seq![102u8, 105u8, 108u8, 101u8]
}

/// The bytes of the key `dir`.
pub open spec fn dir_key() -> Seq<u8> {
    seq![100u8, 105u8, 114u8]
}

/// The bytes of the key `hash`.
pub open spec fn hash_key() -> Seq<u8> {
    seq![104u8, 97u8, 115u8, 104u8]
}

/// The keys are written as their ASCII bytes.
pub proof fn lemma_key_bytes()
    ensures
        FILE.spec_bytes() == file_key(),
        DIR.spec_bytes() == dir_key(),
        HASH.spec_bytes() == hash_key(),
{
    reveal_strlit("file");
    reveal_strlit("dir");
    reveal_strlit("hash");
    assert(is_ascii_chars(FILE@));
    assert(is_ascii_chars(DIR@));
    assert(is_ascii_chars(HASH@));
    is_ascii_chars_encode_utf8(FILE@);
    is_ascii_chars_encode_utf8(DIR@);
    is_ascii_chars_encode_utf8(HASH@);
    assert(FILE.spec_bytes() =~= file_key());
    assert(DIR.spec_bytes() =~= dir_key());
    assert(HASH.spec_bytes() =~= hash_key());
}

} // verus!
