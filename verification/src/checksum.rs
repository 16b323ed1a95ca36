//! Hash results, their hex form, and the streaming hasher.

use crate::text::bytes_eq;
use vstd::prelude::*;
use vstd::std_specs::cmp::PartialEqSpecImpl;
use vstd::slice::{slice_subrange, slice_to_vec};
use vstd::string::{StringExecFns, StringSliceAdditionalSpecFns};
use vstd::utf8::{encode_utf8, is_ascii_chars, is_ascii_chars_encode_utf8};

verus! {

/// Number of leading bytes shown by [`HashResult::to_string_short`].
pub const OUTPUT_SIZE_SHORT: usize = 4;

/// The hash algorithms an archive can be created with.
#[derive(Clone, Copy, Debug, PartialEq, Eq, Structural)]
pub enum HashAlgo {
    Sha256,
}

/// The bytes of a finished hash computation.
#[derive(Clone, Debug)]
pub struct HashResult {
    digest: Vec<u8>,
}

impl View for HashResult {
    type V = Seq<u8>;

    closed spec fn view(&self) -> Seq<u8> {
        self.digest@
    }
}

impl PartialEq for HashResult {
    /// Two results are equal iff their bytes are.
    fn eq(&self, other: &HashResult) -> (r: bool) {
        bytes_eq(self.digest.as_slice(), other.digest.as_slice())
    }
}

impl Eq for HashResult {

}

impl PartialEqSpecImpl for HashResult {
    open spec fn obeys_eq_spec() -> bool {
        true
    }

    open spec fn eq_spec(&self, other: &HashResult) -> bool {
        self@ == other@
    }
}

impl HashResult {
    /// Wraps a copy of `data`.
    pub fn from_data(data: &[u8]) -> (r: HashResult)
        ensures
            r@ == data@,
    {
        HashResult { digest: slice_to_vec(data) }
    }

    /// Reads a hash from hex text; upper and lower case digits are accepted.
    pub fn from_hex_string(digest: &str) -> (r: Result<HashResult, HexError>)
        ensures
            match r {
                Ok(h) => parse_hex(digest.spec_bytes()) == Ok::<Seq<u8>, HexError>(h@),
                Err(e) => parse_hex(digest.spec_bytes()) == Err::<Seq<u8>, HexError>(e),
            },
    {
        hash_from_hex_bytes(digest.as_bytes())
    }

    /// The hash as lowercase hex text.
    pub fn to_string(&self) -> (r: String)
        ensures
            r@ == hex_encode(self@),
    {
        encode_hex(self.digest.as_slice())
    }

    /// The first [`OUTPUT_SIZE_SHORT`] bytes as hex, followed by three dots.
    pub fn to_string_short(&self) -> (r: String)
        ensures
            r@ == hex_encode(
                self@.take(
                    if self@.len() < OUTPUT_SIZE_SHORT {
                        self@.len() as int
                    } else {
                        OUTPUT_SIZE_SHORT as int
                    },
                ),
            ) + "..."@,
    {
        let digit_len: usize = if self.digest.len() < OUTPUT_SIZE_SHORT {
            self.digest.len()
        } else {
            OUTPUT_SIZE_SHORT
        };
        let head = slice_subrange(self.digest.as_slice(), 0, digit_len);
        encode_hex(head).concat("...")
    }

    /// The raw bytes.
    pub fn data(&self) -> (r: &[u8])
        ensures
            r@ == self@,
    {
        self.digest.as_slice()
    }
}

/// The lowercase hex digit for a value below 16, as an ASCII code.
pub open spec fn hex_digit(nibble: int) -> u8 {
    if nibble < 10 {
        (48 + nibble) as u8
    } else {
        (87 + nibble) as u8
    }
}

/// Lowercase hex text of `data`: two digits per byte, high half first.
pub open spec fn hex_encode(data: Seq<u8>) -> Seq<char> {
    Seq::new(
        2 * data.len(),
        |i: int|
            if i % 2 == 0 {
                hex_digit(data[i / 2] as int / 16) as char
            } else {
                hex_digit(data[i / 2] as int % 16) as char
            },
    )
}

/// The value of one hex digit given as an ASCII code, in either case.
pub open spec fn hex_value(c: u8) -> Option<int> {
    if 48 <= c <= 57 {
        Some(c - 48)
    } else if 97 <= c <= 102 {
        Some(c - 87)
    } else if 65 <= c <= 70 {
        Some(c - 55)
    } else {
        None
    }
}

/// Whether `text` is an even number of hex digits.
pub open spec fn is_hex(text: Seq<u8>) -> bool {
    &&& text.len() % 2 == 0
    &&& forall|i: int| 0 <= i < text.len() ==> (#[trigger] hex_value(text[i])) is Some
}

/// The bytes that hex text stands for.
pub open spec fn hex_decode(text: Seq<u8>) -> Seq<u8> {
    Seq::new(
        text.len() / 2,
        |i: int| (hex_value(text[2 * i])->0 * 16 + hex_value(text[2 * i + 1])->0) as u8,
    )
}

/// The position of the first byte of `text` that is no hex digit.
pub open spec fn first_non_hex(text: Seq<u8>, index: int) -> bool {
    &&& 0 <= index < text.len()
    &&& hex_value(text[index]) is None
    &&& forall|i: int| 0 <= i < index ==> (#[trigger] hex_value(text[i])) is Some
}

/// `hex::FromHexError`, the error of `hex::decode`, with its variants.
#[verifier::external_type_specification]
pub struct ExFromHexError(hex::FromHexError);

/// `hex::encode`: the lowercase hex text of `data`.
#[verifier::external_body]
pub(crate) fn encode_hex(data: &[u8]) -> (text: String)
    ensures
        text@ == hex_encode(data@),
{
    hex::encode(data)
}

/// `hex::decode`: the bytes of hex text in either case. Text of odd length is
/// refused before any digit is looked at; otherwise the first byte that is no
/// hex digit is reported with its position.
#[verifier::external_body]
fn decode_hex(text: &[u8]) -> (r: Result<Vec<u8>, hex::FromHexError>)
    ensures
        match r {
            Ok(data) => is_hex(text@) && data@ == hex_decode(text@),
            Err(hex::FromHexError::OddLength) => text@.len() % 2 == 1,
            Err(hex::FromHexError::InvalidHexCharacter { c, index }) => {
                &&& text@.len() % 2 == 0
                &&& first_non_hex(text@, index as int)
                &&& c == text@[index as int] as char
            },
            Err(hex::FromHexError::InvalidStringLength) => false,
        },
{
    hex::decode(text)
}

/// Why text could not be read as a hash.
#[derive(Clone, Copy, Debug, PartialEq, Eq, Structural)]
pub enum HexError {
    /// The text has an odd number of bytes.
    OddLength,
    /// The byte at `index` is no hex digit.
    InvalidHexCharacter { c: char, index: usize },
}

/// What reading `text` as a hash gives.
pub open spec fn parse_hex(text: Seq<u8>) -> Result<Seq<u8>, HexError> {
    if text.len() % 2 == 1 {
        Err(HexError::OddLength)
    } else if is_hex(text) {
        Ok(hex_decode(text))
    } else {
        let index = choose|index: int| first_non_hex(text, index);
        Err(HexError::InvalidHexCharacter { c: text[index] as char, index: index as usize })
    }
}

/// The lowercase hex text of `data` as bytes.
pub open spec fn hex_text(data: Seq<u8>) -> Seq<u8> {
    encode_utf8(hex_encode(data))
}

/// The nibble that position `i` of the hex text of `data` stands for.
pub open spec fn nibble_at(data: Seq<u8>, i: int) -> int {
    if i % 2 == 0 {
        data[i / 2] as int / 16
    } else {
        data[i / 2] as int % 16
    }
}

/// Hex text is two digits per byte, holds no line break, and reads back as
/// the bytes it was made of.
#[verifier::rlimit(40)]
pub proof fn lemma_hex_text(data: Seq<u8>)
    ensures
        hex_text(data).len() == 2 * data.len(),
        forall|i: int|
            0 <= i < 2 * data.len() ==> #[trigger] hex_text(data)[i] == hex_digit(
                nibble_at(data, i),
            ),
        !hex_text(data).contains(10u8),
        parse_hex(hex_text(data)) == Ok::<Seq<u8>, HexError>(data),
{
    let chars = hex_encode(data);
    let text = hex_text(data);
    assert forall|i: int| 0 <= i < chars.len() implies '\0' <= #[trigger] chars[i] <= '\u{7f}' by {
        let n = nibble_at(data, i);
        assert(0 <= n < 16);
        assert(chars[i] == hex_digit(n) as char);
    }
    assert(is_ascii_chars(chars));
    is_ascii_chars_encode_utf8(chars);
    assert forall|i: int| 0 <= i < 2 * data.len() implies #[trigger] text[i] == hex_digit(
        nibble_at(data, i),
    ) by {
        let n = nibble_at(data, i);
        assert(0 <= n < 16);
        assert(chars[i] == hex_digit(n) as char);
        assert(chars[i] as u8 == text[i]);
    }
    assert forall|i: int| 0 <= i < text.len() implies (#[trigger] hex_value(text[i])) is Some by {
        let n = nibble_at(data, i);
        assert(0 <= n < 16);
        assert(text[i] == hex_digit(n));
    }
    assert(is_hex(text));
    assert(!text.contains(10u8)) by {
        if text.contains(10u8) {
            let i = choose|i: int| 0 <= i < text.len() && text[i] == 10u8;
            assert(hex_value(text[i]) is Some);
        }
    }
    assert(hex_decode(text) =~= data) by {
        assert forall|k: int| 0 <= k < data.len() implies hex_decode(text)[k] == data[k] by {
            let hi = nibble_at(data, 2 * k);
            let lo = nibble_at(data, 2 * k + 1);
            assert(text[2 * k] == hex_digit(hi));
            assert(text[2 * k + 1] == hex_digit(lo));
            assert(hex_value(hex_digit(hi)) == Some(hi));
            assert(hex_value(hex_digit(lo)) == Some(lo));
            assert(hi * 16 + lo == data[k] as int);
        }
    }
}

/// At most one position is the first that holds no hex digit.
pub proof fn lemma_first_non_hex_unique(text: Seq<u8>, i: int, j: int)
    requires
        first_non_hex(text, i),
        first_non_hex(text, j),
    ensures
        i == j,
{
    if i < j {
        assert(hex_value(text[i]) is Some);
    } else if j < i {
        assert(hex_value(text[j]) is Some);
    }
}

/// Reads hex text given as bytes.
pub fn hash_from_hex_bytes(text: &[u8]) -> (r: Result<HashResult, HexError>)
    ensures
        match r {
            Ok(h) => parse_hex(text@) == Ok::<Seq<u8>, HexError>(h@),
            Err(e) => parse_hex(text@) == Err::<Seq<u8>, HexError>(e),
        },
{
    match decode_hex(text) {
        Ok(digest) => Ok(HashResult { digest }),
        Err(hex::FromHexError::OddLength) => Err(HexError::OddLength),
        Err(hex::FromHexError::InvalidHexCharacter { c, index }) => {
            proof {
                assert(!is_hex(text@));
                let chosen = choose|k: int| first_non_hex(text@, k);
                lemma_first_non_hex_unique(text@, chosen, index as int);
            }
            Err(HexError::InvalidHexCharacter { c, index })
        },
        Err(hex::FromHexError::InvalidStringLength) => Err(HexError::OddLength),
    }
}

/// The SHA-256 digest of `data`, as the `sha2` crate computes it.
pub uninterp spec fn sha256_digest(data: Seq<u8>) -> Seq<u8>;

/// The bytes a running SHA-256 computation has taken in since it was created
/// or last finished.
pub uninterp spec fn sha256_absorbed(state: Sha256State) -> Seq<u8>;

/// A running SHA-256 computation: `sha2::Sha256`, kept out of sight behind
/// this struct because it is an alias of nested generic types.
#[verifier::external_body]
pub struct Sha256State {
    inner: sha2::Sha256,
}

/// `sha2::Sha256::new`: a fresh computation has taken in nothing.
#[verifier::external_body]
fn sha256_new() -> (state: Sha256State)
    ensures
        sha256_absorbed(state) == Seq::<u8>::empty(),
{
    Sha256State { inner: <sha2::Sha256 as sha2::Digest>::new() }
}

/// `sha2::Digest::update`: appends `data` to what the computation has taken in.
#[verifier::external_body]
fn sha256_update(state: &mut Sha256State, data: &[u8])
    ensures
        sha256_absorbed(*final(state)) == sha256_absorbed(*old(state)) + data@,
{
    sha2::Digest::update(&mut state.inner, data);
}

/// `sha2::Digest::finalize_reset`: returns the 32-byte digest of everything
/// taken in and leaves the computation as new.
#[verifier::external_body]
fn sha256_finalize_reset(state: &mut Sha256State) -> (digest: Vec<u8>)
    ensures
        digest@ == sha256_digest(sha256_absorbed(*old(state))),
        digest@.len() == 32,
        sha256_absorbed(*final(state)) == Seq::<u8>::empty(),
{
    sha2::Digest::finalize_reset(&mut state.inner).to_vec()
}

/// What `algo` makes of `data`.
pub open spec fn digest_of(algo: HashAlgo, data: Seq<u8>) -> Seq<u8> {
    match algo {
        HashAlgo::Sha256 => sha256_digest(data),
    }
}

/// The number of bytes in a hash made with `algo`.
pub open spec fn digest_len(algo: HashAlgo) -> nat {
    match algo {
        HashAlgo::Sha256 => 32,
    }
}

/// A streaming hash computation.
pub trait Hasher {
    /// The algorithm in use.
    spec fn algo(&self) -> HashAlgo;

    /// Everything fed in since creation or the last `finalize`.
    spec fn absorbed(&self) -> Seq<u8>;

    /// Feeds `data` into the computation.
    fn update(&mut self, data: &[u8])
        ensures
            final(self).algo() == old(self).algo(),
            final(self).absorbed() == old(self).absorbed() + data@,
    ;

    /// Returns the hash of everything fed in and starts over.
    fn finalize(&mut self) -> (r: HashResult)
        ensures
            r@ == digest_of(old(self).algo(), old(self).absorbed()),
            r@.len() == digest_len(old(self).algo()),
            final(self).algo() == old(self).algo(),
            final(self).absorbed() == Seq::<u8>::empty(),
    ;
}

/// The hasher for SHA-256.
pub struct DigestImpl {
    hasher: Sha256State,
}

impl DigestImpl {
    /// A SHA-256 hasher that has taken in nothing yet.
    pub fn new() -> (r: DigestImpl)
        ensures
            r.absorbed() == Seq::<u8>::empty(),
            r.algo() == HashAlgo::Sha256,
    {
        DigestImpl { hasher: sha256_new() }
    }
}

impl Hasher for DigestImpl {
    closed spec fn algo(&self) -> HashAlgo {
        HashAlgo::Sha256
    }

    closed spec fn absorbed(&self) -> Seq<u8> {
        sha256_absorbed(self.hasher)
    }

    fn update(&mut self, data: &[u8]) {
        sha256_update(&mut self.hasher, data);
    }

    fn finalize(&mut self) -> (r: HashResult) {
        HashResult { digest: sha256_finalize_reset(&mut self.hasher) }
    }
}

/// A hasher for `algo` that has taken in nothing yet.
pub fn new_hasher(algo: HashAlgo) -> (r: DigestImpl)
    ensures
        r.algo() == algo,
        r.absorbed() == Seq::<u8>::empty(),
{
    match algo {
        HashAlgo::Sha256 => DigestImpl::new(),
    }
}

/// The chunks put together, in order.
pub open spec fn concat_chunks(chunks: Seq<Vec<u8>>) -> Seq<u8>
    decreases chunks.len(),
{
    if chunks.len() == 0 {
        Seq::empty()
    } else {
        concat_chunks(chunks.drop_last()) + chunks.last()@
    }
}

impl DigestImpl {
    /// Feeds the chunks of a stream, in order, and returns the hash of
    /// everything fed in: to hash a stream chunk by chunk is to hash it whole.
    pub fn stream(&mut self, chunks: &Vec<Vec<u8>>) -> (r: HashResult)
        ensures
            r@ == digest_of(old(self).algo(), old(self).absorbed() + concat_chunks(chunks@)),
            r@.len() == digest_len(old(self).algo()),
            final(self).algo() == old(self).algo(),
            final(self).absorbed() == Seq::<u8>::empty(),
    {
        let mut i: usize = 0;
        proof {
            assert(chunks@.take(0) =~= Seq::<Vec<u8>>::empty());
            assert(self.absorbed() + Seq::<u8>::empty() =~= self.absorbed());
        }
        while i < chunks.len()
            invariant
                i <= chunks@.len(),
                self.algo() == old(self).algo(),
                self.absorbed() == old(self).absorbed() + concat_chunks(chunks@.take(i as int)),
            decreases chunks@.len() - i,
        {
            self.update(chunks[i].as_slice());
            proof {
                let next = chunks@.take(i + 1);
                assert(next.drop_last() =~= chunks@.take(i as int));
                assert(next.last() == chunks@[i as int]);
                assert(self.absorbed() =~= old(self).absorbed() + concat_chunks(next));
            }
            i += 1;
        }
        proof {
            assert(chunks@.take(chunks@.len() as int) =~= chunks@);
        }
        self.finalize()
    }
}

/// A hasher for `algo` that has taken in `salt`.
pub fn new_hasher_salt(algo: HashAlgo, salt: &[u8]) -> (r: DigestImpl)
    ensures
        r.algo() == algo,
        r.absorbed() == salt@,
{
    let mut hasher = new_hasher(algo);
    hasher.update(salt);
    assert(Seq::<u8>::empty() + salt@ =~= salt@);
    hasher
}

} // verus!
