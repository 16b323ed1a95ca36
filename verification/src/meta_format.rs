//! The manifest format: tab-indented `key:value` lines, closed by a trailer
//! line that holds the hash of everything before it.

use crate::checksum::{
    digest_len, digest_of, hash_from_hex_bytes, hex_text, lemma_hex_text, new_hasher,
    parse_hex, DigestImpl, HashAlgo, HashResult, Hasher, HexError,
};
use crate::text::{
    find_byte, find_first_byte, has_prefix_at, lemma_find_byte_bounds, skip_byte,
    skip_while_byte, starts_with_at, text_of,
};
use vstd::prelude::*;
use vstd::slice::slice_subrange;
use vstd::string::{StringExecFns, StringSliceAdditionalSpecFns};
use vstd::utf8::{encode_utf8, valid_utf8};

verus! {

/// The byte that indents a line by one level.
pub const TAB: u8 = 9;

/// The byte that ends a line.
pub const NEWLINE: u8 = 10;

/// The byte between key and value.
pub const SEPARATOR: u8 = 58;

/// The bytes `__end:` that open the trailer line.
pub open spec fn end_marker() -> Seq<u8> {
    seq![95u8, 95u8, 101u8, 110u8, 100u8, 58u8]
}

/// Why a manifest could not be written or read.
#[derive(Clone, Copy, Debug, PartialEq, Eq, Structural)]
pub enum FormatError {
    /// A key to be written contains the separator.
    KeyHasSeparator,
    /// A value to be written contains a line break.
    ValueHasNewline,
    /// A line has no separator.
    MissingSeparator,
    /// A key or value is not valid UTF-8.
    InvalidUtf8,
    /// A line lies more than one level above or below the line before it.
    DepthJump,
}

/// One line of a manifest as bytes: key, value and indentation.
pub ghost struct RawEntry {
    pub key: Seq<u8>,
    pub value: Seq<u8>,
    pub depth: nat,
}

/// One record of a manifest.
#[derive(Clone, Debug)]
pub struct ReaderEntry {
    pub key: String,
    pub value: String,
    pub depth: usize,
}

impl ReaderEntry {
    /// The record as the bytes it is written with.
    pub open spec fn raw(&self) -> RawEntry {
        RawEntry {
            key: encode_utf8(self.key@),
            value: encode_utf8(self.value@),
            depth: self.depth as nat,
        }
    }
}

/// The line that records `key` and `value` at `depth`.
pub open spec fn entry_line(depth: nat, key: Seq<u8>, value: Seq<u8>) -> Seq<u8> {
    Seq::new(depth, |i: int| TAB) + key + seq![SEPARATOR] + value + seq![NEWLINE]
}

/// Where the value of `line` ends: before a final line break, if the value
/// has one.
pub open spec fn value_end(line: Seq<u8>, colon: int) -> int {
    if line.len() > colon + 1 && line[line.len() - 1] == NEWLINE {
        line.len() - 1
    } else {
        line.len() as int
    }
}

/// Splits a line into indentation, key and value; `None` without separator.
pub open spec fn parse_line(line: Seq<u8>) -> Option<RawEntry> {
    let depth = skip_byte(line, 0, TAB);
    let colon = find_byte(line, depth, SEPARATOR);
    if colon >= line.len() {
        None
    } else {
        Some(
            RawEntry {
                key: line.subrange(depth, colon),
                value: line.subrange(colon + 1, value_end(line, colon)),
                depth: depth as nat,
            },
        )
    }
}

/// What reading one line gives: its record, or why it is refused.
pub open spec fn read_line(line: Seq<u8>) -> Result<RawEntry, FormatError> {
    match parse_line(line) {
        None => Err(FormatError::MissingSeparator),
        Some(raw) => if valid_utf8(raw.key) && valid_utf8(raw.value) {
            Ok(raw)
        } else {
            Err(FormatError::InvalidUtf8)
        },
    }
}

/// The position after the line that starts at `pos`.
pub open spec fn line_end(data: Seq<u8>, pos: int) -> int {
    let newline = find_byte(data, pos, NEWLINE);
    if newline < data.len() {
        newline + 1
    } else {
        data.len() as int
    }
}

/// Whether the trailer line starts at `pos`.
pub open spec fn is_trailer_at(data: Seq<u8>, pos: int) -> bool {
    has_prefix_at(data, pos, end_marker())
}

/// What the reader finds at the start of a line.
pub ghost enum Step {
    /// The data or the body of the manifest ends here.
    End,
    /// The line is refused.
    Fail(FormatError),
    /// The line holds a record.
    Entry(RawEntry),
}

/// What a reader that stands at `pos`, after a record of depth `depth`, finds
/// there.
pub open spec fn step_at(data: Seq<u8>, pos: int, depth: nat) -> Step {
    if pos < 0 || pos >= data.len() || is_trailer_at(data, pos) {
        Step::End
    } else {
        match read_line(data.subrange(pos, line_end(data, pos))) {
            Err(e) => Step::Fail(e),
            Ok(raw) => if raw.depth > depth + 1 || depth > raw.depth + 1 {
                Step::Fail(FormatError::DepthJump)
            } else {
                Step::Entry(raw)
            },
        }
    }
}

/// The records of a manifest up to its end or its first refused line.
pub ghost struct Parsed {
    pub entries: Seq<RawEntry>,
    pub error: Option<FormatError>,
}

/// The records from `pos` on, for a reader that last saw depth `depth`.
pub open spec fn entries_from(data: Seq<u8>, pos: int, depth: nat) -> Parsed
    decreases data.len() - pos,
{
    match step_at(data, pos, depth) {
        Step::End => Parsed { entries: Seq::empty(), error: None },
        Step::Fail(e) => Parsed { entries: Seq::empty(), error: Some(e) },
        Step::Entry(raw) => {
            let next = line_end(data, pos);
            if next <= pos {
                Parsed { entries: seq![raw], error: None }
            } else {
                let rest = entries_from(data, next, raw.depth);
                Parsed { entries: seq![raw] + rest.entries, error: rest.error }
            }
        },
    }
}

/// The records of a whole manifest.
pub open spec fn parse_manifest(data: Seq<u8>) -> Parsed {
    entries_from(data, 0, 0)
}

/// The bytes `__end:`.
fn end_marker_bytes() -> (r: Vec<u8>)
    ensures
        r@ == end_marker(),
{
    let r = vec![95u8, 95u8, 101u8, 110u8, 100u8, 58u8];
    assert(r@ =~= end_marker());
    r
}

/// Position after the line that starts at `pos`.
fn next_line(data: &[u8], pos: usize) -> (r: usize)
    requires
        pos < data@.len(),
    ensures
        r == line_end(data@, pos as int),
        pos < r <= data@.len(),
{
    let newline = find_first_byte(data, pos, NEWLINE);
    if newline < data.len() {
        newline + 1
    } else {
        data.len()
    }
}

/// Reads the records of a manifest one by one.
pub struct Reader {
    data: Vec<u8>,
    pos: usize,
    depth: usize,
    done: bool,
}

impl Reader {
    #[verifier::type_invariant]
    spec fn well_formed(&self) -> bool {
        self.pos <= self.data@.len()
    }

    /// The bytes the reader was made with.
    pub closed spec fn data(&self) -> Seq<u8> {
        self.data@
    }

    /// What is still to come: the records up to the end of the manifest or to
    /// the first refused line.
    pub closed spec fn remaining(&self) -> Parsed {
        if self.done {
            Parsed { entries: Seq::empty(), error: None }
        } else {
            entries_from(self.data@, self.pos as int, self.depth as nat)
        }
    }

    /// Parses one line, given with or without its line break.
    pub fn key_value_dept(line: &[u8]) -> (r: Result<ReaderEntry, FormatError>)
        ensures
            match r {
                Ok(entry) => read_line(line@) == Ok::<RawEntry, FormatError>(entry.raw()),
                Err(e) => read_line(line@) == Err::<RawEntry, FormatError>(e),
            },
    {
        let depth = skip_while_byte(line, 0, TAB);
        let colon = find_first_byte(line, depth, SEPARATOR);
        if colon >= line.len() {
            return Err(FormatError::MissingSeparator);
        }
        let end: usize = if line.len() > colon + 1 && line[line.len() - 1] == NEWLINE {
            line.len() - 1
        } else {
            line.len()
        };
        let key = match text_of(line, depth, colon) {
            Some(key) => key,
            None => {
                return Err(FormatError::InvalidUtf8);
            },
        };
        let value = match text_of(line, colon + 1, end) {
            Some(value) => value,
            None => {
                return Err(FormatError::InvalidUtf8);
            },
        };
        Ok(ReaderEntry { key, value, depth })
    }

    /// A reader at the start of `data`.
    pub fn new(data: Vec<u8>) -> (r: Reader)
        ensures
            r.data() == data@,
            r.remaining() == parse_manifest(data@),
    {
        Reader { data, pos: 0, depth: 0, done: false }
    }

    /// The next record. `None` at the end of the data and at the trailer
    /// line; an error, once, at a line that is refused.
    pub fn next(&mut self) -> (r: Option<Result<ReaderEntry, FormatError>>)
        ensures
            final(self).data() == old(self).data(),
            match r {
                None => {
                    &&& old(self).remaining() == (Parsed { entries: Seq::empty(), error: None })
                    &&& final(self).remaining() == old(self).remaining()
                },
                Some(Ok(entry)) => {
                    &&& old(self).remaining().entries.len() > 0
                    &&& entry.raw() == old(self).remaining().entries[0]
                    &&& final(self).remaining() == (Parsed {
                        entries: old(self).remaining().entries.drop_first(),
                        error: old(self).remaining().error,
                    })
                },
                Some(Err(e)) => {
                    &&& old(self).remaining() == (Parsed {
                        entries: Seq::empty(),
                        error: Some(e),
                    })
                    &&& final(self).remaining() == (Parsed { entries: Seq::empty(), error: None })
                },
            },
    {
        proof {
            use_type_invariant(&*self);
        }
        if self.done {
            return None;
        }
        if self.pos >= self.data.len() {
            self.done = true;
            return None;
        }
        let marker = end_marker_bytes();
        if starts_with_at(self.data.as_slice(), self.pos, marker.as_slice()) {
            self.done = true;
            return None;
        }
        let end = next_line(self.data.as_slice(), self.pos);
        let line = slice_subrange(self.data.as_slice(), self.pos, end);
        match Reader::key_value_dept(line) {
            Err(e) => {
                self.done = true;
                Some(Err(e))
            },
            Ok(entry) => {
                if entry.depth > self.depth && entry.depth - self.depth > 1 || self.depth
                    > entry.depth && self.depth - entry.depth > 1 {
                    self.done = true;
                    return Some(Err(FormatError::DepthJump));
                }
                proof {
                    let rest = entries_from(self.data@, end as int, entry.depth as nat);
                    assert((seq![entry.raw()] + rest.entries).drop_first() =~= rest.entries);
                }
                self.pos = end;
                self.depth = entry.depth;
                Some(Ok(entry))
            },
        }
    }
}

/// Why `key` and `value` cannot be written as one line, if they cannot.
pub open spec fn entry_fault(key: Seq<u8>, value: Seq<u8>) -> Option<FormatError> {
    if key.contains(SEPARATOR) {
        Some(FormatError::KeyHasSeparator)
    } else if value.contains(NEWLINE) {
        Some(FormatError::ValueHasNewline)
    } else {
        None
    }
}

/// The length of a trailer line: the end marker, two hex digits for each
/// byte of the hash, and a line break.
pub open spec fn trailer_len(algo: HashAlgo) -> nat {
    6 + 2 * digest_len(algo) + 1
}

/// The trailer line for a manifest body; nothing for an empty body.
pub open spec fn trailer_for(algo: HashAlgo, body: Seq<u8>) -> Seq<u8> {
    if body.len() == 0 {
        Seq::empty()
    } else {
        end_marker() + hex_text(digest_of(algo, body)) + seq![NEWLINE]
    }
}

/// Whether `s` holds `b`.
fn contains_byte(s: &[u8], b: u8) -> (r: bool)
    ensures
        r == s@.contains(b),
{
    let at = find_first_byte(s, 0, b);
    proof {
        lemma_find_byte_bounds(s@, 0, b);
    }
    at < s.len()
}

/// Builds the lines of a manifest and keeps the running hash of them.
///
/// The writer owns no sink: each call hands back the bytes to append.
pub struct Writer {
    depth: usize,
    any_writes: bool,
    digest: DigestImpl,
}

impl Writer {
    /// The writer knows whether it has written anything.
    pub closed spec fn well_formed(&self) -> bool {
        self.any_writes == (self.digest.absorbed().len() > 0)
    }

    /// The indentation of the next line.
    pub closed spec fn depth(&self) -> nat {
        self.depth as nat
    }

    /// The hash algorithm of the trailer.
    pub closed spec fn algo(&self) -> HashAlgo {
        self.digest.algo()
    }

    /// All bytes handed out since the writer was made or last finished.
    pub closed spec fn written(&self) -> Seq<u8> {
        self.digest.absorbed()
    }

    /// A writer at depth 0 that has written nothing.
    pub fn new(algo: HashAlgo) -> (r: Writer)
        ensures
            r.well_formed(),
            r.depth() == 0,
            r.algo() == algo,
            r.written() == Seq::<u8>::empty(),
    {
        Writer { depth: 0, any_writes: false, digest: new_hasher(algo) }
    }

    /// The line for `key` and `value` at the current depth. A key with a
    /// separator or a value with a line break is refused and changes nothing.
    pub fn add_entry(&mut self, key: &str, value: &str) -> (r: Result<Vec<u8>, FormatError>)
        requires
            old(self).well_formed(),
        ensures
            final(self).well_formed(),
            final(self).depth() == old(self).depth(),
            final(self).algo() == old(self).algo(),
            match r {
                Ok(line) => {
                    &&& entry_fault(key.spec_bytes(), value.spec_bytes()) is None
                    &&& line@ == entry_line(
                        old(self).depth(),
                        key.spec_bytes(),
                        value.spec_bytes(),
                    )
                    &&& final(self).written() == old(self).written() + line@
                },
                Err(e) => {
                    &&& entry_fault(key.spec_bytes(), value.spec_bytes()) == Some(e)
                    &&& final(self).written() == old(self).written()
                },
            },
    {
        let key_bytes = key.as_bytes();
        let value_bytes = value.as_bytes();
        if contains_byte(key_bytes, SEPARATOR) {
            return Err(FormatError::KeyHasSeparator);
        }
        if contains_byte(value_bytes, NEWLINE) {
            return Err(FormatError::ValueHasNewline);
        }
        let mut line: Vec<u8> = Vec::new();
        let mut i: usize = 0;
        while i < self.depth
            invariant
                i <= self.depth,
                line@ == Seq::new(i as nat, |k: int| TAB),
            decreases self.depth - i,
        {
            line.push(TAB);
            i += 1;
            assert(line@ =~= Seq::new(i as nat, |k: int| TAB));
        }
        line.extend_from_slice(key_bytes);
        line.push(SEPARATOR);
        line.extend_from_slice(value_bytes);
        line.push(NEWLINE);
        assert(line@ =~= entry_line(self.depth as nat, key.spec_bytes(), value.spec_bytes()));
        self.digest.update(line.as_slice());
        self.any_writes = true;
        Ok(line)
    }

    /// Indents the lines that follow by one level more.
    pub fn increase_depth(&mut self)
        requires
            old(self).well_formed(),
            old(self).depth() < usize::MAX,
        ensures
            final(self).well_formed(),
            final(self).depth() == old(self).depth() + 1,
            final(self).algo() == old(self).algo(),
            final(self).written() == old(self).written(),
    {
        self.depth = self.depth + 1;
    }

    /// Indents the lines that follow by one level less.
    pub fn decrease_depth(&mut self)
        requires
            old(self).well_formed(),
            old(self).depth() > 0,
        ensures
            final(self).well_formed(),
            final(self).depth() == old(self).depth() - 1,
            final(self).algo() == old(self).algo(),
            final(self).written() == old(self).written(),
    {
        self.depth = self.depth - 1;
    }

    /// The trailer line that closes what was written, or nothing if nothing
    /// was written. The writer starts over at the same depth.
    pub fn finish(&mut self) -> (r: Vec<u8>)
        requires
            old(self).well_formed(),
        ensures
            final(self).well_formed(),
            r@ == trailer_for(old(self).algo(), old(self).written()),
            r@.len() == (if old(self).written().len() == 0 {
                0
            } else {
                trailer_len(old(self).algo())
            }),
            final(self).depth() == old(self).depth(),
            final(self).algo() == old(self).algo(),
            final(self).written() == Seq::<u8>::empty(),
    {
        let mut line: Vec<u8> = Vec::new();
        if !self.any_writes {
            return line;
        }
        let hashsum = self.digest.finalize();
        proof {
            lemma_hex_text(hashsum@);
        }
        self.any_writes = false;
        let text = hashsum.to_string();
        let marker = end_marker_bytes();
        line.extend_from_slice(marker.as_slice());
        line.extend_from_slice(text.as_str().as_bytes());
        line.push(NEWLINE);
        line
    }
}

/// Why a manifest failed the integrity check.
#[derive(Clone, Copy, Debug, PartialEq, Eq, Structural)]
pub enum VerifyError {
    /// No line begins with the end marker.
    MissingEndMarker,
    /// The trailer does not hold a hash in hex.
    InvalidHash(HexError),
    /// The trailer holds another hash than that of the body.
    HashsumMismatch,
}

/// The start of the first line, at or after the line that starts at `pos`,
/// that begins with the end marker.
pub open spec fn find_trailer(data: Seq<u8>, pos: int) -> Option<int>
    decreases data.len() - pos,
{
    if pos < 0 || pos >= data.len() {
        None
    } else if is_trailer_at(data, pos) {
        Some(pos)
    } else {
        let next = line_end(data, pos);
        if next <= pos {
            None
        } else {
            find_trailer(data, next)
        }
    }
}

/// The text after the end marker of the trailer line that starts at `at`.
pub open spec fn trailer_text(data: Seq<u8>, at: int) -> Seq<u8> {
    data.subrange(at + 6, find_byte(data, at + 6, NEWLINE))
}

/// Whether the trailer text `text` names the hash `computed`.
pub open spec fn trailer_verdict(text: Seq<u8>, computed: Seq<u8>) -> Result<(), VerifyError> {
    match parse_hex(text) {
        Err(e) => Err(VerifyError::InvalidHash(e)),
        Ok(stored) => if stored == computed {
            Ok(())
        } else {
            Err(VerifyError::HashsumMismatch)
        },
    }
}

/// The outcome of the integrity check of a manifest.
pub open spec fn verify_spec(data: Seq<u8>, algo: HashAlgo) -> Result<(), VerifyError> {
    match find_trailer(data, 0) {
        None => Err(VerifyError::MissingEndMarker),
        Some(at) => trailer_verdict(trailer_text(data, at), digest_of(algo, data.take(at))),
    }
}

/// Compares the hash named by a trailer with the hash computed of the body.
pub fn check_trailer(text: &[u8], computed: &HashResult) -> (r: Result<(), VerifyError>)
    ensures
        r == trailer_verdict(text@, computed@),
{
    match hash_from_hex_bytes(text) {
        Err(e) => Err(VerifyError::InvalidHash(e)),
        Ok(stored) => {
            if stored == *computed {
                Ok(())
            } else {
                Err(VerifyError::HashsumMismatch)
            }
        },
    }
}

/// Checks a manifest against its trailer: the hash named there must be the
/// hash of all bytes before the trailer line.
pub fn verify(data: &[u8], algo: HashAlgo) -> (r: Result<(), VerifyError>)
    ensures
        r == verify_spec(data@, algo),
{
    let mut hasher = new_hasher(algo);
    let marker = end_marker_bytes();
    let mut pos: usize = 0;
    while pos < data.len()
        invariant
            pos <= data@.len(),
            marker@ == end_marker(),
            hasher.algo() == algo,
            hasher.absorbed() == data@.take(pos as int),
            find_trailer(data@, 0) == find_trailer(data@, pos as int),
        decreases data@.len() - pos,
    {
        if starts_with_at(data, pos, marker.as_slice()) {
            let text_end = find_first_byte(data, pos + 6, NEWLINE);
            let text = slice_subrange(data, pos + 6, text_end);
            let computed = hasher.finalize();
            return check_trailer(text, &computed);
        }
        let end = next_line(data, pos);
        hasher.update(slice_subrange(data, pos, end));
        assert(data@.take(pos as int) + data@.subrange(pos as int, end as int) =~= data@.take(
            end as int,
        ));
        pos = end;
    }
    Err(VerifyError::MissingEndMarker)
}

impl FormatError {
    /// What went wrong, in words.
    pub open spec fn message_text(self) -> Seq<char> {
        match self {
            FormatError::KeyHasSeparator => "MetaFormat: key contains the separator"@,
            FormatError::ValueHasNewline => "MetaFormat: value contains a line break"@,
            FormatError::MissingSeparator => "MetaFormat: invalid line"@,
            FormatError::InvalidUtf8 => "MetaFormat: cannot read line"@,
            FormatError::DepthJump => "MetaFormat: every element need a parent element"@,
        }
    }

    /// What went wrong, in words.
    pub fn message(&self) -> (r: String)
        ensures
            r@ == self.message_text(),
    {
        match self {
            FormatError::KeyHasSeparator => String::from_str(
                "MetaFormat: key contains the separator",
            ),
            FormatError::ValueHasNewline => String::from_str(
                "MetaFormat: value contains a line break",
            ),
            FormatError::MissingSeparator => String::from_str("MetaFormat: invalid line"),
            FormatError::InvalidUtf8 => String::from_str("MetaFormat: cannot read line"),
            FormatError::DepthJump => String::from_str(
                "MetaFormat: every element need a parent element",
            ),
        }
    }
}

impl VerifyError {
    /// What went wrong, in words.
    pub open spec fn message_text(self) -> Seq<char> {
        match self {
            VerifyError::MissingEndMarker => "cannot read __end marker"@,
            VerifyError::InvalidHash(e) => "cannot read hashsum"@,
            VerifyError::HashsumMismatch => "hashsum mismatch"@,
        }
    }

    /// What went wrong, in words.
    pub fn message(&self) -> (r: String)
        ensures
            r@ == self.message_text(),
    {
        match self {
            VerifyError::MissingEndMarker => String::from_str("cannot read __end marker"),
            VerifyError::InvalidHash(_) => String::from_str("cannot read hashsum"),
            VerifyError::HashsumMismatch => String::from_str("hashsum mismatch"),
        }
    }
}

} // verus!
