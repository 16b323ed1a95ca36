//! The settings of an archive and the codec of its blobs.

use crate::checksum::{
    digest_len, digest_of, new_hasher, DigestImpl, HashAlgo, HashResult, Hasher,
};
use vstd::prelude::*;
use vstd::slice::slice_to_vec;
use vstd::string::StringExecFns;

verus! {

/// How blobs are stored.
#[derive(Clone, Copy, Debug, PartialEq, Eq, Structural)]
pub enum ContentCompression {
    /// As they are.
    Plain,
    /// As a bzip2 stream of the given level.
    Bzip2 { level: u32 },
}

/// What an archive is created with and keeps for its lifetime.
#[derive(Clone, Copy, Debug, PartialEq, Eq, Structural)]
pub struct ContentSettings {
    pub compression: ContentCompression,
    pub hash_algo: HashAlgo,
}

/// Why content could not be encoded or decoded.
#[derive(Clone, Copy, Debug, PartialEq, Eq, Structural)]
pub enum CodecError {
    /// The bzip2 level is not one of 1 to 9.
    InvalidLevel,
    /// The blob is not a complete bzip2 stream.
    CorruptData,
}

/// The bzip2 stream that the `bzip2` crate makes of `data` at `level`.
pub uninterp spec fn bzip2_compressed(data: Seq<u8>, level: u32) -> Seq<u8>;

/// What the `bzip2` crate reads out of the stream `data`; `None` where it
/// reports an error.
pub uninterp spec fn bzip2_decompressed(data: Seq<u8>) -> Option<Seq<u8>>;

/// `bzip2::read::BzEncoder` over `data`, read to its end: the whole stream.
/// Reading reports no error, since the data lies in memory and the encoder
/// reports none of its own. The stream is one that the decoder of the same
/// crate reads back as `data`.
#[verifier::external_body]
fn bzip2_compress(data: &[u8], level: u32) -> (out: Vec<u8>)
    requires
        1 <= level <= 9,
    ensures
        out@ == bzip2_compressed(data@, level),
        bzip2_decompressed(out@) == Some(data@),
{
    let mut out = Vec::new();
    let mut encoder = bzip2::read::BzEncoder::new(data, bzip2::Compression::new(level));
    let _ = std::io::Read::read_to_end(&mut encoder, &mut out);
    out
}

/// `bzip2::read::BzDecoder` over `data`, read to its end: the content of the
/// stream, or `None` if reading reported an error.
#[verifier::external_body]
fn bzip2_decompress(data: &[u8]) -> (r: Option<Vec<u8>>)
    ensures
        match r {
            Some(out) => bzip2_decompressed(data@) == Some(out@),
            None => bzip2_decompressed(data@) is None,
        },
{
    let mut out = Vec::new();
    let mut decoder = bzip2::read::BzDecoder::new(data);
    match std::io::Read::read_to_end(&mut decoder, &mut out) {
        Ok(_) => Some(out),
        Err(_) => None,
    }
}

/// Whether `level` is one that bzip2 has.
pub open spec fn valid_level(level: u32) -> bool {
    1 <= level <= 9
}

/// The blob that content is stored as, or why it cannot be stored.
pub open spec fn compressed(compression: ContentCompression, content: Seq<u8>) -> Result<
    Seq<u8>,
    CodecError,
> {
    match compression {
        ContentCompression::Plain => Ok(content),
        ContentCompression::Bzip2 { level } => if valid_level(level) {
            Ok(bzip2_compressed(content, level))
        } else {
            Err(CodecError::InvalidLevel)
        },
    }
}

/// The blob for the content `src`: one that reads back as `src`.
pub fn compress_copy(src: &[u8], compression: &ContentCompression) -> (r: Result<
    Vec<u8>,
    CodecError,
>)
    ensures
        match r {
            Ok(blob) => {
                &&& compressed(*compression, src@) == Ok::<Seq<u8>, CodecError>(blob@)
                &&& decompressed(*compression, blob@) == Ok::<Seq<u8>, CodecError>(src@)
            },
            Err(e) => compressed(*compression, src@) == Err::<Seq<u8>, CodecError>(e),
        },
{
    match compression {
        ContentCompression::Plain => Ok(slice_to_vec(src)),
        ContentCompression::Bzip2 { level } => {
            if *level < 1 || *level > 9 {
                return Err(CodecError::InvalidLevel);
            }
            Ok(bzip2_compress(src, *level))
        },
    }
}

/// The content that a blob stands for.
pub open spec fn decompressed(compression: ContentCompression, blob: Seq<u8>) -> Result<
    Seq<u8>,
    CodecError,
> {
    match compression {
        ContentCompression::Plain => Ok(blob),
        ContentCompression::Bzip2 { level } => match bzip2_decompressed(blob) {
            Some(content) => Ok(content),
            None => Err(CodecError::CorruptData),
        },
    }
}

/// Stored as it is, content is its own blob and comes back as it was.
pub proof fn lemma_plain_round_trip(content: Seq<u8>)
    ensures
        compressed(ContentCompression::Plain, content) == Ok::<Seq<u8>, CodecError>(content),
        decompressed(ContentCompression::Plain, content) == Ok::<Seq<u8>, CodecError>(content),
{
}

/// The content of the blob `src`.
pub fn decompress_copy(src: &[u8], compression: &ContentCompression) -> (r: Result<
    Vec<u8>,
    CodecError,
>)
    ensures
        match r {
            Ok(content) => decompressed(*compression, src@) == Ok::<Seq<u8>, CodecError>(
                content@,
            ),
            Err(e) => decompressed(*compression, src@) == Err::<Seq<u8>, CodecError>(e),
        },
{
    match compression {
        ContentCompression::Plain => Ok(slice_to_vec(src)),
        ContentCompression::Bzip2 { level: _ } => match bzip2_decompress(src) {
            Some(content) => Ok(content),
            None => Err(CodecError::CorruptData),
        },
    }
}

/// Collects the content of one blob and counts its bytes.
pub struct ContentWriter {
    compression: ContentCompression,
    pending: Vec<u8>,
}

impl ContentWriter {
    /// The content written so far.
    pub closed spec fn content(&self) -> Seq<u8> {
        self.pending@
    }

    /// The compression the blob is made with.
    pub closed spec fn compression(&self) -> ContentCompression {
        self.compression
    }

    /// A writer for one blob of an archive with `settings`.
    pub fn new(settings: &ContentSettings) -> (r: ContentWriter)
        ensures
            r.content() == Seq::<u8>::empty(),
            r.compression() == settings.compression,
    {
        ContentWriter { compression: settings.compression, pending: Vec::new() }
    }

    /// The number of content bytes written so far.
    pub fn bytes_written(&self) -> (r: u64)
        ensures
            r == self.content().len(),
    {
        self.pending.len() as u64
    }

    /// Appends `buf` to the content and tells how many bytes were taken: all.
    pub fn write(&mut self, buf: &[u8]) -> (r: usize)
        ensures
            final(self).compression() == old(self).compression(),
            final(self).content() == old(self).content() + buf@,
            r == buf@.len(),
    {
        self.pending.extend_from_slice(buf);
        buf.len()
    }

    /// The blob for all that was written.
    pub fn finish(self) -> (r: Result<Vec<u8>, CodecError>)
        ensures
            match r {
                Ok(blob) => {
                    &&& compressed(self.compression(), self.content()) == Ok::<
                        Seq<u8>,
                        CodecError,
                    >(blob@)
                    &&& decompressed(self.compression(), blob@) == Ok::<Seq<u8>, CodecError>(
                        self.content(),
                    )
                },
                Err(e) => compressed(self.compression(), self.content()) == Err::<
                    Seq<u8>,
                    CodecError,
                >(e),
            },
    {
        compress_copy(self.pending.as_slice(), &self.compression)
    }
}

impl CodecError {
    /// What went wrong, in words.
    pub open spec fn message_text(self) -> Seq<char> {
        match self {
            CodecError::InvalidLevel => "expected a compression level in the range 1..=9"@,
            CodecError::CorruptData => "cannot read compressed content"@,
        }
    }

    /// What went wrong, in words.
    pub fn message(&self) -> (r: String)
        ensures
            r@ == self.message_text(),
    {
        match self {
            CodecError::InvalidLevel => String::from_str(
                "expected a compression level in the range 1..=9",
            ),
            CodecError::CorruptData => String::from_str("cannot read compressed content"),
        }
    }
}

/// Hands out the content of one blob piece by piece, and can hash what it
/// hands out.
pub struct ContentReader {
    content: Vec<u8>,
    pos: usize,
    digest: Option<DigestImpl>,
}

impl ContentReader {
    /// The position is inside the content, and the hasher has taken in what
    /// was handed out.
    pub closed spec fn well_formed(&self) -> bool {
        &&& self.pos <= self.content@.len()
        &&& self.digest matches Some(d) ==> d.absorbed() == self.content@.take(self.pos as int)
    }

    /// The whole content of the blob.
    pub closed spec fn content(&self) -> Seq<u8> {
        self.content@
    }

    /// How much of the content was handed out.
    pub closed spec fn position(&self) -> nat {
        self.pos as nat
    }

    /// The algorithm that what is handed out is hashed with, if any.
    pub closed spec fn hashes_with(&self) -> Option<HashAlgo> {
        match self.digest {
            Some(d) => Some(d.algo()),
            None => None,
        }
    }

    /// A reader of the blob `blob` of an archive with `settings`, which
    /// hashes what it hands out if `with_hash` is set.
    pub fn new(blob: &[u8], settings: &ContentSettings, with_hash: bool) -> (r: Result<
        ContentReader,
        CodecError,
    >)
        ensures
            match r {
                Ok(reader) => {
                    &&& reader.well_formed()
                    &&& decompressed(settings.compression, blob@) == Ok::<Seq<u8>, CodecError>(
                        reader.content(),
                    )
                    &&& reader.position() == 0
                    &&& reader.hashes_with() == (if with_hash {
                        Some(settings.hash_algo)
                    } else {
                        None
                    })
                },
                Err(e) => decompressed(settings.compression, blob@) == Err::<Seq<u8>, CodecError>(
                    e,
                ),
            },
    {
        let content = match decompress_copy(blob, &settings.compression) {
            Ok(content) => content,
            Err(e) => {
                return Err(e);
            },
        };
        let digest = if with_hash {
            Some(new_hasher(settings.hash_algo))
        } else {
            None
        };
        proof {
            assert(content@.take(0) =~= Seq::<u8>::empty());
        }
        Ok(ContentReader { content, pos: 0, digest })
    }

    /// The next piece of the content, of at most `max` bytes; empty at the
    /// end.
    pub fn read(&mut self, max: usize) -> (r: Vec<u8>)
        requires
            old(self).well_formed(),
        ensures
            final(self).well_formed(),
            final(self).content() == old(self).content(),
            final(self).hashes_with() == old(self).hashes_with(),
            final(self).position() == old(self).position() + r@.len(),
            r@ == old(self).content().subrange(
                old(self).position() as int,
                final(self).position() as int,
            ),
            r@.len() == (if old(self).content().len() - old(self).position() < max {
                old(self).content().len() - old(self).position()
            } else {
                max as int
            }),
    {
        let left = self.content.len() - self.pos;
        let count: usize = if left < max {
            left
        } else {
            max
        };
        let piece = vstd::slice::slice_subrange(self.content.as_slice(), self.pos, self.pos + count);
        let ghost start = self.pos as int;
        match &mut self.digest {
            Some(digest) => {
                digest.update(piece);
            },
            None => {},
        }
        self.pos = self.pos + count;
        proof {
            assert(self.content@.take(start) + piece@ =~= self.content@.take(self.pos as int));
        }
        slice_to_vec(piece)
    }

    /// The hash of what was handed out so far, if the reader hashes; the
    /// reader ends here.
    pub fn hash(self) -> (r: Option<HashResult>)
        requires
            self.well_formed(),
        ensures
            match r {
                Some(h) => {
                    &&& self.hashes_with() is Some
                    &&& h@ == digest_of(
                        self.hashes_with()->0,
                        self.content().take(self.position() as int),
                    )
                    &&& h@.len() == digest_len(self.hashes_with()->0)
                },
                None => self.hashes_with() is None,
            },
    {
        let mut reader = self;
        match &mut reader.digest {
            Some(digest) => Some(digest.finalize()),
            None => None,
        }
    }
}

} // verus!
