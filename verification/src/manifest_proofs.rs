//! What holds of every manifest that the writer can produce: it passes the
//! integrity check, it reads back as the records it was written from, and a
//! changed body is told from the unchanged one by its hash.

use crate::checksum::{digest_of, lemma_hex_text, hex_text, parse_hex, HashAlgo, HexError};
use crate::meta_format::{
    end_marker, entries_from, entry_line, find_trailer, is_trailer_at, line_end, parse_line,
    parse_manifest, step_at, trailer_for, trailer_text, trailer_verdict, verify_spec,
    Parsed, RawEntry, Step, VerifyError, NEWLINE, SEPARATOR, TAB,
};
use crate::text::{find_byte, has_prefix_at, lemma_find_byte_is, lemma_skip_byte_is};
use vstd::prelude::*;
use vstd::utf8::valid_utf8;

verus! {

/// The key `__end`, which at depth 0 would open a trailer line.
pub open spec fn end_key() -> Seq<u8> {
    seq![95u8, 95u8, 101u8, 110u8, 100u8]
}

/// A record whose line reads back as itself: no separator or line break in
/// the key, no line break in the value, a key that does not begin with a tab,
/// and not the key `__end` at depth 0.
pub open spec fn writable(e: RawEntry) -> bool {
    &&& !e.key.contains(SEPARATOR)
    &&& !e.key.contains(NEWLINE)
    &&& !e.value.contains(NEWLINE)
    &&& (e.key.len() > 0 ==> e.key[0] != TAB)
    &&& !(e.depth == 0 && e.key == end_key())
}

/// Whether every record is writable.
pub open spec fn all_writable(entries: Seq<RawEntry>) -> bool {
    forall|i: int| 0 <= i < entries.len() ==> writable(#[trigger] entries[i])
}

/// Whether the key and the value of every record are valid UTF-8.
pub open spec fn all_text(entries: Seq<RawEntry>) -> bool {
    forall|i: int|
        0 <= i < entries.len() ==> valid_utf8((#[trigger] entries[i]).key) && valid_utf8(
            entries[i].value,
        )
}

/// Each record lies at most one level from the one before it; the first at
/// most one level from `depth`.
pub open spec fn depth_chain(depth: nat, entries: Seq<RawEntry>) -> bool
    decreases entries.len(),
{
    entries.len() == 0 || (entries[0].depth <= depth + 1 && depth <= entries[0].depth + 1
        && depth_chain(entries[0].depth, entries.drop_first()))
}

/// The line of one record.
pub open spec fn line_of(e: RawEntry) -> Seq<u8> {
    entry_line(e.depth, e.key, e.value)
}

/// The lines of `entries`, one after the other.
pub open spec fn manifest_body(entries: Seq<RawEntry>) -> Seq<u8>
    decreases entries.len(),
{
    if entries.len() == 0 {
        Seq::empty()
    } else {
        line_of(entries[0]) + manifest_body(entries.drop_first())
    }
}

/// The line of a writable record parses as that record.
#[verifier::rlimit(40)]
pub proof fn lemma_line_parses(e: RawEntry)
    requires
        writable(e),
    ensures
        parse_line(line_of(e)) == Some(e),
{
    let line = line_of(e);
    let d = e.depth as int;
    let colon = d + e.key.len();
    assert(line.len() == d + e.key.len() + 1 + e.value.len() + 1);
    assert forall|i: int| 0 <= i < d implies line[i] == TAB by {}
    assert(line[colon] == SEPARATOR);
    assert(line[d] != TAB) by {
        if e.key.len() > 0 {
            assert(line[d] == e.key[0]);
        }
    }
    lemma_skip_byte_is(line, 0, TAB, d);
    assert forall|i: int| d <= i < colon implies line[i] != SEPARATOR by {
        assert(line[i] == e.key[i - d]);
    }
    lemma_find_byte_is(line, d, SEPARATOR, colon);
    assert(line[line.len() - 1] == NEWLINE);
    assert(line.subrange(d, colon) =~= e.key);
    assert(line.subrange(colon + 1, line.len() - 1) =~= e.value);
}

/// Where the line of a writable record stands in a manifest, the reader and
/// the integrity check see exactly that line, and no trailer.
#[verifier::rlimit(40)]
pub proof fn lemma_line_in_data(prefix: Seq<u8>, e: RawEntry, suffix: Seq<u8>)
    requires
        writable(e),
    ensures
        line_end(prefix + line_of(e) + suffix, prefix.len() as int) == prefix.len() + line_of(
            e,
        ).len(),
        (prefix + line_of(e) + suffix).subrange(
            prefix.len() as int,
            (prefix.len() + line_of(e).len()) as int,
        ) == line_of(e),
        !is_trailer_at(prefix + line_of(e) + suffix, prefix.len() as int),
        line_of(e).len() > 0,
{
    let line = line_of(e);
    let data = prefix + line + suffix;
    let pos = prefix.len() as int;
    let d = e.depth as int;
    let colon = d + e.key.len();
    let last = line.len() - 1;
    assert(line.len() == d + e.key.len() + 1 + e.value.len() + 1);
    assert forall|i: int| pos <= i < pos + last implies data[i] != NEWLINE by {
        let k = i - pos;
        assert(data[i] == line[k]);
        if k < d {
        } else if k < colon {
            assert(line[k] == e.key[k - d]);
        } else if k == colon {
        } else {
            assert(line[k] == e.value[k - colon - 1]);
        }
    }
    assert(data[pos + last] == line[last]);
    lemma_find_byte_is(data, pos, NEWLINE, pos + last);
    assert(data.subrange(pos, pos + line.len()) =~= line);
    if is_trailer_at(data, pos) {
        let marker = end_marker();
        let window = data.subrange(pos, pos + 6);
        assert(window == marker);
        if d > 0 {
            assert(window[0] == data[pos]);
            assert(data[pos] == line[0]);
        } else if e.key.len() >= 6 {
            assert(window[5] == data[pos + 5]);
            assert(data[pos + 5] == line[5]);
            assert(line[5] == e.key[5]);
        } else if e.key.len() == 5 {
            assert forall|k: int| 0 <= k < 5 implies e.key[k] == end_key()[k] by {
                assert(window[k] == data[pos + k]);
                assert(data[pos + k] == line[k]);
                assert(line[k] == e.key[k]);
            }
            assert(e.key =~= end_key());
        } else {
            let k = e.key.len() as int;
            assert(window[k] == data[pos + k]);
            assert(data[pos + k] == line[k]);
        }
    }
}

/// The integrity check finds the trailer right after the lines of writable
/// records.
#[verifier::rlimit(40)]
pub proof fn lemma_find_trailer(prefix: Seq<u8>, entries: Seq<RawEntry>, suffix: Seq<u8>)
    requires
        all_writable(entries),
        has_prefix_at(suffix, 0, end_marker()),
    ensures
        find_trailer(prefix + manifest_body(entries) + suffix, prefix.len() as int) == Some(
            (prefix.len() + manifest_body(entries).len()) as int,
        ),
    decreases entries.len(),
{
    let body = manifest_body(entries);
    let data = prefix + body + suffix;
    let pos = prefix.len() as int;
    if entries.len() == 0 {
        assert(data.subrange(pos, pos + 6) =~= suffix.subrange(0, 6));
    } else {
        let e = entries[0];
        let rest = entries.drop_first();
        let line = line_of(e);
        let tail = manifest_body(rest) + suffix;
        assert(data =~= prefix + line + tail);
        lemma_line_in_data(prefix, e, tail);
        assert(all_writable(rest)) by {
            assert forall|i: int| 0 <= i < rest.len() implies writable(#[trigger] rest[i]) by {
                assert(rest[i] == entries[i + 1]);
            }
        }
        lemma_find_trailer(prefix + line, rest, suffix);
        assert(data =~= (prefix + line) + manifest_body(rest) + suffix);
    }
}

/// A manifest of at least one writable record, closed by its trailer, passes
/// the integrity check.
pub proof fn lemma_written_manifest_verifies(entries: Seq<RawEntry>, algo: HashAlgo)
    requires
        entries.len() > 0,
        all_writable(entries),
    ensures
        verify_spec(
            manifest_body(entries) + trailer_for(algo, manifest_body(entries)),
            algo,
        ) == Ok::<(), VerifyError>(()),
{
    let body = manifest_body(entries);
    let trailer = trailer_for(algo, body);
    let data = body + trailer;
    let digest = digest_of(algo, body);
    let at = body.len() as int;
    lemma_line_in_data(Seq::empty(), entries[0], Seq::empty());
    assert(body.len() > 0);
    assert(trailer.subrange(0, 6) =~= end_marker());
    lemma_find_trailer(Seq::empty(), entries, trailer);
    assert(Seq::<u8>::empty() + body + trailer =~= data);
    assert(find_trailer(data, 0) == Some(at));
    assert(data.take(at) =~= body);
    lemma_trailer_text(body, body, algo);
}

/// The text of a trailer line that stands at the end of a manifest is the
/// hex text of the hash it was made for.
#[verifier::rlimit(40)]
pub proof fn lemma_trailer_text(prefix: Seq<u8>, body: Seq<u8>, algo: HashAlgo)
    requires
        body.len() > 0,
    ensures
        trailer_text(prefix + trailer_for(algo, body), prefix.len() as int) == hex_text(
            digest_of(algo, body),
        ),
        trailer_verdict(hex_text(digest_of(algo, body)), digest_of(algo, body)) == Ok::<
            (),
            VerifyError,
        >(()),
        forall|other: Seq<u8>|
            other != digest_of(algo, body) ==> #[trigger] trailer_verdict(
                hex_text(digest_of(algo, body)),
                other,
            ) == Err::<(), VerifyError>(VerifyError::HashsumMismatch),
{
    let digest = digest_of(algo, body);
    let text = hex_text(digest);
    assert(parse_hex(text) == Ok::<Seq<u8>, HexError>(digest) && !text.contains(NEWLINE)) by {
        lemma_hex_text(digest);
    }
    lemma_text_before_newline(prefix + end_marker(), text, Seq::empty());
    assert(prefix + trailer_for(algo, body) =~= prefix + end_marker() + text + seq![NEWLINE]
        + Seq::<u8>::empty());
}

/// Text without a line break that is followed by one is found as the text
/// up to the next line break.
proof fn lemma_text_before_newline(prefix: Seq<u8>, text: Seq<u8>, suffix: Seq<u8>)
    requires
        !text.contains(NEWLINE),
    ensures
        (prefix + text + seq![NEWLINE] + suffix).subrange(
            prefix.len() as int,
            find_byte(prefix + text + seq![NEWLINE] + suffix, prefix.len() as int, NEWLINE),
        ) == text,
{
    let data = prefix + text + seq![NEWLINE] + suffix;
    let from = prefix.len() as int;
    let at = from + text.len();
    assert forall|i: int| from <= i < at implies data[i] != NEWLINE by {
        assert(data[i] == text[i - from]);
        assert(text.contains(text[i - from]));
    }
    assert(data[at] == NEWLINE);
    lemma_find_byte_is(data, from, NEWLINE, at);
    assert(data.subrange(from, at) =~= text);
}

/// Once the trailer is found after a changed body of another hash, the
/// integrity check answers that the hashsum does not match.
pub proof fn lemma_changed_body_is_detected(body: Seq<u8>, changed: Seq<u8>, algo: HashAlgo)
    requires
        body.len() > 0,
        find_trailer(changed + trailer_for(algo, body), 0) == Some(changed.len() as int),
        digest_of(algo, changed) != digest_of(algo, body),
    ensures
        verify_spec(changed + trailer_for(algo, body), algo) == Err::<(), VerifyError>(
            VerifyError::HashsumMismatch,
        ),
{
    let data = changed + trailer_for(algo, body);
    lemma_trailer_text(changed, body, algo);
    assert(data.take(changed.len() as int) =~= changed);
}

/// The integrity check passes exactly where a trailer line is found and names
/// the hash of all bytes before it.
pub proof fn lemma_verify_passes_iff(data: Seq<u8>, algo: HashAlgo)
    ensures
        verify_spec(data, algo) is Ok <==> {
            &&& find_trailer(data, 0) is Some
            &&& parse_hex(trailer_text(data, find_trailer(data, 0)->0)) == Ok::<
                Seq<u8>,
                HexError,
            >(digest_of(algo, data.take(find_trailer(data, 0)->0)))
        },
{
}

/// The reader finds the writable records of a manifest, in order, up to the
/// trailer or the end of the data.
#[verifier::rlimit(40)]
pub proof fn lemma_entries_read(
    prefix: Seq<u8>,
    entries: Seq<RawEntry>,
    suffix: Seq<u8>,
    depth: nat,
)
    requires
        all_writable(entries),
        all_text(entries),
        depth_chain(depth, entries),
        suffix.len() == 0 || has_prefix_at(suffix, 0, end_marker()),
    ensures
        entries_from(prefix + manifest_body(entries) + suffix, prefix.len() as int, depth) == (
        Parsed { entries, error: None }),
    decreases entries.len(),
{
    let body = manifest_body(entries);
    let data = prefix + body + suffix;
    let pos = prefix.len() as int;
    if entries.len() == 0 {
        if suffix.len() > 0 {
            assert(data.subrange(pos, pos + 6) =~= suffix.subrange(0, 6));
        }
        assert(entries =~= Seq::<RawEntry>::empty());
    } else {
        let e = entries[0];
        let rest = entries.drop_first();
        let line = line_of(e);
        let tail = manifest_body(rest) + suffix;
        assert(data =~= prefix + line + tail);
        lemma_line_in_data(prefix, e, tail);
        lemma_line_parses(e);
        assert(all_writable(rest) && all_text(rest)) by {
            assert forall|i: int| 0 <= i < rest.len() implies writable(#[trigger] rest[i])
                && valid_utf8(rest[i].key) && valid_utf8(rest[i].value) by {
                assert(rest[i] == entries[i + 1]);
            }
        }
        lemma_entries_read(prefix + line, rest, suffix, e.depth);
        assert(data =~= (prefix + line) + manifest_body(rest) + suffix);
        assert(step_at(data, pos, depth) == Step::Entry(e));
        assert(seq![e] + rest =~= entries);
    }
}

/// A manifest of writable records, closed by its trailer, reads back as
/// those records.
pub proof fn lemma_written_manifest_reads_back(entries: Seq<RawEntry>, algo: HashAlgo)
    requires
        all_writable(entries),
        all_text(entries),
        depth_chain(0, entries),
    ensures
        parse_manifest(manifest_body(entries) + trailer_for(algo, manifest_body(entries))) == (
        Parsed { entries, error: None }),
{
    let body = manifest_body(entries);
    let trailer = trailer_for(algo, body);
    if trailer.len() > 0 {
        assert(trailer.subrange(0, 6) =~= end_marker());
    }
    lemma_entries_read(Seq::empty(), entries, trailer, 0);
    assert(Seq::<u8>::empty() + body + trailer =~= body + trailer);
}

} // verus!
