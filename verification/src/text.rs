//! Scanning and comparing byte strings, and the bridge between bytes and
//! `String`.

use vstd::prelude::*;
use vstd::slice::{slice_subrange, slice_to_vec};
use vstd::string::StringSliceAdditionalSpecFns;
use vstd::utf8::{encode_utf8, valid_utf8};

verus! {

/// The first position at or after `from` where `s` does not hold `b`; the
/// length of `s` if it holds `b` to the end.
pub open spec fn skip_byte(s: Seq<u8>, from: int, b: u8) -> int
    decreases s.len() - from,
{
    if 0 <= from < s.len() && s[from] == b {
        skip_byte(s, from + 1, b)
    } else {
        from
    }
}

/// The first position at or after `from` where `s` holds `b`; the length of
/// `s` if there is none.
pub open spec fn find_byte(s: Seq<u8>, from: int, b: u8) -> int
    decreases s.len() - from,
{
    if 0 <= from < s.len() && s[from] != b {
        find_byte(s, from + 1, b)
    } else {
        from
    }
}

/// Whether `s` holds `prefix` from position `at` on.
pub open spec fn has_prefix_at(s: Seq<u8>, at: int, prefix: Seq<u8>) -> bool {
    &&& 0 <= at
    &&& at + prefix.len() <= s.len()
    &&& s.subrange(at, at + prefix.len()) == prefix
}

/// Strict lexicographic order on byte strings.
pub open spec fn lex_less(a: Seq<u8>, b: Seq<u8>) -> bool
    decreases a.len(),
{
    if b.len() == 0 {
        false
    } else if a.len() == 0 {
        true
    } else if a[0] != b[0] {
        a[0] < b[0]
    } else {
        lex_less(a.drop_first(), b.drop_first())
    }
}

/// `find_byte` stays inside the sequence, passes over nothing that is `b`,
/// and stops at `b` unless at the end.
pub proof fn lemma_find_byte_bounds(s: Seq<u8>, from: int, b: u8)
    requires
        0 <= from <= s.len(),
    ensures
        from <= find_byte(s, from, b) <= s.len(),
        forall|i: int| from <= i < find_byte(s, from, b) ==> s[i] != b,
        find_byte(s, from, b) < s.len() ==> s[find_byte(s, from, b)] == b,
    decreases s.len() - from,
{
    if from < s.len() && s[from] != b {
        lemma_find_byte_bounds(s, from + 1, b);
    }
}

/// Lexicographic order is strict and transitive: nothing comes before
/// itself, and what comes after the greater of two comes after the lesser.
pub proof fn lemma_lex_less_order(a: Seq<u8>, b: Seq<u8>, c: Seq<u8>)
    ensures
        !lex_less(a, a),
        lex_less(a, b) ==> !lex_less(b, a),
        lex_less(a, b) && lex_less(b, c) ==> lex_less(a, c),
        lex_less(a, b) && !lex_less(a, c) ==> !lex_less(b, c),
    decreases a.len(),
{
    if a.len() > 0 && b.len() > 0 && c.len() > 0 {
        lemma_lex_less_order(a.drop_first(), b.drop_first(), c.drop_first());
    } else if a.len() > 0 && b.len() > 0 {
        lemma_lex_less_order(a.drop_first(), b.drop_first(), c);
    } else if a.len() > 0 {
        lemma_lex_less_order(a.drop_first(), b, c);
    }
}

/// Of two different byte strings one comes before the other.
pub proof fn lemma_lex_less_total(a: Seq<u8>, b: Seq<u8>)
    ensures
        a == b || lex_less(a, b) || lex_less(b, a),
    decreases a.len(),
{
    if a.len() > 0 && b.len() > 0 {
        lemma_lex_less_total(a.drop_first(), b.drop_first());
        if a[0] == b[0] && a.drop_first() == b.drop_first() {
            assert(a =~= seq![a[0]] + a.drop_first());
            assert(b =~= seq![b[0]] + b.drop_first());
        }
    } else if a.len() == 0 && b.len() == 0 {
        assert(a =~= b);
    }
}

/// `skip_byte` is the position that ends the run of `b` from `from`.
pub proof fn lemma_skip_byte_is(s: Seq<u8>, from: int, b: u8, at: int)
    requires
        0 <= from <= at <= s.len(),
        forall|i: int| from <= i < at ==> s[i] == b,
        at < s.len() ==> s[at] != b,
    ensures
        skip_byte(s, from, b) == at,
    decreases at - from,
{
    if from < at {
        lemma_skip_byte_is(s, from + 1, b, at);
    }
}

/// `find_byte` is the first position from `from` that holds `b`.
pub proof fn lemma_find_byte_is(s: Seq<u8>, from: int, b: u8, at: int)
    requires
        0 <= from <= at <= s.len(),
        forall|i: int| from <= i < at ==> s[i] != b,
        at < s.len() ==> s[at] == b,
    ensures
        find_byte(s, from, b) == at,
    decreases at - from,
{
    if from < at {
        lemma_find_byte_is(s, from + 1, b, at);
    }
}

/// First position at or after `from` that does not hold `b`.
pub fn skip_while_byte(s: &[u8], from: usize, b: u8) -> (r: usize)
    requires
        from <= s@.len(),
    ensures
        r == skip_byte(s@, from as int, b),
        from <= r <= s@.len(),
{
    let mut i: usize = from;
    while i < s.len() && s[i] == b
        invariant
            from <= i <= s@.len(),
            skip_byte(s@, from as int, b) == skip_byte(s@, i as int, b),
        decreases s@.len() - i,
    {
        i += 1;
    }
    i
}

/// First position at or after `from` that holds `b`.
pub fn find_first_byte(s: &[u8], from: usize, b: u8) -> (r: usize)
    requires
        from <= s@.len(),
    ensures
        r == find_byte(s@, from as int, b),
        from <= r <= s@.len(),
{
    let mut i: usize = from;
    while i < s.len() && s[i] != b
        invariant
            from <= i <= s@.len(),
            find_byte(s@, from as int, b) == find_byte(s@, i as int, b),
        decreases s@.len() - i,
    {
        i += 1;
    }
    i
}

/// Whether `s` holds `prefix` from position `at` on.
pub fn starts_with_at(s: &[u8], at: usize, prefix: &[u8]) -> (r: bool)
    ensures
        r == has_prefix_at(s@, at as int, prefix@),
{
    if at > s.len() || prefix.len() > s.len() - at {
        return false;
    }
    let mut i: usize = 0;
    while i < prefix.len()
        invariant
            at + prefix@.len() <= s@.len(),
            s@.len() <= usize::MAX,
            i <= prefix@.len(),
            forall|k: int| 0 <= k < i ==> s@[at + k] == prefix@[k],
        decreases prefix@.len() - i,
    {
        if s[at + i] != prefix[i] {
            proof {
                assert(s@.subrange(at as int, at + prefix@.len())[i as int] != prefix@[i as int]);
            }
            return false;
        }
        i += 1;
    }
    assert(s@.subrange(at as int, at + prefix@.len()) =~= prefix@);
    true
}

/// Whether two byte strings are equal.
pub fn bytes_eq(a: &[u8], b: &[u8]) -> (r: bool)
    ensures
        r == (a@ == b@),
{
    if a.len() != b.len() {
        return false;
    }
    let r = starts_with_at(a, 0, b);
    proof {
        assert(a@.subrange(0, a@.len() as int) =~= a@);
    }
    r
}

/// Whether `a` comes strictly before `b` in lexicographic order.
pub fn bytes_less(a: &[u8], b: &[u8]) -> (r: bool)
    ensures
        r == lex_less(a@, b@),
{
    let mut i: usize = 0;
    proof {
        assert(a@.skip(0) =~= a@);
        assert(b@.skip(0) =~= b@);
    }
    while i < a.len() && i < b.len() && a[i] == b[i]
        invariant
            i <= a@.len(),
            i <= b@.len(),
            lex_less(a@, b@) == lex_less(a@.skip(i as int), b@.skip(i as int)),
        decreases a@.len() - i,
    {
        proof {
            let x = a@.skip(i as int);
            let y = b@.skip(i as int);
            assert(x.drop_first() =~= a@.skip(i + 1));
            assert(y.drop_first() =~= b@.skip(i + 1));
        }
        i += 1;
    }
    if i >= b.len() {
        false
    } else if i >= a.len() {
        true
    } else {
        a[i] < b[i]
    }
}

/// `String::from_utf8`: the text whose UTF-8 encoding is `bytes`, if `bytes`
/// is valid UTF-8.
#[verifier::external_body]
pub(crate) fn string_from_utf8(bytes: Vec<u8>) -> (r: Option<String>)
    ensures
        match r {
            Some(s) => valid_utf8(bytes@) && encode_utf8(s@) == bytes@,
            None => !valid_utf8(bytes@),
        },
{
    String::from_utf8(bytes).ok()
}

/// Text is determined by its UTF-8 encoding.
pub proof fn lemma_encode_utf8_injective(a: Seq<char>, b: Seq<char>)
    requires
        encode_utf8(a) == encode_utf8(b),
    ensures
        a == b,
{
    vstd::utf8::encode_utf8_decode_utf8(a);
    vstd::utf8::encode_utf8_decode_utf8(b);
}

/// Whether two strings hold the same text.
pub fn str_eq(a: &str, b: &str) -> (r: bool)
    ensures
        r == (a@ == b@),
{
    let r = bytes_eq(a.as_bytes(), b.as_bytes());
    proof {
        if r {
            lemma_encode_utf8_injective(a@, b@);
        }
    }
    r
}

/// The part of `s` from `from` up to `to` as text, if it is valid UTF-8.
pub fn text_of(s: &[u8], from: usize, to: usize) -> (r: Option<String>)
    requires
        from <= to <= s@.len(),
    ensures
        match r {
            Some(t) => valid_utf8(s@.subrange(from as int, to as int)) && encode_utf8(t@)
                == s@.subrange(from as int, to as int),
            None => !valid_utf8(s@.subrange(from as int, to as int)),
        },
{
    string_from_utf8(slice_to_vec(slice_subrange(s, from, to)))
}

/// `String::push`: appends one character.
#[verifier::external_body]
pub(crate) fn string_push(s: &mut String, c: char)
    ensures
        final(s)@ == old(s)@.push(c),
{
    s.push(c);
}

/// The character of a digit below 16: `0` to `9`, then `a` to `f`.
pub open spec fn digit_char(d: int) -> char {
    if d < 10 {
        (48 + d) as u8 as char
    } else {
        (87 + d) as u8 as char
    }
}

/// The last `width` digits of `value` in base `base`, most significant first.
pub open spec fn digits(value: nat, base: nat, width: nat) -> Seq<char>
    decreases width,
{
    if width == 0 {
        Seq::empty()
    } else {
        digits(value / base, base, (width - 1) as nat).push(digit_char((value % base) as int))
    }
}

/// Appends the last `width` digits of `value` in base `base`.
pub fn push_digits(s: &mut String, value: u64, base: u64, width: usize)
    requires
        2 <= base <= 16,
    ensures
        final(s)@ == old(s)@ + digits(value as nat, base as nat, width as nat),
    decreases width,
{
    if width > 0 {
        push_digits(s, value / base, base, width - 1);
        let d: u64 = value % base;
        let code: u8 = if d < 10 {
            48u8 + d as u8
        } else {
            87u8 + d as u8
        };
        string_push(s, code as char);
        assert(s@ =~= old(s)@ + digits(value as nat, base as nat, width as nat));
    } else {
        assert(s@ =~= old(s)@ + digits(value as nat, base as nat, width as nat));
    }
}

/// The characters of `s`.
pub fn str_chars(s: &str) -> (r: Vec<char>)
    ensures
        r@ == s@,
{
    let mut out: Vec<char> = Vec::new();
    for c in it: s.chars()
        invariant
            it.seq() == s@,
            out@ == s@.take(it.index() as int),
    {
        out.push(c);
        assert(out@ =~= s@.take(it.index() + 1));
    }
    assert(out@ =~= s@);
    out
}

/// The text made of the characters of `chars` from `from` up to `to`.
pub fn string_of(chars: &[char], from: usize, to: usize) -> (r: String)
    requires
        from <= to <= chars@.len(),
    ensures
        r@ == chars@.subrange(from as int, to as int),
{
    let mut out = String::new();
    let mut i: usize = from;
    while i < to
        invariant
            from <= i <= to <= chars@.len(),
            out@ == chars@.subrange(from as int, i as int),
        decreases to - i,
    {
        string_push(&mut out, chars[i]);
        i += 1;
        assert(out@ =~= chars@.subrange(from as int, i as int));
    }
    out
}

} // verus!
