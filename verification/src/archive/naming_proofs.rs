//! Why the latest revision of a channel is the one with the greatest name: a
//! revision made at a later second has a name that comes later as a string.

use crate::archive::defs::{revision_name_text, Timestamp};
use crate::text::{digit_char, digits, lex_less};
use vstd::prelude::*;
use vstd::utf8::{encode_utf8, is_ascii_chars, is_ascii_chars_encode_utf8};

verus! {

/// Whether `a` is an earlier second than `b`.
pub open spec fn earlier(a: Timestamp, b: Timestamp) -> bool {
    exists|f: int| 0 <= f < 6 && #[trigger] differ_at(a, b, f)
}

/// Whether `a` and `b` agree in all fields before field `f` and `a` has the
/// lesser field `f`; the fields are counted from the year, which is field 0.
pub open spec fn differ_at(a: Timestamp, b: Timestamp, f: int) -> bool {
    &&& forall|i: int| 0 <= i < f ==> #[trigger] field(a, i) == field(b, i)
    &&& field(a, f) < field(b, f)
}

/// Field `i` of a moment: year, month, day, hour, minute, second.
pub open spec fn field(t: Timestamp, i: int) -> nat {
    if i == 0 {
        t.year as nat
    } else if i == 1 {
        t.month as nat
    } else if i == 2 {
        t.day as nat
    } else if i == 3 {
        t.hour as nat
    } else if i == 4 {
        t.minute as nat
    } else {
        t.second as nat
    }
}

/// Where field `i` starts in a revision name.
pub open spec fn offset(i: int) -> int {
    if i == 0 {
        0
    } else if i == 1 {
        4
    } else if i == 2 {
        6
    } else if i == 3 {
        9
    } else if i == 4 {
        11
    } else {
        14
    }
}

/// How many digits field `i` has in a revision name.
pub open spec fn width(i: int) -> nat {
    if i == 0 {
        4
    } else {
        2
    }
}

/// The number of values that `width` digits in base `base` can tell apart.
pub open spec fn capacity(base: nat, width: nat) -> nat
    decreases width,
{
    if width == 0 {
        1
    } else {
        base * capacity(base, (width - 1) as nat)
    }
}

/// `width` digits are `width` characters, all of them ASCII.
pub proof fn lemma_digits_shape(value: nat, base: nat, width: nat)
    requires
        2 <= base <= 16,
    ensures
        digits(value, base, width).len() == width,
        is_ascii_chars(digits(value, base, width)),
    decreases width,
{
    if width > 0 {
        lemma_digits_shape(value / base, base, (width - 1) as nat);
        let d = (value % base) as int;
        assert(0 <= d < 16) by (nonlinear_arith)
            requires
                d == (value % base) as int,
                2 <= base <= 16,
        ;
        let s = digits(value, base, width);
        let head = digits(value / base, base, (width - 1) as nat);
        assert(s == head.push(digit_char(d)));
        assert forall|i: int| 0 <= i < s.len() implies '\0' <= #[trigger] s[i] <= '\u{7f}' by {
            if i < head.len() {
                assert(s[i] == head[i]);
            }
        }
    }
}

/// Of two numbers that `width` digits can hold, the lesser has the lesser
/// digit at the first position where their digits differ.
pub proof fn lemma_digits_order(u: nat, v: nat, base: nat, width: nat) -> (k: int)
    requires
        2 <= base <= 16,
        u < v < capacity(base, width),
    ensures
        0 <= k < width,
        (digits(u, base, width)[k] as u8) < (digits(v, base, width)[k] as u8),
        forall|j: int| 0 <= j < k ==> digits(u, base, width)[j] == digits(v, base, width)[j],
    decreases width,
{
    if width == 0 {
        assert(capacity(base, width) == 1);
        0
    } else {
        let rest = (width - 1) as nat;
        let du = digits(u, base, width);
        let dv = digits(v, base, width);
        let hu = digits(u / base, base, rest);
        let hv = digits(v / base, base, rest);
        lemma_digits_shape(u / base, base, rest);
        lemma_digits_shape(v / base, base, rest);
        assert(du == hu.push(digit_char((u % base) as int)));
        assert(dv == hv.push(digit_char((v % base) as int)));
        let cap = capacity(base, rest);
        assert(u / base <= v / base && v / base < cap && u == base * (u / base) + u % base && v
            == base * (v / base) + v % base && 0 <= u % base < base && 0 <= v % base < base)
            by (nonlinear_arith)
            requires
                u < v,
                v < base * cap,
                2 <= base,
        ;
        if u / base < v / base {
            let k = lemma_digits_order(u / base, v / base, base, rest);
            assert(du[k] == hu[k] && dv[k] == hv[k]);
            assert forall|j: int| 0 <= j < k implies du[j] == dv[j] by {
                assert(du[j] == hu[j] && dv[j] == hv[j]);
            }
            k
        } else {
            assert(base * (u / base) == base * (v / base));
            assert(u % base < v % base);
            let k = rest as int;
            assert(du[k] == digit_char((u % base) as int));
            assert(dv[k] == digit_char((v % base) as int));
            assert forall|j: int| 0 <= j < k implies du[j] == dv[j] by {
                assert(du[j] == hu[j] && dv[j] == hv[j]);
            }
            k
        }
    }
}

/// A byte string comes before another if it has the lesser byte at the first
/// position where the two differ.
pub proof fn lemma_lex_less_at(a: Seq<u8>, b: Seq<u8>, k: int)
    requires
        0 <= k < a.len(),
        k < b.len(),
        forall|j: int| 0 <= j < k ==> a[j] == b[j],
        a[k] < b[k],
    ensures
        lex_less(a, b),
    decreases k,
{
    if k > 0 {
        assert(a[0] == b[0]);
        assert forall|j: int| 0 <= j < k - 1 implies a.drop_first()[j] == b.drop_first()[j] by {
            assert(a.drop_first()[j] == a[j + 1]);
            assert(b.drop_first()[j] == b[j + 1]);
        }
        lemma_lex_less_at(a.drop_first(), b.drop_first(), k - 1);
    }
}

/// A revision name has 33 characters, all of them ASCII: each field stands
/// at its offset with its width, the random number at the end, and one `_`
/// after the date, after the minute and after the second.
pub proof fn lemma_name_layout(t: Timestamp, random: u64)
    requires
        t.fits_name(),
    ensures
        revision_name_text(t, random).len() == 33,
        is_ascii_chars(revision_name_text(t, random)),
        forall|i: int, k: int|
            0 <= i < 6 && 0 <= k < width(i) ==> #[trigger] revision_name_text(t, random)[offset(i)
                + k] == digits(field(t, i), 10, width(i))[k],
        revision_name_text(t, random)[8] == '_',
        revision_name_text(t, random)[13] == '_',
        revision_name_text(t, random)[16] == '_',
{
    let name = revision_name_text(t, random);
    lemma_digits_shape(t.year as nat, 10, 4);
    lemma_digits_shape(t.month as nat, 10, 2);
    lemma_digits_shape(t.day as nat, 10, 2);
    lemma_digits_shape(t.hour as nat, 10, 2);
    lemma_digits_shape(t.minute as nat, 10, 2);
    lemma_digits_shape(t.second as nat, 10, 2);
    lemma_digits_shape(random as nat, 16, 16);
    let n1 = digits(t.year as nat, 10, 4);
    let n2 = n1 + digits(t.month as nat, 10, 2);
    let n3 = n2 + digits(t.day as nat, 10, 2);
    let n4 = n3 + seq!['_'];
    let n5 = n4 + digits(t.hour as nat, 10, 2);
    let n6 = n5 + digits(t.minute as nat, 10, 2);
    let n7 = n6 + seq!['_'];
    let n8 = n7 + digits(t.second as nat, 10, 2);
    let n9 = n8 + seq!['_'];
    assert(name == n9 + digits(random as nat, 16, 16));
    assert(n9.len() == 17);
    assert forall|j: int| 0 <= j < 17 implies name[j] == n9[j] by {}
    assert forall|j: int| 0 <= j < 16 implies n9[j] == n8[j] by {}
    assert forall|j: int| 0 <= j < 14 implies n8[j] == n7[j] by {}
    assert forall|j: int| 0 <= j < 13 implies n7[j] == n6[j] by {}
    assert forall|j: int| 0 <= j < 11 implies n6[j] == n5[j] by {}
    assert forall|j: int| 0 <= j < 9 implies n5[j] == n4[j] by {}
    assert forall|j: int| 0 <= j < 8 implies n4[j] == n3[j] by {}
    assert forall|j: int| 0 <= j < 6 implies n3[j] == n2[j] by {}
    assert forall|j: int| 0 <= j < 4 implies n2[j] == n1[j] by {}
    assert forall|i: int, k: int| 0 <= i < 6 && 0 <= k < width(i) implies #[trigger] name[offset(i)
        + k] == digits(field(t, i), 10, width(i))[k] by {
        let p = offset(i) + k;
        if i == 0 {
            assert(name[p] == n1[p]);
        } else if i == 1 {
            assert(name[p] == n2[p]);
        } else if i == 2 {
            assert(name[p] == n3[p]);
        } else if i == 3 {
            assert(name[p] == n5[p]);
        } else if i == 4 {
            assert(name[p] == n6[p]);
        } else {
            assert(name[p] == n8[p]);
        }
    }
    assert(name[8] == n4[8]);
    assert(name[13] == n7[13]);
    assert(name[16] == n9[16]);
    assert forall|j: int| 0 <= j < name.len() implies '\0' <= #[trigger] name[j] <= '\u{7f}' by {
        if j < 4 {
            assert(name[offset(0) + j] == n1[j]);
        } else if j < 6 {
            assert(name[offset(1) + (j - 4)] == digits(t.month as nat, 10, 2)[j - 4]);
        } else if j < 8 {
            assert(name[offset(2) + (j - 6)] == digits(t.day as nat, 10, 2)[j - 6]);
        } else if j == 8 {
        } else if j < 11 {
            assert(name[offset(3) + (j - 9)] == digits(t.hour as nat, 10, 2)[j - 9]);
        } else if j < 13 {
            assert(name[offset(4) + (j - 11)] == digits(t.minute as nat, 10, 2)[j - 11]);
        } else if j == 13 {
        } else if j < 16 {
            assert(name[offset(5) + (j - 14)] == digits(t.second as nat, 10, 2)[j - 14]);
        } else if j == 16 {
        } else {
            assert(name[j] == digits(random as nat, 16, 16)[j - 17]);
        }
    }
}

/// Names of moments that first differ in field `f` are ordered as the
/// moments are.
proof fn lemma_names_differ_at(a: Timestamp, ra: u64, b: Timestamp, rb: u64, f: int)
    requires
        a.fits_name(),
        b.fits_name(),
        0 <= f < 6,
        differ_at(a, b, f),
    ensures
        lex_less(
            encode_utf8(revision_name_text(a, ra)),
            encode_utf8(revision_name_text(b, rb)),
        ),
{
    let na = revision_name_text(a, ra);
    let nb = revision_name_text(b, rb);
    lemma_name_layout(a, ra);
    lemma_name_layout(b, rb);
    is_ascii_chars_encode_utf8(na);
    is_ascii_chars_encode_utf8(nb);
    let w = width(f);
    assert(capacity(10, 0) == 1);
    assert(capacity(10, 1) == 10);
    assert(capacity(10, 2) == 100);
    assert(capacity(10, 3) == 1000);
    assert(capacity(10, 4) == 10000);
    assert(field(b, f) < capacity(10, w));
    let k = lemma_digits_order(field(a, f), field(b, f), 10, w);
    let p = offset(f) + k;
    assert(na[p] == digits(field(a, f), 10, w)[k]);
    assert(nb[p] == digits(field(b, f), 10, w)[k]);
    assert forall|j: int| 0 <= j < p implies na[j] == nb[j] by {
        let i: int = if j < 4 {
            0
        } else if j < 6 {
            1
        } else if j < 8 {
            2
        } else if j < 11 {
            3
        } else if j < 13 {
            4
        } else {
            5
        };
        if j == 8 || j == 13 || j == 16 {
        } else {
            let within = j - offset(i);
            assert(0 <= within < width(i));
            assert(na[offset(i) + within] == digits(field(a, i), 10, width(i))[within]);
            assert(nb[offset(i) + within] == digits(field(b, i), 10, width(i))[within]);
            if i < f {
                assert(field(a, i) == field(b, i));
            } else {
                assert(i == f && within < k);
            }
        }
    }
    let ba = encode_utf8(na);
    let bb = encode_utf8(nb);
    assert forall|j: int| 0 <= j < p implies ba[j] == bb[j] by {
        assert(na[j] as u8 == ba[j]);
        assert(nb[j] as u8 == bb[j]);
    }
    assert(na[p] as u8 == ba[p]);
    assert(nb[p] as u8 == bb[p]);
    lemma_lex_less_at(ba, bb, p);
}

/// A revision made at a later second has the greater name, whatever the
/// random numbers.
pub proof fn lemma_later_revision_is_greater(a: Timestamp, ra: u64, b: Timestamp, rb: u64)
    requires
        a.fits_name(),
        b.fits_name(),
        earlier(a, b),
    ensures
        lex_less(
            encode_utf8(revision_name_text(a, ra)),
            encode_utf8(revision_name_text(b, rb)),
        ),
{
    let f = choose|f: int| 0 <= f < 6 && #[trigger] differ_at(a, b, f);
    lemma_names_differ_at(a, ra, b, rb, f);
}

} // verus!
