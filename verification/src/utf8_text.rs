//! Facts about the UTF-8 bytes of text built by concatenation: the bytes of
//! a concatenation, of ASCII text and of decimal digits, and where a
//! separator byte is found in them.

use vstd::prelude::*;
use vstd::utf8::*;
use crate::ids::{next_sep, split_from, lemma_next_sep_bounds};
use crate::provenance::{digits_value, is_digit};
use crate::text::{dec_char, dec_digits};

verus! {

/// Every char of the text is ASCII.
pub open spec fn is_ascii_text(s: Seq<char>) -> bool {
    forall|i: int| 0 <= i < s.len() ==> ((#[trigger] s[i]) as u32) < 128
}

pub open spec fn ascii_bytes(s: Seq<char>) -> Seq<u8> {
    s.map_values(|c: char| (c as u32) as u8)
}

pub proof fn lemma_encode_concat(a: Seq<char>, b: Seq<char>)
    ensures
        encode_utf8(a + b) == encode_utf8(a) + encode_utf8(b),
    decreases a.len(),
{
    if a.len() == 0 {
        assert(a + b =~= b);
        assert(encode_utf8(a) + encode_utf8(b) =~= encode_utf8(b));
    } else {
        lemma_encode_concat(a.drop_first(), b);
        assert((a + b).drop_first() =~= a.drop_first() + b);
        assert((a + b)[0] == a[0]);
        assert(encode_utf8(a + b) =~= encode_utf8(a) + encode_utf8(b));
    }
}

proof fn lemma_encode_scalar_ascii(v: u32)
    requires
        v < 128,
    ensures
        encode_scalar(v) == seq![v as u8],
{
    assert((v & 0x7F) as u8 == v as u8) by (bit_vector)
        requires
            v < 128,
    ;
}

/// Every byte of a non-ASCII scalar's encoding is at least 0x80.
proof fn lemma_encode_scalar_high(v: u32)
    requires
        is_scalar(v),
        v >= 128,
    ensures
        forall|i: int| 0 <= i < encode_scalar(v).len() ==> encode_scalar(v)[i] >= 128,
{
    assert(0xC0u8 | (((v >> 6) & 0x1F) as u8) >= 128u8) by (bit_vector);
    assert(0xE0u8 | (((v >> 12) & 0x0F) as u8) >= 128u8) by (bit_vector);
    assert(0xF0u8 | (((v >> 18) & 0x7) as u8) >= 128u8) by (bit_vector);
    assert(0x80u8 | ((v & 0x3F) as u8) >= 128u8) by (bit_vector);
    assert(0x80u8 | (((v >> 6) & 0x3F) as u8) >= 128u8) by (bit_vector);
    assert(0x80u8 | (((v >> 12) & 0x3F) as u8) >= 128u8) by (bit_vector);
}

/// The bytes of ASCII text are its chars' values.
pub proof fn lemma_encode_ascii(s: Seq<char>)
    requires
        is_ascii_text(s),
    ensures
        encode_utf8(s) == ascii_bytes(s),
    decreases s.len(),
{
    if s.len() > 0 {
        assert(is_ascii_text(s.drop_first())) by {
            assert forall|i: int| 0 <= i < s.drop_first().len() implies ((#[trigger] s.drop_first()[i]) as u32) < 128 by {
                assert(s.drop_first()[i] == s[i + 1]);
            }
        }
        lemma_encode_ascii(s.drop_first());
        assert((s[0] as u32) < 128);
        lemma_encode_scalar_ascii(s[0] as u32);
        assert(encode_utf8(s) =~= ascii_bytes(s));
    }
}

/// An ASCII byte occurs in the bytes of a text only where its char does.
pub proof fn lemma_encode_lacks(s: Seq<char>, b: u8)
    requires
        b < 128,
        forall|i: int| 0 <= i < s.len() ==> (#[trigger] s[i]) as u32 != b as u32,
    ensures
        !encode_utf8(s).contains(b),
    decreases s.len(),
{
    if s.len() > 0 {
        assert forall|i: int| 0 <= i < s.drop_first().len() implies (#[trigger] s.drop_first()[i]) as u32 != b as u32 by {
            assert(s.drop_first()[i] == s[i + 1]);
        }
        lemma_encode_lacks(s.drop_first(), b);
        let v = s[0] as u32;
        char_is_scalar(s[0]);
        let e = encode_scalar(v);
        assert(!e.contains(b)) by {
            if v < 128 {
                lemma_encode_scalar_ascii(v);
                assert(v != b as u32);
                assert((v as u8) as int == v as int);
                assert(e[0] != b);
                if e.contains(b) {
                    let i = choose|i: int| 0 <= i < e.len() && e[i] == b;
                    assert(i == 0);
                }
            } else {
                lemma_encode_scalar_high(v);
            }
        }
        let rest = encode_utf8(s.drop_first());
        assert(encode_utf8(s) == e + rest);
        if (e + rest).contains(b) {
            let i = choose|i: int| 0 <= i < (e + rest).len() && (e + rest)[i] == b;
            if i < e.len() {
                assert(e[i] == b);
            } else {
                assert(rest[i - e.len()] == b);
            }
        }
    }
}

/// A char other than `c` has another code.
pub proof fn lemma_char_code_differs(x: char, c: char)
    requires
        x != c,
    ensures
        x as u32 != c as u32,
{
    if x as u32 == c as u32 {
        char_u32_cast(x, x as u32);
        char_u32_cast(c, c as u32);
    }
}

pub proof fn lemma_encode_len(s: Seq<char>)
    ensures
        encode_utf8(s).len() >= s.len(),
    decreases s.len(),
{
    if s.len() > 0 {
        lemma_encode_len(s.drop_first());
        char_is_scalar(s[0]);
    }
}

/// The bytes of a number's decimal text: one or more digits, whose value is
/// the number.
pub proof fn lemma_encode_dec_digits(x: nat)
    ensures
        encode_utf8(dec_digits(x)).len() > 0,
        forall|i: int| 0 <= i < encode_utf8(dec_digits(x)).len() ==> is_digit(#[trigger] encode_utf8(dec_digits(x))[i]),
        digits_value(encode_utf8(dec_digits(x))) == x,
    decreases x,
{
    let d = dec_digits(x);
    if x < 10 {
        assert(dec_char(x) as u32 == 48 + x);
        assert(is_ascii_text(d));
        lemma_encode_ascii(d);
        assert(encode_utf8(d) =~= seq![(48 + x) as u8]);
        assert(encode_utf8(d).drop_last() =~= Seq::<u8>::empty());
        assert(((48 + x) as u8) as int == 48 + x);
        assert(digits_value(encode_utf8(d)) == digits_value(Seq::<u8>::empty()) * 10 + (((48 + x) as u8) - 48) as nat);
    } else {
        lemma_encode_dec_digits(x / 10);
        let last = seq![dec_char(x % 10)];
        assert(dec_char(x % 10) as u32 == 48 + x % 10);
        assert(is_ascii_text(last));
        lemma_encode_ascii(last);
        assert(d =~= dec_digits(x / 10) + last);
        lemma_encode_concat(dec_digits(x / 10), last);
        let hi = encode_utf8(dec_digits(x / 10));
        let e = encode_utf8(d);
        assert(encode_utf8(last) =~= seq![(48 + x % 10) as u8]);
        assert(e =~= hi.push((48 + x % 10) as u8));
        assert(e.drop_last() =~= hi);
        assert forall|i: int| 0 <= i < e.len() implies is_digit(#[trigger] e[i]) by {
            if i < hi.len() {
                assert(e[i] == hi[i]);
            }
        }
        assert(((48 + x % 10) as u8) as int == 48 + x % 10);
        assert(digits_value(e) == digits_value(hi) * 10 + (((48 + x % 10) as u8) - 48) as nat);
        assert((x / 10) * 10 + x % 10 == x);
    }
}

// ---------------------------------------------------------------------------
// Separators.

pub proof fn lemma_concat_lacks<A>(a: Seq<A>, b: Seq<A>, x: A)
    requires
        !a.contains(x),
        !b.contains(x),
    ensures
        !(a + b).contains(x),
{
    if (a + b).contains(x) {
        let i = choose|i: int| 0 <= i < (a + b).len() && (a + b)[i] == x;
        if i < a.len() {
            assert(a[i] == x);
        } else {
            assert(b[i - a.len()] == x);
        }
    }
}

/// The bytes of a text that lacks char `c` (ASCII) lack its byte.
pub proof fn lemma_text_lacks_byte(s: Seq<char>, c: char, b: u8)
    requires
        !s.contains(c),
        c as u32 == b as u32,
        b < 128,
    ensures
        !encode_utf8(s).contains(b),
{
    assert forall|i: int| 0 <= i < s.len() implies (#[trigger] s[i]) as u32 != b as u32 by {
        assert(s.contains(s[i]));
        lemma_char_code_differs(s[i], c);
    }
    lemma_encode_lacks(s, b);
}

/// The first separator from `i` on is at `k`.
pub proof fn lemma_next_sep_at(b: Seq<u8>, sep: u8, i: int, k: int)
    requires
        0 <= i <= k < b.len(),
        b[k] == sep,
        forall|j: int| i <= j < k ==> b[j] != sep,
    ensures
        next_sep(b, sep, i) == k,
    decreases k - i,
{
    if i < k {
        lemma_next_sep_at(b, sep, i + 1, k);
    }
}

/// No separator from `i` on.
pub proof fn lemma_next_sep_none(b: Seq<u8>, sep: u8, i: int)
    requires
        0 <= i <= b.len(),
        forall|j: int| i <= j < b.len() ==> b[j] != sep,
    ensures
        next_sep(b, sep, i) == b.len(),
    decreases b.len() - i,
{
    if i < b.len() {
        lemma_next_sep_none(b, sep, i + 1);
    }
}

/// Splitting `a + [sep] + rest` from 0, where `a` holds no separator, gives
/// `a` and then the pieces of `rest`.
pub proof fn lemma_split_head(a: Seq<u8>, sep: u8, rest: Seq<u8>)
    requires
        !a.contains(sep),
    ensures
        split_from(a + seq![sep] + rest, sep, 0) == seq![a] + split_from(rest, sep, 0),
{
    let b = a + seq![sep] + rest;
    assert forall|j: int| 0 <= j < a.len() implies b[j] != sep by {
        assert(b[j] == a[j]);
    }
    lemma_next_sep_at(b, sep, 0, a.len() as int);
    assert(b.subrange(0, a.len() as int) =~= a);
    assert(b.subrange(a.len() as int + 1, b.len() as int) =~= rest);
    lemma_split_shift(b, sep, a.len() as int + 1, rest);
}

/// Splitting `b` from `start` equals splitting its suffix from 0.
proof fn lemma_split_shift(b: Seq<u8>, sep: u8, start: int, rest: Seq<u8>)
    requires
        0 <= start <= b.len(),
        rest == b.subrange(start, b.len() as int),
    ensures
        split_from(b, sep, start) == split_from(rest, sep, 0),
    decreases b.len() - start,
{
    lemma_next_sep_shift(b, sep, start, start, rest);
    let j = next_sep(b, sep, start);
    lemma_next_sep_bounds(b, sep, start);
    lemma_next_sep_bounds(rest, sep, 0);
    if j >= b.len() {
        assert(b.subrange(start, b.len() as int) =~= rest.subrange(0, rest.len() as int));
    } else {
        assert(b.subrange(start, j) =~= rest.subrange(0, j - start));
        assert(rest.subrange(j - start + 1, rest.len() as int) =~= b.subrange(j + 1, b.len() as int));
        lemma_split_shift(b, sep, j + 1, b.subrange(j + 1, b.len() as int));
        lemma_split_shift(rest, sep, j - start + 1, b.subrange(j + 1, b.len() as int));
    }
}

proof fn lemma_next_sep_shift(b: Seq<u8>, sep: u8, start: int, i: int, rest: Seq<u8>)
    requires
        0 <= start <= i <= b.len(),
        rest == b.subrange(start, b.len() as int),
    ensures
        next_sep(b, sep, i) == start + next_sep(rest, sep, i - start),
    decreases b.len() - i,
{
    if i < b.len() {
        assert(rest[i - start] == b[i]);
        lemma_next_sep_shift(b, sep, start, i + 1, rest);
    }
}

/// Text without the separator splits into itself.
pub proof fn lemma_split_single(a: Seq<u8>, sep: u8)
    requires
        !a.contains(sep),
    ensures
        split_from(a, sep, 0) == seq![a],
{
    assert forall|j: int| 0 <= j < a.len() implies a[j] != sep by {
        assert(a.contains(a[j]));
    }
    lemma_next_sep_none(a, sep, 0);
    assert(a.subrange(0, a.len() as int) =~= a);
}

} // verus!
