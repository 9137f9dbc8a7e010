//! The stored provenance of a generated voxel asset:
//! `asha-generator://provider/preset/vN?seed=S&configHash=fnv1a64:…`,
//! checked as bytes.

use vstd::prelude::*;
use vstd::string::StringSliceAdditionalSpecFns;
use crate::ids::{find_sep, lemma_next_sep_bounds, next_sep, range_equals, split_from};

verus! {

pub open spec fn is_digit(b: u8) -> bool {
    48 <= b <= 57
}

/// The value of a string of decimal digits.
pub open spec fn digits_value(d: Seq<u8>) -> nat
    decreases d.len(),
{
    if d.len() == 0 {
        0
    } else {
        digits_value(d.drop_last()) * 10 + (d.last() - 48) as nat
    }
}

/// The digits of an unsigned number's text: without a leading `+`.
pub open spec fn unsigned_digits(t: Seq<u8>) -> Seq<u8> {
    if t.len() > 0 && t[0] == 43 {
        t.drop_first()
    } else {
        t
    }
}

/// `t` is the text of an unsigned number no larger than `max`, as `str::parse`
/// reads it: an optional `+`, then one or more decimal digits.
pub open spec fn parses_unsigned(t: Seq<u8>, max: nat) -> bool {
    let d = unsigned_digits(t);
    &&& d.len() > 0
    &&& forall|i: int| 0 <= i < d.len() ==> is_digit(#[trigger] d[i])
    &&& digits_value(d) <= max
}

proof fn lemma_digits_prefix_le(d: Seq<u8>, k: int)
    requires
        0 <= k <= d.len(),
        forall|i: int| 0 <= i < d.len() ==> is_digit(#[trigger] d[i]),
    ensures
        digits_value(d.take(k)) <= digits_value(d),
    decreases d.len(),
{
    if k < d.len() {
        let p = d.drop_last();
        assert forall|i: int| 0 <= i < p.len() implies is_digit(#[trigger] p[i]) by {
            assert(p[i] == d[i]);
        }
        lemma_digits_prefix_le(p, k);
        assert(p.take(k) =~= d.take(k));
    } else {
        assert(d.take(k) =~= d);
    }
}

/// Parse `b[lo..hi]` as an unsigned number no larger than `max`.
pub fn parse_unsigned(b: &[u8], lo: usize, hi: usize, max: u64) -> (r: Option<u64>)
    requires
        lo <= hi <= b@.len(),
    ensures
        r is Some <==> parses_unsigned(b@.subrange(lo as int, hi as int), max as nat),
        r matches Some(v) ==> v == digits_value(unsigned_digits(b@.subrange(lo as int, hi as int))),
{
    let ghost t = b@.subrange(lo as int, hi as int);
    let mut i = lo;
    if i < hi && b[i] == 43 {
        i = i + 1;
    }
    let start = i;
    let ghost d = unsigned_digits(t);
    assert(d =~= b@.subrange(start as int, hi as int));
    if start == hi {
        return None;
    }
    let mut v: u64 = 0;
    while i < hi
        invariant
            start <= i <= hi <= b@.len(),
            t == b@.subrange(lo as int, hi as int),
            d == unsigned_digits(t),
            d == b@.subrange(start as int, hi as int),
            forall|k: int| 0 <= k < i - start ==> is_digit(#[trigger] d[k]),
            v == digits_value(d.take(i - start)),
            v <= max,
        decreases hi - i,
    {
        let c = b[i];
        if !(48 <= c && c <= 57) {
            assert(!is_digit(d[i - start]));
            return None;
        }
        let digit = (c - 48) as u64;
        let ghost next = d.take(i - start + 1);
        proof {
            assert(next.drop_last() =~= d.take(i - start));
            assert(next.last() == c);
        }
        let grown = match v.checked_mul(10) {
            Some(m) => m.checked_add(digit),
            None => None,
        };
        let ok = match grown {
            Some(n) => n <= max,
            None => false,
        };
        if !ok {
            proof {
                assert(digits_value(next) > max);
                if forall|k: int| 0 <= k < d.len() ==> is_digit(#[trigger] d[k]) {
                    lemma_digits_prefix_le(d, i - start + 1);
                }
            }
            return None;
        }
        v = match grown {
            Some(n) => n,
            None => 0,
        };
        i = i + 1;
    }
    assert(d.take(i - start) =~= d);
    Some(v)
}

/// `b` begins with `p`.
pub open spec fn starts_with(b: Seq<u8>, p: Seq<u8>) -> bool {
    p.len() <= b.len() && b.subrange(0, p.len() as int) == p
}

pub open spec fn generator_scheme() -> Seq<u8> {
    "asha-generator://".spec_bytes()
}

pub open spec fn fnv_label_prefix() -> Seq<u8> {
    "fnv1a64:".spec_bytes()
}

/// The key of a `key=value` pair.
pub open spec fn pair_key(p: Seq<u8>) -> Seq<u8> {
    p.subrange(0, next_sep(p, 61, 0))
}

/// The value of a `key=value` pair.
pub open spec fn pair_value(p: Seq<u8>) -> Seq<u8> {
    p.subrange(next_sep(p, 61, 0) + 1, p.len() as int)
}

/// A query pair holds `=` and a non-empty value.
pub open spec fn pair_ok(p: Seq<u8>) -> bool {
    next_sep(p, 61, 0) + 1 < p.len()
}

/// The query of a recipe: two `&`-separated pairs with distinct keys and
/// non-empty values, a `seed` that reads as a `u64` and a `configHash` that
/// is an `fnv1a64:` label.
pub open spec fn recipe_query_ok(q: Seq<u8>) -> bool {
    let pairs = split_from(q, 38, 0);
    &&& forall|k: int| 0 <= k < pairs.len() ==> pair_ok(#[trigger] pairs[k])
    &&& forall|a: int, c: int| 0 <= a < c < pairs.len() ==> pair_key(#[trigger] pairs[a]) != pair_key(#[trigger] pairs[c])
    &&& pairs.len() == 2
    &&& exists|k: int| 0 <= k < 2 && pair_key(#[trigger] pairs[k]) == "seed".spec_bytes()
        && parses_unsigned(pair_value(pairs[k]), u64::MAX as nat)
    &&& exists|k: int| 0 <= k < 2 && pair_key(#[trigger] pairs[k]) == "configHash".spec_bytes()
        && starts_with(pair_value(pairs[k]), fnv_label_prefix())
}

/// The path of a recipe: a non-empty provider, a non-empty preset, and a
/// positive `u32` version after `v`.
pub open spec fn recipe_path_ok(path: Seq<u8>) -> bool {
    let segs = split_from(path, 47, 0);
    &&& segs.len() == 3
    &&& segs[0].len() > 0
    &&& segs[1].len() > 0
    &&& segs[2].len() > 0
    &&& segs[2][0] == 118
    &&& parses_unsigned(segs[2].drop_first(), u32::MAX as nat)
    &&& digits_value(unsigned_digits(segs[2].drop_first())) != 0
}

/// A well-formed stored recipe of a generated asset.
pub open spec fn is_generated_recipe(is_generated: bool, uri: Seq<u8>, content_hash: Seq<u8>) -> bool {
    let s = uri.subrange(generator_scheme().len() as int, uri.len() as int);
    let q = next_sep(s, 63, 0);
    &&& is_generated
    &&& starts_with(uri, generator_scheme())
    &&& q < s.len()
    &&& recipe_path_ok(s.subrange(0, q))
    &&& starts_with(content_hash, fnv_label_prefix())
    &&& recipe_query_ok(s.subrange(q + 1, s.len() as int))
}

fn copy_range(b: &[u8], lo: usize, hi: usize) -> (r: Vec<u8>)
    requires
        lo <= hi <= b@.len(),
    ensures
        r@ == b@.subrange(lo as int, hi as int),
{
    let mut r: Vec<u8> = Vec::new();
    let mut i = lo;
    while i < hi
        invariant
            lo <= i <= hi <= b@.len(),
            r@ == b@.subrange(lo as int, i as int),
        decreases hi - i,
    {
        r.push(b[i]);
        i = i + 1;
    }
    r
}

/// The pieces of `b` split at every `sep`.
fn split_bytes(b: &[u8], sep: u8) -> (r: Vec<Vec<u8>>)
    ensures
        r@.len() == split_from(b@, sep, 0).len(),
        forall|k: int| 0 <= k < r@.len() ==> (#[trigger] r@[k])@ == split_from(b@, sep, 0)[k],
{
    let mut r: Vec<Vec<u8>> = Vec::new();
    let mut start: usize = 0;
    let ghost mut done: Seq<Seq<u8>> = Seq::empty();
    loop
        invariant_except_break
            split_from(b@, sep, 0) == done + split_from(b@, sep, start as int),
        invariant
            start <= b@.len(),
            done.len() == r@.len(),
            forall|k: int| 0 <= k < r@.len() ==> (#[trigger] r@[k])@ == done[k],
        ensures
            done == split_from(b@, sep, 0),
            done.len() == r@.len(),
            forall|k: int| 0 <= k < r@.len() ==> (#[trigger] r@[k])@ == done[k],
        decreases b@.len() - start,
    {
        let j = find_sep(b, sep, start);
        proof {
            lemma_next_sep_bounds(b@, sep, start as int);
        }
        let piece = copy_range(b, start, j);
        let ghost rest = split_from(b@, sep, start as int);
        r.push(piece);
        proof {
            done = done.push(b@.subrange(start as int, j as int));
        }
        if j >= b.len() {
            assert(rest =~= seq![b@.subrange(start as int, b@.len() as int)]);
            assert(split_from(b@, sep, 0) =~= done);
            break;
        }
        assert(rest == seq![b@.subrange(start as int, j as int)] + split_from(b@, sep, j + 1));
        assert(split_from(b@, sep, 0) =~= done + split_from(b@, sep, j + 1));
        start = j + 1;
    }
    r
}

fn starts_with_exec(b: &[u8], p: &[u8]) -> (r: bool)
    ensures
        r == starts_with(b@, p@),
{
    p.len() <= b.len() && range_equals(b, 0, p.len(), p)
}

/// Whether a stored provenance record of a voxel asset is a well-formed
/// generator recipe: a generated record whose uri is
/// `asha-generator://provider/preset/vN?seed=S&configHash=H` (the two query
/// pairs in either order) and whose content hash is an `fnv1a64:` label.
pub fn parse_stored_generated_recipe(is_generated: bool, uri: &str, content_hash: &str) -> (r: bool)
    ensures
        r == is_generated_recipe(is_generated, uri.spec_bytes(), content_hash.spec_bytes()),
{
    if !is_generated {
        return false;
    }
    let b = uri.as_bytes();
    let scheme = "asha-generator://".as_bytes();
    if !starts_with_exec(b, scheme) {
        return false;
    }
    let s = copy_range(b, scheme.len(), b.len());
    let q = find_sep(s.as_slice(), 63, 0);
    if q >= s.len() {
        return false;
    }
    let path = copy_range(s.as_slice(), 0, q);
    let query = copy_range(s.as_slice(), q + 1, s.len());
    if !path_ok(path.as_slice()) {
        return false;
    }
    if !starts_with_exec(content_hash.as_bytes(), "fnv1a64:".as_bytes()) {
        return false;
    }
    query_ok(query.as_slice())
}

fn path_ok(path: &[u8]) -> (r: bool)
    ensures
        r == recipe_path_ok(path@),
{
    let segs = split_bytes(path, 47);
    if segs.len() != 3 {
        return false;
    }
    let version = &segs[2];
    if segs[0].len() == 0 || segs[1].len() == 0 || version.len() == 0 || version[0] != 118 {
        return false;
    }
    let ghost v = version@;
    assert(v.subrange(1, v.len() as int) =~= v.drop_first());
    match parse_unsigned(version.as_slice(), 1, version.len(), 0xffff_ffff) {
        Some(n) => n != 0,
        None => false,
    }
}

/// The key and value of a `key=value` pair.
fn pair_parts(p: &[u8]) -> (r: (Vec<u8>, Vec<u8>))
    requires
        pair_ok(p@),
    ensures
        r.0@ == pair_key(p@),
        r.1@ == pair_value(p@),
{
    let n = p.len();
    let e = find_sep(p, 61, 0);
    let key = copy_range(p, 0, e);
    let value = copy_range(p, e + 1, n);
    (key, value)
}

fn query_ok(query: &[u8]) -> (r: bool)
    ensures
        r == recipe_query_ok(query@),
{
    let pairs = split_bytes(query, 38);
    let ghost ps = split_from(query@, 38, 0);
    let mut k: usize = 0;
    while k < pairs.len()
        invariant
            k <= pairs@.len() == ps.len(),
            ps == split_from(query@, 38, 0),
            forall|t: int| 0 <= t < pairs@.len() ==> (#[trigger] pairs@[t])@ == ps[t],
            forall|t: int| 0 <= t < k ==> pair_ok(#[trigger] ps[t]),
        decreases pairs@.len() - k,
    {
        let p = &pairs[k];
        let e = find_sep(p.as_slice(), 61, 0);
        if e >= p.len() || p.len() - e <= 1 {
            assert(!pair_ok(ps[k as int]));
            return false;
        }
        k = k + 1;
    }
    if pairs.len() != 2 {
        return false;
    }
    let p0 = &pairs[0];
    let p1 = &pairs[1];
    assert(p0@ == ps[0] && p1@ == ps[1]);
    assert(pair_ok(ps[0]) && pair_ok(ps[1]));
    let (key0, v0) = pair_parts(p0.as_slice());
    let (key1, v1) = pair_parts(p1.as_slice());
    if range_equals(key0.as_slice(), 0, key0.len(), key1.as_slice()) {
        assert(key0@.subrange(0, key0@.len() as int) =~= key0@);
        return false;
    }
    proof {
        assert(key0@.subrange(0, key0@.len() as int) =~= key0@);
        assert(key1@.subrange(0, key1@.len() as int) =~= key1@);
        assert(v0@.subrange(0, v0@.len() as int) =~= v0@);
        assert(v1@.subrange(0, v1@.len() as int) =~= v1@);
    }
    let seed_lit = "seed".as_bytes();
    let hash_lit = "configHash".as_bytes();
    let seed_ok = (range_equals(key0.as_slice(), 0, key0.len(), seed_lit) && parse_unsigned(
        v0.as_slice(),
        0,
        v0.len(),
        0xffff_ffff_ffff_ffff,
    ).is_some()) || (range_equals(key1.as_slice(), 0, key1.len(), seed_lit) && parse_unsigned(
        v1.as_slice(),
        0,
        v1.len(),
        0xffff_ffff_ffff_ffff,
    ).is_some());
    let hash_ok = (range_equals(key0.as_slice(), 0, key0.len(), hash_lit) && starts_with_exec(
        v0.as_slice(),
        "fnv1a64:".as_bytes(),
    )) || (range_equals(key1.as_slice(), 0, key1.len(), hash_lit) && starts_with_exec(
        v1.as_slice(),
        "fnv1a64:".as_bytes(),
    ));
    proof {
        assert forall|a: int, c: int| 0 <= a < c < ps.len() implies pair_key(#[trigger] ps[a])
            != pair_key(#[trigger] ps[c]) by {
            assert(a == 0 && c == 1);
        }
        if seed_ok {
            if pair_key(ps[0]) == "seed".spec_bytes() && parses_unsigned(pair_value(ps[0]), u64::MAX as nat) {
                assert(pair_key(ps[0]) == "seed".spec_bytes());
            }
        }
    }
    seed_ok && hash_ok
}

} // verus!
