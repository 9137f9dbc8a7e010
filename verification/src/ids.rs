//! Identifier grammar of the gameplay fabric and project paths: kebab
//! segments, dotted namespaces, hash labels, versions and project-relative
//! paths. All checks read UTF-8 bytes, except whitespace, which is decided per
//! character.

use vstd::prelude::*;
use vstd::string::StringSliceAdditionalSpecFns;
use vstd::std_specs::iter::IteratorSpec;

verus! {

broadcast use vstd::string::axiom_spec_iter, vstd::string::next_postcondition;

pub open spec fn is_kebab_byte(b: u8) -> bool {
    (97 <= b <= 122) || (48 <= b <= 57) || b == 45
}

/// A kebab segment: non-empty lower-case ASCII letters, digits and `-`, not
/// starting or ending with `-`, without `--`.
pub open spec fn is_kebab(b: Seq<u8>) -> bool {
    &&& b.len() > 0
    &&& b[0] != 45
    &&& b.last() != 45
    &&& forall|i: int| 0 <= i < b.len() - 1 ==> !(#[trigger] b[i] == 45 && b[i + 1] == 45)
    &&& forall|i: int| 0 <= i < b.len() ==> is_kebab_byte(#[trigger] b[i])
}

/// Index of the first `sep` at or after `i`, or the length when there is none.
pub open spec fn next_sep(b: Seq<u8>, sep: u8, i: int) -> int
    decreases b.len() - i,
{
    if i >= b.len() {
        b.len() as int
    } else if b[i] == sep {
        i
    } else {
        next_sep(b, sep, i + 1)
    }
}

/// The pieces of `b` from `start` on, split at every `sep` (`str::split`).
pub open spec fn split_from(b: Seq<u8>, sep: u8, start: int) -> Seq<Seq<u8>>
    decreases b.len() - start,
{
    let j = next_sep(b, sep, start);
    if start < 0 || start > b.len() {
        Seq::empty()
    } else if j >= b.len() {
        seq![b.subrange(start, b.len() as int)]
    } else {
        proof {
            lemma_next_sep_bounds(b, sep, start);
        }
        seq![b.subrange(start, j)] + split_from(b, sep, j + 1)
    }
}

pub proof fn lemma_next_sep_bounds(b: Seq<u8>, sep: u8, i: int)
    requires
        0 <= i <= b.len(),
    ensures
        i <= next_sep(b, sep, i) <= b.len(),
        next_sep(b, sep, i) < b.len() ==> b[next_sep(b, sep, i)] == sep,
        forall|k: int| i <= k < next_sep(b, sep, i) ==> b[k] != sep,
    decreases b.len() - i,
{
    if i < b.len() && b[i] != sep {
        lemma_next_sep_bounds(b, sep, i + 1);
    }
}

/// Position of the next `sep` at or after `start`.
pub(crate) fn find_sep(b: &[u8], sep: u8, start: usize) -> (j: usize)
    requires
        start <= b@.len(),
    ensures
        j == next_sep(b@, sep, start as int),
        start <= j <= b@.len(),
{
    let mut j = start;
    while j < b.len() && b[j] != sep
        invariant
            start <= j <= b@.len(),
            next_sep(b@, sep, start as int) == next_sep(b@, sep, j as int),
        decreases b@.len() - j,
    {
        j = j + 1;
    }
    j
}

/// Whether `b[lo..hi]` is a kebab segment.
fn kebab_range(b: &[u8], lo: usize, hi: usize) -> (r: bool)
    requires
        lo <= hi <= b@.len(),
    ensures
        r == is_kebab(b@.subrange(lo as int, hi as int)),
{
    let ghost s = b@.subrange(lo as int, hi as int);
    if lo == hi || b[lo] == 45 || b[hi - 1] == 45 {
        return false;
    }
    let mut i = lo;
    while i < hi
        invariant
            lo <= i <= hi <= b@.len(),
            lo < hi,
            s == b@.subrange(lo as int, hi as int),
            forall|k: int| 0 <= k < i - lo ==> is_kebab_byte(#[trigger] s[k]),
            forall|k: int| 0 <= k < i - lo && k < s.len() - 1 ==> !(#[trigger] s[k] == 45 && s[k + 1] == 45),
        decreases hi - i,
    {
        let c = b[i];
        if !((97 <= c && c <= 122) || (48 <= c && c <= 57) || c == 45) {
            assert(!is_kebab_byte(s[i - lo]));
            return false;
        }
        if c == 45 && i + 1 < hi && b[i + 1] == 45 {
            assert(s[i - lo] == 45 && s[i - lo + 1] == 45);
            return false;
        }
        i = i + 1;
    }
    true
}

/// A kebab segment: non-empty lower-case ASCII letters, digits and `-`, not
/// starting or ending with `-`, without `--`.
pub fn is_kebab_segment(segment: &str) -> (r: bool)
    ensures
        r == is_kebab(segment.spec_bytes()),
{
    let b = segment.as_bytes();
    let r = kebab_range(b, 0, b.len());
    assert(b@.subrange(0, b@.len() as int) =~= b@);
    r
}

/// A dotted namespace: non-empty, every `.`-separated piece a kebab segment.
pub open spec fn is_namespace_bytes(b: Seq<u8>) -> bool {
    &&& b.len() > 0
    &&& forall|k: int| 0 <= k < split_from(b, 46, 0).len() ==> is_kebab(#[trigger] split_from(b, 46, 0)[k])
}

/// Every piece of `split_from(b, sep, start)` satisfies `is_kebab`.
pub open spec fn all_kebab(s: Seq<Seq<u8>>) -> bool {
    forall|k: int| 0 <= k < s.len() ==> is_kebab(#[trigger] s[k])
}

/// A dotted namespace: non-empty, every `.`-separated piece a kebab segment.
pub fn is_namespace(value: &str) -> (r: bool)
    ensures
        r == is_namespace_bytes(value.spec_bytes()),
{
    let b = value.as_bytes();
    if b.len() == 0 {
        return false;
    }
    let mut start: usize = 0;
    loop
        invariant
            0 <= start <= b@.len(),
            b@ == value.spec_bytes(),
            b@.len() > 0,
            all_kebab(split_from(b@, 46, 0)) == all_kebab(split_from(b@, 46, start as int)),
        decreases b@.len() - start,
    {
        let j = find_sep(b, 46, start);
        proof {
            lemma_next_sep_bounds(b@, 46, start as int);
        }
        let ok = kebab_range(b, start, j);
        let ghost rest = split_from(b@, 46, start as int);
        if j >= b.len() {
            assert(rest =~= seq![b@.subrange(start as int, b@.len() as int)]);
            assert(all_kebab(rest) == ok) by {
                assert(rest[0] == b@.subrange(start as int, b@.len() as int));
                if ok {
                    assert forall|k: int| 0 <= k < rest.len() implies is_kebab(#[trigger] rest[k]) by {
                        assert(k == 0);
                    }
                }
            }
            return ok;
        }
        let ghost tail = split_from(b@, 46, j + 1);
        assert(rest == seq![b@.subrange(start as int, j as int)] + tail);
        if !ok {
            assert(!is_kebab(rest[0]));
            return false;
        }
        assert(all_kebab(rest) == all_kebab(tail)) by {
            if all_kebab(tail) {
                assert forall|k: int| 0 <= k < rest.len() implies is_kebab(#[trigger] rest[k]) by {
                    if k > 0 {
                        assert(rest[k] == tail[k - 1]);
                    }
                }
            }
            if all_kebab(rest) {
                assert forall|k: int| 0 <= k < tail.len() implies is_kebab(#[trigger] tail[k]) by {
                    assert(rest[k + 1] == tail[k]);
                }
            }
        }
        start = j + 1;
    }
}

/// Stable ids share the namespace grammar.
pub fn is_stable_id(value: &str) -> (r: bool)
    ensures
        r == is_namespace_bytes(value.spec_bytes()),
{
    is_namespace(value)
}

/// `candidate` is `owner` or a dotted sub-namespace of it.
pub open spec fn owns_bytes(owner: Seq<u8>, candidate: Seq<u8>) -> bool {
    candidate == owner || (owner.len() < candidate.len() && candidate.subrange(0, owner.len() as int)
        == owner && candidate[owner.len() as int] == 46)
}

/// Namespace ownership is a partial order: every namespace owns itself,
/// two namespaces that own each other are equal, and an owner of an owner
/// owns what the latter owns.
pub proof fn law_namespace_ownership_is_partial_order(a: Seq<u8>, b: Seq<u8>, c: Seq<u8>)
    ensures
        owns_bytes(a, a),
        owns_bytes(a, b) && owns_bytes(b, a) ==> a == b,
        owns_bytes(a, b) && owns_bytes(b, c) ==> owns_bytes(a, c),
{
    if owns_bytes(a, b) && owns_bytes(b, c) && a != b && b != c {
        assert(c.subrange(0, a.len() as int) =~= b.subrange(0, a.len() as int)) by {
            assert forall|k: int| 0 <= k < a.len() implies c.subrange(0, a.len() as int)[k]
                == b.subrange(0, a.len() as int)[k] by {
                assert(c.subrange(0, b.len() as int)[k] == c[k]);
            }
        }
        assert(c[a.len() as int] == c.subrange(0, b.len() as int)[a.len() as int]);
    }
}

/// `candidate` is `owner` or a dotted sub-namespace of it.
pub fn namespace_owns(owner: &str, candidate: &str) -> (r: bool)
    ensures
        r == owns_bytes(owner.spec_bytes(), candidate.spec_bytes()),
{
    let o = owner.as_bytes();
    let c = candidate.as_bytes();
    if o.len() > c.len() {
        assert(c@ != o@);
        return false;
    }
    let mut i: usize = 0;
    while i < o.len()
        invariant
            i <= o@.len() <= c@.len(),
            o@ == owner.spec_bytes(),
            c@ == candidate.spec_bytes(),
            forall|k: int| 0 <= k < i ==> o@[k] == c@[k],
        decreases o@.len() - i,
    {
        if o[i] != c[i] {
            assert(c@.subrange(0, o@.len() as int)[i as int] != o@[i as int]);
            assert(c@.subrange(0, o@.len() as int) != o@);
            assert(c@ != o@);
            return false;
        }
        i = i + 1;
    }
    assert(c@.subrange(0, o@.len() as int) =~= o@);
    if o.len() == c.len() {
        assert(c@ =~= o@);
        return true;
    }
    c[o.len()] == 46
}

pub open spec fn is_lower_hex_byte(b: u8) -> bool {
    (48 <= b <= 57) || (97 <= b <= 102)
}

/// Expected digest length of a hash algorithm label, or zero when unknown.
pub open spec fn digest_len(alg: Seq<u8>) -> int {
    if alg == "fnv1a64".spec_bytes() {
        16
    } else if alg == "sha256".spec_bytes() {
        64
    } else {
        0
    }
}

/// `algorithm:digest` with a known algorithm and a lower-case hex digest
/// of its length.
pub open spec fn is_hash_bytes(b: Seq<u8>) -> bool {
    let i = next_sep(b, 58, 0);
    &&& i < b.len()
    &&& digest_len(b.subrange(0, i)) > 0
    &&& b.len() - (i + 1) == digest_len(b.subrange(0, i))
    &&& forall|k: int| i + 1 <= k < b.len() ==> is_lower_hex_byte(#[trigger] b[k])
}

pub(crate) fn range_equals(b: &[u8], lo: usize, hi: usize, lit: &[u8]) -> (r: bool)
    requires
        lo <= hi <= b@.len(),
    ensures
        r == (b@.subrange(lo as int, hi as int) == lit@),
{
    if hi - lo != lit.len() {
        assert(b@.subrange(lo as int, hi as int).len() != lit@.len());
        return false;
    }
    let mut k: usize = 0;
    while k < lit.len()
        invariant
            hi - lo == lit@.len(),
            lo <= hi <= b@.len(),
            k <= lit@.len(),
            forall|t: int| 0 <= t < k ==> b@[lo + t] == lit@[t],
        decreases lit@.len() - k,
    {
        if b[lo + k] != lit[k] {
            assert(b@.subrange(lo as int, hi as int)[k as int] != lit@[k as int]);
            return false;
        }
        k = k + 1;
    }
    assert(b@.subrange(lo as int, hi as int) =~= lit@);
    true
}

/// `algorithm:digest` where the algorithm is `fnv1a64` (16 digits) or
/// `sha256` (64 digits) and the digest is lower-case hexadecimal.
pub fn is_hash(value: &str) -> (r: bool)
    ensures
        r == is_hash_bytes(value.spec_bytes()),
{
    let b = value.as_bytes();
    let i = find_sep(b, 58, 0);
    proof {
        lemma_next_sep_bounds(b@, 58, 0);
    }
    if i >= b.len() {
        return false;
    }
    let fnv = "fnv1a64".as_bytes();
    let sha = "sha256".as_bytes();
    let expected: usize = if range_equals(b, 0, i, fnv) {
        16
    } else if range_equals(b, 0, i, sha) {
        64
    } else {
        return false;
    };
    if b.len() - (i + 1) != expected {
        return false;
    }
    let mut k = i + 1;
    while k < b.len()
        invariant
            i + 1 <= k <= b@.len(),
            b@ == value.spec_bytes(),
            i == next_sep(b@, 58, 0),
            digest_len(b@.subrange(0, i as int)) == expected,
            expected > 0,
            b@.len() - (i + 1) == expected,
            forall|t: int| i + 1 <= t < k ==> is_lower_hex_byte(#[trigger] b@[t]),
        decreases b@.len() - k,
    {
        let c = b[k];
        if !((48 <= c && c <= 57) || (97 <= c && c <= 102)) {
            assert(!is_lower_hex_byte(b@[k as int]));
            return false;
        }
        k = k + 1;
    }
    true
}

} // verus!

verus! {

/// Unicode `White_Space` (`char::is_whitespace`).
pub open spec fn is_white_space(c: char) -> bool {
    let u = c as u32;
    (0x9 <= u <= 0xd) || u == 0x20 || u == 0x85 || u == 0xa0 || u == 0x1680 || (0x2000 <= u
        <= 0x200a) || u == 0x2028 || u == 0x2029 || u == 0x202f || u == 0x205f || u == 0x3000
}

/// Unicode `White_Space` (`char::is_whitespace`).
pub fn char_is_whitespace(c: char) -> (r: bool)
    ensures
        r == is_white_space(c),
{
    let u = c as u32;
    (0x9 <= u && u <= 0xd) || u == 0x20 || u == 0x85 || u == 0xa0 || u == 0x1680 || (0x2000 <= u
        && u <= 0x200a) || u == 0x2028 || u == 0x2029 || u == 0x202f || u == 0x205f || u == 0x3000
}

/// Every character of `s` is whitespace (`s.trim().is_empty()`).
pub open spec fn is_blank_text(s: Seq<char>) -> bool {
    forall|i: int| 0 <= i < s.len() ==> is_white_space(#[trigger] s[i])
}

/// No character of `s` is whitespace.
pub open spec fn has_no_white_space(s: Seq<char>) -> bool {
    forall|i: int| 0 <= i < s.len() ==> !is_white_space(#[trigger] s[i])
}

/// Count how the characters of `value` stand to whitespace: whether all of
/// them are whitespace, whether none are, and whether the first and the last
/// are not (vacuously true when empty).
fn whitespace_profile(value: &str) -> (r: (bool, bool, bool))
    ensures
        r.0 == is_blank_text(value@),
        r.1 == has_no_white_space(value@),
        r.2 == (value@.len() == 0 || (!is_white_space(value@[0]) && !is_white_space(value@.last()))),
{
    let mut it = value.chars();
    let ghost mut k: int = 0;
    let mut all_ws = true;
    let mut none_ws = true;
    let mut first_ok = true;
    let mut last_ok = true;
    let mut seen_any = false;
    loop
        invariant
            0 <= k <= value@.len(),
            it.obeys_prophetic_iter_laws(),
            it.remaining() == value@.skip(k),
            seen_any == (k > 0),
            all_ws == is_blank_text(value@.take(k)),
            none_ws == has_no_white_space(value@.take(k)),
            k > 0 ==> first_ok == !is_white_space(value@[0]),
            k > 0 ==> last_ok == !is_white_space(value@[k - 1]),
        ensures
            k == value@.len(),
        decreases value@.len() - k,
    {
        let ghost rem = it.remaining();
        match it.next() {
            Some(c) => {
                proof {
                    assert(rem.len() > 0);
                    assert(c == value@[k]);
                    assert(value@.skip(k).drop_first() =~= value@.skip(k + 1));
                }
                let ws = char_is_whitespace(c);
                proof {
                    assert(value@.take(k + 1) =~= value@.take(k).push(c));
                }
                if ws {
                    none_ws = false;
                } else {
                    all_ws = false;
                }
                if !seen_any {
                    first_ok = !ws;
                }
                last_ok = !ws;
                seen_any = true;
                proof {
                    k = k + 1;
                    assert(all_ws == is_blank_text(value@.take(k))) by {
                        if !ws {
                            assert(value@.take(k)[k - 1] == c);
                        }
                    }
                    assert(none_ws == has_no_white_space(value@.take(k))) by {
                        if ws {
                            assert(value@.take(k)[k - 1] == c);
                        }
                    }
                }
            },
            None => {
                proof {
                    assert(rem.len() == 0);
                    assert(value@.take(k) =~= value@);
                }
                break;
            },
        }
    }
    (all_ws, none_ws, !seen_any || (first_ok && last_ok))
}

/// Blank text: every character is whitespace (`trim().is_empty()`).
pub fn is_blank(value: &str) -> (r: bool)
    ensures
        r == is_blank_text(value@),
{
    whitespace_profile(value).0
}

/// A version label: non-empty, without whitespace.
pub fn is_version(value: &str) -> (r: bool)
    ensures
        r == (value@.len() > 0 && has_no_white_space(value@)),
{
    !value.is_empty() && whitespace_profile(value).1
}

/// A path segment is acceptable: non-empty, not `..`, and not `.` when
/// `reject_dot` is set.
pub open spec fn path_segment_ok(seg: Seq<u8>, reject_dot: bool) -> bool {
    &&& seg.len() > 0
    &&& seg != seq![46u8, 46u8]
    &&& reject_dot ==> seg != seq![46u8]
}

pub open spec fn all_segments_ok(s: Seq<Seq<u8>>, reject_dot: bool) -> bool {
    forall|k: int| 0 <= k < s.len() ==> path_segment_ok(#[trigger] s[k], reject_dot)
}

fn segment_ok(b: &[u8], lo: usize, hi: usize, reject_dot: bool) -> (r: bool)
    requires
        lo <= hi <= b@.len(),
    ensures
        r == path_segment_ok(b@.subrange(lo as int, hi as int), reject_dot),
{
    let ghost s = b@.subrange(lo as int, hi as int);
    if lo == hi {
        return false;
    }
    if hi - lo == 2 && b[lo] == 46 && b[lo + 1] == 46 {
        assert(s =~= seq![46u8, 46u8]);
        return false;
    }
    if reject_dot && hi - lo == 1 && b[lo] == 46 {
        assert(s =~= seq![46u8]);
        return false;
    }
    assert(s != seq![46u8, 46u8]) by {
        if s.len() == 2 {
            assert(s[0] != 46 || s[1] != 46);
        }
    }
    assert(reject_dot ==> s != seq![46u8]) by {
        if reject_dot && s.len() == 1 {
            assert(s[0] != 46);
        }
    }
    true
}

/// Whether every `/`-separated segment of `b` is acceptable.
fn segments_ok(b: &[u8], reject_dot: bool) -> (r: bool)
    ensures
        r == all_segments_ok(split_from(b@, 47, 0), reject_dot),
{
    let mut start: usize = 0;
    loop
        invariant
            0 <= start <= b@.len(),
            all_segments_ok(split_from(b@, 47, 0), reject_dot) == all_segments_ok(
                split_from(b@, 47, start as int),
                reject_dot,
            ),
        decreases b@.len() - start,
    {
        let j = find_sep(b, 47, start);
        proof {
            lemma_next_sep_bounds(b@, 47, start as int);
        }
        let ok = segment_ok(b, start, j, reject_dot);
        let ghost rest = split_from(b@, 47, start as int);
        if j >= b.len() {
            assert(rest =~= seq![b@.subrange(start as int, b@.len() as int)]);
            assert(all_segments_ok(rest, reject_dot) == ok) by {
                assert(rest[0] == b@.subrange(start as int, b@.len() as int));
                if ok {
                    assert forall|k: int| 0 <= k < rest.len() implies path_segment_ok(#[trigger] rest[k], reject_dot) by {
                        assert(k == 0);
                    }
                }
            }
            return ok;
        }
        let ghost tail = split_from(b@, 47, j + 1);
        assert(rest == seq![b@.subrange(start as int, j as int)] + tail);
        if !ok {
            assert(!path_segment_ok(rest[0], reject_dot));
            return false;
        }
        assert(all_segments_ok(rest, reject_dot) == all_segments_ok(tail, reject_dot)) by {
            if all_segments_ok(tail, reject_dot) {
                assert forall|k: int| 0 <= k < rest.len() implies path_segment_ok(#[trigger] rest[k], reject_dot) by {
                    if k > 0 {
                        assert(rest[k] == tail[k - 1]);
                    }
                }
            }
            if all_segments_ok(rest, reject_dot) {
                assert forall|k: int| 0 <= k < tail.len() implies path_segment_ok(#[trigger] tail[k], reject_dot) by {
                    assert(rest[k + 1] == tail[k]);
                }
            }
        }
        start = j + 1;
    }
}

/// Whether no byte of `b` is `x`.
fn lacks_byte(b: &[u8], x: u8) -> (r: bool)
    ensures
        r == (forall|i: int| 0 <= i < b@.len() ==> #[trigger] b@[i] != x),
{
    let mut i: usize = 0;
    while i < b.len()
        invariant
            i <= b@.len(),
            forall|k: int| 0 <= k < i ==> #[trigger] b@[k] != x,
        decreases b@.len() - i,
    {
        if b[i] == x {
            return false;
        }
        i = i + 1;
    }
    true
}

/// A project-relative path as environment authoring accepts it: non-empty,
/// no leading or trailing whitespace, not absolute, no backslash, and no
/// empty or `..` segment.
pub open spec fn is_project_relative_path(value: Seq<char>) -> bool {
    let b = vstd::utf8::encode_utf8(value);
    &&& value.len() > 0
    &&& !is_white_space(value[0])
    &&& !is_white_space(value.last())
    &&& b[0] != 47
    &&& forall|i: int| 0 <= i < b.len() ==> #[trigger] b[i] != 92
    &&& all_segments_ok(split_from(b, 47, 0), false)
}

/// A project-relative path as environment authoring accepts it.
pub fn valid_project_relative_path(value: &str) -> (r: bool)
    ensures
        r == is_project_relative_path(value@),
{
    if value.is_empty() {
        return false;
    }
    let edges = whitespace_profile(value).2;
    if !edges {
        return false;
    }
    let b = value.as_bytes();
    proof {
        vstd::utf8::encode_utf8_valid_utf8(value@);
        if b@.len() == 0 {
            assert(value@.len() == 0) by {
                vstd::utf8::encode_utf8_decode_utf8(value@);
            }
        }
    }
    if b.len() == 0 {
        return false;
    }
    b[0] != 47 && lacks_byte(b, 92) && segments_ok(b, false)
}

/// A manifest source path: non-empty, not absolute, no backslash, and no
/// empty, `.` or `..` component.
pub open spec fn is_normalized_source_path(b: Seq<u8>) -> bool {
    &&& b.len() > 0
    &&& b[0] != 47
    &&& forall|i: int| 0 <= i < b.len() ==> #[trigger] b[i] != 92
    &&& all_segments_ok(split_from(b, 47, 0), true)
}

/// The message of a rejected manifest source path.
pub open spec fn source_path_message() -> Seq<char> {
    "project-content sourcePath must be a normalized project-relative path"@
}

/// Accept a normalized project-relative manifest source path.
pub fn validate_source_path(path: &str) -> (r: Result<(), String>)
    ensures
        is_normalized_source_path(path.spec_bytes()) <==> r is Ok,
        r matches Err(m) ==> m@ == source_path_message(),
{
    let b = path.as_bytes();
    if b.len() == 0 || b[0] == 47 || !lacks_byte(b, 92) || !segments_ok(b, true) {
        let mut m = String::new();
        m.append("project-content sourcePath must be a normalized project-relative path");
        Err(m)
    } else {
        Ok(())
    }
}

/// An ASCII letter or digit.
pub open spec fn is_alnum_byte(b: u8) -> bool {
    (48 <= b <= 57) || (65 <= b <= 90) || (97 <= b <= 122)
}

/// A byte of an authored behavior id: a letter, digit, `.`, `-` or `_`.
pub open spec fn is_authored_id_byte(b: u8) -> bool {
    is_alnum_byte(b) || b == 46 || b == 45 || b == 95
}

/// A byte of an authored source module: a letter, digit, `@`, `/`, `.`, `-`
/// or `_`.
pub open spec fn is_source_module_byte(b: u8) -> bool {
    is_alnum_byte(b) || b == 64 || b == 47 || b == 46 || b == 45 || b == 95
}

/// A visible ASCII character (`u8::is_ascii_graphic`).
pub open spec fn is_graphic_byte(b: u8) -> bool {
    33 <= b <= 126
}

fn all_authored_id_bytes(b: &[u8]) -> (r: bool)
    ensures
        r == (forall|i: int| 0 <= i < b@.len() ==> is_authored_id_byte(#[trigger] b@[i])),
{
    let mut i: usize = 0;
    while i < b.len()
        invariant
            i <= b@.len(),
            forall|k: int| 0 <= k < i ==> is_authored_id_byte(#[trigger] b@[k]),
        decreases b@.len() - i,
    {
        let c = b[i];
        if !((48 <= c && c <= 57) || (65 <= c && c <= 90) || (97 <= c && c <= 122) || c == 46 || c
            == 45 || c == 95) {
            assert(!is_authored_id_byte(b@[i as int]));
            return false;
        }
        i = i + 1;
    }
    true
}

fn all_source_module_bytes(b: &[u8]) -> (r: bool)
    ensures
        r == (forall|i: int| 0 <= i < b@.len() ==> is_source_module_byte(#[trigger] b@[i])),
{
    let mut i: usize = 0;
    while i < b.len()
        invariant
            i <= b@.len(),
            forall|k: int| 0 <= k < i ==> is_source_module_byte(#[trigger] b@[k]),
        decreases b@.len() - i,
    {
        let c = b[i];
        if !((48 <= c && c <= 57) || (65 <= c && c <= 90) || (97 <= c && c <= 122) || c == 64 || c
            == 47 || c == 46 || c == 45 || c == 95) {
            assert(!is_source_module_byte(b@[i as int]));
            return false;
        }
        i = i + 1;
    }
    true
}

fn all_graphic_bytes(b: &[u8]) -> (r: bool)
    ensures
        r == (forall|i: int| 0 <= i < b@.len() ==> is_graphic_byte(#[trigger] b@[i])),
{
    let mut i: usize = 0;
    while i < b.len()
        invariant
            i <= b@.len(),
            forall|k: int| 0 <= k < i ==> is_graphic_byte(#[trigger] b@[k]),
        decreases b@.len() - i,
    {
        let c = b[i];
        if !(33 <= c && c <= 126) {
            assert(!is_graphic_byte(b@[i as int]));
            return false;
        }
        i = i + 1;
    }
    true
}

/// An authored behavior id: 1 to 96 bytes, each a letter, digit, `.`, `-`
/// or `_`.
pub open spec fn is_authored_id_bytes(b: Seq<u8>) -> bool {
    &&& 0 < b.len() <= 96
    &&& forall|i: int| 0 <= i < b.len() ==> is_authored_id_byte(#[trigger] b[i])
}

/// An authored source module: 1 to 256 bytes, each a letter, digit, `@`,
/// `/`, `.`, `-` or `_`.
pub open spec fn is_source_module_bytes(b: Seq<u8>) -> bool {
    &&& 0 < b.len() <= 256
    &&& forall|i: int| 0 <= i < b.len() ==> is_source_module_byte(#[trigger] b[i])
}

/// An authored source path: 1 to 512 visible ASCII characters, relative,
/// without backslash, and without an empty, `.` or `..` segment.
pub open spec fn is_source_path_bytes(b: Seq<u8>) -> bool {
    &&& 0 < b.len() <= 512
    &&& b[0] != 47
    &&& forall|i: int| 0 <= i < b.len() ==> #[trigger] b[i] != 92
    &&& forall|i: int| 0 <= i < b.len() ==> is_graphic_byte(#[trigger] b[i])
    &&& all_segments_ok(split_from(b, 47, 0), true)
}

/// Whether `value` is a valid authored behavior id.
pub fn is_authored_id(value: &str) -> (r: bool)
    ensures
        r == is_authored_id_bytes(value.spec_bytes()),
{
    let b = value.as_bytes();
    if b.len() == 0 || b.len() > 96 {
        return false;
    }
    all_authored_id_bytes(b)
}

/// Whether `value` is a valid authored source module.
pub fn valid_authored_source_module(value: &str) -> (r: bool)
    ensures
        r == is_source_module_bytes(value.spec_bytes()),
{
    let b = value.as_bytes();
    if b.len() == 0 || b.len() > 256 {
        return false;
    }
    all_source_module_bytes(b)
}

/// Whether `value` is a valid authored source path.
pub fn valid_authored_source_path(value: &str) -> (r: bool)
    ensures
        r == is_source_path_bytes(value.spec_bytes()),
{
    let b = value.as_bytes();
    if b.len() == 0 || b.len() > 512 {
        return false;
    }
    b[0] != 47 && lacks_byte(b, 92) && all_graphic_bytes(b) && segments_ok(b, true)
}

} // verus!
