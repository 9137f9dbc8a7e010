//! Event filter descriptors of the gameplay fabric: the value kinds a filter
//! field may carry, the canonical identity of a descriptor, and the checks a
//! filter shape must pass before a provider's predicate is consulted.

use vstd::prelude::*;
use vstd::string::StringSliceAdditionalSpecFns;
use crate::fabric_codec::{
    identity_text, str_parts, stable_identity, schema_domain, gameplay_schema_hash,
    gameplay_canonical_codec_id, GameplayCodecError,
};
use crate::ids::{is_blank, is_blank_text};

verus! {

/// Lexicographic order of byte strings (`<` on `str` and `String`): the first
/// differing byte decides, and a proper prefix comes first.
pub open spec fn bytes_lt(a: Seq<u8>, b: Seq<u8>) -> bool
    decreases a.len(),
{
    if a.len() == 0 {
        b.len() > 0
    } else if b.len() == 0 {
        false
    } else if a[0] != b[0] {
        a[0] < b[0]
    } else {
        bytes_lt(a.drop_first(), b.drop_first())
    }
}

pub proof fn lemma_bytes_lt_irreflexive(a: Seq<u8>)
    ensures
        !bytes_lt(a, a),
    decreases a.len(),
{
    if a.len() > 0 {
        lemma_bytes_lt_irreflexive(a.drop_first());
    }
}

pub proof fn lemma_bytes_lt_asymmetric(a: Seq<u8>, b: Seq<u8>)
    ensures
        !(bytes_lt(a, b) && bytes_lt(b, a)),
    decreases a.len(),
{
    if a.len() > 0 && b.len() > 0 && a[0] == b[0] {
        lemma_bytes_lt_asymmetric(a.drop_first(), b.drop_first());
    }
}

pub proof fn lemma_bytes_lt_transitive(a: Seq<u8>, b: Seq<u8>, c: Seq<u8>)
    requires
        bytes_lt(a, b),
        bytes_lt(b, c),
    ensures
        bytes_lt(a, c),
    decreases a.len(),
{
    if a.len() > 0 && b.len() > 0 && c.len() > 0 && a[0] == b[0] && b[0] == c[0] {
        lemma_bytes_lt_transitive(a.drop_first(), b.drop_first(), c.drop_first());
    }
}

pub proof fn lemma_bytes_lt_total(a: Seq<u8>, b: Seq<u8>)
    ensures
        a == b || bytes_lt(a, b) || bytes_lt(b, a),
    decreases a.len(),
{
    if a.len() > 0 && b.len() > 0 && a[0] == b[0] {
        lemma_bytes_lt_total(a.drop_first(), b.drop_first());
        if a.drop_first() == b.drop_first() {
            assert(a =~= seq![a[0]] + a.drop_first());
            assert(b =~= seq![b[0]] + b.drop_first());
        }
    } else if a.len() == 0 && b.len() == 0 {
        assert(a =~= b);
    }
}

/// Whether `a` sorts before `b` by bytes.
pub fn bytes_less(a: &[u8], b: &[u8]) -> (r: bool)
    ensures
        r == bytes_lt(a@, b@),
{
    let mut i: usize = 0;
    assert(a@.skip(0) =~= a@ && b@.skip(0) =~= b@);
    while i < a.len() && i < b.len()
        invariant
            i <= a@.len(),
            i <= b@.len(),
            bytes_lt(a@, b@) == bytes_lt(a@.skip(i as int), b@.skip(i as int)),
        decreases a@.len() - i,
    {
        if a[i] != b[i] {
            return a[i] < b[i];
        }
        proof {
            assert(a@.skip(i as int).drop_first() =~= a@.skip(i + 1));
            assert(b@.skip(i as int).drop_first() =~= b@.skip(i + 1));
        }
        i = i + 1;
    }
    i < b.len()
}

/// The kind of value a filter field carries.
#[derive(Debug, Clone, Copy, PartialEq, Eq, Structural, PartialOrd, Ord)]
pub enum GameplayEventFilterValueKind {
    Entity,
    PrefabPart,
    Text,
    Boolean,
    Integer,
    Number,
    Vector3,
}

/// The canonical name of a value kind.
pub open spec fn kind_identity(kind: GameplayEventFilterValueKind) -> Seq<char> {
    match kind {
        GameplayEventFilterValueKind::Entity => "entity"@,
        GameplayEventFilterValueKind::PrefabPart => "prefabPart"@,
        GameplayEventFilterValueKind::Text => "text"@,
        GameplayEventFilterValueKind::Boolean => "boolean"@,
        GameplayEventFilterValueKind::Integer => "integer"@,
        GameplayEventFilterValueKind::Number => "number"@,
        GameplayEventFilterValueKind::Vector3 => "vector3"@,
    }
}

impl GameplayEventFilterValueKind {
    /// The canonical name of this kind.
    pub fn identity(self) -> (r: &'static str)
        ensures
            r@ == kind_identity(self),
    {
        match self {
            GameplayEventFilterValueKind::Entity => "entity",
            GameplayEventFilterValueKind::PrefabPart => "prefabPart",
            GameplayEventFilterValueKind::Text => "text",
            GameplayEventFilterValueKind::Boolean => "boolean",
            GameplayEventFilterValueKind::Integer => "integer",
            GameplayEventFilterValueKind::Number => "number",
            GameplayEventFilterValueKind::Vector3 => "vector3",
        }
    }
}

/// The name and kind of one field of a filter request.
#[derive(Debug, Clone, PartialEq, Eq)]
pub struct GameplayEventFilterFieldShape {
    pub name: String,
    pub value_kind: GameplayEventFilterValueKind,
}

/// One field a published event exposes for filtering.
#[derive(Debug, Clone, PartialEq, Eq)]
pub struct GameplayEventFilterFieldDescriptor {
    pub name: String,
    pub value_kind: GameplayEventFilterValueKind,
    pub required: bool,
}

/// The filter fields a published event exposes.
#[derive(Debug, Clone, PartialEq, Eq)]
pub struct GameplayEventFilterDescriptor {
    pub fields: Vec<GameplayEventFilterFieldDescriptor>,
}

/// The UTF-8 bytes of a field's name, by which fields are ordered.
pub open spec fn name_bytes(f: GameplayEventFilterFieldDescriptor) -> Seq<u8> {
    vstd::utf8::encode_utf8(f.name@)
}

/// Field `i` comes before field `j`: its name sorts first, or the names are
/// equal and `i` came first.
pub open spec fn precedes(fs: Seq<GameplayEventFilterFieldDescriptor>, i: int, j: int) -> bool {
    bytes_lt(name_bytes(fs[i]), name_bytes(fs[j])) || (name_bytes(fs[i]) == name_bytes(fs[j])
        && i < j)
}

/// `p` lists the indices `0..m` of `fs`, each once, in the order of `precedes`.
pub open spec fn orders_prefix(
    fs: Seq<GameplayEventFilterFieldDescriptor>,
    p: Seq<usize>,
    m: int,
) -> bool {
    &&& p.len() == m
    &&& forall|k: int| 0 <= k < p.len() ==> #[trigger] p[k] < m
    &&& forall|i: usize| i < m ==> p.contains(i)
    &&& forall|a: int, b: int| 0 <= a < b < p.len() ==> precedes(fs, #[trigger] p[a] as int, #[trigger] p[b] as int)
}

/// `p` is the stable arrangement of `fs` by name.
pub open spec fn is_name_order(fs: Seq<GameplayEventFilterFieldDescriptor>, p: Seq<usize>) -> bool {
    orders_prefix(fs, p, fs.len() as int)
}

/// The stable arrangement of the fields by name (there is exactly one, see
/// `lemma_name_order_unique`).
pub open spec fn name_order(fs: Seq<GameplayEventFilterFieldDescriptor>) -> Seq<usize> {
    choose|p: Seq<usize>| is_name_order(fs, p)
}

/// The fields taken in the order `p`.
pub open spec fn arranged(
    fs: Seq<GameplayEventFilterFieldDescriptor>,
    p: Seq<usize>,
) -> Seq<GameplayEventFilterFieldDescriptor> {
    p.map_values(|i: usize| fs[i as int])
}

pub open spec fn required_text(required: bool) -> Seq<char> {
    if required {
        "required"@
    } else {
        "optional"@
    }
}

/// `|name:kind:required` or `|name:kind:optional`.
pub open spec fn field_text(f: GameplayEventFilterFieldDescriptor) -> Seq<char> {
    "|"@ + f.name@ + ":"@ + kind_identity(f.value_kind) + ":"@ + required_text(f.required)
}

pub open spec fn fields_text(s: Seq<GameplayEventFilterFieldDescriptor>) -> Seq<char>
    decreases s.len(),
{
    if s.len() == 0 {
        Seq::empty()
    } else {
        fields_text(s.drop_last()) + field_text(s.last())
    }
}

/// The canonical text of a descriptor: the filter domain, then every field
/// in name order.
pub open spec fn filter_canonical_text(fs: Seq<GameplayEventFilterFieldDescriptor>) -> Seq<char> {
    "asha.gameplay-event-filter.v1"@ + fields_text(arranged(fs, name_order(fs)))
}

/// The identity of a descriptor: the stable identity of its canonical text.
pub open spec fn filter_identity_text(fs: Seq<GameplayEventFilterFieldDescriptor>) -> Seq<char> {
    identity_text(seq![vstd::utf8::encode_utf8(filter_canonical_text(fs))])
}

proof fn lemma_precedes_strict(fs: Seq<GameplayEventFilterFieldDescriptor>, i: int, j: int)
    ensures
        !precedes(fs, i, i),
        !(precedes(fs, i, j) && precedes(fs, j, i)),
{
    lemma_bytes_lt_irreflexive(name_bytes(fs[i]));
    lemma_bytes_lt_irreflexive(name_bytes(fs[j]));
    lemma_bytes_lt_asymmetric(name_bytes(fs[i]), name_bytes(fs[j]));
}

/// Two sequences each strictly ordered by `precedes` that hold the same
/// members are equal.
proof fn lemma_sorted_same_members(
    fs: Seq<GameplayEventFilterFieldDescriptor>,
    p: Seq<usize>,
    q: Seq<usize>,
)
    requires
        forall|a: int, b: int| 0 <= a < b < p.len() ==> precedes(fs, #[trigger] p[a] as int, #[trigger] p[b] as int),
        forall|a: int, b: int| 0 <= a < b < q.len() ==> precedes(fs, #[trigger] q[a] as int, #[trigger] q[b] as int),
        forall|x: usize| p.contains(x) <==> q.contains(x),
    ensures
        p == q,
    decreases p.len(),
{
    if p.len() == 0 {
        if q.len() > 0 {
            assert(q.contains(q[0]));
        }
        assert(p =~= q);
    } else {
        assert(p.contains(p[0]));
        assert(q.contains(p[0]));
        let j = choose|j: int| 0 <= j < q.len() && q[j] == p[0];
        assert(q.contains(q[0]));
        let i = choose|i: int| 0 <= i < p.len() && p[i] == q[0];
        if j > 0 {
            assert(precedes(fs, q[0] as int, q[j] as int));
            lemma_precedes_strict(fs, p[0] as int, p[i] as int);
            if i > 0 {
                assert(precedes(fs, p[0] as int, p[i] as int));
            }
            assert(false);
        }
        let p1 = p.drop_first();
        let q1 = q.drop_first();
        assert forall|x: usize| p1.contains(x) <==> q1.contains(x) by {
            if p1.contains(x) {
                let a = choose|a: int| 0 <= a < p1.len() && p1[a] == x;
                assert(p.contains(x) && p[a + 1] == x);
                lemma_precedes_strict(fs, p[0] as int, x as int);
                assert(precedes(fs, p[0] as int, p[a + 1] as int));
                assert(x != p[0]);
                assert(q.contains(x));
                let b = choose|b: int| 0 <= b < q.len() && q[b] == x;
                assert(b != 0);
                assert(q1[b - 1] == x);
            }
            if q1.contains(x) {
                let a = choose|a: int| 0 <= a < q1.len() && q1[a] == x;
                assert(q.contains(x) && q[a + 1] == x);
                lemma_precedes_strict(fs, q[0] as int, x as int);
                assert(precedes(fs, q[0] as int, q[a + 1] as int));
                assert(x != q[0]);
                assert(p.contains(x));
                let b = choose|b: int| 0 <= b < p.len() && p[b] == x;
                assert(b != 0);
                assert(p1[b - 1] == x);
            }
        }
        assert forall|a: int, b: int| 0 <= a < b < p1.len() implies precedes(fs, #[trigger] p1[a] as int, #[trigger] p1[b] as int) by {
            assert(p1[a] == p[a + 1] && p1[b] == p[b + 1]);
        }
        assert forall|a: int, b: int| 0 <= a < b < q1.len() implies precedes(fs, #[trigger] q1[a] as int, #[trigger] q1[b] as int) by {
            assert(q1[a] == q[a + 1] && q1[b] == q[b + 1]);
        }
        lemma_sorted_same_members(fs, p1, q1);
        assert(p =~= seq![p[0]] + p1);
        assert(q =~= seq![q[0]] + q1);
    }
}

/// A descriptor's fields have exactly one stable arrangement by name.
pub proof fn lemma_name_order_unique(
    fs: Seq<GameplayEventFilterFieldDescriptor>,
    p: Seq<usize>,
    q: Seq<usize>,
)
    requires
        is_name_order(fs, p),
        is_name_order(fs, q),
    ensures
        p == q,
{
    assert forall|x: usize| p.contains(x) <==> q.contains(x) by {
        if p.contains(x) {
            let a = choose|a: int| 0 <= a < p.len() && p[a] == x;
            assert(p[a] < fs.len());
        }
        if q.contains(x) {
            let a = choose|a: int| 0 <= a < q.len() && q[a] == x;
            assert(q[a] < fs.len());
        }
    }
    lemma_sorted_same_members(fs, p, q);
}

/// Inserting field `m` before the first listed field whose name sorts after
/// its own extends the arrangement of `0..m` to one of `0..m+1`.
proof fn lemma_insert_in_order(
    fs: Seq<GameplayEventFilterFieldDescriptor>,
    p: Seq<usize>,
    m: usize,
    pos: int,
)
    requires
        orders_prefix(fs, p, m as int),
        m < fs.len(),
        0 <= pos <= p.len(),
        forall|t: int| 0 <= t < pos ==> !bytes_lt(name_bytes(fs[m as int]), name_bytes(fs[#[trigger] p[t] as int])),
        pos < p.len() ==> bytes_lt(name_bytes(fs[m as int]), name_bytes(fs[p[pos] as int])),
    ensures
        orders_prefix(fs, p.insert(pos, m), m + 1),
{
    let q = p.insert(pos, m);
    let nm = name_bytes(fs[m as int]);
    assert forall|k: int| 0 <= k < q.len() implies #[trigger] q[k] < m + 1 by {
        if k < pos {
            assert(q[k] == p[k]);
        } else if k > pos {
            assert(q[k] == p[k - 1]);
        }
    }
    assert forall|i: usize| i < m + 1 implies q.contains(i) by {
        if i == m {
            assert(q[pos] == m);
        } else {
            assert(p.contains(i));
            let a = choose|a: int| 0 <= a < p.len() && p[a] == i;
            if a < pos {
                assert(q[a] == i);
            } else {
                assert(q[a + 1] == i);
            }
        }
    }
    assert forall|a: int, b: int| 0 <= a < b < q.len() implies precedes(fs, #[trigger] q[a] as int, #[trigger] q[b] as int) by {
        if b < pos {
            assert(q[a] == p[a] && q[b] == p[b]);
        } else if a > pos {
            assert(q[a] == p[a - 1] && q[b] == p[b - 1]);
        } else if a < pos && b > pos {
            assert(q[a] == p[a] && q[b] == p[b - 1]);
        } else if a == pos {
            // the new field before a later one
            let y = p[b - 1];
            assert(q[b] == y);
            assert(bytes_lt(nm, name_bytes(fs[p[pos] as int])));
            if b - 1 > pos {
                assert(precedes(fs, p[pos] as int, p[b - 1] as int));
                if bytes_lt(name_bytes(fs[p[pos] as int]), name_bytes(fs[y as int])) {
                    lemma_bytes_lt_transitive(nm, name_bytes(fs[p[pos] as int]), name_bytes(fs[y as int]));
                }
            }
            assert(bytes_lt(nm, name_bytes(fs[y as int])));
        } else {
            // an earlier field before the new one
            assert(b == pos && a < pos);
            let x = p[a];
            assert(q[a] == x && q[b] == m);
            assert(!bytes_lt(nm, name_bytes(fs[x as int])));
            lemma_bytes_lt_total(nm, name_bytes(fs[x as int]));
            assert(x < m);
        }
    }
}

/// The first position at or after `k` in `p` whose field name sorts after
/// that of field `x`, or the end of `p`.
pub open spec fn insert_pos(
    fs: Seq<GameplayEventFilterFieldDescriptor>,
    p: Seq<usize>,
    x: int,
    k: int,
) -> int
    decreases p.len() - k,
{
    if k >= p.len() {
        p.len() as int
    } else if bytes_lt(name_bytes(fs[x]), name_bytes(fs[p[k] as int])) {
        k
    } else {
        insert_pos(fs, p, x, k + 1)
    }
}

proof fn lemma_insert_pos(fs: Seq<GameplayEventFilterFieldDescriptor>, p: Seq<usize>, x: int, k: int)
    requires
        0 <= k <= p.len(),
        forall|t: int| 0 <= t < k ==> !bytes_lt(name_bytes(fs[x]), name_bytes(fs[#[trigger] p[t] as int])),
    ensures
        k <= insert_pos(fs, p, x, k) <= p.len(),
        forall|t: int| 0 <= t < insert_pos(fs, p, x, k) ==> !bytes_lt(name_bytes(fs[x]), name_bytes(fs[#[trigger] p[t] as int])),
        insert_pos(fs, p, x, k) < p.len() ==> bytes_lt(name_bytes(fs[x]), name_bytes(fs[p[insert_pos(fs, p, x, k)] as int])),
    decreases p.len() - k,
{
    if k < p.len() && !bytes_lt(name_bytes(fs[x]), name_bytes(fs[p[k] as int])) {
        lemma_insert_pos(fs, p, x, k + 1);
    }
}

/// The fields `0..m` of `fs` have an arrangement by name.
proof fn lemma_prefix_order_exists(fs: Seq<GameplayEventFilterFieldDescriptor>, m: int) -> (p: Seq<usize>)
    requires
        0 <= m <= fs.len() <= usize::MAX,
    ensures
        orders_prefix(fs, p, m),
    decreases m,
{
    if m == 0 {
        Seq::empty()
    } else {
        let q = lemma_prefix_order_exists(fs, m - 1);
        lemma_insert_pos(fs, q, m - 1, 0);
        let pos = insert_pos(fs, q, m - 1, 0);
        lemma_insert_in_order(fs, q, (m - 1) as usize, pos);
        q.insert(pos, (m - 1) as usize)
    }
}

/// Every descriptor's fields have an arrangement by name.
pub proof fn lemma_name_order_exists(fs: Seq<GameplayEventFilterFieldDescriptor>)
    requires
        fs.len() <= usize::MAX,
    ensures
        is_name_order(fs, name_order(fs)),
{
    let p = lemma_prefix_order_exists(fs, fs.len() as int);
    assert(is_name_order(fs, p));
}

/// Two lists of fields, each strictly ordered by name, that hold the same
/// fields are equal.
proof fn lemma_sorted_fields_equal(
    s: Seq<GameplayEventFilterFieldDescriptor>,
    t: Seq<GameplayEventFilterFieldDescriptor>,
)
    requires
        forall|a: int, b: int| 0 <= a < b < s.len() ==> bytes_lt(name_bytes(#[trigger] s[a]), name_bytes(#[trigger] s[b])),
        forall|a: int, b: int| 0 <= a < b < t.len() ==> bytes_lt(name_bytes(#[trigger] t[a]), name_bytes(#[trigger] t[b])),
        forall|x: GameplayEventFilterFieldDescriptor| s.contains(x) <==> t.contains(x),
    ensures
        s == t,
    decreases s.len(),
{
    if s.len() == 0 {
        if t.len() > 0 {
            assert(t.contains(t[0]));
        }
        assert(s =~= t);
    } else {
        assert(s.contains(s[0]));
        let j = choose|j: int| 0 <= j < t.len() && t[j] == s[0];
        assert(t.contains(t[0]));
        let i = choose|i: int| 0 <= i < s.len() && s[i] == t[0];
        if j > 0 {
            assert(bytes_lt(name_bytes(t[0]), name_bytes(t[j])));
            lemma_bytes_lt_irreflexive(name_bytes(s[0]));
            lemma_bytes_lt_asymmetric(name_bytes(s[0]), name_bytes(s[i]));
            if i > 0 {
                assert(bytes_lt(name_bytes(s[0]), name_bytes(s[i])));
            }
            assert(false);
        }
        let s1 = s.drop_first();
        let t1 = t.drop_first();
        assert forall|x: GameplayEventFilterFieldDescriptor| s1.contains(x) <==> t1.contains(x) by {
            if s1.contains(x) {
                let a = choose|a: int| 0 <= a < s1.len() && s1[a] == x;
                assert(s[a + 1] == x && s.contains(x));
                assert(bytes_lt(name_bytes(s[0]), name_bytes(s[a + 1])));
                lemma_bytes_lt_irreflexive(name_bytes(x));
                let b = choose|b: int| 0 <= b < t.len() && t[b] == x;
                assert(b != 0);
                assert(t1[b - 1] == x);
            }
            if t1.contains(x) {
                let a = choose|a: int| 0 <= a < t1.len() && t1[a] == x;
                assert(t[a + 1] == x && t.contains(x));
                assert(bytes_lt(name_bytes(t[0]), name_bytes(t[a + 1])));
                lemma_bytes_lt_irreflexive(name_bytes(x));
                let b = choose|b: int| 0 <= b < s.len() && s[b] == x;
                assert(b != 0);
                assert(s1[b - 1] == x);
            }
        }
        assert forall|a: int, b: int| 0 <= a < b < s1.len() implies bytes_lt(name_bytes(#[trigger] s1[a]), name_bytes(#[trigger] s1[b])) by {
            assert(s1[a] == s[a + 1] && s1[b] == s[b + 1]);
        }
        assert forall|a: int, b: int| 0 <= a < b < t1.len() implies bytes_lt(name_bytes(#[trigger] t1[a]), name_bytes(#[trigger] t1[b])) by {
            assert(t1[a] == t[a + 1] && t1[b] == t[b + 1]);
        }
        lemma_sorted_fields_equal(s1, t1);
        assert(s =~= seq![s[0]] + s1);
        assert(t =~= seq![t[0]] + t1);
    }
}

/// No two fields share a name.
pub open spec fn names_distinct(fs: Seq<GameplayEventFilterFieldDescriptor>) -> bool {
    forall|i: int, j: int| 0 <= i < j < fs.len() ==> (#[trigger] fs[i]).name@ != (#[trigger] fs[j]).name@
}

/// With distinct names, the arrangement by name is strictly sorted by name
/// and holds exactly the descriptor's fields.
proof fn lemma_arranged_sorted(fs: Seq<GameplayEventFilterFieldDescriptor>)
    requires
        fs.len() <= usize::MAX,
        names_distinct(fs),
    ensures
        ({
            let a = arranged(fs, name_order(fs));
            &&& forall|x: int, y: int| 0 <= x < y < a.len() ==> bytes_lt(name_bytes(#[trigger] a[x]), name_bytes(#[trigger] a[y]))
            &&& forall|f: GameplayEventFilterFieldDescriptor| a.contains(f) <==> fs.contains(f)
        }),
{
    lemma_name_order_exists(fs);
    let p = name_order(fs);
    let a = arranged(fs, p);
    assert forall|x: int, y: int| 0 <= x < y < a.len() implies bytes_lt(name_bytes(#[trigger] a[x]), name_bytes(#[trigger] a[y])) by {
        assert(precedes(fs, p[x] as int, p[y] as int));
        if name_bytes(fs[p[x] as int]) == name_bytes(fs[p[y] as int]) {
            vstd::utf8::encode_utf8_decode_utf8(fs[p[x] as int].name@);
            vstd::utf8::encode_utf8_decode_utf8(fs[p[y] as int].name@);
            lemma_bytes_lt_irreflexive(name_bytes(fs[p[x] as int]));
            assert(p[x] < p[y]);
            assert(fs[p[x] as int].name@ == fs[p[y] as int].name@);
            assert(false);
        }
    }
    assert forall|f: GameplayEventFilterFieldDescriptor| a.contains(f) <==> fs.contains(f) by {
        if a.contains(f) {
            let x = choose|x: int| 0 <= x < a.len() && a[x] == f;
            assert(p[x] < fs.len());
            assert(fs[p[x] as int] == f);
        }
        if fs.contains(f) {
            let i = choose|i: int| 0 <= i < fs.len() && fs[i] == f;
            assert(p.contains(i as usize));
            let x = choose|x: int| 0 <= x < p.len() && p[x] == i as usize;
            assert(a[x] == f);
        }
    }
}

/// Listing the same fields in another order does not change a descriptor's
/// identity, as long as no two fields share a name.
pub proof fn law_identity_ignores_field_order(
    fs: Seq<GameplayEventFilterFieldDescriptor>,
    gs: Seq<GameplayEventFilterFieldDescriptor>,
)
    requires
        fs.len() <= usize::MAX,
        gs.len() <= usize::MAX,
        names_distinct(fs),
        names_distinct(gs),
        forall|f: GameplayEventFilterFieldDescriptor| fs.contains(f) <==> gs.contains(f),
    ensures
        filter_identity_text(fs) == filter_identity_text(gs),
{
    lemma_arranged_sorted(fs);
    lemma_arranged_sorted(gs);
    lemma_sorted_fields_equal(arranged(fs, name_order(fs)), arranged(gs, name_order(gs)));
}

/// The position before the first listed field whose name sorts after that of
/// field `m`.
fn insertion_point(
    fields: &Vec<GameplayEventFilterFieldDescriptor>,
    order: &Vec<usize>,
    m: usize,
) -> (pos: usize)
    requires
        m < fields@.len(),
        forall|k: int| 0 <= k < order@.len() ==> #[trigger] order@[k] < fields@.len(),
    ensures
        pos <= order@.len(),
        forall|t: int| 0 <= t < pos ==> !bytes_lt(name_bytes(fields@[m as int]), name_bytes(fields@[#[trigger] order@[t] as int])),
        pos < order@.len() ==> bytes_lt(name_bytes(fields@[m as int]), name_bytes(fields@[order@[pos as int] as int])),
{
    let key = fields[m].name.as_str().as_bytes();
    let mut pos: usize = 0;
    while pos < order.len()
        invariant
            pos <= order@.len(),
            m < fields@.len(),
            forall|k: int| 0 <= k < order@.len() ==> #[trigger] order@[k] < fields@.len(),
            key@ == name_bytes(fields@[m as int]),
            forall|t: int| 0 <= t < pos ==> !bytes_lt(name_bytes(fields@[m as int]), name_bytes(fields@[#[trigger] order@[t] as int])),
        decreases order@.len() - pos,
    {
        let other = fields[order[pos]].name.as_str().as_bytes();
        if bytes_less(key, other) {
            return pos;
        }
        pos = pos + 1;
    }
    pos
}

impl GameplayEventFilterDescriptor {
    /// The identity of this descriptor: the stable identity of
    /// `asha.gameplay-event-filter.v1` followed by `|name:kind:required` (or
    /// `optional`) for every field, fields ordered by name and, among equal
    /// names, as listed.
    pub fn identity(&self) -> (r: String)
        ensures
            r@ == filter_identity_text(self.fields@),
    {
        let ghost fs = self.fields@;
        let n = self.fields.len();
        let mut order: Vec<usize> = Vec::new();
        let mut m: usize = 0;
        assert(orders_prefix(fs, order@, 0));
        while m < n
            invariant
                m <= n == fs.len(),
                fs == self.fields@,
                orders_prefix(fs, order@, m as int),
            decreases n - m,
        {
            let pos = insertion_point(&self.fields, &order, m);
            proof {
                lemma_insert_in_order(fs, order@, m, pos as int);
            }
            order.insert(pos, m);
            m = m + 1;
        }
        proof {
            lemma_name_order_unique(fs, order@, name_order(fs));
        }
        let ghost arr = arranged(fs, order@);
        let mut canonical = String::new();
        canonical.append("asha.gameplay-event-filter.v1");
        let mut k: usize = 0;
        proof {
            assert(arr.take(0) =~= Seq::<GameplayEventFilterFieldDescriptor>::empty());
        }
        while k < n
            invariant
                k <= n == fs.len() == order@.len(),
                fs == self.fields@,
                arr == arranged(fs, order@),
                orders_prefix(fs, order@, n as int),
                canonical@ == "asha.gameplay-event-filter.v1"@ + fields_text(arr.take(k as int)),
            decreases n - k,
        {
            let f = &self.fields[order[k]];
            canonical.append("|");
            canonical.append(f.name.as_str());
            canonical.append(":");
            canonical.append(f.value_kind.identity());
            canonical.append(":");
            if f.required {
                canonical.append("required");
            } else {
                canonical.append("optional");
            }
            proof {
                assert(arr.take(k + 1).drop_last() =~= arr.take(k as int));
                assert(arr.take(k + 1).last() == *f);
                assert(canonical@ =~= "asha.gameplay-event-filter.v1"@ + fields_text(arr.take(k + 1)));
            }
            k = k + 1;
        }
        assert(arr.take(n as int) =~= arr);
        let parts = [canonical.as_str()];
        let r = stable_identity(&parts);
        assert(str_parts(parts@) =~= seq![vstd::utf8::encode_utf8(filter_canonical_text(fs))]);
        r
    }
}

/// `k` is the first field of `fs` named `name`.
pub open spec fn first_named_at(fs: Seq<GameplayEventFilterFieldDescriptor>, name: Seq<char>, k: int) -> bool {
    &&& 0 <= k < fs.len()
    &&& fs[k].name@ == name
    &&& forall|j: int| 0 <= j < k ==> (#[trigger] fs[j]).name@ != name
}

/// Some field of `fs` is named `name`.
pub open spec fn publishes(fs: Seq<GameplayEventFilterFieldDescriptor>, name: Seq<char>) -> bool {
    exists|k: int| 0 <= k < fs.len() && (#[trigger] fs[k]).name@ == name
}

/// The index of the first field named `name` (when `publishes`).
pub open spec fn first_named(fs: Seq<GameplayEventFilterFieldDescriptor>, name: Seq<char>) -> int {
    choose|k: int| first_named_at(fs, name, k)
}

/// Some shape of `shapes` before `i` is named `name`.
pub open spec fn named_before(shapes: Seq<GameplayEventFilterFieldShape>, i: int, name: Seq<char>) -> bool {
    exists|j: int| 0 <= j < i && (#[trigger] shapes[j]).name@ == name
}

pub open spec fn duplicated_message(name: Seq<char>) -> Seq<char> {
    "filter field `"@ + name + "` is duplicated"@
}

pub open spec fn unpublished_message(name: Seq<char>) -> Seq<char> {
    "filter field `"@ + name + "` is not published"@
}

pub open spec fn kind_message(
    name: Seq<char>,
    wanted: GameplayEventFilterValueKind,
    given: GameplayEventFilterValueKind,
) -> Seq<char> {
    "filter field `"@ + name + "` requires `"@ + kind_identity(wanted) + "` rather than `"@
        + kind_identity(given) + "`"@
}

pub open spec fn missing_message(name: Seq<char>) -> Seq<char> {
    "required filter field `"@ + name + "` is missing"@
}

/// What is wrong with shape `i`, given the shapes before it: a repeated
/// name, a name the descriptor does not publish, or a kind other than that of
/// the first descriptor field of that name.
pub open spec fn shape_error(
    fs: Seq<GameplayEventFilterFieldDescriptor>,
    shapes: Seq<GameplayEventFilterFieldShape>,
    i: int,
) -> Option<Seq<char>> {
    let name = shapes[i].name@;
    if named_before(shapes, i, name) {
        Some(duplicated_message(name))
    } else if !publishes(fs, name) {
        Some(unpublished_message(name))
    } else if fs[first_named(fs, name)].value_kind != shapes[i].value_kind {
        Some(kind_message(name, fs[first_named(fs, name)].value_kind, shapes[i].value_kind))
    } else {
        None
    }
}

/// The error of the first of the first `n` shapes that has one.
pub open spec fn first_shape_error(
    fs: Seq<GameplayEventFilterFieldDescriptor>,
    shapes: Seq<GameplayEventFilterFieldShape>,
    n: int,
) -> Option<Seq<char>>
    decreases n,
{
    if n <= 0 {
        None
    } else {
        match first_shape_error(fs, shapes, n - 1) {
            Some(m) => Some(m),
            None => shape_error(fs, shapes, n - 1),
        }
    }
}

/// Some shape is named `name`.
pub open spec fn shapes_name(shapes: Seq<GameplayEventFilterFieldShape>, name: Seq<char>) -> bool {
    exists|j: int| 0 <= j < shapes.len() && (#[trigger] shapes[j]).name@ == name
}

/// The first of the first `n` descriptor fields that is required and that no
/// shape names.
pub open spec fn first_missing(
    fs: Seq<GameplayEventFilterFieldDescriptor>,
    shapes: Seq<GameplayEventFilterFieldShape>,
    n: int,
) -> Option<Seq<char>>
    decreases n,
{
    if n <= 0 {
        None
    } else {
        match first_missing(fs, shapes, n - 1) {
            Some(m) => Some(m),
            None => if fs[n - 1].required && !shapes_name(shapes, fs[n - 1].name@) {
                Some(missing_message(fs[n - 1].name@))
            } else {
                None
            },
        }
    }
}

/// The verdict on a filter shape: the first shape error, else the first
/// missing required field, else acceptance.
pub open spec fn shape_verdict(
    fs: Seq<GameplayEventFilterFieldDescriptor>,
    shapes: Seq<GameplayEventFilterFieldShape>,
) -> Result<(), Seq<char>> {
    match first_shape_error(fs, shapes, shapes.len() as int) {
        Some(m) => Err(m),
        None => match first_missing(fs, shapes, fs.len() as int) {
            Some(m) => Err(m),
            None => Ok(()),
        },
    }
}

/// A well-formed descriptor has at least one field, no blank name, and no
/// name twice.
pub open spec fn filter_well_formed(fs: Seq<GameplayEventFilterFieldDescriptor>) -> bool {
    &&& fs.len() > 0
    &&& forall|i: int| 0 <= i < fs.len() ==> !is_blank_text((#[trigger] fs[i]).name@)
    &&& forall|i: int, j: int| 0 <= i < j < fs.len() ==> (#[trigger] fs[i]).name@ != (#[trigger] fs[j]).name@
}

fn named_before_exec(shapes: &[GameplayEventFilterFieldShape], i: usize) -> (r: bool)
    requires
        i < shapes@.len(),
    ensures
        r == named_before(shapes@, i as int, shapes@[i as int].name@),
{
    let mut j: usize = 0;
    while j < i
        invariant
            j <= i < shapes@.len(),
            forall|t: int| 0 <= t < j ==> (#[trigger] shapes@[t]).name@ != shapes@[i as int].name@,
        decreases i - j,
    {
        if shapes[j].name == shapes[i].name {
            return true;
        }
        j = j + 1;
    }
    false
}

fn first_field_named(fields: &Vec<GameplayEventFilterFieldDescriptor>, name: &String) -> (k: usize)
    ensures
        k <= fields@.len(),
        k < fields@.len() ==> first_named_at(fields@, name@, k as int),
        k == fields@.len() ==> !publishes(fields@, name@),
{
    let mut k: usize = 0;
    while k < fields.len()
        invariant
            k <= fields@.len(),
            forall|j: int| 0 <= j < k ==> (#[trigger] fields@[j]).name@ != name@,
        decreases fields@.len() - k,
    {
        if fields[k].name == *name {
            return k;
        }
        k = k + 1;
    }
    k
}

fn shapes_name_exec(shapes: &[GameplayEventFilterFieldShape], name: &String) -> (r: bool)
    ensures
        r == shapes_name(shapes@, name@),
{
    let mut j: usize = 0;
    while j < shapes.len()
        invariant
            j <= shapes@.len(),
            forall|t: int| 0 <= t < j ==> (#[trigger] shapes@[t]).name@ != name@,
        decreases shapes@.len() - j,
    {
        if shapes[j].name == *name {
            return true;
        }
        j = j + 1;
    }
    false
}

impl GameplayEventFilterDescriptor {
    /// Check a filter request's shape against this descriptor: every shape
    /// named once, published, and of the published kind; every required
    /// field present. The error is the message of the first failure.
    pub fn validates(&self, fields: &[GameplayEventFilterFieldShape]) -> (r: Result<(), String>)
        ensures
            r is Ok <==> shape_verdict(self.fields@, fields@) is Ok,
            r matches Err(m) ==> shape_verdict(self.fields@, fields@) == Err::<(), Seq<char>>(m@),
    {
        let ghost fs = self.fields@;
        let ghost sh = fields@;
        let mut i: usize = 0;
        while i < fields.len()
            invariant
                i <= sh.len(),
                fs == self.fields@,
                sh == fields@,
                first_shape_error(fs, sh, i as int) is None,
            decreases sh.len() - i,
        {
            let name = &fields[i].name;
            if named_before_exec(fields, i) {
                let mut m = String::new();
                m.append("filter field `");
                m.append(name.as_str());
                m.append("` is duplicated");
                assert(m@ =~= duplicated_message(name@));
                assert(first_shape_error(fs, sh, i + 1) == Some(duplicated_message(name@)));
                proof {
                    lemma_first_error_stays(fs, sh, i + 1, sh.len() as int);
                }
                return Err(m);
            }
            let k = first_field_named(&self.fields, name);
            if k == self.fields.len() {
                let mut m = String::new();
                m.append("filter field `");
                m.append(name.as_str());
                m.append("` is not published");
                assert(m@ =~= unpublished_message(name@));
                assert(first_shape_error(fs, sh, i + 1) == Some(unpublished_message(name@)));
                proof {
                    lemma_first_error_stays(fs, sh, i + 1, sh.len() as int);
                }
                return Err(m);
            }
            proof {
                assert(publishes(fs, name@));
                assert(first_named_at(fs, name@, first_named(fs, name@)));
                lemma_first_named_unique(fs, name@, k as int, first_named(fs, name@));
            }
            let wanted = self.fields[k].value_kind;
            let given = fields[i].value_kind;
            if wanted != given {
                let mut m = String::new();
                m.append("filter field `");
                m.append(name.as_str());
                m.append("` requires `");
                m.append(wanted.identity());
                m.append("` rather than `");
                m.append(given.identity());
                m.append("`");
                assert(m@ =~= kind_message(name@, wanted, given));
                assert(first_shape_error(fs, sh, i + 1) == Some(kind_message(name@, wanted, given)));
                proof {
                    lemma_first_error_stays(fs, sh, i + 1, sh.len() as int);
                }
                return Err(m);
            }
            i = i + 1;
        }
        let mut k: usize = 0;
        while k < self.fields.len()
            invariant
                k <= fs.len(),
                fs == self.fields@,
                sh == fields@,
                first_shape_error(fs, sh, sh.len() as int) is None,
                first_missing(fs, sh, k as int) is None,
            decreases fs.len() - k,
        {
            let d = &self.fields[k];
            if d.required && !shapes_name_exec(fields, &d.name) {
                let mut m = String::new();
                m.append("required filter field `");
                m.append(d.name.as_str());
                m.append("` is missing");
                assert(m@ =~= missing_message(d.name@));
                assert(first_missing(fs, sh, k + 1) == Some(missing_message(d.name@)));
                proof {
                    lemma_first_missing_stays(fs, sh, k + 1, fs.len() as int);
                }
                return Err(m);
            }
            k = k + 1;
        }
        Ok(())
    }

    /// At least one field, every name non-blank, and no name twice.
    pub fn is_well_formed(&self) -> (r: bool)
        ensures
            r == filter_well_formed(self.fields@),
    {
        let n = self.fields.len();
        if n == 0 {
            return false;
        }
        let mut i: usize = 0;
        while i < n
            invariant
                i <= n == self.fields@.len(),
                forall|a: int| 0 <= a < i ==> !is_blank_text((#[trigger] self.fields@[a]).name@),
                forall|a: int, b: int| 0 <= a < b < i ==> (#[trigger] self.fields@[a]).name@ != (#[trigger] self.fields@[b]).name@,
            decreases n - i,
        {
            if is_blank(self.fields[i].name.as_str()) {
                return false;
            }
            let mut j: usize = 0;
            while j < i
                invariant
                    j <= i < n == self.fields@.len(),
                    forall|a: int| 0 <= a < j ==> (#[trigger] self.fields@[a]).name@ != self.fields@[i as int].name@,
                decreases i - j,
            {
                if self.fields[j].name == self.fields[i].name {
                    return false;
                }
                j = j + 1;
            }
            i = i + 1;
        }
        true
    }
}

proof fn lemma_first_named_unique(fs: Seq<GameplayEventFilterFieldDescriptor>, name: Seq<char>, a: int, b: int)
    requires
        first_named_at(fs, name, a),
        first_named_at(fs, name, b),
    ensures
        a == b,
{
    if a < b {
        assert(fs[a].name@ == name);
    } else if b < a {
        assert(fs[b].name@ == name);
    }
}

proof fn lemma_first_error_stays(
    fs: Seq<GameplayEventFilterFieldDescriptor>,
    shapes: Seq<GameplayEventFilterFieldShape>,
    i: int,
    n: int,
)
    requires
        0 <= i <= n,
        first_shape_error(fs, shapes, i) is Some,
    ensures
        first_shape_error(fs, shapes, n) == first_shape_error(fs, shapes, i),
    decreases n - i,
{
    if i < n {
        lemma_first_error_stays(fs, shapes, i, n - 1);
    }
}

proof fn lemma_first_missing_stays(
    fs: Seq<GameplayEventFilterFieldDescriptor>,
    shapes: Seq<GameplayEventFilterFieldShape>,
    i: int,
    n: int,
)
    requires
        0 <= i <= n,
        first_missing(fs, shapes, i) is Some,
    ensures
        first_missing(fs, shapes, n) == first_missing(fs, shapes, i),
    decreases n - i,
{
    if i < n {
        lemma_first_missing_stays(fs, shapes, i, n - 1);
    }
}

/// Whether a codec's committed descriptor is consistent with its declared
/// contract: the schema hash is that of the descriptor, the codec id is the
/// one bound to that hash, and a filter, where there is one, is well formed.
pub fn descriptor_matches_contract(
    schema_hash: &str,
    codec_id: &str,
    schema_descriptor: &str,
    filter: Option<&GameplayEventFilterDescriptor>,
) -> (r: bool)
    ensures
        r == (schema_hash@ == identity_text(seq![schema_domain(), schema_descriptor.spec_bytes()])
            && codec_id@ == "asha.canonical-codec."@ + schema_hash@ && (filter matches Some(d)
            ==> filter_well_formed(d.fields@))),
{
    let expected_hash = gameplay_schema_hash(schema_descriptor);
    if expected_hash != schema_hash.to_owned() {
        return false;
    }
    let expected_codec = gameplay_canonical_codec_id(schema_hash);
    if expected_codec != codec_id.to_owned() {
        return false;
    }
    match filter {
        Some(d) => d.is_well_formed(),
        None => true,
    }
}

/// What a filter request comes to once its shape has been checked.
#[derive(Debug, Clone, Copy, PartialEq, Eq, Structural)]
pub enum FilterGate {
    /// No filter is published and none was asked for: every payload matches.
    MatchesAll,
    /// The shape is valid: the provider's predicate decides, field by field.
    EvaluateFields,
}

pub open spec fn no_filter_message() -> Seq<char> {
    "the published event does not expose filter fields"@
}

/// Check a filter request against the filter a published event exposes
/// (`descriptor`, if any). Without a descriptor only the empty request is
/// accepted; with one, the shape must pass `validates`. Refusals are
/// `InvalidFilter` errors for `contract`.
pub fn filter_request_gate(
    contract: &str,
    descriptor: Option<&GameplayEventFilterDescriptor>,
    shapes: &[GameplayEventFilterFieldShape],
) -> (r: Result<FilterGate, GameplayCodecError>)
    ensures
        descriptor is None && shapes@.len() == 0 ==> r == Ok::<FilterGate, GameplayCodecError>(
            FilterGate::MatchesAll,
        ),
        descriptor is None && shapes@.len() > 0 ==> (r matches Err(
            GameplayCodecError::InvalidFilter { contract: c, message: m },
        ) && c@ == contract@ && m@ == no_filter_message()),
        descriptor matches Some(d) ==> (shape_verdict(d.fields@, shapes@) is Ok ==> r == Ok::<
            FilterGate,
            GameplayCodecError,
        >(FilterGate::EvaluateFields)),
        descriptor matches Some(d) ==> (shape_verdict(d.fields@, shapes@) matches Err(msg) ==> (r matches Err(
            GameplayCodecError::InvalidFilter { contract: c, message: m },
        ) && c@ == contract@ && m@ == msg)),
{
    match descriptor {
        None => {
            if shapes.len() == 0 {
                Ok(FilterGate::MatchesAll)
            } else {
                Err(
                    GameplayCodecError::InvalidFilter {
                        contract: contract.to_owned(),
                        message: "the published event does not expose filter fields".to_owned(),
                    },
                )
            }
        },
        Some(d) => match d.validates(shapes) {
            Ok(()) => Ok(FilterGate::EvaluateFields),
            Err(message) => Err(
                GameplayCodecError::InvalidFilter { contract: contract.to_owned(), message },
            ),
        },
    }
}

} // verus!
