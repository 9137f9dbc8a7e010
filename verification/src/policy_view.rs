//! The read-only world view a policy reasons over, projected from authority
//! state. The projection redacts: tombstoned entities and entities created by
//! diagnostic tooling never appear. Entities come in ascending id order, and
//! each asset an entity references appears once, in ascending id order, with
//! the catalog's status for it or `Missing`.
//!
//! Transforms are floating-point data; the view records whether an entity
//! is spatial, and its caller attaches the transform by entity id.

use vstd::prelude::*;
use vstd::utf8::encode_utf8;
use crate::fabric_filter::bytes_lt;
use crate::topology::{sort_strings, sorted_texts, text_leq, texts};

verus! {

#[derive(Debug, Clone, Copy, PartialEq, Eq, Structural)]
pub enum EntityLifecycle {
    Active,
    Disabled,
    Tombstoned,
}

/// An asset reference: its id and the prefix of its kind.
#[derive(Debug, Clone, PartialEq, Eq)]
pub struct AssetRefFacts {
    pub id: String,
    pub kind_prefix: String,
}

/// Where an authority entity came from.
#[derive(Debug, Clone, PartialEq, Eq)]
pub enum EntitySourceFacts {
    SceneBootstrap { node: u64 },
    RuntimeCreated,
    Imported { asset: AssetRefFacts },
    PolicyProposed,
    DiagnosticTooling,
}

/// An authority entity as the projection reads it: its core, whether it has a
/// transform, and its asset-binding capability, if any.
#[derive(Debug, Clone, PartialEq, Eq)]
pub struct EntityFacts {
    pub id: u64,
    pub lifecycle: EntityLifecycle,
    pub source: EntitySourceFacts,
    pub labels: Vec<u64>,
    pub has_transform: bool,
    pub asset_binding: Option<AssetRefFacts>,
}

#[derive(Debug, Clone, Copy, PartialEq, Eq, Structural)]
pub enum PolicyEntityLifecycle {
    Active,
    Disabled,
}

#[derive(Debug, Clone, PartialEq, Eq)]
pub enum PolicyEntitySource {
    SceneNode { node: u64 },
    Runtime,
    Imported { asset: String },
    Policy,
}

/// One entity of the view.
#[derive(Debug, Clone, PartialEq, Eq)]
pub struct PolicyEntityRow {
    pub id: u64,
    pub lifecycle: PolicyEntityLifecycle,
    pub source: PolicyEntitySource,
    pub labels: Vec<u64>,
    pub spatial: bool,
}

/// The catalog's resolution of an asset.
#[derive(Debug, Clone, Copy, PartialEq, Eq, Structural)]
pub enum PolicyAssetStatus {
    Resolved,
    Stale,
    Missing,
}

/// The catalog's status of one asset id.
#[derive(Debug, Clone, PartialEq, Eq)]
pub struct AssetStatusEntry {
    pub asset_id: String,
    pub status: PolicyAssetStatus,
}

/// One asset of the view.
#[derive(Debug, Clone, PartialEq, Eq)]
pub struct PolicyAssetRow {
    pub id: String,
    pub kind: String,
    pub status: PolicyAssetStatus,
}

#[derive(Debug, Clone, Copy, PartialEq, Eq, Structural)]
pub struct PolicyWorldSummary {
    pub tick: u64,
    pub active_entities: u32,
    pub spatial_entities: u32,
    pub asset_count: u32,
    pub missing_assets: u32,
}

#[derive(Debug, Clone, PartialEq, Eq)]
pub struct PolicyWorldProjection {
    pub tick: u64,
    pub entities: Vec<PolicyEntityRow>,
    pub assets: Vec<PolicyAssetRow>,
    pub summary: PolicyWorldSummary,
}

// ---------------------------------------------------------------------------
// What the view shows.

/// Index `j` is listed in `order`.
#[verifier::opaque]
pub open spec fn listed(order: Seq<usize>, j: int) -> bool {
    exists|k: int| 0 <= k < order.len() && order[k] as int == j
}

/// Policies see the entity: it is not tombstoned and not diagnostic tooling.
pub open spec fn visible(e: EntityFacts) -> bool {
    e.lifecycle != EntityLifecycle::Tombstoned && !(e.source is DiagnosticTooling)
}

pub open spec fn source_ok(row: PolicyEntitySource, src: EntitySourceFacts) -> bool {
    match src {
        EntitySourceFacts::SceneBootstrap { node } => row == PolicyEntitySource::SceneNode { node },
        EntitySourceFacts::RuntimeCreated => row == PolicyEntitySource::Runtime,
        EntitySourceFacts::Imported { asset } => row matches PolicyEntitySource::Imported { asset: a } && a@ == asset.id@,
        EntitySourceFacts::PolicyProposed => row == PolicyEntitySource::Policy,
        EntitySourceFacts::DiagnosticTooling => false,
    }
}

/// The row shows the entity.
pub open spec fn row_of(row: PolicyEntityRow, e: EntityFacts) -> bool {
    &&& row.id == e.id
    &&& row.lifecycle == (if e.lifecycle == EntityLifecycle::Active {
        PolicyEntityLifecycle::Active
    } else {
        PolicyEntityLifecycle::Disabled
    })
    &&& source_ok(row.source, e.source)
    &&& row.labels@ == e.labels@
    &&& row.spatial == e.has_transform
}

/// The asset an entity references: its binding, else the asset it was
/// imported from.
pub open spec fn entity_asset(e: EntityFacts) -> Option<AssetRefFacts> {
    match e.asset_binding {
        Some(a) => Some(a),
        None => match e.source {
            EntitySourceFacts::Imported { asset } => Some(asset),
            _ => None,
        },
    }
}

/// Visible entity `j` references asset `aid`.
pub open spec fn refers(es: Seq<EntityFacts>, j: int, aid: Seq<char>) -> bool {
    &&& 0 <= j < es.len()
    &&& visible(es[j])
    &&& entity_asset(es[j]) matches Some(a) && a.id@ == aid
}

/// The catalog's status of `aid`: its first entry, else `Missing`.
pub open spec fn status_of(ss: Seq<AssetStatusEntry>, aid: Seq<char>) -> PolicyAssetStatus {
    if exists|i: int| 0 <= i < ss.len() && (#[trigger] ss[i]).asset_id@ == aid {
        ss[choose|i: int| 0 <= i < ss.len() && (#[trigger] ss[i]).asset_id@ == aid && forall|t: int| 0 <= t < i ==> (#[trigger] ss[t]).asset_id@ != aid].status
    } else {
        PolicyAssetStatus::Missing
    }
}

pub open spec fn ids_distinct(es: Seq<EntityFacts>) -> bool {
    forall|a: int, b: int| 0 <= a < b < es.len() ==> (#[trigger] es[a]).id != (#[trigger] es[b]).id
}

pub open spec fn count_active(rs: Seq<PolicyEntityRow>) -> nat
    decreases rs.len(),
{
    if rs.len() == 0 {
        0
    } else {
        count_active(rs.drop_last()) + if rs.last().lifecycle == PolicyEntityLifecycle::Active { 1nat } else { 0nat }
    }
}

pub open spec fn count_spatial(rs: Seq<PolicyEntityRow>) -> nat
    decreases rs.len(),
{
    if rs.len() == 0 {
        0
    } else {
        count_spatial(rs.drop_last()) + if rs.last().spatial { 1nat } else { 0nat }
    }
}

pub open spec fn count_missing(rs: Seq<PolicyAssetRow>) -> nat
    decreases rs.len(),
{
    if rs.len() == 0 {
        0
    } else {
        count_missing(rs.drop_last()) + if rs.last().status == PolicyAssetStatus::Missing { 1nat } else { 0nat }
    }
}

// ---------------------------------------------------------------------------
// Entities.

fn visible_exec(e: &EntityFacts) -> (b: bool)
    ensures
        b == visible(*e),
{
    e.lifecycle != EntityLifecycle::Tombstoned && !matches!(e.source, EntitySourceFacts::DiagnosticTooling)
}

proof fn lemma_insert_keeps_order(es: Seq<EntityFacts>, old_r: Seq<usize>, r: Seq<usize>, p: int, j: int)
    requires
        0 <= p <= old_r.len(),
        0 <= j < es.len(),
        j <= usize::MAX,
        visible(es[j]),
        r == old_r.insert(p, j as usize),
        forall|k: int| 0 <= k < old_r.len() ==> (#[trigger] old_r[k]) < j && visible(es[old_r[k] as int]),
        forall|k: int, l: int| 0 <= k < l < old_r.len() ==> es[(#[trigger] old_r[k]) as int].id < es[(#[trigger] old_r[l]) as int].id,
        forall|t: int| 0 <= t < j && visible(#[trigger] es[t]) ==> listed(old_r, t),
        forall|k: int| 0 <= k < p ==> es[(#[trigger] old_r[k]) as int].id < es[j].id,
        p < old_r.len() ==> es[old_r[p] as int].id > es[j].id,
    ensures
        forall|k: int| 0 <= k < r.len() ==> (#[trigger] r[k]) < j + 1 && visible(es[r[k] as int]),
        forall|k: int, l: int| 0 <= k < l < r.len() ==> es[(#[trigger] r[k]) as int].id < es[(#[trigger] r[l]) as int].id,
        forall|t: int| 0 <= t < j + 1 && visible(#[trigger] es[t]) ==> listed(r, t),
{
    reveal(listed);
    assert forall|k: int, l: int| 0 <= k < l < r.len() implies es[(#[trigger] r[k]) as int].id < es[(#[trigger] r[l]) as int].id by {
        if l < p {
            assert(r[k] == old_r[k] && r[l] == old_r[l]);
        } else if l == p {
            assert(r[k] == old_r[k]);
        } else if k == p {
            assert(r[l] == old_r[l - 1]);
            if l - 1 > p {
                assert(es[old_r[p] as int].id < es[old_r[l - 1] as int].id);
            }
        } else if k < p {
            assert(r[k] == old_r[k] && r[l] == old_r[l - 1]);
        } else {
            assert(r[k] == old_r[k - 1] && r[l] == old_r[l - 1]);
        }
    }
    assert forall|t: int| 0 <= t < j + 1 && visible(#[trigger] es[t]) implies listed(r, t) by {
        if t == j {
            assert(r[p] as int == j);
        } else {
            let k = choose|k: int| 0 <= k < old_r.len() && old_r[k] as int == t;
            if k < p {
                assert(r[k] == old_r[k]);
            } else {
                assert(r[k + 1] == old_r[k]);
            }
        }
    }
    assert forall|k: int| 0 <= k < r.len() implies (#[trigger] r[k]) < j + 1 && visible(es[r[k] as int]) by {
        if k < p {
            assert(r[k] == old_r[k]);
        } else if k > p {
            assert(r[k] == old_r[k - 1]);
        }
    }
}

/// The visible entities, by index, in ascending id order.
fn visible_in_id_order(es: &Vec<EntityFacts>) -> (r: Vec<usize>)
    requires
        ids_distinct(es@),
    ensures
        forall|k: int| 0 <= k < r@.len() ==> (#[trigger] r@[k]) < es@.len() && visible(es@[r@[k] as int]),
        forall|k: int, l: int| 0 <= k < l < r@.len() ==> es@[(#[trigger] r@[k]) as int].id < es@[(#[trigger] r@[l]) as int].id,
        forall|j: int| 0 <= j < es@.len() && visible(#[trigger] es@[j]) ==> listed(r@, j),
{
    let mut r: Vec<usize> = Vec::new();
    let mut j: usize = 0;
    while j < es.len()
        invariant
            j <= es@.len(),
            ids_distinct(es@),
            forall|k: int| 0 <= k < r@.len() ==> (#[trigger] r@[k]) < j && visible(es@[r@[k] as int]),
            forall|k: int, l: int| 0 <= k < l < r@.len() ==> es@[(#[trigger] r@[k]) as int].id < es@[(#[trigger] r@[l]) as int].id,
            forall|t: int| 0 <= t < j && visible(#[trigger] es@[t]) ==> listed(r@, t),
        decreases es@.len() - j,
    {
        if visible_exec(&es[j]) {
            let id = es[j].id;
            let mut p: usize = 0;
            while p < r.len() && es[r[p]].id < id
                invariant
                    p <= r@.len(),
                    forall|k: int| 0 <= k < r@.len() ==> (#[trigger] r@[k]) < j,
                    j < es@.len(),
                    id == es@[j as int].id,
                    forall|k: int| 0 <= k < p ==> es@[(#[trigger] r@[k]) as int].id < id,
                decreases r@.len() - p,
            {
                p = p + 1;
            }
            let ghost old_r = r@;
            proof {
                if p < old_r.len() {
                    assert(old_r[p as int] < j);
                    assert(es@[old_r[p as int] as int].id != id);
                }
            }
            r.insert(p, j);
            proof {
                lemma_insert_keeps_order(es@, old_r, r@, p as int, j as int);
            }
        }
        j = j + 1;
    }
    r
}

fn entity_row(e: &EntityFacts) -> (row: PolicyEntityRow)
    requires
        visible(*e),
    ensures
        row_of(row, *e),
{
    let lifecycle = if e.lifecycle == EntityLifecycle::Active {
        PolicyEntityLifecycle::Active
    } else {
        PolicyEntityLifecycle::Disabled
    };
    let source = match &e.source {
        EntitySourceFacts::SceneBootstrap { node } => PolicyEntitySource::SceneNode { node: *node },
        EntitySourceFacts::RuntimeCreated => PolicyEntitySource::Runtime,
        EntitySourceFacts::Imported { asset } => PolicyEntitySource::Imported { asset: asset.id.clone() },
        EntitySourceFacts::PolicyProposed => PolicyEntitySource::Policy,
        EntitySourceFacts::DiagnosticTooling => PolicyEntitySource::Policy,
    };
    let mut labels: Vec<u64> = Vec::new();
    let mut i: usize = 0;
    while i < e.labels.len()
        invariant
            i <= e.labels@.len(),
            labels@ == e.labels@.take(i as int),
        decreases e.labels@.len() - i,
    {
        labels.push(e.labels[i]);
        assert(labels@ =~= e.labels@.take(i + 1));
        i = i + 1;
    }
    assert(e.labels@.take(i as int) =~= e.labels@);
    PolicyEntityRow { id: e.id, lifecycle, source, labels, spatial: e.has_transform }
}

// ---------------------------------------------------------------------------
// Assets.

fn entity_asset_exec(e: &EntityFacts) -> (r: Option<(String, String)>)
    ensures
        match r {
            Some(x) => entity_asset(*e) matches Some(a) && x.0@ == a.id@ && x.1@ == a.kind_prefix@,
            None => entity_asset(*e) is None,
        },
{
    match &e.asset_binding {
        Some(a) => Some((a.id.clone(), a.kind_prefix.clone())),
        None => match &e.source {
            EntitySourceFacts::Imported { asset } => Some((asset.id.clone(), asset.kind_prefix.clone())),
            _ => None,
        },
    }
}

fn position_of(xs: &Vec<String>, x: &String) -> (r: Option<usize>)
    ensures
        r is None <==> !texts(xs@).contains(x@),
        r matches Some(m) ==> m < xs@.len() && xs@[m as int]@ == x@,
{
    let mut m: usize = 0;
    while m < xs.len()
        invariant
            m <= xs@.len(),
            forall|k: int| 0 <= k < m ==> (#[trigger] xs@[k])@ != x@,
        decreases xs@.len() - m,
    {
        if xs[m] == *x {
            assert(texts(xs@)[m as int] == x@);
            return Some(m);
        }
        m = m + 1;
    }
    proof {
        if texts(xs@).contains(x@) {
            let k = choose|k: int| 0 <= k < texts(xs@).len() && texts(xs@)[k] == x@;
            assert(xs@[k]@ == x@);
        }
    }
    None
}

fn status_lookup(ss: &Vec<AssetStatusEntry>, aid: &String) -> (r: PolicyAssetStatus)
    ensures
        r == status_of(ss@, aid@),
{
    let mut i: usize = 0;
    while i < ss.len()
        invariant
            i <= ss@.len(),
            forall|t: int| 0 <= t < i ==> (#[trigger] ss@[t]).asset_id@ != aid@,
        decreases ss@.len() - i,
    {
        if ss[i].asset_id == *aid {
            proof {
                let c = choose|c: int| 0 <= c < ss@.len() && (#[trigger] ss@[c]).asset_id@ == aid@ && forall|t: int| 0 <= t < c ==> (#[trigger] ss@[t]).asset_id@ != aid@;
                assert(0 <= i < ss@.len() && ss@[i as int].asset_id@ == aid@ && forall|t: int| 0 <= t < i ==> (#[trigger] ss@[t]).asset_id@ != aid@);
                if c < i {
                } else if c > i {
                    assert(ss@[i as int].asset_id@ != aid@);
                }
            }
            return ss[i].status;
        }
        i = i + 1;
    }
    PolicyAssetStatus::Missing
}

/// Position `p` of `order` is the first visible referrer of `aid`.
pub open spec fn first_referrer_at(es: Seq<EntityFacts>, order: Seq<usize>, p: int, aid: Seq<char>) -> bool {
    &&& 0 <= p < order.len()
    &&& refers(es, order[p] as int, aid)
    &&& forall|q: int| 0 <= q < p ==> !refers(es, (#[trigger] order[q]) as int, aid)
}

/// `aid` was first referenced before position `limit`, by an entity of kind
/// `kind`.
pub open spec fn seen_with_kind(es: Seq<EntityFacts>, order: Seq<usize>, limit: int, aid: Seq<char>, kind: Seq<char>) -> bool {
    exists|p: int| #![trigger order[p]]
        p < limit && first_referrer_at(es, order, p, aid) && entity_asset(es[order[p] as int])->0.kind_prefix@ == kind
}

/// The asset ids the visible entities reference, each once at its first
/// referrer in `order`, with that referrer's kind.
fn first_seen_assets(es: &Vec<EntityFacts>, order: &Vec<usize>) -> (r: (Vec<String>, Vec<String>))
    requires
        forall|k: int| 0 <= k < order@.len() ==> (#[trigger] order@[k]) < es@.len() && visible(es@[order@[k] as int]),
    ensures
        r.0@.len() == r.1@.len(),
        texts(r.0@).no_duplicates(),
        forall|m: int| 0 <= m < r.0@.len() ==> #[trigger] seen_with_kind(es@, order@, order@.len() as int, r.0@[m]@, r.1@[m]@),
        forall|p: int| 0 <= p < order@.len() && (entity_asset(es@[(#[trigger] order@[p]) as int]) is Some) ==>
            texts(r.0@).contains(entity_asset(es@[order@[p] as int])->0.id@),
{
    let mut ids: Vec<String> = Vec::new();
    let mut kinds: Vec<String> = Vec::new();
    let mut t: usize = 0;
    while t < order.len()
        invariant
            t <= order@.len(),
            forall|k: int| 0 <= k < order@.len() ==> (#[trigger] order@[k]) < es@.len() && visible(es@[order@[k] as int]),
            ids@.len() == kinds@.len(),
            texts(ids@).no_duplicates(),
            forall|m: int| 0 <= m < ids@.len() ==> #[trigger] seen_with_kind(es@, order@, t as int, ids@[m]@, kinds@[m]@),
            forall|p: int| 0 <= p < t && (entity_asset(es@[(#[trigger] order@[p]) as int]) is Some) ==>
                texts(ids@).contains(entity_asset(es@[order@[p] as int])->0.id@),
        decreases order@.len() - t,
    {
        let ghost ids0 = ids@;
        let ghost kinds0 = kinds@;
        let e = &es[order[t]];
        match entity_asset_exec(e) {
            Some((aid, kind)) => {
                if position_of(&ids, &aid).is_none() {
                    let ghost a = aid@;
                    ids.push(aid);
                    kinds.push(kind);
                    proof {
                        assert(texts(ids@) =~= texts(ids0).push(a));
                        crate::authoring::lemma_push_keeps_distinct_values(texts(ids0), a);
                        assert forall|m: int| 0 <= m < ids@.len() implies #[trigger] seen_with_kind(es@, order@, t + 1, ids@[m]@, kinds@[m]@) by {
                            if m < ids0.len() {
                                assert(ids@[m] == ids0[m] && kinds@[m] == kinds0[m]);
                                assert(seen_with_kind(es@, order@, t as int, ids0[m]@, kinds0[m]@));
                                let p = choose|p: int| #![trigger order@[p]]
                                    p < t && first_referrer_at(es@, order@, p, ids0[m]@) && entity_asset(es@[order@[p] as int])->0.kind_prefix@ == kinds0[m]@;
                                assert(p < t + 1);
                            } else {
                                assert forall|q: int| 0 <= q < t implies !refers(es@, (#[trigger] order@[q]) as int, a) by {
                                    if refers(es@, order@[q] as int, a) {
                                        assert(texts(ids0).contains(a));
                                    }
                                }
                                assert(first_referrer_at(es@, order@, t as int, a));
                                assert(order@[t as int] == order@[t as int]);
                            }
                        }
                        assert forall|p: int| 0 <= p < t + 1 && (entity_asset(es@[(#[trigger] order@[p]) as int]) is Some) implies
                            texts(ids@).contains(entity_asset(es@[order@[p] as int])->0.id@) by {
                            if p < t {
                                let x = entity_asset(es@[order@[p] as int])->0.id@;
                                assert(texts(ids0).contains(x));
                                let k = choose|k: int| 0 <= k < texts(ids0).len() && texts(ids0)[k] == x;
                                assert(texts(ids@)[k] == x);
                            } else {
                                assert(texts(ids@)[ids0.len() as int] == a);
                            }
                        }
                    }
                }
            },
            None => {},
        }
        proof {
            assert forall|m: int| 0 <= m < ids@.len() implies #[trigger] seen_with_kind(es@, order@, t + 1, ids@[m]@, kinds@[m]@) by {
                if m < ids0.len() {
                    assert(ids@[m] == ids0[m] && kinds@[m] == kinds0[m]);
                    assert(seen_with_kind(es@, order@, t as int, ids0[m]@, kinds0[m]@));
                    let p = choose|p: int| #![trigger order@[p]]
                        p < t && first_referrer_at(es@, order@, p, ids0[m]@) && entity_asset(es@[order@[p] as int])->0.kind_prefix@ == kinds0[m]@;
                    assert(p < t + 1);
                }
            }
        }
        t = t + 1;
    }
    (ids, kinds)
}

proof fn lemma_sorted_distinct(xs: Seq<Seq<char>>)
    requires
        xs.no_duplicates(),
    ensures
        sorted_texts(xs).to_multiset() == xs.to_multiset(),
        forall|k: int, l: int| 0 <= k < l < sorted_texts(xs).len()
            ==> bytes_lt(encode_utf8(#[trigger] sorted_texts(xs)[k]), encode_utf8(#[trigger] sorted_texts(xs)[l])),
{
    let leq = |a: Seq<char>, b: Seq<char>| text_leq(a, b);
    crate::topology::lemma_text_leq_total();
    xs.lemma_sort_by_ensures(leq);
    let st = sorted_texts(xs);
    xs.lemma_multiset_has_no_duplicates();
    st.lemma_multiset_has_no_duplicates_conv();
    assert forall|k: int, l: int| 0 <= k < l < st.len() implies bytes_lt(encode_utf8(#[trigger] st[k]), encode_utf8(#[trigger] st[l])) by {
        assert(leq(st[k], st[l]));
        assert(st[k] != st[l]);
    }
}

/// The asset row shows asset `row.id`: its kind is that of the visible
/// entity with the smallest id that references it, and its status is the
/// catalog's.
pub open spec fn asset_row_ok(es: Seq<EntityFacts>, ss: Seq<AssetStatusEntry>, row: PolicyAssetRow) -> bool {
    &&& exists|j: int| #![trigger es[j]] {
        &&& refers(es, j, row.id@)
        &&& row.kind@ == entity_asset(es[j])->0.kind_prefix@
        &&& forall|j2: int| #![trigger es[j2]] refers(es, j2, row.id@) ==> es[j].id <= es[j2].id
    }
    &&& row.status == status_of(ss, row.id@)
}

/// `order` lists the visible entities, by index, in ascending id order.
pub open spec fn visible_order(es: Seq<EntityFacts>, order: Seq<usize>) -> bool {
    &&& forall|k: int| 0 <= k < order.len() ==> (#[trigger] order[k]) < es.len() && visible(es[order[k] as int])
    &&& forall|k: int, l: int| 0 <= k < l < order.len() ==> es[(#[trigger] order[k]) as int].id < es[(#[trigger] order[l]) as int].id
    &&& forall|j: int| 0 <= j < es.len() && visible(#[trigger] es[j]) ==> listed(order, j)
}

/// The row shows some visible entity.
pub open spec fn shows_visible(es: Seq<EntityFacts>, row: PolicyEntityRow) -> bool {
    exists|j: int| 0 <= j < es.len() && visible(es[j]) && #[trigger] row_of(row, es[j])
}

/// The entity rows of the view: ascending ids, each showing a visible
/// entity, every visible entity shown, no redacted entity shown.
#[verifier::opaque]
pub open spec fn entity_rows_ok(es: Seq<EntityFacts>, rows: Seq<PolicyEntityRow>) -> bool {
    &&& forall|k: int, l: int| 0 <= k < l < rows.len() ==> (#[trigger] rows[k]).id < (#[trigger] rows[l]).id
    &&& forall|k: int| 0 <= k < rows.len() ==> shows_visible(es, #[trigger] rows[k])
    &&& forall|j: int| 0 <= j < es.len() && visible(#[trigger] es[j]) ==> exists|k: int|
        0 <= k < rows.len() && (#[trigger] rows[k]).id == es[j].id
    &&& forall|j: int, k: int| 0 <= j < es.len() && !visible(#[trigger] es[j]) && 0 <= k < rows.len()
        ==> (#[trigger] rows[k]).id != es[j].id
}

/// The asset rows of the view: ascending ids by bytes, each a referenced
/// asset with its first referrer's kind and its status, every referenced
/// asset shown.
#[verifier::opaque]
pub open spec fn asset_rows_ok(es: Seq<EntityFacts>, ss: Seq<AssetStatusEntry>, assets: Seq<PolicyAssetRow>) -> bool {
    &&& forall|k: int, l: int| 0 <= k < l < assets.len()
        ==> bytes_lt(encode_utf8((#[trigger] assets[k]).id@), encode_utf8((#[trigger] assets[l]).id@))
    &&& forall|k: int| 0 <= k < assets.len() ==> asset_row_ok(es, ss, #[trigger] assets[k])
    &&& forall|j: int| 0 <= j < es.len() && visible(#[trigger] es[j]) && entity_asset(es[j]) is Some
        ==> exists|k: int| 0 <= k < assets.len() && (#[trigger] assets[k]).id@ == entity_asset(es[j])->0.id@
}

proof fn lemma_entity_rows_ok(es: Seq<EntityFacts>, order: Seq<usize>, rows: Seq<PolicyEntityRow>)
    requires
        ids_distinct(es),
        visible_order(es, order),
        rows.len() == order.len(),
        forall|k: int| 0 <= k < rows.len() ==> row_of(#[trigger] rows[k], es[order[k] as int]),
    ensures
        entity_rows_ok(es, rows),
{
    reveal(entity_rows_ok);
    assert forall|k: int| 0 <= k < rows.len() implies shows_visible(es, #[trigger] rows[k]) by {
        assert(row_of(rows[k], es[order[k] as int]));
        assert(order[k] < es.len());
    }
    assert forall|j: int, k: int| 0 <= j < es.len() && !visible(#[trigger] es[j]) && 0 <= k < rows.len()
        implies (#[trigger] rows[k]).id != es[j].id by {
        assert(row_of(rows[k], es[order[k] as int]));
        assert(order[k] as int != j);
    }
    assert forall|j: int| 0 <= j < es.len() && visible(#[trigger] es[j]) implies exists|k: int|
        0 <= k < rows.len() && (#[trigger] rows[k]).id == es[j].id by {
        assert(listed(order, j));
        reveal(listed);
        let k = choose|k: int| 0 <= k < order.len() && order[k] as int == j;
        assert(row_of(rows[k], es[order[k] as int]));
    }
    assert forall|k: int, l: int| 0 <= k < l < rows.len() implies (#[trigger] rows[k]).id < (#[trigger] rows[l]).id by {
        assert(row_of(rows[k], es[order[k] as int]));
        assert(row_of(rows[l], es[order[l] as int]));
    }
}

fn entity_rows(es: &Vec<EntityFacts>, order: &Vec<usize>) -> (rows: Vec<PolicyEntityRow>)
    requires
        ids_distinct(es@),
        visible_order(es@, order@),
    ensures
        entity_rows_ok(es@, rows@),
{
    let mut rows: Vec<PolicyEntityRow> = Vec::new();
    let mut t: usize = 0;
    while t < order.len()
        invariant
            t <= order@.len(),
            rows@.len() == t,
            visible_order(es@, order@),
            forall|k: int| 0 <= k < t ==> row_of(#[trigger] rows@[k], es@[order@[k] as int]),
        decreases order@.len() - t,
    {
        rows.push(entity_row(&es[order[t]]));
        t = t + 1;
    }
    proof {
        lemma_entity_rows_ok(es@, order@, rows@);
    }
    rows
}

proof fn lemma_min_referrer(es: Seq<EntityFacts>, order: Seq<usize>, p: int, aid: Seq<char>)
    requires
        visible_order(es, order),
        first_referrer_at(es, order, p, aid),
    ensures
        forall|j2: int| #![trigger es[j2]] refers(es, j2, aid) ==> es[order[p] as int].id <= es[j2].id,
{
    assert forall|j2: int| #![trigger es[j2]] refers(es, j2, aid) implies es[order[p] as int].id <= es[j2].id by {
        assert(visible(es[j2]));
        assert(listed(order, j2));
        reveal(listed);
        let q = choose|q: int| 0 <= q < order.len() && order[q] as int == j2;
        if q < p {
            assert(!refers(es, order[q] as int, aid));
        } else if q > p {
            assert(es[order[p] as int].id < es[order[q] as int].id);
        }
    }
}

fn copy_strings(xs: &Vec<String>) -> (r: Vec<String>)
    ensures
        texts(r@) == texts(xs@),
{
    let mut out: Vec<String> = Vec::new();
    let mut c: usize = 0;
    while c < xs.len()
        invariant
            c <= xs@.len(),
            texts(out@) == texts(xs@.take(c as int)),
        decreases xs@.len() - c,
    {
        let ghost before = out@;
        out.push(xs[c].clone());
        assert(texts(out@) =~= texts(before).push(xs@[c as int]@));
        assert(texts(xs@.take(c + 1)) =~= texts(xs@.take(c as int)).push(xs@[c as int]@));
        c = c + 1;
    }
    assert(xs@.take(c as int) =~= xs@);
    out
}

proof fn lemma_asset_row(es: Seq<EntityFacts>, ss: Seq<AssetStatusEntry>, order: Seq<usize>, aid: Seq<char>, kind: Seq<char>, row: PolicyAssetRow)
    requires
        visible_order(es, order),
        seen_with_kind(es, order, order.len() as int, aid, kind),
        row.id@ == aid,
        row.kind@ == kind,
        row.status == status_of(ss, aid),
    ensures
        asset_row_ok(es, ss, row),
{
    let p = choose|p: int| #![trigger order[p]]
        p < order.len() && first_referrer_at(es, order, p, aid) && entity_asset(es[order[p] as int])->0.kind_prefix@ == kind;
    lemma_min_referrer(es, order, p, aid);
    let j = order[p] as int;
    assert(refers(es, j, aid));
}


proof fn lemma_sorted_ids(ids: Seq<String>, sorted: Seq<String>)
    requires
        texts(ids).no_duplicates(),
        texts(sorted) == sorted_texts(texts(ids)),
    ensures
        forall|a: int| 0 <= a < sorted.len() ==> texts(ids).contains(#[trigger] sorted[a]@),
        forall|x: Seq<char>| #[trigger] texts(ids).contains(x) ==> exists|a: int| 0 <= a < sorted.len() && (#[trigger] sorted[a])@ == x,
        forall|k: int, l: int| 0 <= k < l < sorted.len() ==> bytes_lt(encode_utf8((#[trigger] sorted[k])@), encode_utf8((#[trigger] sorted[l])@)),
{
    broadcast use vstd::seq_lib::group_to_multiset_ensures;
    lemma_sorted_distinct(texts(ids));
    let st = texts(sorted);
    assert forall|a: int| 0 <= a < sorted.len() implies texts(ids).contains(#[trigger] sorted[a]@) by {
        assert(st[a] == sorted[a]@);
        assert(st.contains(sorted[a]@));
        assert(st.to_multiset().count(sorted[a]@) > 0);
    }
    assert forall|x: Seq<char>| #[trigger] texts(ids).contains(x) implies exists|a: int| 0 <= a < sorted.len() && (#[trigger] sorted[a])@ == x by {
        assert(texts(ids).to_multiset().count(x) > 0);
        assert(st.contains(x));
        let a = choose|a: int| 0 <= a < st.len() && st[a] == x;
        assert(sorted[a]@ == x);
    }
    assert forall|k: int, l: int| 0 <= k < l < sorted.len() implies bytes_lt(encode_utf8((#[trigger] sorted[k])@), encode_utf8((#[trigger] sorted[l])@)) by {
        assert(st[k] == sorted[k]@ && st[l] == sorted[l]@);
    }
}

proof fn lemma_assets_cover(es: Seq<EntityFacts>, order: Seq<usize>, ids: Seq<String>, sorted: Seq<String>, assets: Seq<PolicyAssetRow>)
    requires
        visible_order(es, order),
        forall|x: Seq<char>| #[trigger] texts(ids).contains(x) ==> exists|a: int| 0 <= a < sorted.len() && (#[trigger] sorted[a])@ == x,
        assets.len() == sorted.len(),
        forall|k: int| 0 <= k < assets.len() ==> (#[trigger] assets[k]).id@ == sorted[k]@,
        forall|p: int| 0 <= p < order.len() && (entity_asset(es[(#[trigger] order[p]) as int]) is Some) ==>
            texts(ids).contains(entity_asset(es[order[p] as int])->0.id@),
    ensures
        forall|j: int| 0 <= j < es.len() && visible(#[trigger] es[j]) && entity_asset(es[j]) is Some
            ==> exists|k: int| 0 <= k < assets.len() && (#[trigger] assets[k]).id@ == entity_asset(es[j])->0.id@,
{
    assert forall|j: int| 0 <= j < es.len() && visible(#[trigger] es[j]) && entity_asset(es[j]) is Some
        implies exists|k: int| 0 <= k < assets.len() && (#[trigger] assets[k]).id@ == entity_asset(es[j])->0.id@ by {
        let x = entity_asset(es[j])->0.id@;
        assert(listed(order, j));
        reveal(listed);
        let q = choose|q: int| 0 <= q < order.len() && order[q] as int == j;
        assert(entity_asset(es[order[q] as int]) is Some);
        assert(texts(ids).contains(x));
        let a = choose|a: int| 0 <= a < sorted.len() && (#[trigger] sorted[a])@ == x;
        assert(assets[a].id@ == x);
    }
}

fn asset_rows(es: &Vec<EntityFacts>, statuses: &Vec<AssetStatusEntry>, order: &Vec<usize>) -> (assets: Vec<PolicyAssetRow>)
    requires
        visible_order(es@, order@),
    ensures
        asset_rows_ok(es@, statuses@, assets@),
{
    let (ids, kinds) = first_seen_assets(es, order);
    let sorted = sort_strings(copy_strings(&ids));
    proof {
        lemma_sorted_ids(ids@, sorted@);
    }
    let mut assets: Vec<PolicyAssetRow> = Vec::new();
    let mut a: usize = 0;
    while a < sorted.len()
        invariant
            a <= sorted@.len(),
            assets@.len() == a,
            ids@.len() == kinds@.len(),
            forall|c: int| 0 <= c < sorted@.len() ==> texts(ids@).contains(#[trigger] sorted@[c]@),
            forall|m: int| 0 <= m < ids@.len() ==> #[trigger] seen_with_kind(es@, order@, order@.len() as int, ids@[m]@, kinds@[m]@),
            visible_order(es@, order@),
            forall|k: int| 0 <= k < a ==> (#[trigger] assets@[k]).id@ == sorted@[k]@ && asset_row_ok(es@, statuses@, assets@[k]),
        decreases sorted@.len() - a,
    {
        let aid = &sorted[a];
        assert(texts(ids@).contains(sorted@[a as int]@));
        let m = match position_of(&ids, aid) {
            Some(m) => m,
            None => {
                proof {
                    assert(false);
                }
                0
            },
        };
        let kind = kinds[m].clone();
        let status = status_lookup(statuses, aid);
        let row = PolicyAssetRow { id: aid.clone(), kind, status };
        proof {
            lemma_asset_row(es@, statuses@, order@, ids@[m as int]@, kinds@[m as int]@, row);
        }
        assets.push(row);
        a = a + 1;
    }
    proof {
        lemma_assets_cover(es@, order@, ids@, sorted@, assets@);
        reveal(asset_rows_ok);
    }
    assets
}

fn summarize(tick: u64, rows: &Vec<PolicyEntityRow>, assets: &Vec<PolicyAssetRow>) -> (s: PolicyWorldSummary)
    ensures
        s == (PolicyWorldSummary {
            tick,
            active_entities: count_active(rows@) as u32,
            spatial_entities: count_spatial(rows@) as u32,
            asset_count: assets@.len() as u32,
            missing_assets: count_missing(assets@) as u32,
        }),
{
    let mut active: usize = 0;
    let mut spatial: usize = 0;
    let mut i: usize = 0;
    while i < rows.len()
        invariant
            i <= rows@.len(),
            active as nat == count_active(rows@.take(i as int)),
            spatial as nat == count_spatial(rows@.take(i as int)),
            active <= i,
            spatial <= i,
        decreases rows@.len() - i,
    {
        assert(rows@.take(i + 1).drop_last() =~= rows@.take(i as int));
        if rows[i].lifecycle == PolicyEntityLifecycle::Active {
            active = active + 1;
        }
        if rows[i].spatial {
            spatial = spatial + 1;
        }
        i = i + 1;
    }
    assert(rows@.take(i as int) =~= rows@);
    let mut missing: usize = 0;
    let mut n: usize = 0;
    while n < assets.len()
        invariant
            n <= assets@.len(),
            missing as nat == count_missing(assets@.take(n as int)),
            missing <= n,
        decreases assets@.len() - n,
    {
        assert(assets@.take(n + 1).drop_last() =~= assets@.take(n as int));
        if assets[n].status == PolicyAssetStatus::Missing {
            missing = missing + 1;
        }
        n = n + 1;
    }
    assert(assets@.take(n as int) =~= assets@);
    PolicyWorldSummary {
        tick,
        active_entities: active as u32,
        spatial_entities: spatial as u32,
        asset_count: assets.len() as u32,
        missing_assets: missing as u32,
    }
}

/// Project authority state into the policy view at `tick`: the visible
/// entities in ascending id order, each referenced asset once in ascending
/// id order with the catalog's status (`Missing` when the catalog has none),
/// and the summary counts. Tombstoned and diagnostic-tooling entities never
/// appear.
pub fn project_world_view(tick: u64, entities: &Vec<EntityFacts>, statuses: &Vec<AssetStatusEntry>) -> (v: PolicyWorldProjection)
    requires
        ids_distinct(entities@),
    ensures
        v.tick == tick,
        entity_rows_ok(entities@, v.entities@),
        asset_rows_ok(entities@, statuses@, v.assets@),
        v.summary == (PolicyWorldSummary {
            tick,
            active_entities: count_active(v.entities@) as u32,
            spatial_entities: count_spatial(v.entities@) as u32,
            asset_count: v.assets@.len() as u32,
            missing_assets: count_missing(v.assets@) as u32,
        }),
{
    let order = visible_in_id_order(entities);
    let rows = entity_rows(entities, &order);
    let assets = asset_rows(entities, statuses, &order);
    let summary = summarize(tick, &rows, &assets);
    PolicyWorldProjection { tick, entities: rows, assets, summary }
}

} // verus!
