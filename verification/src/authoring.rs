//! Project-content authoring transactions: a command against the current
//! validated document set either is refused, leaving that set as it is, or
//! yields the edited list of documents and source paths that the codec then
//! re-validates.
//!
//! A document is known here by its key (kind and id); its content travels
//! beside the key in the caller's hands.

use vstd::prelude::*;
use vstd::utf8::encode_utf8;
use crate::ids::{is_normalized_source_path, validate_source_path};
use crate::entity_definition::{AppearanceFacts, CapabilityFacts};
use crate::presentation::{has_clip, has_clip_exec, PresentationResource, ProjectPresentationResourceKind};

verus! {

/// The kind of a project-content document.
#[derive(Debug, Clone, Copy, PartialEq, Eq, Structural)]
pub enum ProjectContentDocumentKind {
    EntityDefinition,
    AssetCatalog,
    PrefabRegistry,
    GameplayConfiguration,
    PresentationCatalog,
    InputCatalog,
    BehaviorPackage,
}

/// A document of the set, by kind and id.
#[derive(Debug, Clone, PartialEq, Eq)]
pub struct DocumentKey {
    pub kind: ProjectContentDocumentKind,
    pub document_id: String,
}

/// The source path a canonical file of the set is saved under.
#[derive(Debug, Clone, PartialEq, Eq)]
pub struct SourcePathEntry {
    pub key: DocumentKey,
    pub source_path: String,
}

pub open spec fn key_view(k: DocumentKey) -> (ProjectContentDocumentKind, Seq<char>) {
    (k.kind, k.document_id@)
}

pub open spec fn doc_keys(ds: Seq<DocumentKey>) -> Seq<(ProjectContentDocumentKind, Seq<char>)> {
    ds.map_values(|d: DocumentKey| key_view(d))
}

pub open spec fn entry_view(e: SourcePathEntry) -> ((ProjectContentDocumentKind, Seq<char>), Seq<char>) {
    (key_view(e.key), e.source_path@)
}

pub open spec fn path_entries(ps: Seq<SourcePathEntry>) -> Seq<((ProjectContentDocumentKind, Seq<char>), Seq<char>)> {
    ps.map_values(|e: SourcePathEntry| entry_view(e))
}

/// The current validated set, as authoring sees it: its identity, the
/// reference revision it was validated against, its documents in order and
/// the source path of each canonical file that has one.
#[derive(Debug, Clone, PartialEq, Eq)]
pub struct AuthoringState {
    pub set_hash: String,
    pub reference_revision: u64,
    pub documents: Vec<DocumentKey>,
    pub source_paths: Vec<SourcePathEntry>,
}

/// No two entries share a key, and no two share a source path.
pub open spec fn entries_distinct<K, P>(es: Seq<(K, P)>) -> bool {
    forall|i: int, j: int| 0 <= i < j < es.len() ==> (#[trigger] es[i]).0 != (#[trigger] es[j]).0 && es[i].1 != es[j].1
}

/// A validated set holds each document once, and each source path belongs
/// to one document.
pub open spec fn state_wf(s: AuthoringState) -> bool {
    lists_wf(s.documents@, s.source_paths@)
}

pub open spec fn lists_wf(ds: Seq<DocumentKey>, ps: Seq<SourcePathEntry>) -> bool {
    &&& doc_keys(ds).no_duplicates()
    &&& entries_distinct(path_entries(ps))
}

/// The sequence without the elements equal to `k`, in order.
pub open spec fn drop_value<A>(vs: Seq<A>, k: A) -> Seq<A>
    decreases vs.len(),
{
    if vs.len() == 0 {
        Seq::empty()
    } else {
        let rest = drop_value(vs.drop_last(), k);
        if vs.last() == k {
            rest
        } else {
            rest.push(vs.last())
        }
    }
}

/// The entries without those whose key is `k`, in order.
pub open spec fn drop_entry<K, P>(es: Seq<(K, P)>, k: K) -> Seq<(K, P)>
    decreases es.len(),
{
    if es.len() == 0 {
        Seq::empty()
    } else {
        let rest = drop_entry(es.drop_last(), k);
        if es.last().0 == k {
            rest
        } else {
            rest.push(es.last())
        }
    }
}

pub proof fn lemma_push_contains<A>(s: Seq<A>, a: A, x: A)
    ensures
        s.push(a).contains(x) <==> (s.contains(x) || x == a),
{
    let t = s.push(a);
    if s.contains(x) {
        let i = choose|i: int| 0 <= i < s.len() && s[i] == x;
        assert(t[i] == x);
    }
    if x == a {
        assert(t[s.len() as int] == x);
    }
    if t.contains(x) {
        let i = choose|i: int| 0 <= i < t.len() && t[i] == x;
        if i < s.len() {
            assert(s[i] == x);
        }
    }
}

pub proof fn lemma_drop_value<A>(vs: Seq<A>, k: A)
    ensures
        !drop_value(vs, k).contains(k),
        forall|x: A| #[trigger] drop_value(vs, k).contains(x) <==> (vs.contains(x) && x != k),
        vs.no_duplicates() ==> drop_value(vs, k).no_duplicates(),
        !vs.contains(k) ==> drop_value(vs, k) == vs,
    decreases vs.len(),
{
    if vs.len() > 0 {
        let init = vs.drop_last();
        lemma_drop_value(init, k);
        let rest = drop_value(init, k);
        assert(vs == init.push(vs.last()));
        assert forall|x: A| drop_value(vs, k).contains(x) <==> (vs.contains(x) && x != k) by {
            lemma_push_contains(init, vs.last(), x);
            if vs.last() != k {
                lemma_push_contains(rest, vs.last(), x);
            }
        }
        if vs.no_duplicates() {
            assert(init.no_duplicates()) by {
                assert forall|i: int, j: int| 0 <= i < init.len() && 0 <= j < init.len() && i != j implies init[i] != init[j] by {
                    assert(vs[i] == init[i] && vs[j] == init[j]);
                }
            }
            if vs.last() != k {
                assert(!init.contains(vs.last())) by {
                    if init.contains(vs.last()) {
                        let i = choose|i: int| 0 <= i < init.len() && init[i] == vs.last();
                        assert(vs[i] == vs[vs.len() - 1]);
                    }
                }
                assert(rest.push(vs.last()).no_duplicates()) by {
                    let r2 = rest.push(vs.last());
                    assert forall|i: int, j: int| 0 <= i < r2.len() && 0 <= j < r2.len() && i != j implies r2[i] != r2[j] by {
                        if i < rest.len() && j < rest.len() {
                            assert(r2[i] == rest[i] && r2[j] == rest[j]);
                        } else if i < rest.len() {
                            assert(rest.contains(r2[i]));
                        } else if j < rest.len() {
                            assert(rest.contains(r2[j]));
                        }
                    }
                }
            }
        }
        if !vs.contains(k) {
            assert(!init.contains(k)) by {
                if init.contains(k) {
                    let i = choose|i: int| 0 <= i < init.len() && init[i] == k;
                    assert(vs[i] == k);
                }
            }
            assert(vs[vs.len() - 1] != k);
        }
    }
}

pub proof fn lemma_drop_entry<K, P>(es: Seq<(K, P)>, k: K)
    ensures
        forall|x: (K, P)| #[trigger] drop_entry(es, k).contains(x) <==> (es.contains(x) && x.0 != k),
        entries_distinct(es) ==> entries_distinct(drop_entry(es, k)),
        (forall|i: int| 0 <= i < es.len() ==> (#[trigger] es[i]).0 != k) ==> drop_entry(es, k) == es,
    decreases es.len(),
{
    if es.len() > 0 {
        let init = es.drop_last();
        lemma_drop_entry(init, k);
        let rest = drop_entry(init, k);
        assert(es == init.push(es.last()));
        assert forall|x: (K, P)| drop_entry(es, k).contains(x) <==> (es.contains(x) && x.0 != k) by {
            lemma_push_contains(init, es.last(), x);
            if es.last().0 != k {
                lemma_push_contains(rest, es.last(), x);
            }
        }
        if entries_distinct(es) {
            assert(entries_distinct(init)) by {
                assert forall|i: int, j: int| 0 <= i < j < init.len() implies (#[trigger] init[i]).0 != (#[trigger] init[j]).0 && init[i].1 != init[j].1 by {
                    assert(es[i] == init[i] && es[j] == init[j]);
                }
            }
            if es.last().0 != k {
                let r2 = rest.push(es.last());
                assert(entries_distinct(r2)) by {
                    assert forall|i: int, j: int| 0 <= i < j < r2.len() implies (#[trigger] r2[i]).0 != (#[trigger] r2[j]).0 && r2[i].1 != r2[j].1 by {
                        if j < rest.len() {
                            assert(r2[i] == rest[i] && r2[j] == rest[j]);
                        } else {
                            assert(r2[i] == rest[i]);
                            assert(rest.contains(rest[i]));
                            assert(init.contains(rest[i]));
                            let a = choose|a: int| 0 <= a < init.len() && init[a] == rest[i];
                            assert(es[a] == init[a]);
                            assert(es[es.len() - 1] == es.last());
                        }
                    }
                }
            }
        }
        if forall|i: int| 0 <= i < es.len() ==> (#[trigger] es[i]).0 != k {
            assert forall|i: int| 0 <= i < init.len() implies (#[trigger] init[i]).0 != k by {
                assert(es[i] == init[i]);
            }
            assert(es[es.len() - 1].0 != k);
        }
    }
}

fn same_key(a: &DocumentKey, kind: ProjectContentDocumentKind, id: &String) -> (r: bool)
    ensures
        r == (key_view(*a) == (kind, id@)),
{
    a.kind == kind && a.document_id == *id
}

fn copy_key(k: &DocumentKey) -> (r: DocumentKey)
    ensures
        key_view(r) == key_view(*k),
{
    DocumentKey { kind: k.kind, document_id: k.document_id.clone() }
}

fn copy_entry(e: &SourcePathEntry) -> (r: SourcePathEntry)
    ensures
        entry_view(r) == entry_view(*e),
{
    SourcePathEntry { key: copy_key(&e.key), source_path: e.source_path.clone() }
}

fn docs_without(ds: &Vec<DocumentKey>, kind: ProjectContentDocumentKind, id: &String) -> (r: Vec<DocumentKey>)
    ensures
        doc_keys(r@) == drop_value(doc_keys(ds@), (kind, id@)),
{
    let ghost k = (kind, id@);
    let mut out: Vec<DocumentKey> = Vec::new();
    let mut i: usize = 0;
    while i < ds.len()
        invariant
            i <= ds@.len(),
            k == (kind, id@),
            doc_keys(out@) == drop_value(doc_keys(ds@.subrange(0, i as int)), k),
        decreases ds@.len() - i,
    {
        let ghost before = out@;
        assert(doc_keys(ds@.subrange(0, i + 1)).drop_last() =~= doc_keys(ds@.subrange(0, i as int)));
        assert(doc_keys(ds@.subrange(0, i + 1)).last() == key_view(ds@[i as int]));
        if !same_key(&ds[i], kind, id) {
            out.push(copy_key(&ds[i]));
            assert(doc_keys(out@) =~= doc_keys(before).push(key_view(ds@[i as int])));
        }
        i = i + 1;
    }
    assert(ds@.subrange(0, ds@.len() as int) =~= ds@);
    out
}

fn paths_without(ps: &Vec<SourcePathEntry>, kind: ProjectContentDocumentKind, id: &String) -> (r: Vec<SourcePathEntry>)
    ensures
        path_entries(r@) == drop_entry(path_entries(ps@), (kind, id@)),
{
    let ghost k = (kind, id@);
    let mut out: Vec<SourcePathEntry> = Vec::new();
    let mut i: usize = 0;
    while i < ps.len()
        invariant
            i <= ps@.len(),
            k == (kind, id@),
            path_entries(out@) == drop_entry(path_entries(ps@.subrange(0, i as int)), k),
        decreases ps@.len() - i,
    {
        let ghost before = out@;
        assert(path_entries(ps@.subrange(0, i + 1)).drop_last() =~= path_entries(ps@.subrange(0, i as int)));
        assert(path_entries(ps@.subrange(0, i + 1)).last() == entry_view(ps@[i as int]));
        if !same_key(&ps[i].key, kind, id) {
            out.push(copy_entry(&ps[i]));
            assert(path_entries(out@) =~= path_entries(before).push(entry_view(ps@[i as int])));
        }
        i = i + 1;
    }
    assert(ps@.subrange(0, ps@.len() as int) =~= ps@);
    out
}

/// Another document than `k` is saved under `p`.
pub open spec fn path_owned_by_other(
    es: Seq<((ProjectContentDocumentKind, Seq<char>), Seq<char>)>,
    k: (ProjectContentDocumentKind, Seq<char>),
    p: Seq<char>,
) -> bool {
    exists|i: int| 0 <= i < es.len() && (#[trigger] es[i]).0 != k && es[i].1 == p
}

fn find_path_owner(ps: &Vec<SourcePathEntry>, kind: ProjectContentDocumentKind, id: &String, path: &String) -> (r: Option<usize>)
    ensures
        r is None <==> !path_owned_by_other(path_entries(ps@), (kind, id@), path@),
        r matches Some(i) ==> i < ps@.len() && key_view(ps@[i as int].key) != (kind, id@) && ps@[i as int].source_path@ == path@,
{
    let mut i: usize = 0;
    while i < ps.len()
        invariant
            i <= ps@.len(),
            forall|j: int| 0 <= j < i ==> !(key_view((#[trigger] ps@[j]).key) != (kind, id@) && ps@[j].source_path@ == path@),
        decreases ps@.len() - i,
    {
        if !same_key(&ps[i].key, kind, id) && ps[i].source_path == *path {
            assert(path_entries(ps@)[i as int] == entry_view(ps@[i as int]));
            return Some(i);
        }
        i = i + 1;
    }
    proof {
        if path_owned_by_other(path_entries(ps@), (kind, id@), path@) {
            let j = choose|j: int| 0 <= j < path_entries(ps@).len() && (#[trigger] path_entries(ps@)[j]).0 != (kind, id@) && path_entries(ps@)[j].1 == path@;
            assert(path_entries(ps@)[j] == entry_view(ps@[j]));
        }
    }
    None
}

fn holds_key(ds: &Vec<DocumentKey>, kind: ProjectContentDocumentKind, id: &String) -> (r: bool)
    ensures
        r == doc_keys(ds@).contains((kind, id@)),
{
    let mut i: usize = 0;
    while i < ds.len()
        invariant
            i <= ds@.len(),
            forall|j: int| 0 <= j < i ==> key_view(#[trigger] ds@[j]) != (kind, id@),
        decreases ds@.len() - i,
    {
        if same_key(&ds[i], kind, id) {
            assert(doc_keys(ds@)[i as int] == (kind, id@));
            return true;
        }
        i = i + 1;
    }
    proof {
        if doc_keys(ds@).contains((kind, id@)) {
            let j = choose|j: int| 0 <= j < doc_keys(ds@).len() && doc_keys(ds@)[j] == (kind, id@);
            assert(doc_keys(ds@)[j] == key_view(ds@[j]));
        }
    }
    false
}

// ---------------------------------------------------------------------------
// Entity appearance edits.

/// An entity-definition document of the set, by id, with its capabilities.
#[derive(Debug, Clone, PartialEq, Eq)]
pub struct EntityDocument {
    pub document_id: String,
    pub capabilities: Vec<CapabilityFacts>,
}

/// An edit of one render projection's appearance binding.
#[derive(Debug, Clone, PartialEq, Eq)]
pub enum AppearanceUpdate {
    /// Bind an animated-mesh resource.
    Resource { resource_id: String },
    /// Set or clear the initial clip.
    InitialClip { initial_clip_id: Option<String> },
    /// Set one model-scale axis; `value_in_range` tells whether the value
    /// is finite and within `0.0001..=1000`.
    ModelScale { axis: u8, value_in_range: bool },
}

/// Why an appearance edit was refused.
#[derive(Debug, Clone, Copy, PartialEq, Eq, Structural)]
pub enum AppearanceProblem {
    /// The resource is unknown, or the first resource of that id is not an
    /// animated mesh with a descriptor.
    ResourceNotAnimatedMesh,
    UnknownEntityDefinition,
    UnknownProjection,
    /// A clip was chosen before any appearance resource.
    ClipWithoutBinding,
    /// The axis is not `0..=2` or the value is out of range.
    ModelScaleOutOfRange,
    /// A scale was set before any appearance resource.
    ScaleWithoutBinding,
}

/// What an accepted appearance edit writes into the binding.
#[derive(Debug, Clone, PartialEq, Eq)]
pub enum AppearanceChange {
    /// A new binding to `resource_id`, with this initial clip; the model
    /// scale is kept from the old binding when there was one, else unit.
    Bind { resource_id: String, initial_clip_id: Option<String>, keep_model_scale: bool },
    SetInitialClip { initial_clip_id: Option<String> },
    /// The requested value is written to this axis.
    SetModelScale { axis: u8 },
}

/// An accepted edit: the entity document, its capability, and the change.
#[derive(Debug, Clone, PartialEq, Eq)]
pub struct AppearanceEdit {
    pub entity: usize,
    pub capability: usize,
    pub change: AppearanceChange,
}

pub open spec fn opt_view(o: Option<String>) -> Option<Seq<char>> {
    match o {
        Some(s) => Some(s@),
        None => None,
    }
}

/// Resource `r` of catalog `c` is the first resource named `rid`, catalogs
/// read in order.
pub open spec fn is_first_resource_hit(cs: Seq<Vec<PresentationResource>>, rid: Seq<char>, c: int, r: int) -> bool {
    &&& 0 <= c < cs.len()
    &&& 0 <= r < cs[c]@.len()
    &&& cs[c]@[r].resource_id@ == rid
    &&& forall|t: int| 0 <= t < r ==> (#[trigger] cs[c]@[t]).resource_id@ != rid
    &&& forall|d: int, t: int| 0 <= d < c && 0 <= t < cs[d]@.len() ==> (#[trigger] cs[d]@[t]).resource_id@ != rid
}

pub open spec fn admitted_mesh(res: PresentationResource) -> bool {
    res.kind == ProjectPresentationResourceKind::AnimatedMesh && res.animated_mesh is Some
}

/// The first resource named `rid` exists and is an animated mesh.
pub open spec fn resource_ok(cs: Seq<Vec<PresentationResource>>, rid: Seq<char>) -> bool {
    exists|c: int, r: int| is_first_resource_hit(cs, rid, c, r) && admitted_mesh(#[trigger] cs[c]@[r])
}

pub open spec fn is_first_entity(es: Seq<EntityDocument>, id: Seq<char>, e: int) -> bool {
    &&& 0 <= e < es.len()
    &&& es[e].document_id@ == id
    &&& forall|f: int| 0 <= f < e ==> (#[trigger] es[f]).document_id@ != id
}

pub open spec fn has_entity(es: Seq<EntityDocument>, id: Seq<char>) -> bool {
    exists|e: int| 0 <= e < es.len() && (#[trigger] es[e]).document_id@ == id
}

pub open spec fn first_entity(es: Seq<EntityDocument>, id: Seq<char>) -> int {
    choose|e: int| is_first_entity(es, id, e)
}

pub open spec fn projection_at(cap: CapabilityFacts, pid: Seq<char>) -> bool {
    match cap {
        CapabilityFacts::RenderProjection { projection_id, .. } => projection_id@ == pid,
        _ => false,
    }
}

pub open spec fn is_first_projection(caps: Seq<CapabilityFacts>, pid: Seq<char>, c: int) -> bool {
    &&& 0 <= c < caps.len()
    &&& projection_at(caps[c], pid)
    &&& forall|d: int| 0 <= d < c ==> !projection_at(#[trigger] caps[d], pid)
}

pub open spec fn has_projection(caps: Seq<CapabilityFacts>, pid: Seq<char>) -> bool {
    exists|c: int| 0 <= c < caps.len() && projection_at(#[trigger] caps[c], pid)
}

pub open spec fn binding_at(cap: CapabilityFacts) -> Option<AppearanceFacts> {
    match cap {
        CapabilityFacts::RenderProjection { appearance, .. } => appearance,
        _ => None,
    }
}

/// The current binding of projection `pid` of the first entity `id`.
pub open spec fn current_binding(es: Seq<EntityDocument>, id: Seq<char>, pid: Seq<char>) -> Option<AppearanceFacts> {
    let caps = es[first_entity(es, id)].capabilities@;
    binding_at(caps[choose|c: int| is_first_projection(caps, pid, c)])
}

/// The problem an appearance edit is refused for, checks in order: the
/// resource, the entity definition, the projection, then the edit itself.
pub open spec fn appearance_problem(
    cs: Seq<Vec<PresentationResource>>,
    es: Seq<EntityDocument>,
    id: Seq<char>,
    pid: Seq<char>,
    update: AppearanceUpdate,
) -> Option<AppearanceProblem> {
    if (match update {
        AppearanceUpdate::Resource { resource_id } => !resource_ok(cs, resource_id@),
        _ => false,
    }) {
        Some(AppearanceProblem::ResourceNotAnimatedMesh)
    } else if !has_entity(es, id) {
        Some(AppearanceProblem::UnknownEntityDefinition)
    } else if !has_projection(es[first_entity(es, id)].capabilities@, pid) {
        Some(AppearanceProblem::UnknownProjection)
    } else {
        match update {
            AppearanceUpdate::Resource { .. } => None,
            AppearanceUpdate::InitialClip { .. } => if current_binding(es, id, pid) is None {
                Some(AppearanceProblem::ClipWithoutBinding)
            } else {
                None
            },
            AppearanceUpdate::ModelScale { axis, value_in_range } => if axis > 2 || !value_in_range {
                Some(AppearanceProblem::ModelScaleOutOfRange)
            } else if current_binding(es, id, pid) is None {
                Some(AppearanceProblem::ScaleWithoutBinding)
            } else {
                None
            },
        }
    }
}

/// The initial clip of a new binding: the old binding's clip when the new
/// mesh has it, else the mesh's default clip.
pub open spec fn rebound_clip(binding: Option<AppearanceFacts>, clips: Seq<crate::presentation::AnimationClip>, default_clip: Option<String>) -> Option<Seq<char>> {
    match binding {
        Some(b) => match b.initial_clip_id {
            Some(cl) => if has_clip(clips, cl@) {
                Some(cl@)
            } else {
                opt_view(default_clip)
            },
            None => opt_view(default_clip),
        },
        None => opt_view(default_clip),
    }
}

/// The change an accepted edit makes.
pub open spec fn change_ok(
    cs: Seq<Vec<PresentationResource>>,
    binding: Option<AppearanceFacts>,
    update: AppearanceUpdate,
    change: AppearanceChange,
) -> bool {
    match update {
        AppearanceUpdate::Resource { resource_id } => exists|c: int, r: int|
            #![trigger cs[c]@[r]]
            is_first_resource_hit(cs, resource_id@, c, r) && match cs[c]@[r].animated_mesh {
                Some(desc) => change matches AppearanceChange::Bind { resource_id: bound, initial_clip_id, keep_model_scale }
                    && bound@ == resource_id@
                    && opt_view(initial_clip_id) == rebound_clip(binding, desc.clips@, desc.default_clip)
                    && keep_model_scale == binding is Some,
                None => false,
            },
        AppearanceUpdate::InitialClip { initial_clip_id } => change matches AppearanceChange::SetInitialClip { initial_clip_id: set }
            && opt_view(set) == opt_view(initial_clip_id),
        AppearanceUpdate::ModelScale { axis, .. } => change == AppearanceChange::SetModelScale { axis },
    }
}

fn copy_opt(o: &Option<String>) -> (r: Option<String>)
    ensures
        opt_view(r) == opt_view(*o),
{
    match o {
        Some(s) => Some(s.clone()),
        None => None,
    }
}

fn find_first_resource(cs: &Vec<Vec<PresentationResource>>, rid: &String) -> (r: Option<(usize, usize)>)
    ensures
        r matches Some(p) ==> is_first_resource_hit(cs@, rid@, p.0 as int, p.1 as int),
        r is None ==> forall|c: int, t: int| 0 <= c < cs@.len() && 0 <= t < cs@[c]@.len() ==> (#[trigger] cs@[c]@[t]).resource_id@ != rid@,
{
    let mut c: usize = 0;
    while c < cs.len()
        invariant
            c <= cs@.len(),
            forall|d: int, t: int| 0 <= d < c && 0 <= t < cs@[d]@.len() ==> (#[trigger] cs@[d]@[t]).resource_id@ != rid@,
        decreases cs@.len() - c,
    {
        let rs = &cs[c];
        let mut t: usize = 0;
        while t < rs.len()
            invariant
                c < cs@.len(),
                rs == &cs@[c as int],
                t <= rs@.len(),
                forall|d: int, u: int| 0 <= d < c && 0 <= u < cs@[d]@.len() ==> (#[trigger] cs@[d]@[u]).resource_id@ != rid@,
                forall|u: int| 0 <= u < t ==> (#[trigger] rs@[u]).resource_id@ != rid@,
            decreases rs@.len() - t,
        {
            if rs[t].resource_id == *rid {
                return Some((c, t));
            }
            t = t + 1;
        }
        c = c + 1;
    }
    None
}

fn find_first_entity(es: &Vec<EntityDocument>, id: &String) -> (r: Option<usize>)
    ensures
        r matches Some(e) ==> is_first_entity(es@, id@, e as int),
        r is None <==> !has_entity(es@, id@),
{
    let mut e: usize = 0;
    while e < es.len()
        invariant
            e <= es@.len(),
            forall|f: int| 0 <= f < e ==> (#[trigger] es@[f]).document_id@ != id@,
        decreases es@.len() - e,
    {
        if es[e].document_id == *id {
            return Some(e);
        }
        e = e + 1;
    }
    None
}

fn find_first_projection(caps: &Vec<CapabilityFacts>, pid: &String) -> (r: Option<usize>)
    ensures
        r matches Some(c) ==> is_first_projection(caps@, pid@, c as int),
        r is None <==> !has_projection(caps@, pid@),
{
    let mut c: usize = 0;
    while c < caps.len()
        invariant
            c <= caps@.len(),
            forall|d: int| 0 <= d < c ==> !projection_at(#[trigger] caps@[d], pid@),
        decreases caps@.len() - c,
    {
        match &caps[c] {
            CapabilityFacts::RenderProjection { projection_id, .. } => {
                if *projection_id == *pid {
                    return Some(c);
                }
            },
            _ => {},
        }
        c = c + 1;
    }
    None
}

proof fn lemma_first_entity_unique(es: Seq<EntityDocument>, id: Seq<char>, e: int)
    requires
        is_first_entity(es, id, e),
    ensures
        first_entity(es, id) == e,
{
    let f = first_entity(es, id);
    assert(is_first_entity(es, id, f));
}

proof fn lemma_first_projection_unique(caps: Seq<CapabilityFacts>, pid: Seq<char>, c: int)
    requires
        is_first_projection(caps, pid, c),
    ensures
        (choose|d: int| is_first_projection(caps, pid, d)) == c,
{
    let d = choose|d: int| is_first_projection(caps, pid, d);
    assert(is_first_projection(caps, pid, d));
}

proof fn lemma_first_resource_unique(cs: Seq<Vec<PresentationResource>>, rid: Seq<char>, c: int, r: int, c2: int, r2: int)
    requires
        is_first_resource_hit(cs, rid, c, r),
        is_first_resource_hit(cs, rid, c2, r2),
    ensures
        c == c2 && r == r2,
{
    if c < c2 {
        assert(cs[c]@[r].resource_id@ == rid);
    } else if c2 < c {
        assert(cs[c2]@[r2].resource_id@ == rid);
    }
}

/// Resolve an appearance edit of projection `projection_id` of the entity
/// definition `document_id`, against the presentation catalogs' resources
/// (catalogs in document order) and the set's entity definitions.
pub fn resolve_appearance_update(
    catalogs: &Vec<Vec<PresentationResource>>,
    entities: &Vec<EntityDocument>,
    document_id: &String,
    projection_id: &String,
    update: &AppearanceUpdate,
) -> (r: Result<AppearanceEdit, AppearanceProblem>)
    ensures
        r is Err <==> appearance_problem(catalogs@, entities@, document_id@, projection_id@, *update) is Some,
        r matches Err(p) ==> appearance_problem(catalogs@, entities@, document_id@, projection_id@, *update) == Some(p),
        r matches Ok(edit) ==> {
            &&& is_first_entity(entities@, document_id@, edit.entity as int)
            &&& is_first_projection(entities@[edit.entity as int].capabilities@, projection_id@, edit.capability as int)
            &&& change_ok(
                catalogs@,
                current_binding(entities@, document_id@, projection_id@),
                *update,
                edit.change,
            )
        },
{
    let mut hit: Option<(usize, usize)> = None;
    match update {
        AppearanceUpdate::Resource { resource_id } => {
            let found = find_first_resource(catalogs, resource_id);
            match found {
                Some((c, t)) => {
                    let res = &catalogs[c][t];
                    if !(res.kind == ProjectPresentationResourceKind::AnimatedMesh && res.animated_mesh.is_some()) {
                        proof {
                            assert forall|c2: int, r2: int| is_first_resource_hit(catalogs@, resource_id@, c2, r2) implies !admitted_mesh(#[trigger] catalogs@[c2]@[r2]) by {
                                lemma_first_resource_unique(catalogs@, resource_id@, c as int, t as int, c2, r2);
                            }
                        }
                        return Err(AppearanceProblem::ResourceNotAnimatedMesh);
                    }
                    assert(admitted_mesh(catalogs@[c as int]@[t as int]));
                    hit = Some((c, t));
                },
                None => {
                    return Err(AppearanceProblem::ResourceNotAnimatedMesh);
                },
            }
        },
        _ => {},
    }
    let e = match find_first_entity(entities, document_id) {
        Some(e) => e,
        None => {
            return Err(AppearanceProblem::UnknownEntityDefinition);
        },
    };
    proof {
        lemma_first_entity_unique(entities@, document_id@, e as int);
    }
    let caps = &entities[e].capabilities;
    let c = match find_first_projection(caps, projection_id) {
        Some(c) => c,
        None => {
            return Err(AppearanceProblem::UnknownProjection);
        },
    };
    proof {
        lemma_first_projection_unique(caps@, projection_id@, c as int);
    }
    let binding: &Option<AppearanceFacts> = match &caps[c] {
        CapabilityFacts::RenderProjection { appearance, .. } => appearance,
        _ => {
            return Err(AppearanceProblem::UnknownProjection);
        },
    };
    assert(*binding == current_binding(entities@, document_id@, projection_id@));
    match update {
        AppearanceUpdate::Resource { resource_id } => {
            let (hc, ht) = match hit {
                Some(p) => p,
                None => {
                    return Err(AppearanceProblem::ResourceNotAnimatedMesh);
                },
            };
            let res = &catalogs[hc][ht];
            let desc = match &res.animated_mesh {
                Some(d) => d,
                None => {
                    return Err(AppearanceProblem::ResourceNotAnimatedMesh);
                },
            };
            let retained: Option<String> = match binding {
                Some(b) => match &b.initial_clip_id {
                    Some(cl) => if has_clip_exec(&desc.clips, cl) {
                        Some(cl.clone())
                    } else {
                        None
                    },
                    None => None,
                },
                None => None,
            };
            let initial = match retained {
                Some(cl) => Some(cl),
                None => copy_opt(&desc.default_clip),
            };
            let change = AppearanceChange::Bind {
                resource_id: res.resource_id.clone(),
                initial_clip_id: initial,
                keep_model_scale: binding.is_some(),
            };
            assert(is_first_resource_hit(catalogs@, resource_id@, hc as int, ht as int));
            Ok(AppearanceEdit { entity: e, capability: c, change })
        },
        AppearanceUpdate::InitialClip { initial_clip_id } => {
            if binding.is_none() {
                return Err(AppearanceProblem::ClipWithoutBinding);
            }
            Ok(AppearanceEdit {
                entity: e,
                capability: c,
                change: AppearanceChange::SetInitialClip { initial_clip_id: copy_opt(initial_clip_id) },
            })
        },
        AppearanceUpdate::ModelScale { axis, value_in_range } => {
            if *axis > 2 || !*value_in_range {
                return Err(AppearanceProblem::ModelScaleOutOfRange);
            }
            if binding.is_none() {
                return Err(AppearanceProblem::ScaleWithoutBinding);
            }
            Ok(AppearanceEdit { entity: e, capability: c, change: AppearanceChange::SetModelScale { axis: *axis } })
        },
    }
}

// ---------------------------------------------------------------------------
// The transaction.

/// An authoring command against the current set.
#[derive(Debug, Clone, PartialEq, Eq)]
pub enum AuthoringCommand {
    /// Save `document` under `source_path`, replacing the document of the
    /// same key.
    Upsert { source_path: String, document: DocumentKey },
    Delete { document_id: String, document_kind: ProjectContentDocumentKind },
    UpdateEntityAppearance { document_id: String, projection_id: String, update: AppearanceUpdate },
}

/// A command and the set identity it was made against.
#[derive(Debug, Clone, PartialEq, Eq)]
pub struct AuthoringRequest {
    pub expected_set_hash: String,
    pub command: AuthoringCommand,
}

/// The documents an appearance edit reads: the resources of each
/// presentation catalog and the entity definitions, each in document order.
#[derive(Debug, Clone, PartialEq, Eq)]
pub struct AppearanceDocuments {
    pub catalogs: Vec<Vec<PresentationResource>>,
    pub entities: Vec<EntityDocument>,
}

/// The diagnostic code of a refusal.
#[derive(Debug, Clone, Copy, PartialEq, Eq, Structural)]
pub enum AuthoringCode {
    StaleRevision,
    InvalidField,
    DuplicateDocument,
    UnknownReference,
}

/// Why a command was refused.
#[derive(Debug, Clone, PartialEq, Eq)]
pub enum AuthoringRejection {
    /// The request names another set identity, or the set was validated
    /// against another reference revision.
    StaleRevision,
    /// The source path is not a normalized project-relative path.
    InvalidSourcePath,
    /// The source path already belongs to another document.
    SourcePathOwned { owner_document_id: String },
    /// The deleted document is not in the set.
    UnknownDocument,
    Appearance(AppearanceProblem),
}

pub open spec fn authoring_code(r: AuthoringRejection) -> AuthoringCode {
    match r {
        AuthoringRejection::StaleRevision => AuthoringCode::StaleRevision,
        AuthoringRejection::InvalidSourcePath => AuthoringCode::InvalidField,
        AuthoringRejection::SourcePathOwned { .. } => AuthoringCode::DuplicateDocument,
        AuthoringRejection::UnknownDocument => AuthoringCode::UnknownReference,
        AuthoringRejection::Appearance(_) => AuthoringCode::InvalidField,
    }
}

impl AuthoringRejection {
    pub fn code(&self) -> (r: AuthoringCode)
        ensures
            r == authoring_code(*self),
    {
        match self {
            AuthoringRejection::StaleRevision => AuthoringCode::StaleRevision,
            AuthoringRejection::InvalidSourcePath => AuthoringCode::InvalidField,
            AuthoringRejection::SourcePathOwned { .. } => AuthoringCode::DuplicateDocument,
            AuthoringRejection::UnknownDocument => AuthoringCode::UnknownReference,
            AuthoringRejection::Appearance(_) => AuthoringCode::InvalidField,
        }
    }
}

/// The edited documents and source paths of an accepted command, and the
/// appearance edit it makes inside an entity definition, if any.
#[derive(Debug, Clone, PartialEq, Eq)]
pub struct AuthoringEdit {
    pub documents: Vec<DocumentKey>,
    pub source_paths: Vec<SourcePathEntry>,
    pub appearance: Option<AppearanceEdit>,
}

pub open spec fn is_stale(s: AuthoringState, expected_set_hash: Seq<char>, reference_revision: u64) -> bool {
    s.set_hash@ != expected_set_hash || s.reference_revision != reference_revision
}

/// The edit an accepted command makes to the lists.
pub open spec fn edit_lists_ok(s: AuthoringState, command: AuthoringCommand, e: AuthoringEdit) -> bool {
    let ds = doc_keys(s.documents@);
    let ps = path_entries(s.source_paths@);
    match command {
        AuthoringCommand::Upsert { source_path, document } => {
            let k = key_view(document);
            &&& doc_keys(e.documents@) == drop_value(ds, k).push(k)
            &&& path_entries(e.source_paths@) == drop_entry(ps, k).push((k, source_path@))
            &&& e.appearance is None
        },
        AuthoringCommand::Delete { document_id, document_kind } => {
            let k = (document_kind, document_id@);
            &&& doc_keys(e.documents@) == drop_value(ds, k)
            &&& path_entries(e.source_paths@) == drop_entry(ps, k)
            &&& e.appearance is None
        },
        AuthoringCommand::UpdateEntityAppearance { .. } => {
            &&& doc_keys(e.documents@) == ds
            &&& path_entries(e.source_paths@) == ps
            &&& e.appearance is Some
        },
    }
}


/// Whether a set is well formed: each document listed once, and no two
/// source-path entries sharing a key or a path. `apply_authoring` needs it.
pub fn state_is_well_formed(state: &AuthoringState) -> (r: bool)
    ensures
        r == state_wf(*state),
{
    let ds = &state.documents;
    let ghost dk = doc_keys(ds@);
    let mut i: usize = 0;
    while i < ds.len()
        invariant
            i <= ds@.len(),
            dk == doc_keys(ds@),
            ds@ == state.documents@,
            forall|a: int, b: int| 0 <= a < b < ds@.len() && a < i ==> dk[a] != dk[b],
        decreases ds@.len() - i,
    {
        let mut j: usize = i + 1;
        while j < ds.len()
            invariant
                i < j <= ds@.len(),
                dk == doc_keys(ds@),
                ds@ == state.documents@,
                forall|a: int, b: int| 0 <= a < b < ds@.len() && a < i ==> dk[a] != dk[b],
                forall|b: int| i < b < j ==> dk[i as int] != dk[b],
            decreases ds@.len() - j,
        {
            assert(dk[i as int] == key_view(ds@[i as int]) && dk[j as int] == key_view(ds@[j as int]));
            if same_key(&ds[i], ds[j].kind, &ds[j].document_id) {
                assert(dk[i as int] == dk[j as int]);
                assert(!dk.no_duplicates());
                assert(!lists_wf(state.documents@, state.source_paths@));
                return false;
            }
            j = j + 1;
        }
        i = i + 1;
    }
    assert(dk.no_duplicates());
    let ps = &state.source_paths;
    let ghost pe = path_entries(ps@);
    let mut i: usize = 0;
    while i < ps.len()
        invariant
            i <= ps@.len(),
            pe == path_entries(ps@),
            ps@ == state.source_paths@,
            ds@ == state.documents@,
            dk.no_duplicates(),
            dk == doc_keys(ds@),
            forall|a: int, b: int| 0 <= a < b < pe.len() && a < i ==> pe[a].0 != pe[b].0 && pe[a].1 != pe[b].1,
        decreases ps@.len() - i,
    {
        let mut j: usize = i + 1;
        while j < ps.len()
            invariant
                i < j <= ps@.len(),
                pe == path_entries(ps@),
                ps@ == state.source_paths@,
                forall|a: int, b: int| 0 <= a < b < pe.len() && a < i ==> pe[a].0 != pe[b].0 && pe[a].1 != pe[b].1,
                forall|b: int| i < b < j ==> pe[i as int].0 != pe[b].0 && pe[i as int].1 != pe[b].1,
            decreases ps@.len() - j,
        {
            assert(pe[i as int] == entry_view(ps@[i as int]) && pe[j as int] == entry_view(ps@[j as int]));
            if same_key(&ps[i].key, ps[j].key.kind, &ps[j].key.document_id) || ps[i].source_path == ps[j].source_path {
                assert(!entries_distinct(pe)) by {
                    assert(pe[i as int].0 == pe[j as int].0 || pe[i as int].1 == pe[j as int].1);
                }
                assert(!lists_wf(state.documents@, state.source_paths@));
                return false;
            }
            j = j + 1;
        }
        i = i + 1;
    }
    assert(entries_distinct(pe));
    true
}

/// Apply an authoring command to the current set. A stale request is
/// refused first. An upsert needs a normalized source path that no other
/// document is saved under, and replaces the document of the same key, which
/// then comes last; a delete needs the document to exist and drops it and its
/// source path; an appearance edit changes one render projection's binding.
/// A refused command leaves the set unchanged.
pub fn apply_authoring(
    state: &AuthoringState,
    request: &AuthoringRequest,
    reference_revision: u64,
    appearance_documents: &AppearanceDocuments,
) -> (r: Result<AuthoringEdit, AuthoringRejection>)
    requires
        state_wf(*state),
    ensures
        is_stale(*state, request.expected_set_hash@, reference_revision) ==> r == Err::<AuthoringEdit, AuthoringRejection>(AuthoringRejection::StaleRevision),
        !is_stale(*state, request.expected_set_hash@, reference_revision) ==> match request.command {
            AuthoringCommand::Upsert { source_path, document } => {
                let k = key_view(document);
                let ps = path_entries(state.source_paths@);
                &&& !is_normalized_source_path(encode_utf8(source_path@)) ==> r == Err::<AuthoringEdit, AuthoringRejection>(AuthoringRejection::InvalidSourcePath)
                &&& is_normalized_source_path(encode_utf8(source_path@)) && path_owned_by_other(ps, k, source_path@) ==> (r matches Err(AuthoringRejection::SourcePathOwned { owner_document_id }) && exists|i: int|
                    0 <= i < ps.len() && (#[trigger] ps[i]).0 != k && ps[i].1 == source_path@ && ps[i].0.1 == owner_document_id@)
                &&& is_normalized_source_path(encode_utf8(source_path@)) && !path_owned_by_other(ps, k, source_path@) ==> r is Ok
            },
            AuthoringCommand::Delete { document_id, document_kind } => {
                &&& r is Err <==> !doc_keys(state.documents@).contains((document_kind, document_id@))
                &&& r is Err ==> r == Err::<AuthoringEdit, AuthoringRejection>(AuthoringRejection::UnknownDocument)
            },
            AuthoringCommand::UpdateEntityAppearance { document_id, projection_id, update } => {
                let problem = appearance_problem(appearance_documents.catalogs@, appearance_documents.entities@, document_id@, projection_id@, update);
                &&& r is Err <==> problem is Some
                &&& r is Err ==> r == Err::<AuthoringEdit, AuthoringRejection>(AuthoringRejection::Appearance(problem->0))
            },
        },
        r matches Ok(e) ==> {
            &&& edit_lists_ok(*state, request.command, e)
            &&& lists_wf(e.documents@, e.source_paths@)
            &&& (request.command matches AuthoringCommand::UpdateEntityAppearance { document_id, projection_id, update } ==> (e.appearance matches Some(edit) && {
                &&& is_first_entity(appearance_documents.entities@, document_id@, edit.entity as int)
                &&& is_first_projection(appearance_documents.entities@[edit.entity as int].capabilities@, projection_id@, edit.capability as int)
                &&& change_ok(appearance_documents.catalogs@, current_binding(appearance_documents.entities@, document_id@, projection_id@), update, edit.change)
            }))
        },
{
    if state.set_hash != request.expected_set_hash || state.reference_revision != reference_revision {
        return Err(AuthoringRejection::StaleRevision);
    }
    let ghost ds = doc_keys(state.documents@);
    let ghost ps = path_entries(state.source_paths@);
    match &request.command {
        AuthoringCommand::Upsert { source_path, document } => {
            if validate_source_path(source_path.as_str()).is_err() {
                return Err(AuthoringRejection::InvalidSourcePath);
            }
            let kind = document.kind;
            let id = &document.document_id;
            let ghost k = (kind, id@);
            match find_path_owner(&state.source_paths, kind, id, source_path) {
                Some(i) => {
                    let owner = state.source_paths[i].key.document_id.clone();
                    proof {
                        assert(ps[i as int] == entry_view(state.source_paths@[i as int]));
                        assert(ps[i as int].0 != k && ps[i as int].1 == source_path@ && ps[i as int].0.1 == owner@);
                    }
                    return Err(AuthoringRejection::SourcePathOwned { owner_document_id: owner });
                },
                None => {},
            }
            let mut documents = docs_without(&state.documents, kind, id);
            let ghost kept = doc_keys(documents@);
            documents.push(copy_key(document));
            assert(doc_keys(documents@) =~= kept.push(k));
            let mut source_paths = paths_without(&state.source_paths, kind, id);
            let ghost kept_paths = path_entries(source_paths@);
            source_paths.push(SourcePathEntry { key: copy_key(document), source_path: source_path.clone() });
            assert(path_entries(source_paths@) =~= kept_paths.push((k, source_path@)));
            proof {
                lemma_drop_value(ds, k);
                lemma_drop_entry(ps, k);
                lemma_push_keeps_distinct_values(kept, k);
                lemma_upsert_keeps_entries_distinct(ps, k, source_path@);
            }
            Ok(AuthoringEdit { documents, source_paths, appearance: None })
        },
        AuthoringCommand::Delete { document_id, document_kind } => {
            if !holds_key(&state.documents, *document_kind, document_id) {
                return Err(AuthoringRejection::UnknownDocument);
            }
            let documents = docs_without(&state.documents, *document_kind, document_id);
            let source_paths = paths_without(&state.source_paths, *document_kind, document_id);
            proof {
                lemma_drop_value(ds, (*document_kind, document_id@));
                lemma_drop_entry(ps, (*document_kind, document_id@));
            }
            Ok(AuthoringEdit { documents, source_paths, appearance: None })
        },
        AuthoringCommand::UpdateEntityAppearance { document_id, projection_id, update } => {
            match resolve_appearance_update(&appearance_documents.catalogs, &appearance_documents.entities, document_id, projection_id, update) {
                Err(p) => Err(AuthoringRejection::Appearance(p)),
                Ok(edit) => {
                    let documents = copy_keys(&state.documents);
                    let source_paths = copy_entries(&state.source_paths);
                    Ok(AuthoringEdit { documents, source_paths, appearance: Some(edit) })
                },
            }
        },
    }
}

fn copy_keys(ds: &Vec<DocumentKey>) -> (r: Vec<DocumentKey>)
    ensures
        doc_keys(r@) == doc_keys(ds@),
{
    let mut out: Vec<DocumentKey> = Vec::new();
    let mut i: usize = 0;
    while i < ds.len()
        invariant
            i <= ds@.len(),
            doc_keys(out@) == doc_keys(ds@.subrange(0, i as int)),
        decreases ds@.len() - i,
    {
        let ghost before = out@;
        out.push(copy_key(&ds[i]));
        assert(doc_keys(out@) =~= doc_keys(before).push(key_view(ds@[i as int])));
        assert(doc_keys(ds@.subrange(0, i + 1)) =~= doc_keys(ds@.subrange(0, i as int)).push(key_view(ds@[i as int])));
        i = i + 1;
    }
    assert(ds@.subrange(0, ds@.len() as int) =~= ds@);
    out
}

fn copy_entries(ps: &Vec<SourcePathEntry>) -> (r: Vec<SourcePathEntry>)
    ensures
        path_entries(r@) == path_entries(ps@),
{
    let mut out: Vec<SourcePathEntry> = Vec::new();
    let mut i: usize = 0;
    while i < ps.len()
        invariant
            i <= ps@.len(),
            path_entries(out@) == path_entries(ps@.subrange(0, i as int)),
        decreases ps@.len() - i,
    {
        let ghost before = out@;
        out.push(copy_entry(&ps[i]));
        assert(path_entries(out@) =~= path_entries(before).push(entry_view(ps@[i as int])));
        assert(path_entries(ps@.subrange(0, i + 1)) =~= path_entries(ps@.subrange(0, i as int)).push(entry_view(ps@[i as int])));
        i = i + 1;
    }
    assert(ps@.subrange(0, ps@.len() as int) =~= ps@);
    out
}

pub proof fn lemma_push_keeps_distinct_values<A>(vs: Seq<A>, k: A)
    requires
        vs.no_duplicates(),
        !vs.contains(k),
    ensures
        vs.push(k).no_duplicates(),
{
    let t = vs.push(k);
    assert forall|i: int, j: int| 0 <= i < t.len() && 0 <= j < t.len() && i != j implies t[i] != t[j] by {
        if i < vs.len() && j < vs.len() {
            assert(t[i] == vs[i] && t[j] == vs[j]);
        } else if i < vs.len() {
            assert(t[i] == vs[i]);
            assert(vs.contains(vs[i]));
        } else if j < vs.len() {
            assert(t[j] == vs[j]);
            assert(vs.contains(vs[j]));
        }
    }
}

proof fn lemma_upsert_keeps_entries_distinct<K, P>(es: Seq<(K, P)>, k: K, p: P)
    requires
        entries_distinct(es),
        !(exists|i: int| 0 <= i < es.len() && (#[trigger] es[i]).0 != k && es[i].1 == p),
    ensures
        entries_distinct(drop_entry(es, k).push((k, p))),
{
    lemma_drop_entry(es, k);
    let d = drop_entry(es, k);
    let t = d.push((k, p));
    assert forall|i: int, j: int| 0 <= i < j < t.len() implies (#[trigger] t[i]).0 != (#[trigger] t[j]).0 && t[i].1 != t[j].1 by {
        if j < d.len() {
            assert(t[i] == d[i] && t[j] == d[j]);
        } else {
            assert(t[i] == d[i]);
            assert(d.contains(d[i]));
            assert(es.contains(d[i]));
            let a = choose|a: int| 0 <= a < es.len() && es[a] == d[i];
            assert(es[a].0 != k);
        }
    }
}

// ---------------------------------------------------------------------------
// The source paths of a decoded set.

/// One source of a decode request: the document it holds and where it is
/// saved.
#[derive(Debug, Clone, PartialEq, Eq)]
pub struct DocumentSource {
    pub kind: ProjectContentDocumentKind,
    pub document_id: String,
    pub source_path: String,
}

/// A problem with the source path of source `index`.
#[derive(Debug, Clone, Copy, PartialEq, Eq, Structural)]
pub enum SourcePathProblem {
    /// Not a normalized project-relative path.
    InvalidPath { index: usize },
    /// An earlier source already has this path.
    DuplicatePath { index: usize },
}

pub open spec fn source_path_ok(p: Seq<char>) -> bool {
    is_normalized_source_path(encode_utf8(p))
}

/// An earlier source with a valid path has the path of source `i`.
pub open spec fn path_taken(ss: Seq<DocumentSource>, i: int) -> bool {
    exists|j: int| 0 <= j < i && source_path_ok((#[trigger] ss[j]).source_path@) && ss[j].source_path@ == ss[i].source_path@
}

pub open spec fn source_accepted(ss: Seq<DocumentSource>, i: int) -> bool {
    source_path_ok(ss[i].source_path@) && !path_taken(ss, i)
}

pub open spec fn source_key(s: DocumentSource) -> (ProjectContentDocumentKind, Seq<char>) {
    (s.kind, s.document_id@)
}

/// The problems of the first `n` sources, in order.
pub open spec fn source_problems_upto(ss: Seq<DocumentSource>, n: int) -> Seq<SourcePathProblem>
    decreases n,
{
    if n <= 0 {
        Seq::empty()
    } else {
        let i = n - 1;
        source_problems_upto(ss, i) + if !source_path_ok(ss[i].source_path@) {
            seq![SourcePathProblem::InvalidPath { index: i as usize }]
        } else if path_taken(ss, i) {
            seq![SourcePathProblem::DuplicatePath { index: i as usize }]
        } else {
            Seq::empty()
        }
    }
}

/// The source path of each document after the first `n` sources: a later
/// accepted source of the same document replaces the earlier path.
pub open spec fn source_map_upto(ss: Seq<DocumentSource>, n: int) -> Seq<((ProjectContentDocumentKind, Seq<char>), Seq<char>)>
    decreases n,
{
    if n <= 0 {
        Seq::empty()
    } else {
        let i = n - 1;
        let prev = source_map_upto(ss, i);
        if source_accepted(ss, i) {
            drop_entry(prev, source_key(ss[i])).push((source_key(ss[i]), ss[i].source_path@))
        } else {
            prev
        }
    }
}

fn path_taken_exec(ss: &Vec<DocumentSource>, i: usize) -> (r: bool)
    requires
        i < ss@.len(),
    ensures
        r == path_taken(ss@, i as int),
{
    let mut j: usize = 0;
    while j < i
        invariant
            j <= i < ss@.len(),
            forall|t: int| 0 <= t < j ==> !(source_path_ok((#[trigger] ss@[t]).source_path@) && ss@[t].source_path@ == ss@[i as int].source_path@),
        decreases i - j,
    {
        if ss[j].source_path == ss[i].source_path && validate_source_path(ss[j].source_path.as_str()).is_ok() {
            return true;
        }
        j = j + 1;
    }
    false
}

/// Map each document of a decode request to its source path, or report
/// every source whose path is invalid or already taken by an earlier source.
pub fn source_path_map(sources: &Vec<DocumentSource>) -> (r: Result<Vec<SourcePathEntry>, Vec<SourcePathProblem>>)
    ensures
        match r {
            Ok(es) => source_problems_upto(sources@, sources@.len() as int).len() == 0
                && path_entries(es@) == source_map_upto(sources@, sources@.len() as int),
            Err(ps) => ps@.len() > 0 && ps@ == source_problems_upto(sources@, sources@.len() as int),
        },
{
    let mut problems: Vec<SourcePathProblem> = Vec::new();
    let mut map: Vec<SourcePathEntry> = Vec::new();
    let mut i: usize = 0;
    while i < sources.len()
        invariant
            i <= sources@.len(),
            problems@ == source_problems_upto(sources@, i as int),
            path_entries(map@) == source_map_upto(sources@, i as int),
        decreases sources@.len() - i,
    {
        let s = &sources[i];
        if validate_source_path(s.source_path.as_str()).is_err() {
            problems.push(SourcePathProblem::InvalidPath { index: i });
        } else if path_taken_exec(sources, i) {
            problems.push(SourcePathProblem::DuplicatePath { index: i });
        } else {
            let kept = paths_without(&map, s.kind, &s.document_id);
            let mut next = kept;
            let ghost kept_view = path_entries(next@);
            next.push(SourcePathEntry {
                key: DocumentKey { kind: s.kind, document_id: s.document_id.clone() },
                source_path: s.source_path.clone(),
            });
            assert(path_entries(next@) =~= kept_view.push((source_key(sources@[i as int]), s.source_path@)));
            map = next;
        }
        assert(problems@ =~= source_problems_upto(sources@, i + 1));
        i = i + 1;
    }
    if problems.len() == 0 {
        Ok(map)
    } else {
        Err(problems)
    }
}

/// Every accepted source's path is distinct from the paths of the other
/// documents in the map, and each document appears once: the source map of
/// a decoded set is well formed.
pub proof fn law_source_map_is_well_formed(ss: Seq<DocumentSource>, n: int)
    requires
        0 <= n <= ss.len(),
    ensures
        entries_distinct(source_map_upto(ss, n)),
        forall|x: ((ProjectContentDocumentKind, Seq<char>), Seq<char>)| #[trigger] source_map_upto(ss, n).contains(x)
            ==> exists|j: int| 0 <= j < n && source_accepted(ss, j) && x.1 == (#[trigger] ss[j]).source_path@,
    decreases n,
{
    if n > 0 {
        let i = n - 1;
        law_source_map_is_well_formed(ss, i);
        let prev = source_map_upto(ss, i);
        if source_accepted(ss, i) {
            let k = source_key(ss[i]);
            let p = ss[i].source_path@;
            lemma_drop_entry(prev, k);
            assert(!(exists|t: int| 0 <= t < prev.len() && (#[trigger] prev[t]).0 != k && prev[t].1 == p)) by {
                if exists|t: int| 0 <= t < prev.len() && (#[trigger] prev[t]).0 != k && prev[t].1 == p {
                    let t = choose|t: int| 0 <= t < prev.len() && (#[trigger] prev[t]).0 != k && prev[t].1 == p;
                    assert(prev.contains(prev[t]));
                    let j = choose|j: int| 0 <= j < i && source_accepted(ss, j) && prev[t].1 == (#[trigger] ss[j]).source_path@;
                    assert(path_taken(ss, i));
                }
            }
            lemma_upsert_keeps_entries_distinct(prev, k, p);
            let cur = source_map_upto(ss, n);
            assert forall|x: ((ProjectContentDocumentKind, Seq<char>), Seq<char>)| #[trigger] cur.contains(x)
                implies exists|j: int| 0 <= j < n && source_accepted(ss, j) && x.1 == (#[trigger] ss[j]).source_path@ by {
                lemma_push_contains(drop_entry(prev, k), (k, p), x);
                if x != (k, p) {
                    assert(prev.contains(x));
                    let j = choose|j: int| 0 <= j < i && source_accepted(ss, j) && x.1 == (#[trigger] ss[j]).source_path@;
                } else {
                    assert(ss[i].source_path@ == x.1);
                }
            }
        } else {
            assert forall|x: ((ProjectContentDocumentKind, Seq<char>), Seq<char>)| #[trigger] source_map_upto(ss, n).contains(x)
                implies exists|j: int| 0 <= j < n && source_accepted(ss, j) && x.1 == (#[trigger] ss[j]).source_path@ by {
                let j = choose|j: int| 0 <= j < i && source_accepted(ss, j) && x.1 == (#[trigger] ss[j]).source_path@;
            }
        }
    }
}

// ---------------------------------------------------------------------------
// Laws of the transaction.

proof fn lemma_drop_after_push<A>(vs: Seq<A>, k: A)
    ensures
        drop_value(vs.push(k), k) == drop_value(vs, k),
{
    assert(vs.push(k).drop_last() =~= vs);
}

proof fn lemma_drop_entry_after_push<K, P>(es: Seq<(K, P)>, k: K, p: P)
    ensures
        drop_entry(es.push((k, p)), k) == drop_entry(es, k),
{
    assert(es.push((k, p)).drop_last() =~= es);
}

/// Deleting a document that an upsert has just added to the set gives back
/// the set's documents and source paths as they were before the upsert.
pub proof fn law_delete_undoes_upsert_of_new_document(
    documents: Seq<(ProjectContentDocumentKind, Seq<char>)>,
    paths: Seq<((ProjectContentDocumentKind, Seq<char>), Seq<char>)>,
    k: (ProjectContentDocumentKind, Seq<char>),
    p: Seq<char>,
)
    requires
        !documents.contains(k),
        forall|i: int| 0 <= i < paths.len() ==> (#[trigger] paths[i]).0 != k,
    ensures
        drop_value(drop_value(documents, k).push(k), k) == documents,
        drop_entry(drop_entry(paths, k).push((k, p)), k) == paths,
{
    lemma_drop_after_push(drop_value(documents, k), k);
    lemma_drop_value(documents, k);
    lemma_drop_value(drop_value(documents, k), k);
    lemma_drop_entry_after_push(drop_entry(paths, k), k, p);
    lemma_drop_entry(paths, k);
    lemma_drop_entry(drop_entry(paths, k), k);
}

/// Upserting the same document under the same path twice leaves the set as
/// one upsert does.
pub proof fn law_upsert_is_idempotent(
    documents: Seq<(ProjectContentDocumentKind, Seq<char>)>,
    paths: Seq<((ProjectContentDocumentKind, Seq<char>), Seq<char>)>,
    k: (ProjectContentDocumentKind, Seq<char>),
    p: Seq<char>,
)
    ensures
        drop_value(drop_value(documents, k).push(k), k).push(k) == drop_value(documents, k).push(k),
        drop_entry(drop_entry(paths, k).push((k, p)), k).push((k, p)) == drop_entry(paths, k).push((k, p)),
{
    lemma_drop_after_push(drop_value(documents, k), k);
    lemma_drop_value(documents, k);
    lemma_drop_value(drop_value(documents, k), k);
    lemma_drop_entry_after_push(drop_entry(paths, k), k, p);
    lemma_drop_entry(paths, k);
    assert forall|i: int| 0 <= i < drop_entry(paths, k).len() implies (#[trigger] drop_entry(paths, k)[i]).0 != k by {
        assert(drop_entry(paths, k).contains(drop_entry(paths, k)[i]));
    }
    lemma_drop_entry(drop_entry(paths, k), k);
}

} // verus!
