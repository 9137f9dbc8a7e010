//! Indexing of the project's scenes: marker ids, entity instances and what
//! they instantiate, and whether an instance's transform chain supports a
//! trigger (every node up its parent chain has a finite translation, the
//! identity rotation and unit scale, and the chain ends without a cycle).
//!
//! Whether one node's own transform is supported rests on floating-point
//! values and arrives as a verdict.

use vstd::prelude::*;
use crate::ids::{is_blank, is_blank_text};
use crate::module_declarations::before;
use crate::gameplay_content::SceneInstanceTarget;

verus! {

/// A reference from a scene entity instance.
#[derive(Debug, Clone, PartialEq, Eq)]
pub enum SceneEntityReference {
    EntityDefinition { stable_id: String },
    Prefab { prefab_id: u64, variant_id: Option<String> },
}

#[derive(Debug, Clone, PartialEq, Eq)]
pub enum SceneNodeKind {
    Marker { marker_id: String },
    EntityInstance { instance_id: String, spawn_marker_id: Option<String>, reference: SceneEntityReference },
    Other,
}

/// A scene node: its id, its parent, whether its own transform is
/// supported for triggers, and what it is.
#[derive(Debug, Clone, PartialEq, Eq)]
pub struct SceneNodeFacts {
    pub id: u64,
    pub parent: Option<u64>,
    pub transform_supported: bool,
    pub kind: SceneNodeKind,
}

#[derive(Debug, Clone, PartialEq, Eq)]
pub struct FlatScene {
    pub id: u64,
    pub nodes: Vec<SceneNodeFacts>,
}

// ---------------------------------------------------------------------------
// Transform chains.

/// `p` is the last node with id `id`.
pub open spec fn is_last_node(ns: Seq<SceneNodeFacts>, id: u64, p: int) -> bool {
    &&& 0 <= p < ns.len()
    &&& ns[p].id == id
    &&& forall|t: int| p < t < ns.len() ==> (#[trigger] ns[t]).id != id
}

pub open spec fn has_node(ns: Seq<SceneNodeFacts>, id: u64) -> bool {
    exists|p: int| 0 <= p < ns.len() && (#[trigger] ns[p]).id == id
}

/// The node a parent id names: the last node with that id.
pub open spec fn node_named(ns: Seq<SceneNodeFacts>, id: u64) -> int {
    choose|p: int| is_last_node(ns, id, p)
}

/// The index of the parent of node `k`, when it has one in the scene.
pub open spec fn parent_of(ns: Seq<SceneNodeFacts>, k: int) -> Option<int> {
    match ns[k].parent {
        Some(p) => if has_node(ns, p) {
            Some(node_named(ns, p))
        } else {
            None
        },
        None => None,
    }
}

/// `chain` walks from node `start` up its parents until a node without
/// one, through nodes of distinct ids whose transforms are supported.
pub open spec fn valid_chain(ns: Seq<SceneNodeFacts>, start: int, chain: Seq<int>) -> bool {
    &&& chain.len() > 0
    &&& chain[0] == start
    &&& forall|i: int| 0 <= i < chain.len() ==> 0 <= #[trigger] chain[i] < ns.len() && ns[chain[i]].transform_supported
    &&& forall|i: int| 0 <= i < chain.len() - 1 ==> parent_of(ns, #[trigger] chain[i]) == Some(chain[i + 1])
    &&& parent_of(ns, chain.last()) is None
    &&& forall|i: int, j: int| 0 <= i < j < chain.len() ==> ns[#[trigger] chain[i]].id != ns[#[trigger] chain[j]].id
}

/// The transform chain of node `start` supports a trigger.
pub open spec fn transform_chain_ok(ns: Seq<SceneNodeFacts>, start: int) -> bool {
    exists|chain: Seq<int>| valid_chain(ns, start, chain)
}

/// `path` walks from `start` up parents, each step to the parent.
pub open spec fn is_path(ns: Seq<SceneNodeFacts>, start: int, path: Seq<int>) -> bool {
    &&& path.len() > 0
    &&& path[0] == start
    &&& forall|i: int| 0 <= i < path.len() ==> 0 <= #[trigger] path[i] < ns.len()
    &&& forall|i: int| 0 <= i < path.len() - 1 ==> parent_of(ns, #[trigger] path[i]) == Some(path[i + 1])
}

/// A valid chain follows any path from the same start, and is longer.
proof fn lemma_chain_follows_path(ns: Seq<SceneNodeFacts>, start: int, chain: Seq<int>, path: Seq<int>, i: int)
    requires
        valid_chain(ns, start, chain),
        is_path(ns, start, path),
        0 <= i < path.len(),
    ensures
        i < chain.len(),
        chain[i] == path[i],
    decreases i,
{
    if i > 0 {
        lemma_chain_follows_path(ns, start, chain, path, i - 1);
        assert(parent_of(ns, path[i - 1]) == Some(path[i]));
        if i - 1 == chain.len() - 1 {
            assert(parent_of(ns, chain.last()) is None);
        }
        assert(parent_of(ns, chain[i - 1]) == Some(chain[i]));
    }
}

proof fn lemma_node_named(ns: Seq<SceneNodeFacts>, id: u64, p: int)
    requires
        is_last_node(ns, id, p),
    ensures
        node_named(ns, id) == p,
{
    let c = node_named(ns, id);
    assert(is_last_node(ns, id, c));
    if c < p {
        assert(ns[p].id == id);
    }
    if p < c {
        assert(ns[c].id == id);
    }
}

fn parent_index(ns: &Vec<SceneNodeFacts>, k: usize) -> (r: Option<usize>)
    requires
        k < ns@.len(),
    ensures
        r matches Some(p) ==> p < ns@.len(),
        match r {
            Some(p) => parent_of(ns@, k as int) == Some(p as int),
            None => parent_of(ns@, k as int) is None,
        },
{
    match ns[k].parent {
        None => None,
        Some(pid) => {
            let mut found: Option<usize> = None;
            let mut v: usize = 0;
            while v < ns.len()
                invariant
                    v <= ns@.len(),
                    found is None ==> forall|t: int| 0 <= t < v ==> (#[trigger] ns@[t]).id != pid,
                    found matches Some(w) ==> w < v && ns@[w as int].id == pid
                        && forall|t: int| w < t < v ==> (#[trigger] ns@[t]).id != pid,
                decreases ns@.len() - v,
            {
                if ns[v].id == pid {
                    found = Some(v);
                }
                v = v + 1;
            }
            proof {
                if let Some(w) = found {
                    lemma_node_named(ns@, pid, w as int);
                }
            }
            found
        },
    }
}

proof fn lemma_distinct_ids_bounded(ns: Seq<SceneNodeFacts>, visited: Seq<u64>)
    requires
        visited.no_duplicates(),
        forall|i: int| 0 <= i < visited.len() ==> has_node(ns, #[trigger] visited[i]),
    ensures
        visited.len() <= ns.len(),
{
    let ids = ns.map_values(|n: SceneNodeFacts| n.id);
    assert(visited.to_set().subset_of(ids.to_set())) by {
        assert forall|x: u64| visited.to_set().contains(x) implies ids.to_set().contains(x) by {
            let i = choose|i: int| 0 <= i < visited.len() && visited[i] == x;
            assert(has_node(ns, visited[i]));
            let p = choose|p: int| 0 <= p < ns.len() && (#[trigger] ns[p]).id == visited[i];
            assert(ids[p] == x);
        }
    }
    visited.unique_seq_to_set();
    ids.lemma_cardinality_of_set();
    vstd::seq_lib::seq_to_set_is_finite(ids);
    vstd::set_lib::lemma_len_subset(visited.to_set(), ids.to_set());
}

/// Whether the transform chain of node `start` supports a trigger: walk up
/// the parents, and fail on a node whose transform is unsupported or on a
/// node id met before.
pub fn transform_chain_supported(ns: &Vec<SceneNodeFacts>, start: usize) -> (r: bool)
    requires
        start < ns@.len(),
    ensures
        r == transform_chain_ok(ns@, start as int),
{
    let mut visited: Vec<u64> = Vec::new();
    let ghost mut path: Seq<int> = seq![start as int];
    let mut cur = start;
    loop
        invariant
            cur < ns@.len(),
            start < ns@.len(),
            is_path(ns@, start as int, path),
            path.len() == visited@.len() + 1,
            path.last() == cur as int,
            visited@.no_duplicates(),
            forall|i: int| 0 <= i < visited@.len() ==> #[trigger] visited@[i] == ns@[path[i]].id,
            forall|i: int| 0 <= i < visited@.len() ==> has_node(ns@, #[trigger] visited@[i]),
            forall|i: int| 0 <= i < visited@.len() ==> ns@[#[trigger] path[i]].transform_supported,
        decreases ns@.len() - visited@.len(),
    {
        let id = ns[cur].id;
        let mut seen = false;
        let mut u: usize = 0;
        while u < visited.len()
            invariant
                u <= visited@.len(),
                seen == exists|a: int| 0 <= a < u && visited@[a] == id,
            decreases visited@.len() - u,
        {
            if visited[u] == id {
                seen = true;
            }
            u = u + 1;
        }
        if seen || !ns[cur].transform_supported {
            proof {
                if transform_chain_ok(ns@, start as int) {
                    let chain = choose|chain: Seq<int>| valid_chain(ns@, start as int, chain);
                    let m = path.len() - 1;
                    lemma_chain_follows_path(ns@, start as int, chain, path, m);
                    if seen {
                        let a = choose|a: int| 0 <= a < visited@.len() && visited@[a] == id;
                        lemma_chain_follows_path(ns@, start as int, chain, path, a);
                        assert(ns@[chain[a]].id == ns@[chain[m]].id);
                    } else {
                        assert(ns@[chain[m]].transform_supported);
                    }
                }
            }
            return false;
        }
        match parent_index(ns, cur) {
            None => {
                proof {
                    assert(valid_chain(ns@, start as int, path)) by {
                        assert forall|i: int, j: int| 0 <= i < j < path.len() implies ns@[#[trigger] path[i]].id != ns@[#[trigger] path[j]].id by {
                            if j < visited@.len() {
                                assert(visited@[i] == ns@[path[i]].id);
                                assert(visited@[j] == ns@[path[j]].id);
                            } else {
                                assert(visited@[i] == ns@[path[i]].id);
                            }
                        }
                    }
                }
                return true;
            },
            Some(p) => {
                proof {
                    assert(has_node(ns@, id)) by {
                        assert(ns@[cur as int].id == id);
                    }
                    assert(!visited@.contains(id));
                    lemma_distinct_ids_bounded(ns@, visited@.push(id));
                }
                let ghost old_path = path;
                let ghost old_visited = visited@;
                visited.push(id);
                proof {
                    path = path.push(p as int);
                    assert forall|i: int| 0 <= i < path.len() - 1 implies parent_of(ns@, #[trigger] path[i]) == Some(path[i + 1]) by {
                        if i < old_path.len() - 1 {
                            assert(path[i] == old_path[i] && path[i + 1] == old_path[i + 1]);
                        }
                    }
                    assert forall|i: int| 0 <= i < visited@.len() implies #[trigger] visited@[i] == ns@[path[i]].id by {
                        if i < old_visited.len() {
                            assert(visited@[i] == old_visited[i] && path[i] == old_path[i]);
                        }
                    }
                    assert forall|i: int| 0 <= i < visited@.len() implies ns@[#[trigger] path[i]].transform_supported by {
                        if i < old_visited.len() {
                            assert(path[i] == old_path[i]);
                        }
                    }
                    assert forall|i: int| 0 <= i < visited@.len() implies has_node(ns@, #[trigger] visited@[i]) by {
                        if i < old_visited.len() {
                            assert(visited@[i] == old_visited[i]);
                        }
                    }
                }
                cur = p;
            },
        }
    }
}

// ---------------------------------------------------------------------------
// Markers and instances.

/// The prefab registries: the base prefabs, and the variant ids declared
/// for each base prefab.
#[derive(Debug, Clone, PartialEq, Eq)]
pub struct PrefabRegistryFacts {
    pub base_prefabs: Vec<u64>,
    pub variants: Vec<(u64, String)>,
}

/// An indexed scene instance: its id, its scene and what it instantiates.
#[derive(Debug, Clone, PartialEq, Eq)]
pub struct SceneInstanceRecord {
    pub scene_instance_id: String,
    pub scene_id: u64,
    pub target: SceneInstanceTarget,
}

#[derive(Debug, Clone, Copy, PartialEq, Eq, Structural)]
pub enum SceneIndexCode {
    InvalidDocument,
    UnknownReference,
}

/// One problem of node `node` of scene `scene`.
#[derive(Debug, Clone, Copy, PartialEq, Eq, Structural)]
pub enum SceneIndexDiagnostic {
    InvalidMarkerId { scene: usize, node: usize },
    InvalidInstanceId { scene: usize, node: usize },
    UnknownSpawnMarker { scene: usize, node: usize },
    UnknownBasePrefab { scene: usize, node: usize },
    UnknownVariant { scene: usize, node: usize },
}

pub open spec fn scene_index_code(d: SceneIndexDiagnostic) -> SceneIndexCode {
    match d {
        SceneIndexDiagnostic::InvalidMarkerId { .. } => SceneIndexCode::InvalidDocument,
        SceneIndexDiagnostic::InvalidInstanceId { .. } => SceneIndexCode::InvalidDocument,
        _ => SceneIndexCode::UnknownReference,
    }
}

impl SceneIndexDiagnostic {
    /// The project-content diagnostic code of this problem.
    pub fn code(self) -> (r: SceneIndexCode)
        ensures
            r == scene_index_code(self),
    {
        match self {
            SceneIndexDiagnostic::InvalidMarkerId { .. } => SceneIndexCode::InvalidDocument,
            SceneIndexDiagnostic::InvalidInstanceId { .. } => SceneIndexCode::InvalidDocument,
            _ => SceneIndexCode::UnknownReference,
        }
    }
}

pub open spec fn flag(b: bool, d: SceneIndexDiagnostic) -> Seq<SceneIndexDiagnostic> {
    if b {
        seq![d]
    } else {
        Seq::empty()
    }
}

fn push_if(out: &mut Vec<SceneIndexDiagnostic>, cond: bool, d: SceneIndexDiagnostic)
    ensures
        final(out)@ == old(out)@ + flag(cond, d),
{
    if cond {
        out.push(d);
    }
    assert(out@ =~= old(out)@ + flag(cond, d));
}

/// Node `n` is a marker with id `m`.
pub open spec fn marker_is(n: SceneNodeFacts, m: Seq<char>) -> bool {
    match n.kind {
        SceneNodeKind::Marker { marker_id } => marker_id@ == m,
        _ => false,
    }
}

/// An earlier marker of the scene has the id of marker `k`.
pub open spec fn marker_seen_before(ns: Seq<SceneNodeFacts>, k: int, m: Seq<char>) -> bool {
    exists|t: int| 0 <= t < k && marker_is(#[trigger] ns[t], m)
}

/// The scene declares the non-blank marker `m`.
pub open spec fn scene_has_marker(ns: Seq<SceneNodeFacts>, m: Seq<char>) -> bool {
    !is_blank_text(m) && exists|t: int| 0 <= t < ns.len() && marker_is(#[trigger] ns[t], m)
}

pub open spec fn markers_upto(ns: Seq<SceneNodeFacts>, s: int, n: int) -> Seq<SceneIndexDiagnostic>
    decreases n,
{
    if n <= 0 {
        Seq::empty()
    } else {
        let k = n - 1;
        markers_upto(ns, s, k) + match ns[k].kind {
            SceneNodeKind::Marker { marker_id } => flag(
                is_blank_text(marker_id@) || marker_seen_before(ns, k, marker_id@),
                SceneIndexDiagnostic::InvalidMarkerId { scene: s as usize, node: k as usize },
            ),
            _ => Seq::empty(),
        }
    }
}

pub open spec fn node_valid(scenes: Seq<FlatScene>, j: int, t: int) -> bool {
    0 <= j < scenes.len() && 0 <= t < scenes[j].nodes@.len()
}

/// The instance id of node `(j, t)` when it is an entity instance.
pub open spec fn instance_id_at(scenes: Seq<FlatScene>, j: int, t: int) -> Option<Seq<char>> {
    match scenes[j].nodes@[t].kind {
        SceneNodeKind::EntityInstance { instance_id, .. } => Some(instance_id@),
        _ => None,
    }
}

/// An entity instance before `(s, k)`, in this scene or an earlier one, has
/// the instance id of `(s, k)`.
pub open spec fn instance_taken(scenes: Seq<FlatScene>, s: int, k: int) -> bool {
    exists|j: int, t: int|
        #![trigger instance_id_at(scenes, j, t)]
        node_valid(scenes, j, t) && before(j, t, s, k) && instance_id_at(scenes, j, t) is Some
            && instance_id_at(scenes, j, t) == instance_id_at(scenes, s, k)
}

/// Node `(s, k)` is an entity instance that enters the index.
pub open spec fn indexed(scenes: Seq<FlatScene>, s: int, k: int) -> bool {
    match scenes[s].nodes@[k].kind {
        SceneNodeKind::EntityInstance { instance_id, .. } => !is_blank_text(instance_id@) && !instance_taken(scenes, s, k),
        _ => false,
    }
}

pub open spec fn has_variant(reg: PrefabRegistryFacts, prefab: u64, v: Seq<char>) -> bool {
    exists|i: int| 0 <= i < reg.variants@.len() && (#[trigger] reg.variants@[i]).0 == prefab && reg.variants@[i].1@ == v
}

/// The problems of node `(s, k)` as an entity instance: a blank or taken
/// id alone; otherwise an unknown spawn marker, and for a prefab an unknown
/// base prefab and an unknown variant.
pub open spec fn instance_diagnostics(scenes: Seq<FlatScene>, s: int, k: int, reg: PrefabRegistryFacts) -> Seq<SceneIndexDiagnostic> {
    let ns = scenes[s].nodes@;
    let (x, y) = (s as usize, k as usize);
    match ns[k].kind {
        SceneNodeKind::EntityInstance { instance_id, spawn_marker_id, reference } => if !indexed(scenes, s, k) {
            seq![SceneIndexDiagnostic::InvalidInstanceId { scene: x, node: y }]
        } else {
            flag(
                match spawn_marker_id {
                    Some(m) => !scene_has_marker(ns, m@),
                    None => false,
                },
                SceneIndexDiagnostic::UnknownSpawnMarker { scene: x, node: y },
            ) + match reference {
                SceneEntityReference::EntityDefinition { .. } => Seq::empty(),
                SceneEntityReference::Prefab { prefab_id, variant_id } => flag(
                    !reg.base_prefabs@.contains(prefab_id),
                    SceneIndexDiagnostic::UnknownBasePrefab { scene: x, node: y },
                ) + flag(
                    match variant_id {
                        Some(v) => !has_variant(reg, prefab_id, v@),
                        None => false,
                    },
                    SceneIndexDiagnostic::UnknownVariant { scene: x, node: y },
                ),
            }
        },
        _ => Seq::empty(),
    }
}

pub open spec fn instances_upto(scenes: Seq<FlatScene>, s: int, reg: PrefabRegistryFacts, n: int) -> Seq<SceneIndexDiagnostic>
    decreases n,
{
    if n <= 0 {
        Seq::empty()
    } else {
        instances_upto(scenes, s, reg, n - 1) + instance_diagnostics(scenes, s, n - 1, reg)
    }
}

pub open spec fn scenes_upto(scenes: Seq<FlatScene>, reg: PrefabRegistryFacts, n: int) -> Seq<SceneIndexDiagnostic>
    decreases n,
{
    if n <= 0 {
        Seq::empty()
    } else {
        let s = n - 1;
        let ns = scenes[s].nodes@;
        scenes_upto(scenes, reg, s) + markers_upto(ns, s, ns.len() as int) + instances_upto(scenes, s, reg, ns.len() as int)
    }
}

/// The positions of the indexed instances of scene `s` among its first `n`
/// nodes, in order.
pub open spec fn indexed_in_scene(scenes: Seq<FlatScene>, s: int, n: int) -> Seq<(int, int)>
    decreases n,
{
    if n <= 0 {
        Seq::empty()
    } else {
        indexed_in_scene(scenes, s, n - 1) + if indexed(scenes, s, n - 1) {
            seq![(s, n - 1)]
        } else {
            Seq::empty()
        }
    }
}

pub open spec fn indexed_upto(scenes: Seq<FlatScene>, n: int) -> Seq<(int, int)>
    decreases n,
{
    if n <= 0 {
        Seq::empty()
    } else {
        indexed_upto(scenes, n - 1) + indexed_in_scene(scenes, n - 1, scenes[n - 1].nodes@.len() as int)
    }
}

/// The record indexes the instance at `pos`: its id, its scene, and what it
/// instantiates (for an entity definition, whether its transform chain
/// supports a trigger).
pub open spec fn record_of(rec: SceneInstanceRecord, scenes: Seq<FlatScene>, pos: (int, int)) -> bool {
    let scene = scenes[pos.0];
    let ns = scene.nodes@;
    match ns[pos.1].kind {
        SceneNodeKind::EntityInstance { instance_id, reference, .. } => {
            &&& rec.scene_instance_id@ == instance_id@
            &&& rec.scene_id == scene.id
            &&& match reference {
                SceneEntityReference::EntityDefinition { stable_id } => match rec.target {
                    SceneInstanceTarget::EntityDefinition { stable_id: sid, transform_ok } =>
                        sid@ == stable_id@ && transform_ok == transform_chain_ok(ns, pos.1),
                    _ => false,
                },
                SceneEntityReference::Prefab { prefab_id, .. } => rec.target == SceneInstanceTarget::Prefab { prefab_id },
            }
        },
        _ => false,
    }
}

fn marker_seen_before_exec(ns: &Vec<SceneNodeFacts>, k: usize, m: &String) -> (r: bool)
    requires
        k <= ns@.len(),
    ensures
        r == marker_seen_before(ns@, k as int, m@),
{
    let mut t: usize = 0;
    while t < k
        invariant
            k <= ns@.len(),
            t <= k,
            forall|a: int| 0 <= a < t ==> !marker_is(#[trigger] ns@[a], m@),
        decreases k - t,
    {
        match &ns[t].kind {
            SceneNodeKind::Marker { marker_id } => {
                if *marker_id == *m {
                    assert(marker_is(ns@[t as int], m@));
                    return true;
                }
            },
            _ => {},
        }
        t = t + 1;
    }
    false
}

fn instance_taken_exec(scenes: &Vec<FlatScene>, s: usize, k: usize, id: &String) -> (r: bool)
    requires
        node_valid(scenes@, s as int, k as int),
        instance_id_at(scenes@, s as int, k as int) == Some(id@),
    ensures
        r == instance_taken(scenes@, s as int, k as int),
{
    let mut j: usize = 0;
    while j < scenes.len() && j <= s
        invariant
            node_valid(scenes@, s as int, k as int),
            instance_id_at(scenes@, s as int, k as int) == Some(id@),
            j <= s + 1,
            forall|j2: int, t2: int| #![trigger instance_id_at(scenes@, j2, t2)]
                node_valid(scenes@, j2, t2) && before(j2, t2, s as int, k as int) && j2 < j
                    ==> instance_id_at(scenes@, j2, t2) != Some(id@),
        decreases scenes@.len() - j,
    {
        let ns = &scenes[j].nodes;
        let limit = if j < s { ns.len() } else { k };
        let mut t: usize = 0;
        while t < limit
            invariant
                ns == &scenes@[j as int].nodes,
                j <= s,
                node_valid(scenes@, s as int, k as int),
                instance_id_at(scenes@, s as int, k as int) == Some(id@),
                limit <= ns@.len(),
                limit == (if j < s { ns@.len() } else { k as nat }),
                t <= limit,
                forall|j2: int, t2: int| #![trigger instance_id_at(scenes@, j2, t2)]
                    node_valid(scenes@, j2, t2) && before(j2, t2, s as int, k as int) && (j2 < j || (j2 == j && t2 < t))
                        ==> instance_id_at(scenes@, j2, t2) != Some(id@),
            decreases limit - t,
        {
            match &ns[t].kind {
                SceneNodeKind::EntityInstance { instance_id, .. } => {
                    if *instance_id == *id {
                        assert(instance_id_at(scenes@, j as int, t as int) == Some(id@));
                        return true;
                    }
                },
                _ => {},
            }
            t = t + 1;
        }
        j = j + 1;
    }
    false
}

fn scene_has_marker_exec(ns: &Vec<SceneNodeFacts>, m: &String) -> (r: bool)
    ensures
        r == scene_has_marker(ns@, m@),
{
    !is_blank(m.as_str()) && marker_seen_before_exec(ns, ns.len(), m)
}

fn has_variant_exec(reg: &PrefabRegistryFacts, prefab: u64, v: &String) -> (r: bool)
    ensures
        r == has_variant(*reg, prefab, v@),
{
    let mut i: usize = 0;
    while i < reg.variants.len()
        invariant
            i <= reg.variants@.len(),
            forall|a: int| 0 <= a < i ==> !((#[trigger] reg.variants@[a]).0 == prefab && reg.variants@[a].1@ == v@),
        decreases reg.variants@.len() - i,
    {
        if reg.variants[i].0 == prefab && reg.variants[i].1 == *v {
            return true;
        }
        i = i + 1;
    }
    false
}

fn has_base_exec(reg: &PrefabRegistryFacts, prefab: u64) -> (r: bool)
    ensures
        r == reg.base_prefabs@.contains(prefab),
{
    let mut i: usize = 0;
    while i < reg.base_prefabs.len()
        invariant
            i <= reg.base_prefabs@.len(),
            forall|a: int| 0 <= a < i ==> reg.base_prefabs@[a] != prefab,
        decreases reg.base_prefabs@.len() - i,
    {
        if reg.base_prefabs[i] == prefab {
            assert(reg.base_prefabs@[i as int] == prefab);
            return true;
        }
        i = i + 1;
    }
    false
}

fn instance_exec(
    scenes: &Vec<FlatScene>,
    s: usize,
    k: usize,
    reg: &PrefabRegistryFacts,
    out: &mut Vec<SceneIndexDiagnostic>,
    records: &mut Vec<SceneInstanceRecord>,
)
    requires
        node_valid(scenes@, s as int, k as int),
    ensures
        final(out)@ == old(out)@ + instance_diagnostics(scenes@, s as int, k as int, *reg),
        final(records)@.len() == old(records)@.len() + if indexed(scenes@, s as int, k as int) {
            1int
        } else {
            0int
        },
        forall|i: int| 0 <= i < old(records)@.len() ==> final(records)@[i] == old(records)@[i],
        indexed(scenes@, s as int, k as int) ==> record_of(final(records)@.last(), scenes@, (s as int, k as int)),
{
    let ns = &scenes[s].nodes;
    match &ns[k].kind {
        SceneNodeKind::EntityInstance { instance_id, spawn_marker_id, reference } => {
            if is_blank(instance_id.as_str()) || instance_taken_exec(scenes, s, k, instance_id) {
                out.push(SceneIndexDiagnostic::InvalidInstanceId { scene: s, node: k });
                return;
            }
            let ghost s0 = out@;
            let unknown_marker = match spawn_marker_id {
                Some(m) => !scene_has_marker_exec(ns, m),
                None => false,
            };
            push_if(out, unknown_marker, SceneIndexDiagnostic::UnknownSpawnMarker { scene: s, node: k });
            let target = match reference {
                SceneEntityReference::EntityDefinition { stable_id } => {
                    let transform_ok = transform_chain_supported(ns, k);
                    SceneInstanceTarget::EntityDefinition { stable_id: stable_id.clone(), transform_ok }
                },
                SceneEntityReference::Prefab { prefab_id, variant_id } => {
                    push_if(out, !has_base_exec(reg, *prefab_id), SceneIndexDiagnostic::UnknownBasePrefab { scene: s, node: k });
                    let unknown_variant = match variant_id {
                        Some(v) => !has_variant_exec(reg, *prefab_id, v),
                        None => false,
                    };
                    push_if(out, unknown_variant, SceneIndexDiagnostic::UnknownVariant { scene: s, node: k });
                    SceneInstanceTarget::Prefab { prefab_id: *prefab_id }
                },
            };
            records.push(SceneInstanceRecord { scene_instance_id: instance_id.clone(), scene_id: scenes[s].id, target });
            assert(out@ =~= old(out)@ + instance_diagnostics(scenes@, s as int, k as int, *reg));
        },
        _ => {
            assert(out@ =~= old(out)@ + instance_diagnostics(scenes@, s as int, k as int, *reg));
        },
    }
}

/// Index the project's scenes, in order: in each scene, first its marker
/// ids (non-blank and unique in the scene), then its entity instances (ids
/// non-blank and unique across the project; a taken id keeps the instance
/// out of the index), their spawn markers, and the base prefab and variant
/// that a prefab instance names. Returns the problems and the indexed
/// instances in order.
pub fn index_scenes(
    scenes: &Vec<FlatScene>,
    reg: &PrefabRegistryFacts,
) -> (r: (Vec<SceneIndexDiagnostic>, Vec<SceneInstanceRecord>))
    ensures
        r.0@ == scenes_upto(scenes@, *reg, scenes@.len() as int),
        r.1@.len() == indexed_upto(scenes@, scenes@.len() as int).len(),
        forall|i: int| 0 <= i < r.1@.len() ==> record_of(#[trigger] r.1@[i], scenes@, indexed_upto(scenes@, scenes@.len() as int)[i]),
{
    let mut out: Vec<SceneIndexDiagnostic> = Vec::new();
    let mut records: Vec<SceneInstanceRecord> = Vec::new();
    let mut s: usize = 0;
    while s < scenes.len()
        invariant
            s <= scenes@.len(),
            out@ == scenes_upto(scenes@, *reg, s as int),
            records@.len() == indexed_upto(scenes@, s as int).len(),
            forall|i: int| 0 <= i < records@.len() ==> record_of(#[trigger] records@[i], scenes@, indexed_upto(scenes@, s as int)[i]),
        decreases scenes@.len() - s,
    {
        let ns = &scenes[s].nodes;
        let ghost s0 = out@;
        let mut k: usize = 0;
        while k < ns.len()
            invariant
                s < scenes@.len(),
                ns == &scenes@[s as int].nodes,
                k <= ns@.len(),
                out@ == s0 + markers_upto(ns@, s as int, k as int),
            decreases ns@.len() - k,
        {
            match &ns[k].kind {
                SceneNodeKind::Marker { marker_id } => {
                    push_if(
                        &mut out,
                        is_blank(marker_id.as_str()) || marker_seen_before_exec(ns, k, marker_id),
                        SceneIndexDiagnostic::InvalidMarkerId { scene: s, node: k },
                    );
                },
                _ => {},
            }
            assert(out@ =~= s0 + markers_upto(ns@, s as int, k + 1));
            k = k + 1;
        }
        let ghost s1 = out@;
        let ghost base = indexed_upto(scenes@, s as int);
        let mut k: usize = 0;
        while k < ns.len()
            invariant
                s < scenes@.len(),
                ns == &scenes@[s as int].nodes,
                k <= ns@.len(),
                out@ == s1 + instances_upto(scenes@, s as int, *reg, k as int),
                base == indexed_upto(scenes@, s as int),
                records@.len() == base.len() + indexed_in_scene(scenes@, s as int, k as int).len(),
                forall|i: int| 0 <= i < records@.len() ==> record_of(#[trigger] records@[i], scenes@, (base + indexed_in_scene(scenes@, s as int, k as int))[i]),
            decreases ns@.len() - k,
        {
            let ghost old_records = records@;
            instance_exec(scenes, s, k, reg, &mut out, &mut records);
            proof {
                let before_pos = base + indexed_in_scene(scenes@, s as int, k as int);
                let after_pos = base + indexed_in_scene(scenes@, s as int, k + 1);
                if indexed(scenes@, s as int, k as int) {
                    assert(after_pos =~= before_pos.push((s as int, k as int)));
                } else {
                    assert(after_pos =~= before_pos);
                }
                assert forall|i: int| 0 <= i < records@.len() implies record_of(#[trigger] records@[i], scenes@, after_pos[i]) by {
                    if i < old_records.len() {
                        assert(records@[i] == old_records[i]);
                        assert(after_pos[i] == before_pos[i]);
                    }
                }
            }
            assert(out@ =~= s1 + instances_upto(scenes@, s as int, *reg, k + 1));
            k = k + 1;
        }
        proof {
            assert(indexed_upto(scenes@, s + 1) =~= base + indexed_in_scene(scenes@, s as int, ns@.len() as int));
        }
        assert(out@ =~= scenes_upto(scenes@, *reg, s + 1));
        s = s + 1;
    }
    (out, records)
}

} // verus!
