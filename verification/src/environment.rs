//! The checks a procedural-environment materialization request must pass
//! before the generator runs: provider and preset, limits, target paths and
//! nodes, marker targets, and agreement with the recipe already stored in the
//! scene or in the asset being replaced.

use vstd::prelude::*;
use vstd::string::StringSliceAdditionalSpecFns;
use crate::ids::{is_project_relative_path, valid_project_relative_path};
use crate::levelgen::TUNNEL_GENERATOR_ID;
use crate::provenance::{is_generated_recipe, parse_stored_generated_recipe};

verus! {

/// The broad class of an environment diagnostic.
#[derive(Debug, Clone, Copy, PartialEq, Eq, Structural)]
pub enum EnvironmentDiagnosticCode {
    UnknownProvider,
    UnknownPreset,
    LimitExceeded,
    InvalidTarget,
    RecipeMismatch,
}

/// One problem with a materialization request.
#[derive(Debug, Clone, Copy, PartialEq, Eq, Structural)]
pub enum EnvironmentProblem {
    UnknownProvider,
    UnknownPreset,
    ZeroLimit,
    TargetPaths,
    TargetAssetId,
    TargetTransform,
    TargetParent,
    StoredRecipeMismatch,
    ReplacementTarget,
    ReplacementMissing,
    ReplacementAssetInvalid,
    ReplacementProvenanceAmbiguous,
    ReplacementProvenanceMalformed,
    MarkerIdsNotUnique,
    UnknownMarker { index: usize },
    MarkerCount,
}

pub open spec fn problem_code(p: EnvironmentProblem) -> EnvironmentDiagnosticCode {
    match p {
        EnvironmentProblem::UnknownProvider => EnvironmentDiagnosticCode::UnknownProvider,
        EnvironmentProblem::UnknownPreset => EnvironmentDiagnosticCode::UnknownPreset,
        EnvironmentProblem::ZeroLimit => EnvironmentDiagnosticCode::LimitExceeded,
        EnvironmentProblem::StoredRecipeMismatch
        | EnvironmentProblem::ReplacementMissing
        | EnvironmentProblem::ReplacementProvenanceAmbiguous
        | EnvironmentProblem::ReplacementProvenanceMalformed => EnvironmentDiagnosticCode::RecipeMismatch,
        _ => EnvironmentDiagnosticCode::InvalidTarget,
    }
}

pub open spec fn problem_path(p: EnvironmentProblem) -> Seq<char> {
    match p {
        EnvironmentProblem::UnknownProvider => "providerId"@,
        EnvironmentProblem::UnknownPreset => "presetId"@,
        EnvironmentProblem::ZeroLimit => "limits"@,
        EnvironmentProblem::TargetPaths => "target"@,
        EnvironmentProblem::TargetAssetId => "target.assetId"@,
        EnvironmentProblem::TargetTransform => "target.voxelTransform"@,
        EnvironmentProblem::TargetParent => "target.voxelParentId"@,
        EnvironmentProblem::StoredRecipeMismatch => "scene.bootstrap.generator"@,
        EnvironmentProblem::ReplacementTarget => "target.voxelNodeId"@,
        EnvironmentProblem::ReplacementMissing => "replacementAsset.provenance"@,
        EnvironmentProblem::ReplacementAssetInvalid => "replacementAsset"@,
        EnvironmentProblem::ReplacementProvenanceAmbiguous => "replacementAsset.provenance"@,
        EnvironmentProblem::ReplacementProvenanceMalformed => "replacementAsset.provenance[0]"@,
        EnvironmentProblem::MarkerIdsNotUnique => "target.markerTargets"@,
        EnvironmentProblem::UnknownMarker { .. } => "target.markerTargets.sourceMarkerId"@,
        EnvironmentProblem::MarkerCount => "target.markerTargets"@,
    }
}

impl EnvironmentProblem {
    /// The diagnostic code of this problem.
    pub fn code(self) -> (r: EnvironmentDiagnosticCode)
        ensures
            r == problem_code(self),
    {
        match self {
            EnvironmentProblem::UnknownProvider => EnvironmentDiagnosticCode::UnknownProvider,
            EnvironmentProblem::UnknownPreset => EnvironmentDiagnosticCode::UnknownPreset,
            EnvironmentProblem::ZeroLimit => EnvironmentDiagnosticCode::LimitExceeded,
            EnvironmentProblem::StoredRecipeMismatch
            | EnvironmentProblem::ReplacementMissing
            | EnvironmentProblem::ReplacementProvenanceAmbiguous
            | EnvironmentProblem::ReplacementProvenanceMalformed => EnvironmentDiagnosticCode::RecipeMismatch,
            _ => EnvironmentDiagnosticCode::InvalidTarget,
        }
    }

    /// The request field the problem concerns.
    pub fn path(self) -> (r: &'static str)
        ensures
            r@ == problem_path(self),
    {
        match self {
            EnvironmentProblem::UnknownProvider => "providerId",
            EnvironmentProblem::UnknownPreset => "presetId",
            EnvironmentProblem::ZeroLimit => "limits",
            EnvironmentProblem::TargetPaths => "target",
            EnvironmentProblem::TargetAssetId => "target.assetId",
            EnvironmentProblem::TargetTransform => "target.voxelTransform",
            EnvironmentProblem::TargetParent => "target.voxelParentId",
            EnvironmentProblem::StoredRecipeMismatch => "scene.bootstrap.generator",
            EnvironmentProblem::ReplacementTarget => "target.voxelNodeId",
            EnvironmentProblem::ReplacementMissing => "replacementAsset.provenance",
            EnvironmentProblem::ReplacementAssetInvalid => "replacementAsset",
            EnvironmentProblem::ReplacementProvenanceAmbiguous => "replacementAsset.provenance",
            EnvironmentProblem::ReplacementProvenanceMalformed => "replacementAsset.provenance[0]",
            EnvironmentProblem::MarkerIdsNotUnique => "target.markerTargets",
            EnvironmentProblem::UnknownMarker { .. } => "target.markerTargets.sourceMarkerId",
            EnvironmentProblem::MarkerCount => "target.markerTargets",
        }
    }
}

/// The generator recipe a scene stores: provider, preset and seed.
#[derive(Debug, Clone, PartialEq, Eq)]
pub struct StoredRecipe {
    pub provider_id: String,
    pub preset_id: String,
    pub seed: u64,
}

/// What the checks read of one scene node: its id, the asset of a
/// voxel-volume node, and the generator recipe of a bootstrap node.
#[derive(Debug, Clone, PartialEq, Eq)]
pub struct SceneNodeFacts {
    pub id: u64,
    pub voxel_asset_id: Option<String>,
    pub generator: Option<StoredRecipe>,
}

/// One provenance record of the asset being replaced.
#[derive(Debug, Clone, PartialEq, Eq)]
pub struct ProvenanceRecord {
    pub is_generated: bool,
    pub uri: String,
    pub content_hash: String,
}

/// The asset being replaced, as loaded: its id, whether the asset validator
/// accepted it, and its provenance records.
#[derive(Debug, Clone, PartialEq, Eq)]
pub struct ReplacementAsset {
    pub asset_id: String,
    pub valid: bool,
    pub provenance: Vec<ProvenanceRecord>,
}

/// Where a generated marker is placed in the scene.
#[derive(Debug, Clone, PartialEq, Eq)]
pub struct MarkerTarget {
    pub source_marker_id: String,
    pub marker_id: String,
    pub node_id: u64,
}

/// A materialization request, with the verdicts of the asset-id parser and
/// the transform validator on its target.
#[derive(Debug, Clone, PartialEq, Eq)]
pub struct EnvironmentRequest {
    pub provider_id: String,
    pub preset_id: String,
    pub seed: u64,
    pub max_voxels: u64,
    pub max_sparse_runs: u64,
    pub max_markers: u64,
    pub scene_path: String,
    pub asset_id: String,
    pub asset_path: String,
    pub voxel_node_id: u64,
    pub voxel_parent_id: Option<u64>,
    pub marker_targets: Vec<MarkerTarget>,
    pub asset_id_is_voxel_volume: bool,
    pub transform_valid: bool,
    pub replacement_asset: Option<ReplacementAsset>,
}

/// `i` is the first node carrying a stored generator recipe.
pub open spec fn first_recipe_at(nodes: Seq<SceneNodeFacts>, i: int) -> bool {
    &&& 0 <= i < nodes.len()
    &&& nodes[i].generator is Some
    &&& forall|j: int| 0 <= j < i ==> (#[trigger] nodes[j]).generator is None
}

/// `i` is the first node with id `id`.
pub open spec fn first_node_at(nodes: Seq<SceneNodeFacts>, id: u64, i: int) -> bool {
    &&& 0 <= i < nodes.len()
    &&& nodes[i].id == id
    &&& forall|j: int| 0 <= j < i ==> (#[trigger] nodes[j]).id != id
}

pub open spec fn has_node(nodes: Seq<SceneNodeFacts>, id: u64) -> bool {
    exists|i: int| 0 <= i < nodes.len() && (#[trigger] nodes[i]).id == id
}

/// The node is a voxel-volume node for the asset `asset_id`.
pub open spec fn node_holds_asset(n: SceneNodeFacts, asset_id: Seq<char>) -> bool {
    match n.voxel_asset_id {
        Some(a) => a@ == asset_id,
        None => false,
    }
}

/// The node with the target id is a voxel-volume node for the target asset.
pub open spec fn target_node_matches(nodes: Seq<SceneNodeFacts>, id: u64, asset_id: Seq<char>) -> bool {
    exists|i: int| first_node_at(nodes, id, i) && node_holds_asset(#[trigger] nodes[i], asset_id)
}

/// The verdict on the recipe: the stored scene recipe must be the
/// requested one; without one, the request must replace the target node's
/// asset with a valid loaded asset carrying exactly one generated, well-formed
/// provenance record.
pub open spec fn recipe_verdict(r: EnvironmentRequest, nodes: Seq<SceneNodeFacts>) -> Option<EnvironmentProblem> {
    if exists|i: int| first_recipe_at(nodes, i) {
        let i = choose|i: int| first_recipe_at(nodes, i);
        let g = nodes[i].generator->Some_0;
        if g.provider_id@ == r.provider_id@ && g.preset_id@ == r.preset_id@ && g.seed == r.seed {
            None
        } else {
            Some(EnvironmentProblem::StoredRecipeMismatch)
        }
    } else if !target_node_matches(nodes, r.voxel_node_id, r.asset_id@) {
        Some(EnvironmentProblem::ReplacementTarget)
    } else {
        match r.replacement_asset {
            None => Some(EnvironmentProblem::ReplacementMissing),
            Some(a) => {
                let first = a.provenance@[0];
                if a.asset_id@ != r.asset_id@ || !a.valid {
                    Some(EnvironmentProblem::ReplacementAssetInvalid)
                } else if a.provenance@.len() != 1 || !first.is_generated {
                    Some(EnvironmentProblem::ReplacementProvenanceAmbiguous)
                } else if is_generated_recipe(
                    first.is_generated,
                    vstd::utf8::encode_utf8(first.uri@),
                    vstd::utf8::encode_utf8(first.content_hash@),
                ) {
                    None
                } else {
                    Some(EnvironmentProblem::ReplacementProvenanceMalformed)
                }
            },
        }
    }
}

/// No two marker targets share a source id, a marker id or a node, and none
/// uses the voxel node.
pub open spec fn markers_unique(ms: Seq<MarkerTarget>, voxel_node: u64) -> bool {
    &&& forall|a: int, b: int| 0 <= a < b < ms.len() ==> (#[trigger] ms[a]).source_marker_id@ != (#[trigger] ms[b]).source_marker_id@
    &&& forall|a: int, b: int| 0 <= a < b < ms.len() ==> (#[trigger] ms[a]).marker_id@ != (#[trigger] ms[b]).marker_id@
    &&& forall|a: int, b: int| 0 <= a < b < ms.len() ==> (#[trigger] ms[a]).node_id != (#[trigger] ms[b]).node_id
    &&& forall|a: int| 0 <= a < ms.len() ==> (#[trigger] ms[a]).node_id != voxel_node
}

/// A marker the tunnel generator emits.
pub open spec fn known_marker(id: Seq<char>) -> bool {
    id == "player_start"@ || id == "exit_hint"@
}

/// The unknown-marker problems of the first `n` marker targets, in order.
pub open spec fn unknown_markers_upto(ms: Seq<MarkerTarget>, n: int) -> Seq<EnvironmentProblem>
    decreases n,
{
    if n <= 0 {
        Seq::empty()
    } else if known_marker(ms[n - 1].source_marker_id@) {
        unknown_markers_upto(ms, n - 1)
    } else {
        unknown_markers_upto(ms, n - 1).push(EnvironmentProblem::UnknownMarker { index: (n - 1) as usize })
    }
}

pub open spec fn flag(b: bool, p: EnvironmentProblem) -> Seq<EnvironmentProblem> {
    if b {
        seq![p]
    } else {
        Seq::empty()
    }
}

/// A parent node is named and absent from the scene.
pub open spec fn parent_missing(parent: Option<u64>, nodes: Seq<SceneNodeFacts>) -> bool {
    match parent {
        Some(p) => !has_node(nodes, p),
        None => false,
    }
}

/// The provider and preset problems of a request.
pub open spec fn source_problems(r: EnvironmentRequest) -> Seq<EnvironmentProblem> {
    if r.provider_id@ != TUNNEL_GENERATOR_ID@ {
        seq![EnvironmentProblem::UnknownProvider]
    } else {
        flag(r.preset_id@ != "tiny-enclosed"@, EnvironmentProblem::UnknownPreset)
    }
}

/// The limit and target problems of a request.
pub open spec fn target_problems(r: EnvironmentRequest, nodes: Seq<SceneNodeFacts>) -> Seq<EnvironmentProblem> {
    flag(r.max_voxels == 0 || r.max_sparse_runs == 0 || r.max_markers == 0, EnvironmentProblem::ZeroLimit)
        + flag(!is_project_relative_path(r.scene_path@) || !is_project_relative_path(r.asset_path@)
        || r.scene_path@ == r.asset_path@, EnvironmentProblem::TargetPaths)
        + flag(!r.asset_id_is_voxel_volume, EnvironmentProblem::TargetAssetId)
        + flag(!r.transform_valid, EnvironmentProblem::TargetTransform)
        + flag(parent_missing(r.voxel_parent_id, nodes), EnvironmentProblem::TargetParent)
}

/// The recipe problem of a request, if any.
pub open spec fn recipe_problems(r: EnvironmentRequest, nodes: Seq<SceneNodeFacts>) -> Seq<EnvironmentProblem> {
    match recipe_verdict(r, nodes) {
        Some(p) => seq![p],
        None => Seq::empty(),
    }
}

/// The marker-target problems of a request.
pub open spec fn marker_problems(r: EnvironmentRequest) -> Seq<EnvironmentProblem> {
    let ms = r.marker_targets@;
    flag(!markers_unique(ms, r.voxel_node_id), EnvironmentProblem::MarkerIdsNotUnique)
        + unknown_markers_upto(ms, ms.len() as int) + flag(ms.len() != 2, EnvironmentProblem::MarkerCount)
}

/// Every problem of a request, in the order they are reported.
pub open spec fn request_problems(r: EnvironmentRequest, nodes: Seq<SceneNodeFacts>) -> Seq<EnvironmentProblem> {
    source_problems(r) + target_problems(r, nodes) + recipe_problems(r, nodes) + marker_problems(r)
}


fn first_recipe_index(nodes: &[SceneNodeFacts]) -> (r: Option<usize>)
    ensures
        r matches Some(i) ==> first_recipe_at(nodes@, i as int),
        r is None ==> !exists|i: int| first_recipe_at(nodes@, i),
{
    let mut i: usize = 0;
    while i < nodes.len()
        invariant
            i <= nodes@.len(),
            forall|j: int| 0 <= j < i ==> (#[trigger] nodes@[j]).generator is None,
        decreases nodes@.len() - i,
    {
        if nodes[i].generator.is_some() {
            return Some(i);
        }
        i = i + 1;
    }
    assert forall|k: int| !first_recipe_at(nodes@, k) by {
        if 0 <= k < nodes@.len() {
            assert(nodes@[k].generator is None);
        }
    }
    None
}

fn first_node_index(nodes: &[SceneNodeFacts], id: u64) -> (r: Option<usize>)
    ensures
        r matches Some(i) ==> first_node_at(nodes@, id, i as int),
        r is None ==> !has_node(nodes@, id),
{
    let mut i: usize = 0;
    while i < nodes.len()
        invariant
            i <= nodes@.len(),
            forall|j: int| 0 <= j < i ==> (#[trigger] nodes@[j]).id != id,
        decreases nodes@.len() - i,
    {
        if nodes[i].id == id {
            return Some(i);
        }
        i = i + 1;
    }
    None
}

/// Judge the recipe of a request against the recipe stored in the scene,
/// or, without one, against the asset it replaces.
pub fn recipe_problem(r: &EnvironmentRequest, nodes: &[SceneNodeFacts]) -> (p: Option<EnvironmentProblem>)
    ensures
        p == recipe_verdict(*r, nodes@),
{
    match first_recipe_index(nodes) {
        Some(i) => {
            proof {
                let c = choose|c: int| first_recipe_at(nodes@, c);
                assert(first_recipe_at(nodes@, c));
                if c < i {
                    assert(nodes@[c].generator is None);
                } else if i < c {
                    assert(nodes@[i as int].generator is None);
                }
            }
            let g = match &nodes[i].generator {
                Some(g) => g,
                None => {
                    return None;
                },
            };
            if g.provider_id == r.provider_id && g.preset_id == r.preset_id && g.seed == r.seed {
                None
            } else {
                Some(EnvironmentProblem::StoredRecipeMismatch)
            }
        },
        None => {
            let matches = match first_node_index(nodes, r.voxel_node_id) {
                Some(k) => {
                    proof {
                        assert forall|c: int| first_node_at(nodes@, r.voxel_node_id, c) implies c == k by {
                            if c < k {
                                assert(nodes@[c].id == r.voxel_node_id);
                            } else if k < c {
                                assert(nodes@[k as int].id == r.voxel_node_id);
                            }
                        }
                    }
                    match &nodes[k].voxel_asset_id {
                        Some(a) => *a == r.asset_id,
                        None => false,
                    }
                },
                None => false,
            };
            if !matches {
                return Some(EnvironmentProblem::ReplacementTarget);
            }
            match &r.replacement_asset {
                None => Some(EnvironmentProblem::ReplacementMissing),
                Some(a) => {
                    if a.asset_id != r.asset_id || !a.valid {
                        Some(EnvironmentProblem::ReplacementAssetInvalid)
                    } else if a.provenance.len() != 1 || !a.provenance[0].is_generated {
                        Some(EnvironmentProblem::ReplacementProvenanceAmbiguous)
                    } else {
                        let first = &a.provenance[0];
                        if parse_stored_generated_recipe(
                            first.is_generated,
                            first.uri.as_str(),
                            first.content_hash.as_str(),
                        ) {
                            None
                        } else {
                            Some(EnvironmentProblem::ReplacementProvenanceMalformed)
                        }
                    }
                },
            }
        },
    }
}

fn markers_are_unique(ms: &[MarkerTarget], voxel_node: u64) -> (r: bool)
    ensures
        r == markers_unique(ms@, voxel_node),
{
    let mut b: usize = 0;
    while b < ms.len()
        invariant
            b <= ms@.len(),
            markers_unique(ms@.take(b as int), voxel_node),
        decreases ms@.len() - b,
    {
        if ms[b].node_id == voxel_node {
            assert(!markers_unique(ms@, voxel_node)) by {
                assert(ms@[b as int].node_id == voxel_node);
            }
            return false;
        }
        let mut a: usize = 0;
        while a < b
            invariant
                a <= b < ms@.len(),
                forall|t: int| 0 <= t < a ==> (#[trigger] ms@[t]).source_marker_id@ != ms@[b as int].source_marker_id@
                    && ms@[t].marker_id@ != ms@[b as int].marker_id@ && ms@[t].node_id != ms@[b as int].node_id,
            decreases b - a,
        {
            if ms[a].source_marker_id == ms[b].source_marker_id || ms[a].marker_id == ms[b].marker_id
                || ms[a].node_id == ms[b].node_id {
                assert(!markers_unique(ms@, voxel_node)) by {
                    assert(ms@[a as int] == ms@[a as int] && ms@[b as int] == ms@[b as int]);
                }
                return false;
            }
            a = a + 1;
        }
        proof {
            let t = ms@.take(b + 1);
            assert forall|x: int, y: int| 0 <= x < y < t.len() implies (#[trigger] t[x]).source_marker_id@
                != (#[trigger] t[y]).source_marker_id@ by {
                if y < b {
                    assert(ms@.take(b as int)[x] == t[x] && ms@.take(b as int)[y] == t[y]);
                }
            }
            assert forall|x: int, y: int| 0 <= x < y < t.len() implies (#[trigger] t[x]).marker_id@
                != (#[trigger] t[y]).marker_id@ by {
                if y < b {
                    assert(ms@.take(b as int)[x] == t[x] && ms@.take(b as int)[y] == t[y]);
                }
            }
            assert forall|x: int, y: int| 0 <= x < y < t.len() implies (#[trigger] t[x]).node_id
                != (#[trigger] t[y]).node_id by {
                if y < b {
                    assert(ms@.take(b as int)[x] == t[x] && ms@.take(b as int)[y] == t[y]);
                }
            }
            assert forall|x: int| 0 <= x < t.len() implies (#[trigger] t[x]).node_id != voxel_node by {
                if x < b {
                    assert(ms@.take(b as int)[x] == t[x]);
                }
            }
        }
        b = b + 1;
    }
    assert(ms@.take(b as int) =~= ms@);
    true
}

fn push_flag(out: &mut Vec<EnvironmentProblem>, cond: bool, p: EnvironmentProblem)
    ensures
        final(out)@ == old(out)@ + flag(cond, p),
{
    if cond {
        out.push(p);
    }
    assert(out@ =~= old(out)@ + flag(cond, p));
}

fn unknown_markers(ms: &[MarkerTarget]) -> (r: Vec<EnvironmentProblem>)
    ensures
        r@ == unknown_markers_upto(ms@, ms@.len() as int),
{
    let mut r: Vec<EnvironmentProblem> = Vec::new();
    let start = "player_start".to_owned();
    let exit = "exit_hint".to_owned();
    let mut i: usize = 0;
    while i < ms.len()
        invariant
            i <= ms@.len(),
            start@ == "player_start"@,
            exit@ == "exit_hint"@,
            r@ == unknown_markers_upto(ms@, i as int),
        decreases ms@.len() - i,
    {
        if !(ms[i].source_marker_id == start || ms[i].source_marker_id == exit) {
            r.push(EnvironmentProblem::UnknownMarker { index: i });
        }
        i = i + 1;
    }
    r
}

fn source_problems_exec(r: &EnvironmentRequest) -> (out: Vec<EnvironmentProblem>)
    ensures
        out@ == source_problems(*r),
{
    let mut out: Vec<EnvironmentProblem> = Vec::new();
    let provider = TUNNEL_GENERATOR_ID.to_owned();
    let preset = "tiny-enclosed".to_owned();
    if r.provider_id != provider {
        out.push(EnvironmentProblem::UnknownProvider);
    } else {
        push_flag(&mut out, r.preset_id != preset, EnvironmentProblem::UnknownPreset);
    }
    out
}

fn target_problems_exec(r: &EnvironmentRequest, nodes: &[SceneNodeFacts]) -> (out: Vec<EnvironmentProblem>)
    ensures
        out@ == target_problems(*r, nodes@),
{
    let mut out: Vec<EnvironmentProblem> = Vec::new();
    push_flag(
        &mut out,
        r.max_voxels == 0 || r.max_sparse_runs == 0 || r.max_markers == 0,
        EnvironmentProblem::ZeroLimit,
    );
    let paths_bad = !valid_project_relative_path(r.scene_path.as_str()) || !valid_project_relative_path(
        r.asset_path.as_str(),
    ) || r.scene_path == r.asset_path;
    push_flag(&mut out, paths_bad, EnvironmentProblem::TargetPaths);
    push_flag(&mut out, !r.asset_id_is_voxel_volume, EnvironmentProblem::TargetAssetId);
    push_flag(&mut out, !r.transform_valid, EnvironmentProblem::TargetTransform);
    let parent_bad = match r.voxel_parent_id {
        Some(p) => first_node_index(nodes, p).is_none(),
        None => false,
    };
    push_flag(&mut out, parent_bad, EnvironmentProblem::TargetParent);
    assert(out@ =~= target_problems(*r, nodes@));
    out
}

fn marker_problems_exec(r: &EnvironmentRequest) -> (out: Vec<EnvironmentProblem>)
    ensures
        out@ == marker_problems(*r),
{
    let mut out: Vec<EnvironmentProblem> = Vec::new();
    push_flag(
        &mut out,
        !markers_are_unique(r.marker_targets.as_slice(), r.voxel_node_id),
        EnvironmentProblem::MarkerIdsNotUnique,
    );
    let mut unknown = unknown_markers(r.marker_targets.as_slice());
    out.append(&mut unknown);
    push_flag(&mut out, r.marker_targets.len() != 2, EnvironmentProblem::MarkerCount);
    assert(out@ =~= marker_problems(*r));
    out
}

/// Every problem of a materialization request, in report order: provider
/// or preset, limits, target paths, asset id, transform, parent node,
/// recipe, marker uniqueness, unknown markers, marker count.
pub fn validate_environment_request(r: &EnvironmentRequest, nodes: &[SceneNodeFacts]) -> (out: Vec<
    EnvironmentProblem,
>)
    ensures
        out@ == request_problems(*r, nodes@),
{
    let mut out = source_problems_exec(r);
    let mut targets = target_problems_exec(r, nodes);
    out.append(&mut targets);
    let mut recipe: Vec<EnvironmentProblem> = Vec::new();
    match recipe_problem(r, nodes) {
        Some(p) => recipe.push(p),
        None => {},
    }
    assert(recipe@ =~= recipe_problems(*r, nodes@));
    out.append(&mut recipe);
    let mut markers = marker_problems_exec(r);
    out.append(&mut markers);
    out
}

} // verus!
