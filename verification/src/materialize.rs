//! The decisions of a procedural-environment materialization after the
//! request checks pass: the generation limits, how the stored scene takes
//! the generated voxel volume (which nodes are replaced, which stay, which
//! generator bindings are discharged, the asset dependency), and the
//! provenance reference of the generated asset.

use vstd::prelude::*;
use crate::authoring::{drop_value, lemma_drop_value};
use crate::environment::{request_problems, validate_environment_request, EnvironmentProblem, EnvironmentRequest, SceneNodeFacts, StoredRecipe};
use crate::text::{dec_digits, push_dec};
use vstd::string::StringSliceAdditionalSpecFns;
use vstd::utf8::encode_utf8;
use crate::utf8_text::{
    ascii_bytes, is_ascii_text, lemma_concat_lacks, lemma_encode_ascii, lemma_encode_concat, lemma_encode_dec_digits,
    lemma_encode_len, lemma_next_sep_at, lemma_split_head, lemma_split_single, lemma_text_lacks_byte,
};
use crate::ids::{next_sep, split_from};
use crate::provenance::{
    digits_value, fnv_label_prefix, generator_scheme, is_digit, is_generated_recipe, pair_key, pair_ok, pair_value,
    parses_unsigned, recipe_path_ok, recipe_query_ok, starts_with, unsigned_digits,
};

verus! {

pub const MAX_GENERATED_VOXELS: u64 = 1_000_000;
pub const MAX_GENERATED_SPARSE_RUNS: u64 = 65_536;
pub const MAX_GENERATED_MARKERS: u64 = 128;

// ---------------------------------------------------------------------------
// Generation limits.

/// A generation limit the output exceeded.
#[derive(Debug, Clone, Copy, PartialEq, Eq, Structural)]
pub enum GenerationLimit {
    Voxels,
    SparseRuns,
    Markers,
}

/// What the generator produced, counted.
#[derive(Debug, Clone, Copy, PartialEq, Eq, Structural)]
pub struct GenerationCounts {
    pub solid_voxels: u64,
    pub sparse_runs: u64,
    pub markers: u64,
}

pub open spec fn min_u64(a: u64, b: u64) -> u64 {
    if a <= b {
        a
    } else {
        b
    }
}

pub open spec fn limit_flag(b: bool, l: GenerationLimit) -> Seq<GenerationLimit> {
    if b {
        seq![l]
    } else {
        Seq::empty()
    }
}

/// The limits a generation exceeds, in the order voxels, runs, markers:
/// each count against the smaller of the request's limit and the global
/// ceiling.
pub open spec fn exceeded_limits(c: GenerationCounts, r: EnvironmentRequest) -> Seq<GenerationLimit> {
    limit_flag(c.solid_voxels > min_u64(r.max_voxels, MAX_GENERATED_VOXELS), GenerationLimit::Voxels)
        + limit_flag(c.sparse_runs > min_u64(r.max_sparse_runs, MAX_GENERATED_SPARSE_RUNS), GenerationLimit::SparseRuns)
        + limit_flag(c.markers > min_u64(r.max_markers, MAX_GENERATED_MARKERS), GenerationLimit::Markers)
}

fn min_of(a: u64, b: u64) -> (r: u64)
    ensures
        r == min_u64(a, b),
{
    if a <= b {
        a
    } else {
        b
    }
}

/// The generation limits the output exceeds; the materialization is
/// refused when there is any.
pub fn generation_limit_problems(counts: GenerationCounts, r: &EnvironmentRequest) -> (out: Vec<GenerationLimit>)
    ensures
        out@ == exceeded_limits(counts, *r),
{
    let mut out: Vec<GenerationLimit> = Vec::new();
    if counts.solid_voxels > min_of(r.max_voxels, MAX_GENERATED_VOXELS) {
        out.push(GenerationLimit::Voxels);
    }
    if counts.sparse_runs > min_of(r.max_sparse_runs, MAX_GENERATED_SPARSE_RUNS) {
        out.push(GenerationLimit::SparseRuns);
    }
    if counts.markers > min_of(r.max_markers, MAX_GENERATED_MARKERS) {
        out.push(GenerationLimit::Markers);
    }
    assert(out@ =~= exceeded_limits(counts, *r));
    out
}

// ---------------------------------------------------------------------------
// The scene.

/// What a stored scene node is, as placement reads it.
#[derive(Debug, Clone, PartialEq, Eq)]
pub enum PlacementNodeKind {
    VoxelVolume,
    Marker,
    /// A bootstrap node, with the generator recipe it binds, if any.
    Bootstrap { generator: Option<StoredRecipe> },
    Other,
}

#[derive(Debug, Clone, PartialEq, Eq)]
pub struct PlacementNode {
    pub id: u64,
    pub kind: PlacementNodeKind,
}

/// A node of the current scene that stays, and whether its generator
/// binding is discharged.
#[derive(Debug, Clone, Copy, PartialEq, Eq, Structural)]
pub struct KeptNode {
    pub index: usize,
    pub clear_generator: bool,
}

/// How the scene changes: the nodes that stay, in order (the voxel node and
/// the generated markers are appended after them), and the asset
/// dependencies.
#[derive(Debug, Clone, PartialEq, Eq)]
pub struct PlacementEdit {
    pub kept: Vec<KeptNode>,
    pub dependencies: Vec<String>,
}

/// The node id is the voxel node's or a marker target's: its node is
/// replaced.
pub open spec fn is_replaced(r: EnvironmentRequest, id: u64) -> bool {
    id == r.voxel_node_id || exists|t: int| 0 <= t < r.marker_targets@.len() && (#[trigger] r.marker_targets@[t]).node_id == id
}

/// A replaced node has the kind the placement puts there.
pub open spec fn kind_fits(r: EnvironmentRequest, n: PlacementNode) -> bool {
    if n.id == r.voxel_node_id {
        n.kind is VoxelVolume
    } else {
        n.kind is Marker
    }
}

pub open spec fn conflicts(r: EnvironmentRequest, n: PlacementNode) -> bool {
    is_replaced(r, n.id) && !kind_fits(r, n)
}

/// The node binds the very recipe being materialized.
pub open spec fn binds_recipe(r: EnvironmentRequest, n: PlacementNode) -> bool {
    match n.kind {
        PlacementNodeKind::Bootstrap { generator: Some(g) } =>
            g.provider_id@ == r.provider_id@ && g.preset_id@ == r.preset_id@ && g.seed == r.seed,
        _ => false,
    }
}

/// The nodes that stay among the first `n`, in order.
pub open spec fn kept_upto(nodes: Seq<PlacementNode>, r: EnvironmentRequest, n: int) -> Seq<KeptNode>
    decreases n,
{
    if n <= 0 {
        Seq::empty()
    } else if is_replaced(r, nodes[n - 1].id) {
        kept_upto(nodes, r, n - 1)
    } else {
        kept_upto(nodes, r, n - 1).push(KeptNode { index: (n - 1) as usize, clear_generator: binds_recipe(r, nodes[n - 1]) })
    }
}

pub open spec fn texts_of(v: Seq<String>) -> Seq<Seq<char>> {
    v.map_values(|s: String| s@)
}

fn replaced_exec(r: &EnvironmentRequest, id: u64) -> (b: bool)
    ensures
        b == is_replaced(*r, id),
{
    if id == r.voxel_node_id {
        return true;
    }
    let mut t: usize = 0;
    while t < r.marker_targets.len()
        invariant
            t <= r.marker_targets@.len(),
            id != r.voxel_node_id,
            forall|u: int| 0 <= u < t ==> (#[trigger] r.marker_targets@[u]).node_id != id,
        decreases r.marker_targets@.len() - t,
    {
        if r.marker_targets[t].node_id == id {
            return true;
        }
        t = t + 1;
    }
    false
}

fn binds_recipe_exec(r: &EnvironmentRequest, n: &PlacementNode) -> (b: bool)
    ensures
        b == binds_recipe(*r, *n),
{
    match &n.kind {
        PlacementNodeKind::Bootstrap { generator: Some(g) } =>
            g.provider_id == r.provider_id && g.preset_id == r.preset_id && g.seed == r.seed,
        _ => false,
    }
}

/// Place the generated volume in the scene. The first replaced node of
/// another kind (a voxel node that is no voxel volume, a marker target that
/// is no marker) refuses the placement with its id. Otherwise the replaced
/// nodes go, the others stay in order with any binding of this very recipe
/// discharged, and the asset becomes the last dependency, once.
pub fn place_generated_volume(
    nodes: &Vec<PlacementNode>,
    dependencies: &Vec<String>,
    r: &EnvironmentRequest,
) -> (out: Result<PlacementEdit, u64>)
    ensures
        out is Err <==> exists|i: int| 0 <= i < nodes@.len() && conflicts(*r, #[trigger] nodes@[i]),
        out matches Err(id) ==> exists|i: int| 0 <= i < nodes@.len() && conflicts(*r, #[trigger] nodes@[i])
            && nodes@[i].id == id && forall|j: int| 0 <= j < i ==> !conflicts(*r, #[trigger] nodes@[j]),
        out matches Ok(e) ==> {
            &&& e.kept@ == kept_upto(nodes@, *r, nodes@.len() as int)
            &&& texts_of(e.dependencies@) == drop_value(texts_of(dependencies@), r.asset_id@).push(r.asset_id@)
        },
{
    let mut i: usize = 0;
    while i < nodes.len()
        invariant
            i <= nodes@.len(),
            forall|j: int| 0 <= j < i ==> !conflicts(*r, #[trigger] nodes@[j]),
        decreases nodes@.len() - i,
    {
        let n = &nodes[i];
        if replaced_exec(r, n.id) {
            let fits = if n.id == r.voxel_node_id {
                match &n.kind {
                    PlacementNodeKind::VoxelVolume => true,
                    _ => false,
                }
            } else {
                match &n.kind {
                    PlacementNodeKind::Marker => true,
                    _ => false,
                }
            };
            if !fits {
                assert(conflicts(*r, nodes@[i as int]));
                return Err(n.id);
            }
        }
        i = i + 1;
    }
    let mut kept: Vec<KeptNode> = Vec::new();
    let mut k: usize = 0;
    while k < nodes.len()
        invariant
            k <= nodes@.len(),
            kept@ == kept_upto(nodes@, *r, k as int),
        decreases nodes@.len() - k,
    {
        if !replaced_exec(r, nodes[k].id) {
            let clear = binds_recipe_exec(r, &nodes[k]);
            kept.push(KeptNode { index: k, clear_generator: clear });
        }
        k = k + 1;
    }
    let mut deps: Vec<String> = Vec::new();
    let mut d: usize = 0;
    while d < dependencies.len()
        invariant
            d <= dependencies@.len(),
            texts_of(deps@) == drop_value(texts_of(dependencies@.take(d as int)), r.asset_id@),
        decreases dependencies@.len() - d,
    {
        let ghost before = deps@;
        assert(texts_of(dependencies@.take(d + 1)).drop_last() =~= texts_of(dependencies@.take(d as int)));
        assert(texts_of(dependencies@.take(d + 1)).last() == dependencies@[d as int]@);
        if dependencies[d] != r.asset_id {
            deps.push(dependencies[d].clone());
            assert(texts_of(deps@) =~= texts_of(before).push(dependencies@[d as int]@));
        }
        d = d + 1;
    }
    assert(dependencies@.take(d as int) =~= dependencies@);
    let ghost kept_deps = texts_of(deps@);
    deps.push(r.asset_id.clone());
    assert(texts_of(deps@) =~= kept_deps.push(r.asset_id@));
    Ok(PlacementEdit { kept, dependencies: deps })
}

/// The placed scene keeps exactly the nodes the placement does not replace,
/// and the dependencies it keeps never name the generated asset, which is
/// then added once.
pub proof fn law_placement_replaces_targets(nodes: Seq<PlacementNode>, r: EnvironmentRequest, dependencies: Seq<Seq<char>>, n: int)
    requires
        0 <= n <= nodes.len(),
        nodes.len() <= usize::MAX,
    ensures
        forall|k: int| 0 <= k < kept_upto(nodes, r, n).len() ==> {
            let i = (#[trigger] kept_upto(nodes, r, n)[k]).index as int;
            0 <= i < n && !is_replaced(r, nodes[i].id)
        },
        forall|i: int| 0 <= i < n && !is_replaced(r, nodes[i].id) ==> exists|k: int|
            0 <= k < kept_upto(nodes, r, n).len() && (#[trigger] kept_upto(nodes, r, n)[k]).index == i,
        !drop_value(dependencies, r.asset_id@).contains(r.asset_id@),
    decreases n,
{
    lemma_drop_value(dependencies, r.asset_id@);
    if n > 0 {
        law_placement_replaces_targets(nodes, r, dependencies, n - 1);
        let prev = kept_upto(nodes, r, n - 1);
        if !is_replaced(r, nodes[n - 1].id) {
            let cur = kept_upto(nodes, r, n);
            assert forall|i: int| 0 <= i < n && !is_replaced(r, nodes[i].id) implies exists|k: int|
                0 <= k < cur.len() && (#[trigger] cur[k]).index == i by {
                if i < n - 1 {
                    let k = choose|k: int| 0 <= k < prev.len() && (#[trigger] prev[k]).index == i;
                    assert(cur[k] == prev[k]);
                } else {
                    assert(cur[prev.len() as int].index == i);
                }
            }
        }
    }
}

// ---------------------------------------------------------------------------
// The stages of a materialization.

/// Why a materialization produced no artifact, by the stage that refused it.
#[derive(Debug, Clone, PartialEq, Eq)]
pub enum MaterializationRefusal {
    /// The request itself, before anything is generated.
    Request { problems: Vec<EnvironmentProblem> },
    /// The generated output exceeds its limits.
    Limits { exceeded: Vec<GenerationLimit> },
    /// The generator produced no solid voxel, so the asset has no bounds.
    EmptyVolume,
    /// A replaced scene node has the wrong kind.
    PlacementConflict { node_id: u64 },
}

/// The stages in order: the request's problems refuse it before anything is
/// generated; the generated counts (`counts`) are then held to the limits,
/// and an empty volume is refused, before any artifact is assembled; last
/// the volume is placed in the scene. Only a placement that goes through
/// yields the scene edit.
pub fn stage_materialization(
    r: &EnvironmentRequest,
    scene: &[SceneNodeFacts],
    counts: GenerationCounts,
    nodes: &Vec<PlacementNode>,
    dependencies: &Vec<String>,
) -> (out: Result<PlacementEdit, MaterializationRefusal>)
    ensures
        request_problems(*r, scene@).len() > 0 ==> (out matches Err(MaterializationRefusal::Request { problems })
            && problems@ == request_problems(*r, scene@)),
        request_problems(*r, scene@).len() == 0 && exceeded_limits(counts, *r).len() > 0 ==> (out matches Err(
            MaterializationRefusal::Limits { exceeded },
        ) && exceeded@ == exceeded_limits(counts, *r)),
        request_problems(*r, scene@).len() == 0 && exceeded_limits(counts, *r).len() == 0 && counts.solid_voxels == 0
            ==> out == Err::<PlacementEdit, MaterializationRefusal>(MaterializationRefusal::EmptyVolume),
        request_problems(*r, scene@).len() == 0 && exceeded_limits(counts, *r).len() == 0 && counts.solid_voxels > 0
            ==> {
            &&& (out is Err <==> exists|i: int| 0 <= i < nodes@.len() && conflicts(*r, #[trigger] nodes@[i]))
            &&& out matches Err(MaterializationRefusal::PlacementConflict { node_id }) ==> exists|i: int|
                0 <= i < nodes@.len() && conflicts(*r, #[trigger] nodes@[i]) && nodes@[i].id == node_id
                    && forall|j: int| 0 <= j < i ==> !conflicts(*r, #[trigger] nodes@[j])
            &&& out is Err ==> (out matches Err(MaterializationRefusal::PlacementConflict { .. }))
            &&& out matches Ok(e) ==> {
                &&& e.kept@ == kept_upto(nodes@, *r, nodes@.len() as int)
                &&& texts_of(e.dependencies@) == drop_value(texts_of(dependencies@), r.asset_id@).push(r.asset_id@)
            }
        },
{
    let problems = validate_environment_request(r, scene);
    if problems.len() > 0 {
        return Err(MaterializationRefusal::Request { problems });
    }
    let exceeded = generation_limit_problems(counts, r);
    if exceeded.len() > 0 {
        return Err(MaterializationRefusal::Limits { exceeded });
    }
    if counts.solid_voxels == 0 {
        return Err(MaterializationRefusal::EmptyVolume);
    }
    match place_generated_volume(nodes, dependencies, r) {
        Ok(e) => Ok(e),
        Err(node_id) => Err(MaterializationRefusal::PlacementConflict { node_id }),
    }
}

// ---------------------------------------------------------------------------
// Provenance.

/// `asha-generator://provider/preset/vN?seed=S&configHash=H`.
pub open spec fn generated_uri_text(provider_id: Seq<char>, preset_id: Seq<char>, version: u32, seed: u64, config_hash: Seq<char>) -> Seq<char> {
    "asha-generator://"@ + provider_id + "/"@ + preset_id + "/v"@ + dec_digits(version as nat) + "?seed="@
        + dec_digits(seed as nat) + "&configHash="@ + config_hash
}

/// The provenance uri of a generated asset.
pub fn generated_provenance_uri(provider_id: &str, preset_id: &str, version: u32, seed: u64, config_hash: &str) -> (r: String)
    ensures
        r@ == generated_uri_text(provider_id@, preset_id@, version, seed, config_hash@),
{
    let mut t = String::new();
    t.append("asha-generator://");
    t.append(provider_id);
    t.append("/");
    t.append(preset_id);
    t.append("/v");
    push_dec(&mut t, version as u64);
    t.append("?seed=");
    push_dec(&mut t, seed);
    t.append("&configHash=");
    t.append(config_hash);
    assert(t@ =~= generated_uri_text(provider_id@, preset_id@, version, seed, config_hash@));
    t
}

// ---------------------------------------------------------------------------
// The identities of a materialized candidate.

/// The text whose hash names the set of artifacts a materialization
/// writes: the scene path and hash, the asset path and its canonical hash.
pub open spec fn artifact_set_text(scene_path: Seq<char>, scene_hash: Seq<char>, asset_path: Seq<char>, asset_hash: Seq<char>) -> Seq<char> {
    "environment-artifacts-v1|"@ + scene_path + "|"@ + scene_hash + "|"@ + asset_path + "|"@ + asset_hash
}

pub fn artifact_set_preimage(scene_path: &str, scene_hash: &str, asset_path: &str, asset_hash: &str) -> (r: String)
    ensures
        r@ == artifact_set_text(scene_path@, scene_hash@, asset_path@, asset_hash@),
{
    let mut t = String::new();
    t.append("environment-artifacts-v1|");
    t.append(scene_path);
    t.append("|");
    t.append(scene_hash);
    t.append("|");
    t.append(asset_path);
    t.append("|");
    t.append(asset_hash);
    assert(t@ =~= artifact_set_text(scene_path@, scene_hash@, asset_path@, asset_hash@));
    t
}

/// The text whose hash names a materialized candidate: the artifact-set
/// hash, then what generated it (provider, preset, seed, config and output
/// hashes).
pub open spec fn candidate_text(
    artifact_set_hash: Seq<char>,
    provider_id: Seq<char>,
    preset_id: Seq<char>,
    seed: u64,
    config_hash: Seq<char>,
    output_hash: Seq<char>,
) -> Seq<char> {
    "environment-candidate-v1|"@ + artifact_set_hash + "|"@ + provider_id + "|"@ + preset_id + "|"@
        + dec_digits(seed as nat) + "|"@ + config_hash + "|"@ + output_hash
}

pub fn candidate_preimage(
    artifact_set_hash: &str,
    provider_id: &str,
    preset_id: &str,
    seed: u64,
    config_hash: &str,
    output_hash: &str,
) -> (r: String)
    ensures
        r@ == candidate_text(artifact_set_hash@, provider_id@, preset_id@, seed, config_hash@, output_hash@),
{
    let mut t = String::new();
    t.append("environment-candidate-v1|");
    t.append(artifact_set_hash);
    t.append("|");
    t.append(provider_id);
    t.append("|");
    t.append(preset_id);
    t.append("|");
    push_dec(&mut t, seed);
    t.append("|");
    t.append(config_hash);
    t.append("|");
    t.append(output_hash);
    assert(t@ =~= candidate_text(artifact_set_hash@, provider_id@, preset_id@, seed, config_hash@, output_hash@));
    t
}

proof fn lemma_literal_bytes()
    ensures
        encode_utf8("/"@) == seq![47u8],
        encode_utf8("/v"@) == seq![47u8, 118u8],
        encode_utf8("?seed="@) == seq![63u8, 115u8, 101u8, 101u8, 100u8, 61u8],
        encode_utf8("&configHash="@) == seq![38u8, 99u8, 111u8, 110u8, 102u8, 105u8, 103u8, 72u8, 97u8, 115u8, 104u8, 61u8],
        "seed".spec_bytes() == seq![115u8, 101u8, 101u8, 100u8],
        "configHash".spec_bytes() == seq![99u8, 111u8, 110u8, 102u8, 105u8, 103u8, 72u8, 97u8, 115u8, 104u8],
{
    reveal_strlit("/");
    reveal_strlit("/v");
    reveal_strlit("?seed=");
    reveal_strlit("&configHash=");
    reveal_strlit("seed");
    reveal_strlit("configHash");
    lemma_encode_ascii("/"@);
    lemma_encode_ascii("/v"@);
    lemma_encode_ascii("?seed="@);
    lemma_encode_ascii("&configHash="@);
    lemma_encode_ascii("seed"@);
    lemma_encode_ascii("configHash"@);
    assert(ascii_bytes("/"@) =~= seq![47u8]);
    assert(ascii_bytes("/v"@) =~= seq![47u8, 118u8]);
    assert(ascii_bytes("?seed="@) =~= seq![63u8, 115u8, 101u8, 101u8, 100u8, 61u8]);
    assert(ascii_bytes("&configHash="@) =~= seq![38u8, 99u8, 111u8, 110u8, 102u8, 105u8, 103u8, 72u8, 97u8, 115u8, 104u8, 61u8]);
    assert(ascii_bytes("seed"@) =~= seq![115u8, 101u8, 101u8, 100u8]);
    assert(ascii_bytes("configHash"@) =~= seq![99u8, 111u8, 110u8, 102u8, 105u8, 103u8, 72u8, 97u8, 115u8, 104u8]);
}

/// Decimal digits hold no separator byte and read back as their number.
proof fn lemma_digits_bytes(x: nat)
    ensures
        encode_utf8(dec_digits(x)).len() > 0,
        !encode_utf8(dec_digits(x)).contains(47u8),
        !encode_utf8(dec_digits(x)).contains(63u8),
        !encode_utf8(dec_digits(x)).contains(38u8),
        !encode_utf8(dec_digits(x)).contains(43u8),
        unsigned_digits(encode_utf8(dec_digits(x))) == encode_utf8(dec_digits(x)),
        forall|i: int| 0 <= i < encode_utf8(dec_digits(x)).len() ==> is_digit(#[trigger] encode_utf8(dec_digits(x))[i]),
        digits_value(encode_utf8(dec_digits(x))) == x,
{
    let d = encode_utf8(dec_digits(x));
    lemma_encode_dec_digits(x);
    assert forall|b: u8| !is_digit(b) implies !d.contains(b) by {
        if d.contains(b) {
            let i = choose|i: int| 0 <= i < d.len() && d[i] == b;
            assert(is_digit(d[i]));
        }
    }
    assert(is_digit(d[0]));
}

/// A text starting with `fnv1a64:` has bytes starting with the label prefix.
proof fn lemma_label_prefix(t: Seq<char>)
    requires
        t.len() >= 8,
        t.take(8) == "fnv1a64:"@,
    ensures
        starts_with(encode_utf8(t), fnv_label_prefix()),
        encode_utf8(t).len() >= 8,
{
    assert(t =~= t.take(8) + t.skip(8));
    lemma_encode_concat(t.take(8), t.skip(8));
    lemma_encode_len(t);
    let p = encode_utf8("fnv1a64:"@);
    assert(fnv_label_prefix() == p);
    assert(encode_utf8(t).subrange(0, p.len() as int) =~= p);
}

proof fn lemma_uri_bytes(provider: Seq<char>, preset: Seq<char>, version: u32, seed: u64, config_hash: Seq<char>)
    ensures
        encode_utf8(generated_uri_text(provider, preset, version, seed, config_hash))
            == encode_utf8("asha-generator://"@) + encode_utf8(provider) + seq![47u8] + encode_utf8(preset)
                + seq![47u8, 118u8] + encode_utf8(dec_digits(version as nat))
                + (seq![63u8] + seq![115u8, 101u8, 101u8, 100u8, 61u8]) + encode_utf8(dec_digits(seed as nat))
                + (seq![38u8] + seq![99u8, 111u8, 110u8, 102u8, 105u8, 103u8, 72u8, 97u8, 115u8, 104u8, 61u8])
                + encode_utf8(config_hash),
{
    lemma_literal_bytes();
    let lit = "asha-generator://"@;
    let dv = dec_digits(version as nat);
    let ds = dec_digits(seed as nat);
    let c1 = lit + provider;
    let c2 = c1 + "/"@;
    let c3 = c2 + preset;
    let c4 = c3 + "/v"@;
    let c5 = c4 + dv;
    let c6 = c5 + "?seed="@;
    let c7 = c6 + ds;
    let c8 = c7 + "&configHash="@;
    let c9 = c8 + config_hash;
    assert(generated_uri_text(provider, preset, version, seed, config_hash) == c9);
    lemma_encode_concat(lit, provider);
    lemma_encode_concat(c1, "/"@);
    lemma_encode_concat(c2, preset);
    lemma_encode_concat(c3, "/v"@);
    lemma_encode_concat(c4, dv);
    lemma_encode_concat(c5, "?seed="@);
    lemma_encode_concat(c6, ds);
    lemma_encode_concat(c7, "&configHash="@);
    lemma_encode_concat(c8, config_hash);
    assert(seq![63u8] + seq![115u8, 101u8, 101u8, 100u8, 61u8] =~= seq![63u8, 115u8, 101u8, 101u8, 100u8, 61u8]);
    assert(seq![38u8] + seq![99u8, 111u8, 110u8, 102u8, 105u8, 103u8, 72u8, 97u8, 115u8, 104u8, 61u8]
        =~= seq![38u8, 99u8, 111u8, 110u8, 102u8, 105u8, 103u8, 72u8, 97u8, 115u8, 104u8, 61u8]);
}

proof fn lemma_recipe_path(p: Seq<u8>, q: Seq<u8>, version: u32)
    requires
        p.len() > 0,
        q.len() > 0,
        !p.contains(47u8),
        !q.contains(47u8),
        version > 0,
    ensures
        recipe_path_ok(p + seq![47u8] + q + seq![47u8, 118u8] + encode_utf8(dec_digits(version as nat))),
{
    let bv = encode_utf8(dec_digits(version as nat));
    lemma_digits_bytes(version as nat);
    let tail = seq![118u8] + bv;
    let a = p + seq![47u8] + q + seq![47u8, 118u8] + bv;
    assert(a =~= p + seq![47u8] + (q + seq![47u8] + tail));
    assert(!seq![118u8].contains(47u8)) by {
        if seq![118u8].contains(47u8) {
            let i = choose|i: int| 0 <= i < 1 && seq![118u8][i] == 47u8;
        }
    }
    lemma_concat_lacks(seq![118u8], bv, 47u8);
    lemma_split_single(tail, 47u8);
    lemma_split_head(q, 47u8, tail);
    lemma_split_head(p, 47u8, q + seq![47u8] + tail);
    let segs = split_from(a, 47u8, 0);
    assert(segs =~= seq![p, q, tail]);
    assert(tail.drop_first() =~= bv);
}

proof fn lemma_recipe_query(bs: Seq<u8>, h: Seq<u8>, seed: u64)
    requires
        bs == encode_utf8(dec_digits(seed as nat)),
        !h.contains(38u8),
        h.len() >= 8,
        starts_with(h, fnv_label_prefix()),
    ensures
        recipe_query_ok(
            seq![115u8, 101u8, 101u8, 100u8, 61u8] + bs + seq![38u8]
                + (seq![99u8, 111u8, 110u8, 102u8, 105u8, 103u8, 72u8, 97u8, 115u8, 104u8, 61u8] + h),
        ),
{
    lemma_literal_bytes();
    lemma_digits_bytes(seed as nat);
    let k1 = seq![115u8, 101u8, 101u8, 100u8, 61u8];
    let k2 = seq![99u8, 111u8, 110u8, 102u8, 105u8, 103u8, 72u8, 97u8, 115u8, 104u8, 61u8];
    let query = k1 + bs + seq![38u8] + (k2 + h);
    let pair0 = k1 + bs;
    let pair1 = k2 + h;
    assert(!k1.contains(38u8)) by {
        if k1.contains(38u8) {
            let i = choose|i: int| 0 <= i < k1.len() && k1[i] == 38u8;
        }
    }
    assert(!k2.contains(38u8)) by {
        if k2.contains(38u8) {
            let i = choose|i: int| 0 <= i < k2.len() && k2[i] == 38u8;
        }
    }
    lemma_concat_lacks(k1, bs, 38u8);
    lemma_concat_lacks(k2, h, 38u8);
    lemma_split_single(pair1, 38u8);
    lemma_split_head(pair0, 38u8, pair1);
    let pairs = split_from(query, 38u8, 0);
    assert(pairs =~= seq![pair0, pair1]);
    lemma_next_sep_at(pair0, 61u8, 0, 4);
    lemma_next_sep_at(pair1, 61u8, 0, 10);
    assert(pair_key(pair0) =~= "seed".spec_bytes());
    assert(pair_value(pair0) =~= bs);
    assert(pair_key(pair1) =~= "configHash".spec_bytes());
    assert(pair_value(pair1) =~= h);
    assert(pair_ok(pairs[0]) && pair_ok(pairs[1]));
    assert(pair_key(pairs[0]) != pair_key(pairs[1]));
    assert(parses_unsigned(pair_value(pairs[0]), u64::MAX as nat));
}

/// The provenance uri the materializer writes for a generated asset reads
/// back as a well-formed stored recipe, so the asset it replaces can later be
/// checked against its recipe: for a non-empty provider and preset without
/// `/` or `?`, a positive version, an `fnv1a64:` config hash without `&`, and
/// an `fnv1a64:` content hash.
pub proof fn law_generated_uri_reads_back(
    provider: Seq<char>,
    preset: Seq<char>,
    version: u32,
    seed: u64,
    config_hash: Seq<char>,
    content_hash: Seq<char>,
)
    requires
        provider.len() > 0,
        preset.len() > 0,
        !provider.contains('/'),
        !provider.contains('?'),
        !preset.contains('/'),
        !preset.contains('?'),
        version > 0,
        !config_hash.contains('&'),
        config_hash.len() >= 8,
        config_hash.take(8) == "fnv1a64:"@,
        content_hash.len() >= 8,
        content_hash.take(8) == "fnv1a64:"@,
    ensures
        is_generated_recipe(
            true,
            encode_utf8(generated_uri_text(provider, preset, version, seed, config_hash)),
            encode_utf8(content_hash),
        ),
{
    lemma_uri_bytes(provider, preset, version, seed, config_hash);
    lemma_digits_bytes(version as nat);
    lemma_label_prefix(config_hash);
    lemma_label_prefix(content_hash);
    lemma_encode_len(provider);
    lemma_encode_len(preset);
    let g = encode_utf8("asha-generator://"@);
    let p = encode_utf8(provider);
    let q = encode_utf8(preset);
    let bv = encode_utf8(dec_digits(version as nat));
    let bs = encode_utf8(dec_digits(seed as nat));
    let h = encode_utf8(config_hash);
    let k1 = seq![115u8, 101u8, 101u8, 100u8, 61u8];
    let k2 = seq![99u8, 111u8, 110u8, 102u8, 105u8, 103u8, 72u8, 97u8, 115u8, 104u8, 61u8];
    let u = encode_utf8(generated_uri_text(provider, preset, version, seed, config_hash));
    assert(generator_scheme() == g);
    assert(u.subrange(0, g.len() as int) =~= g);
    let s = u.subrange(g.len() as int, u.len() as int);
    let a = p + seq![47u8] + q + seq![47u8, 118u8] + bv;
    let query = k1 + bs + seq![38u8] + (k2 + h);
    assert(s =~= a + seq![63u8] + query);
    lemma_text_lacks_byte(provider, '/', 47u8);
    lemma_text_lacks_byte(provider, '?', 63u8);
    lemma_text_lacks_byte(preset, '/', 47u8);
    lemma_text_lacks_byte(preset, '?', 63u8);
    lemma_text_lacks_byte(config_hash, '&', 38u8);
    assert(!seq![47u8].contains(63u8)) by {
        if seq![47u8].contains(63u8) {
            let i = choose|i: int| 0 <= i < 1 && seq![47u8][i] == 63u8;
        }
    }
    assert(!seq![47u8, 118u8].contains(63u8)) by {
        if seq![47u8, 118u8].contains(63u8) {
            let i = choose|i: int| 0 <= i < 2 && seq![47u8, 118u8][i] == 63u8;
        }
    }
    lemma_concat_lacks(p, seq![47u8], 63u8);
    lemma_concat_lacks(p + seq![47u8], q, 63u8);
    lemma_concat_lacks(p + seq![47u8] + q, seq![47u8, 118u8], 63u8);
    lemma_concat_lacks(p + seq![47u8] + q + seq![47u8, 118u8], bv, 63u8);
    assert forall|j: int| 0 <= j < a.len() implies s[j] != 63u8 by {
        assert(s[j] == a[j]);
        assert(a.contains(a[j]));
    }
    assert(s[a.len() as int] == 63u8);
    lemma_next_sep_at(s, 63u8, 0, a.len() as int);
    assert(s.subrange(0, a.len() as int) =~= a);
    assert(s.subrange(a.len() as int + 1, s.len() as int) =~= query);
    lemma_recipe_path(p, q, version);
    lemma_recipe_query(bs, h, seed);
}

} // verus!
