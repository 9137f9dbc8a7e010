//! Validation of presentation catalogs: resources against the asset
//! catalog, animated-mesh descriptors, and the animation, audio, particle
//! and overlay cues that reference them.
//!
//! Checks that rest on floating-point values (bounds, clip durations, sample
//! times, gains, scales) arrive as verdicts.

use vstd::prelude::*;
use vstd::string::StringSliceAdditionalSpecFns;
use crate::ids::{is_blank, is_blank_text, range_equals};
use crate::fabric_registry::utf8;
use crate::provenance::starts_with;

verus! {

#[derive(Debug, Clone, Copy, PartialEq, Eq, Structural)]
pub enum ProjectPresentationResourceKind {
    AnimatedMesh,
    Audio,
    Particle,
    Font,
    Overlay,
}

#[derive(Debug, Clone, Copy, PartialEq, Eq, Structural)]
pub enum ProjectPresentationSignalDomain {
    Audio,
    Particle,
}

/// An entry of the asset catalog.
#[derive(Debug, Clone, PartialEq, Eq)]
pub struct CatalogAsset {
    pub id: String,
    pub source_path: Option<String>,
    pub hash: Option<String>,
}

/// A clip of an animated mesh; `duration_valid` tells whether its duration,
/// if given, is finite and positive.
#[derive(Debug, Clone, PartialEq, Eq)]
pub struct AnimationClip {
    pub id: String,
    pub duration_valid: bool,
}

#[derive(Debug, Clone, PartialEq, Eq)]
pub struct MeshMaterialSlot {
    pub slot: u16,
    pub material: String,
}

/// A renderer-neutral animated-mesh descriptor; `bounds_valid` tells
/// whether its bounds are finite with min at most max on every axis.
#[derive(Debug, Clone, PartialEq, Eq)]
pub struct AnimatedMeshDescriptor {
    pub asset: String,
    pub content_hash: Option<String>,
    pub clips: Vec<AnimationClip>,
    pub default_clip: Option<String>,
    pub material_slots: Vec<MeshMaterialSlot>,
    pub bounds_valid: bool,
}

#[derive(Debug, Clone, PartialEq, Eq)]
pub struct PresentationResource {
    pub resource_id: String,
    pub kind: ProjectPresentationResourceKind,
    pub asset_id: String,
    pub source_path: String,
    pub content_hash: String,
    pub animated_mesh: Option<AnimatedMeshDescriptor>,
}

#[derive(Debug, Clone, PartialEq, Eq)]
pub struct PresentationSignal {
    pub domain: ProjectPresentationSignalDomain,
    pub signal_id: String,
}

/// A presentation cue. Floating-point fields arrive as whether they are in
/// range: a finite non-negative sample time, a finite gain in [0, 1], a
/// finite scale in (0, 16].
#[derive(Debug, Clone, PartialEq, Eq)]
pub enum PresentationCue {
    Animation { cue_id: String, resource_id: String, clip_id: String, at_seconds_valid: bool, signal: PresentationSignal },
    Audio { cue_id: String, signal_id: String, resource_id: String, gain_valid: bool },
    Particle { cue_id: String, signal_id: String, resource_id: String, scale_valid: bool },
    Overlay { cue_id: String, resource_id: String },
}

#[derive(Debug, Clone, PartialEq, Eq)]
pub struct PresentationCatalog {
    pub schema_version: u32,
    pub resources: Vec<PresentationResource>,
    pub cues: Vec<PresentationCue>,
}

#[derive(Debug, Clone, Copy, PartialEq, Eq, Structural)]
pub enum PresentationDiagnosticCode {
    InvalidDocument,
    InvalidField,
    UnknownReference,
}

/// One problem of presentation catalog `document`.
#[derive(Debug, Clone, Copy, PartialEq, Eq, Structural)]
pub enum PresentationDiagnostic {
    UnsupportedCatalogSchema { document: usize },
    UnresolvedResource { document: usize, resource: usize },
    AssetKindMismatch { document: usize, resource: usize },
    AssetIdentityMismatch { document: usize, resource: usize },
    InvalidAnimatedMesh { document: usize, resource: usize },
    UnknownAnimationClip { document: usize, cue: usize },
    InvalidSampleTime { document: usize, cue: usize },
    UnrealizableSignal { document: usize, cue: usize },
    InvalidGain { document: usize, cue: usize },
    InvalidScale { document: usize, cue: usize },
    InvalidSignalBinding { document: usize, cue: usize },
    NotAudioResource { document: usize, cue: usize },
    NotParticleResource { document: usize, cue: usize },
    InvalidCueId { document: usize, cue: usize },
    UnknownCueResource { document: usize, cue: usize },
}

pub open spec fn presentation_code(d: PresentationDiagnostic) -> PresentationDiagnosticCode {
    match d {
        PresentationDiagnostic::UnsupportedCatalogSchema { .. } => PresentationDiagnosticCode::InvalidDocument,
        PresentationDiagnostic::InvalidSignalBinding { .. } => PresentationDiagnosticCode::InvalidDocument,
        PresentationDiagnostic::InvalidCueId { .. } => PresentationDiagnosticCode::InvalidDocument,
        PresentationDiagnostic::UnresolvedResource { .. } => PresentationDiagnosticCode::UnknownReference,
        PresentationDiagnostic::UnknownAnimationClip { .. } => PresentationDiagnosticCode::UnknownReference,
        PresentationDiagnostic::UnrealizableSignal { .. } => PresentationDiagnosticCode::UnknownReference,
        PresentationDiagnostic::UnknownCueResource { .. } => PresentationDiagnosticCode::UnknownReference,
        _ => PresentationDiagnosticCode::InvalidField,
    }
}

impl PresentationDiagnostic {
    /// The project-content diagnostic code of this problem.
    pub fn code(self) -> (r: PresentationDiagnosticCode)
        ensures
            r == presentation_code(self),
    {
        match self {
            PresentationDiagnostic::UnsupportedCatalogSchema { .. } => PresentationDiagnosticCode::InvalidDocument,
            PresentationDiagnostic::InvalidSignalBinding { .. } => PresentationDiagnosticCode::InvalidDocument,
            PresentationDiagnostic::InvalidCueId { .. } => PresentationDiagnosticCode::InvalidDocument,
            PresentationDiagnostic::UnresolvedResource { .. } => PresentationDiagnosticCode::UnknownReference,
            PresentationDiagnostic::UnknownAnimationClip { .. } => PresentationDiagnosticCode::UnknownReference,
            PresentationDiagnostic::UnrealizableSignal { .. } => PresentationDiagnosticCode::UnknownReference,
            PresentationDiagnostic::UnknownCueResource { .. } => PresentationDiagnosticCode::UnknownReference,
            _ => PresentationDiagnosticCode::InvalidField,
        }
    }
}

pub open spec fn flag(b: bool, d: PresentationDiagnostic) -> Seq<PresentationDiagnostic> {
    if b {
        seq![d]
    } else {
        Seq::empty()
    }
}

fn push_if(out: &mut Vec<PresentationDiagnostic>, cond: bool, d: PresentationDiagnostic)
    ensures
        final(out)@ == old(out)@ + flag(cond, d),
{
    if cond {
        out.push(d);
    }
    assert(out@ =~= old(out)@ + flag(cond, d));
}

/// The prefix that the catalog id of an asset of this resource kind bears.
pub open spec fn asset_prefix(kind: ProjectPresentationResourceKind) -> Seq<u8> {
    match kind {
        ProjectPresentationResourceKind::AnimatedMesh => "mesh/".spec_bytes(),
        ProjectPresentationResourceKind::Audio => "audio/".spec_bytes(),
        ProjectPresentationResourceKind::Particle => "sprite/".spec_bytes(),
        ProjectPresentationResourceKind::Overlay => "sprite/".spec_bytes(),
        ProjectPresentationResourceKind::Font => "font/".spec_bytes(),
    }
}

fn asset_prefix_exec(kind: ProjectPresentationResourceKind) -> (r: &'static [u8])
    ensures
        r@ == asset_prefix(kind),
{
    match kind {
        ProjectPresentationResourceKind::AnimatedMesh => "mesh/".as_bytes(),
        ProjectPresentationResourceKind::Audio => "audio/".as_bytes(),
        ProjectPresentationResourceKind::Particle => "sprite/".as_bytes(),
        ProjectPresentationResourceKind::Overlay => "sprite/".as_bytes(),
        ProjectPresentationResourceKind::Font => "font/".as_bytes(),
    }
}

// ---------------------------------------------------------------------------
// Lookups.

pub open spec fn is_first_asset(assets: Seq<CatalogAsset>, id: Seq<char>, p: int) -> bool {
    &&& 0 <= p < assets.len()
    &&& assets[p].id@ == id
    &&& forall|t: int| 0 <= t < p ==> (#[trigger] assets[t]).id@ != id
}

pub open spec fn has_asset(assets: Seq<CatalogAsset>, id: Seq<char>) -> bool {
    exists|p: int| 0 <= p < assets.len() && (#[trigger] assets[p]).id@ == id
}

/// The catalog entry for asset `id`; the catalog holds each id once.
pub open spec fn asset_named(assets: Seq<CatalogAsset>, id: Seq<char>) -> CatalogAsset {
    assets[choose|p: int| is_first_asset(assets, id, p)]
}

pub open spec fn is_last_resource(rs: Seq<PresentationResource>, id: Seq<char>, p: int) -> bool {
    &&& 0 <= p < rs.len()
    &&& rs[p].resource_id@ == id
    &&& forall|t: int| p < t < rs.len() ==> (#[trigger] rs[t]).resource_id@ != id
}

pub open spec fn has_resource(rs: Seq<PresentationResource>, id: Seq<char>) -> bool {
    exists|p: int| 0 <= p < rs.len() && (#[trigger] rs[p]).resource_id@ == id
}

/// The resource an id names in its catalog: the last declared with it.
pub open spec fn resource_named(rs: Seq<PresentationResource>, id: Seq<char>) -> PresentationResource {
    rs[choose|p: int| is_last_resource(rs, id, p)]
}

fn find_asset(assets: &Vec<CatalogAsset>, id: &String) -> (r: Option<usize>)
    ensures
        r is None <==> !has_asset(assets@, id@),
        r matches Some(p) ==> p < assets@.len() && asset_named(assets@, id@) == assets@[p as int],
{
    let mut p: usize = 0;
    while p < assets.len()
        invariant
            p <= assets@.len(),
            forall|t: int| 0 <= t < p ==> (#[trigger] assets@[t]).id@ != id@,
        decreases assets@.len() - p,
    {
        if assets[p].id == *id {
            proof {
                let c = choose|q: int| is_first_asset(assets@, id@, q);
                assert(is_first_asset(assets@, id@, p as int));
                assert(is_first_asset(assets@, id@, c));
                if c < p {
                    assert(assets@[c].id@ != id@);
                }
                if p < c {
                    assert(assets@[p as int].id@ != id@);
                }
            }
            return Some(p);
        }
        p = p + 1;
    }
    None
}

pub(crate) fn find_last_resource(rs: &Vec<PresentationResource>, id: &String) -> (r: Option<usize>)
    ensures
        r is None <==> !has_resource(rs@, id@),
        r matches Some(p) ==> p < rs@.len() && resource_named(rs@, id@) == rs@[p as int],
{
    let mut found: Option<usize> = None;
    let mut v: usize = 0;
    while v < rs.len()
        invariant
            v <= rs@.len(),
            found is None ==> forall|t: int| 0 <= t < v ==> (#[trigger] rs@[t]).resource_id@ != id@,
            found matches Some(w) ==> w < v && rs@[w as int].resource_id@ == id@
                && forall|t: int| w < t < v ==> (#[trigger] rs@[t]).resource_id@ != id@,
        decreases rs@.len() - v,
    {
        if rs[v].resource_id == *id {
            found = Some(v);
        }
        v = v + 1;
    }
    proof {
        if let Some(w) = found {
            let c = choose|u: int| is_last_resource(rs@, id@, u);
            assert(is_last_resource(rs@, id@, w as int));
            assert(is_last_resource(rs@, id@, c));
            if c < w {
                assert(rs@[w as int].resource_id@ == id@);
            }
            if w < c {
                assert(rs@[c].resource_id@ == id@);
            }
        }
    }
    found
}

// ---------------------------------------------------------------------------
// Resources.

/// Clip ids are non-blank and distinct, and every clip duration is valid.
pub open spec fn clips_ok(clips: Seq<AnimationClip>) -> bool {
    forall|k: int| 0 <= k < clips.len() ==> {
        &&& !is_blank_text((#[trigger] clips[k]).id@)
        &&& clips[k].duration_valid
        &&& forall|t: int| 0 <= t < k ==> (#[trigger] clips[t]).id@ != clips[k].id@
    }
}

pub open spec fn has_clip(clips: Seq<AnimationClip>, id: Seq<char>) -> bool {
    exists|k: int| 0 <= k < clips.len() && (#[trigger] clips[k]).id@ == id
}

/// Material slots name non-blank materials and distinct slot numbers.
pub open spec fn slots_ok(slots: Seq<MeshMaterialSlot>) -> bool {
    forall|k: int| 0 <= k < slots.len() ==> {
        &&& !is_blank_text((#[trigger] slots[k]).material@)
        &&& forall|t: int| 0 <= t < k ==> (#[trigger] slots[t]).slot != slots[k].slot
    }
}

/// A well-formed descriptor: a non-blank asset, valid clips, a default clip
/// among them, and valid material slots.
pub open spec fn descriptor_ok(desc: AnimatedMeshDescriptor) -> bool {
    &&& !is_blank_text(desc.asset@)
    &&& clips_ok(desc.clips@)
    &&& match desc.default_clip {
        Some(c) => has_clip(desc.clips@, c@),
        None => true,
    }
    &&& slots_ok(desc.material_slots@)
}

/// An animated mesh carries a matching, well-formed descriptor with valid
/// bounds; any other kind carries none.
pub open spec fn animated_mesh_ok(r: PresentationResource) -> bool {
    if r.kind == ProjectPresentationResourceKind::AnimatedMesh {
        match r.animated_mesh {
            Some(desc) => {
                &&& desc.asset@ == r.asset_id@
                &&& match desc.content_hash {
                    Some(h) => h@ == r.content_hash@,
                    None => false,
                }
                &&& descriptor_ok(desc)
                &&& desc.bounds_valid
            },
            None => false,
        }
    } else {
        r.animated_mesh is None
    }
}

/// The catalog asset records the resource's source path and content hash.
pub open spec fn asset_identity_matches(a: CatalogAsset, r: PresentationResource) -> bool {
    &&& match a.source_path {
        Some(p) => p@ == r.source_path@,
        None => false,
    }
    &&& match a.hash {
        Some(h) => h@ == r.content_hash@,
        None => false,
    }
}

/// The problems of resource `k` of catalog `d`: missing identities or an
/// unknown asset; against a known asset, another asset kind or another
/// source path or hash; then its animated-mesh descriptor.
pub open spec fn resource_diagnostics(r: PresentationResource, d: int, k: int, assets: Seq<CatalogAsset>) -> Seq<PresentationDiagnostic> {
    let (x, y) = (d as usize, k as usize);
    flag(
        is_blank_text(r.resource_id@) || is_blank_text(r.source_path@) || is_blank_text(r.content_hash@) || !has_asset(assets, r.asset_id@),
        PresentationDiagnostic::UnresolvedResource { document: x, resource: y },
    ) + if has_asset(assets, r.asset_id@) {
        let a = asset_named(assets, r.asset_id@);
        flag(!starts_with(utf8(a.id), asset_prefix(r.kind)), PresentationDiagnostic::AssetKindMismatch { document: x, resource: y })
            + flag(!asset_identity_matches(a, r), PresentationDiagnostic::AssetIdentityMismatch { document: x, resource: y })
    } else {
        Seq::empty()
    } + flag(!animated_mesh_ok(r), PresentationDiagnostic::InvalidAnimatedMesh { document: x, resource: y })
}

fn clips_ok_exec(clips: &Vec<AnimationClip>) -> (r: bool)
    ensures
        r == clips_ok(clips@),
{
    let mut k: usize = 0;
    while k < clips.len()
        invariant
            k <= clips@.len(),
            forall|a: int| 0 <= a < k ==> {
                &&& !is_blank_text((#[trigger] clips@[a]).id@)
                &&& clips@[a].duration_valid
                &&& forall|t: int| 0 <= t < a ==> (#[trigger] clips@[t]).id@ != clips@[a].id@
            },
        decreases clips@.len() - k,
    {
        if is_blank(clips[k].id.as_str()) || !clips[k].duration_valid {
            return false;
        }
        let mut t: usize = 0;
        while t < k
            invariant
                k < clips@.len(),
                t <= k,
                forall|a: int| 0 <= a < t ==> (#[trigger] clips@[a]).id@ != clips@[k as int].id@,
            decreases k - t,
        {
            if clips[t].id == clips[k].id {
                assert(clips@[t as int].id@ == clips@[k as int].id@);
                return false;
            }
            t = t + 1;
        }
        k = k + 1;
    }
    true
}

pub(crate) fn has_clip_exec(clips: &Vec<AnimationClip>, id: &String) -> (r: bool)
    ensures
        r == has_clip(clips@, id@),
{
    let mut k: usize = 0;
    while k < clips.len()
        invariant
            k <= clips@.len(),
            forall|a: int| 0 <= a < k ==> (#[trigger] clips@[a]).id@ != id@,
        decreases clips@.len() - k,
    {
        if clips[k].id == *id {
            assert(clips@[k as int].id@ == id@);
            return true;
        }
        k = k + 1;
    }
    false
}

fn slots_ok_exec(slots: &Vec<MeshMaterialSlot>) -> (r: bool)
    ensures
        r == slots_ok(slots@),
{
    let mut k: usize = 0;
    while k < slots.len()
        invariant
            k <= slots@.len(),
            forall|a: int| 0 <= a < k ==> {
                &&& !is_blank_text((#[trigger] slots@[a]).material@)
                &&& forall|t: int| 0 <= t < a ==> (#[trigger] slots@[t]).slot != slots@[a].slot
            },
        decreases slots@.len() - k,
    {
        if is_blank(slots[k].material.as_str()) {
            return false;
        }
        let mut t: usize = 0;
        while t < k
            invariant
                k < slots@.len(),
                t <= k,
                forall|a: int| 0 <= a < t ==> (#[trigger] slots@[a]).slot != slots@[k as int].slot,
            decreases k - t,
        {
            if slots[t].slot == slots[k].slot {
                assert(slots@[t as int].slot == slots@[k as int].slot);
                return false;
            }
            t = t + 1;
        }
        k = k + 1;
    }
    true
}

fn descriptor_ok_exec(desc: &AnimatedMeshDescriptor) -> (r: bool)
    ensures
        r == descriptor_ok(*desc),
{
    if is_blank(desc.asset.as_str()) || !clips_ok_exec(&desc.clips) {
        return false;
    }
    let default_ok = match &desc.default_clip {
        Some(c) => has_clip_exec(&desc.clips, c),
        None => true,
    };
    default_ok && slots_ok_exec(&desc.material_slots)
}

fn animated_mesh_ok_exec(r: &PresentationResource) -> (ok: bool)
    ensures
        ok == animated_mesh_ok(*r),
{
    match r.kind {
        ProjectPresentationResourceKind::AnimatedMesh => match &r.animated_mesh {
            Some(desc) => {
                let hash_ok = match &desc.content_hash {
                    Some(h) => *h == r.content_hash,
                    None => false,
                };
                desc.asset == r.asset_id && hash_ok && descriptor_ok_exec(desc) && desc.bounds_valid
            },
            None => false,
        },
        _ => r.animated_mesh.is_none(),
    }
}

fn resource_diagnostics_exec(
    r: &PresentationResource,
    d: usize,
    k: usize,
    assets: &Vec<CatalogAsset>,
    out: &mut Vec<PresentationDiagnostic>,
)
    ensures
        final(out)@ == old(out)@ + resource_diagnostics(*r, d as int, k as int, assets@),
{
    let found = find_asset(assets, &r.asset_id);
    push_if(
        out,
        is_blank(r.resource_id.as_str()) || is_blank(r.source_path.as_str()) || is_blank(r.content_hash.as_str())
            || found.is_none(),
        PresentationDiagnostic::UnresolvedResource { document: d, resource: k },
    );
    let ghost mid = out@;
    match found {
        Some(p) => {
            let a = &assets[p];
            let b = a.id.as_str().as_bytes();
            let prefix = asset_prefix_exec(r.kind);
            let prefixed = prefix.len() <= b.len() && range_equals(b, 0, prefix.len(), prefix);
            push_if(out, !prefixed, PresentationDiagnostic::AssetKindMismatch { document: d, resource: k });
            let path_ok = match &a.source_path {
                Some(s) => *s == r.source_path,
                None => false,
            };
            let hash_ok = match &a.hash {
                Some(h) => *h == r.content_hash,
                None => false,
            };
            push_if(out, !(path_ok && hash_ok), PresentationDiagnostic::AssetIdentityMismatch { document: d, resource: k });
        },
        None => {},
    }
    push_if(out, !animated_mesh_ok_exec(r), PresentationDiagnostic::InvalidAnimatedMesh { document: d, resource: k });
    assert(out@ =~= old(out)@ + resource_diagnostics(*r, d as int, k as int, assets@));
}

// ---------------------------------------------------------------------------
// Cues.

pub open spec fn cue_id(c: PresentationCue) -> String {
    match c {
        PresentationCue::Animation { cue_id, .. } => cue_id,
        PresentationCue::Audio { cue_id, .. } => cue_id,
        PresentationCue::Particle { cue_id, .. } => cue_id,
        PresentationCue::Overlay { cue_id, .. } => cue_id,
    }
}

pub open spec fn cue_resource(c: PresentationCue) -> String {
    match c {
        PresentationCue::Animation { resource_id, .. } => resource_id,
        PresentationCue::Audio { resource_id, .. } => resource_id,
        PresentationCue::Particle { resource_id, .. } => resource_id,
        PresentationCue::Overlay { resource_id, .. } => resource_id,
    }
}

/// The signal an audio or particle cue binds, with its domain.
pub open spec fn cue_signal(c: PresentationCue) -> Option<(ProjectPresentationSignalDomain, Seq<char>)> {
    match c {
        PresentationCue::Audio { signal_id, .. } => Some((ProjectPresentationSignalDomain::Audio, signal_id@)),
        PresentationCue::Particle { signal_id, .. } => Some((ProjectPresentationSignalDomain::Particle, signal_id@)),
        _ => None,
    }
}

/// Some audio or particle cue of the catalog binds this signal.
pub open spec fn realizable(cues: Seq<PresentationCue>, domain: ProjectPresentationSignalDomain, id: Seq<char>) -> bool {
    exists|t: int| 0 <= t < cues.len() && cue_signal(#[trigger] cues[t]) == Some((domain, id))
}

/// An earlier audio or particle cue binds the signal of cue `c`.
pub open spec fn signal_bound_before(cues: Seq<PresentationCue>, c: int) -> bool {
    exists|t: int| 0 <= t < c && cue_signal(#[trigger] cues[t]) == cue_signal(cues[c])
}

/// An earlier cue has the id of cue `c`.
pub open spec fn cue_seen_before(cues: Seq<PresentationCue>, c: int) -> bool {
    exists|t: int| 0 <= t < c && cue_id(#[trigger] cues[t])@ == cue_id(cues[c])@
}

/// The resource names an animated mesh that has the clip.
pub open spec fn has_animation_clip(rs: Seq<PresentationResource>, resource: Seq<char>, clip: Seq<char>) -> bool {
    &&& has_resource(rs, resource)
    &&& resource_named(rs, resource).kind == ProjectPresentationResourceKind::AnimatedMesh
    &&& match resource_named(rs, resource).animated_mesh {
        Some(desc) => has_clip(desc.clips@, clip),
        None => false,
    }
}

/// The resource names a resource of kind `kind`.
pub open spec fn resource_of_kind(rs: Seq<PresentationResource>, resource: Seq<char>, kind: ProjectPresentationResourceKind) -> bool {
    has_resource(rs, resource) && resource_named(rs, resource).kind == kind
}

/// The problems of an animation cue: an unknown mesh clip, an invalid
/// sample time, a signal that no audio or particle cue binds.
pub open spec fn animation_cue_check(cat: PresentationCatalog, d: int, c: int, resource_id: String, clip_id: String, at_seconds_valid: bool, signal: PresentationSignal) -> Seq<PresentationDiagnostic> {
    let (x, y) = (d as usize, c as usize);
    flag(!has_animation_clip(cat.resources@, resource_id@, clip_id@), PresentationDiagnostic::UnknownAnimationClip { document: x, cue: y })
        + flag(!at_seconds_valid, PresentationDiagnostic::InvalidSampleTime { document: x, cue: y })
        + flag(
        is_blank_text(signal.signal_id@) || !realizable(cat.cues@, signal.domain, signal.signal_id@),
        PresentationDiagnostic::UnrealizableSignal { document: x, cue: y },
    )
}

/// The problems of an audio or particle cue: an invalid gain or scale, a
/// blank signal or one bound before in its domain, a resource of another
/// kind.
pub open spec fn bound_cue_check(cat: PresentationCatalog, d: int, c: int, signal_id: String, resource_id: String, level_valid: bool, audio: bool) -> Seq<PresentationDiagnostic> {
    let (x, y) = (d as usize, c as usize);
    let kind = if audio { ProjectPresentationResourceKind::Audio } else { ProjectPresentationResourceKind::Particle };
    flag(!level_valid, if audio { PresentationDiagnostic::InvalidGain { document: x, cue: y } } else { PresentationDiagnostic::InvalidScale { document: x, cue: y } })
        + flag(is_blank_text(signal_id@) || signal_bound_before(cat.cues@, c), PresentationDiagnostic::InvalidSignalBinding { document: x, cue: y })
        + flag(
        !resource_of_kind(cat.resources@, resource_id@, kind),
        if audio { PresentationDiagnostic::NotAudioResource { document: x, cue: y } } else { PresentationDiagnostic::NotParticleResource { document: x, cue: y } },
    )
}

/// The kind-specific problems of cue `c` of catalog `d`.
pub open spec fn cue_kind_diagnostics(cat: PresentationCatalog, d: int, c: int) -> Seq<PresentationDiagnostic> {
    match cat.cues@[c] {
        PresentationCue::Animation { resource_id, clip_id, at_seconds_valid, signal, .. } =>
            animation_cue_check(cat, d, c, resource_id, clip_id, at_seconds_valid, signal),
        PresentationCue::Audio { signal_id, resource_id, gain_valid, .. } =>
            bound_cue_check(cat, d, c, signal_id, resource_id, gain_valid, true),
        PresentationCue::Particle { signal_id, resource_id, scale_valid, .. } =>
            bound_cue_check(cat, d, c, signal_id, resource_id, scale_valid, false),
        PresentationCue::Overlay { .. } => Seq::empty(),
    }
}

/// The problems of cue `c` of catalog `d`: those of its kind, then a blank
/// or repeated cue id, then an unknown resource.
pub open spec fn cue_diagnostics(cat: PresentationCatalog, d: int, c: int) -> Seq<PresentationDiagnostic> {
    let cue = cat.cues@[c];
    let (x, y) = (d as usize, c as usize);
    cue_kind_diagnostics(cat, d, c)
        + flag(is_blank_text(cue_id(cue)@) || cue_seen_before(cat.cues@, c), PresentationDiagnostic::InvalidCueId { document: x, cue: y })
        + flag(!has_resource(cat.resources@, cue_resource(cue)@), PresentationDiagnostic::UnknownCueResource { document: x, cue: y })
}

pub open spec fn resources_upto(cat: PresentationCatalog, d: int, assets: Seq<CatalogAsset>, n: int) -> Seq<PresentationDiagnostic>
    decreases n,
{
    if n <= 0 {
        Seq::empty()
    } else {
        resources_upto(cat, d, assets, n - 1) + resource_diagnostics(cat.resources@[n - 1], d, n - 1, assets)
    }
}

pub open spec fn cues_upto(cat: PresentationCatalog, d: int, n: int) -> Seq<PresentationDiagnostic>
    decreases n,
{
    if n <= 0 {
        Seq::empty()
    } else {
        cues_upto(cat, d, n - 1) + cue_diagnostics(cat, d, n - 1)
    }
}

/// The problems of catalog `d`: an unsupported schema version, each
/// resource, then each cue.
pub open spec fn catalog_diagnostics(cat: PresentationCatalog, d: int, assets: Seq<CatalogAsset>, schema_version: u32) -> Seq<PresentationDiagnostic> {
    flag(cat.schema_version != schema_version, PresentationDiagnostic::UnsupportedCatalogSchema { document: d as usize })
        + resources_upto(cat, d, assets, cat.resources@.len() as int)
        + cues_upto(cat, d, cat.cues@.len() as int)
}

pub open spec fn catalogs_upto(cats: Seq<PresentationCatalog>, assets: Seq<CatalogAsset>, schema_version: u32, n: int) -> Seq<PresentationDiagnostic>
    decreases n,
{
    if n <= 0 {
        Seq::empty()
    } else {
        catalogs_upto(cats, assets, schema_version, n - 1) + catalog_diagnostics(cats[n - 1], n - 1, assets, schema_version)
    }
}

fn cue_id_exec(c: &PresentationCue) -> (r: &String)
    ensures
        *r == cue_id(*c),
{
    match c {
        PresentationCue::Animation { cue_id, .. } => cue_id,
        PresentationCue::Audio { cue_id, .. } => cue_id,
        PresentationCue::Particle { cue_id, .. } => cue_id,
        PresentationCue::Overlay { cue_id, .. } => cue_id,
    }
}

fn cue_resource_exec(c: &PresentationCue) -> (r: &String)
    ensures
        *r == cue_resource(*c),
{
    match c {
        PresentationCue::Animation { resource_id, .. } => resource_id,
        PresentationCue::Audio { resource_id, .. } => resource_id,
        PresentationCue::Particle { resource_id, .. } => resource_id,
        PresentationCue::Overlay { resource_id, .. } => resource_id,
    }
}

/// Whether cue `c` binds the signal `id` in `domain`.
fn cue_binds(c: &PresentationCue, domain: ProjectPresentationSignalDomain, id: &String) -> (r: bool)
    ensures
        r == (cue_signal(*c) == Some((domain, id@))),
{
    match c {
        PresentationCue::Audio { signal_id, .. } => match domain {
            ProjectPresentationSignalDomain::Audio => *signal_id == *id,
            ProjectPresentationSignalDomain::Particle => false,
        },
        PresentationCue::Particle { signal_id, .. } => match domain {
            ProjectPresentationSignalDomain::Particle => *signal_id == *id,
            ProjectPresentationSignalDomain::Audio => false,
        },
        _ => false,
    }
}

fn realizable_exec(cues: &Vec<PresentationCue>, domain: ProjectPresentationSignalDomain, id: &String) -> (r: bool)
    ensures
        r == realizable(cues@, domain, id@),
{
    let mut t: usize = 0;
    while t < cues.len()
        invariant
            t <= cues@.len(),
            forall|a: int| 0 <= a < t ==> cue_signal(#[trigger] cues@[a]) != Some((domain, id@)),
        decreases cues@.len() - t,
    {
        if cue_binds(&cues[t], domain, id) {
            return true;
        }
        t = t + 1;
    }
    false
}

fn signal_bound_before_exec(cues: &Vec<PresentationCue>, c: usize, domain: ProjectPresentationSignalDomain, id: &String) -> (r: bool)
    requires
        c < cues@.len(),
        cue_signal(cues@[c as int]) == Some((domain, id@)),
    ensures
        r == signal_bound_before(cues@, c as int),
{
    let mut t: usize = 0;
    while t < c
        invariant
            c < cues@.len(),
            cue_signal(cues@[c as int]) == Some((domain, id@)),
            t <= c,
            forall|a: int| 0 <= a < t ==> cue_signal(#[trigger] cues@[a]) != cue_signal(cues@[c as int]),
        decreases c - t,
    {
        if cue_binds(&cues[t], domain, id) {
            return true;
        }
        t = t + 1;
    }
    false
}

fn cue_seen_before_exec(cues: &Vec<PresentationCue>, c: usize) -> (r: bool)
    requires
        c < cues@.len(),
    ensures
        r == cue_seen_before(cues@, c as int),
{
    let id = cue_id_exec(&cues[c]);
    let mut t: usize = 0;
    while t < c
        invariant
            c < cues@.len(),
            *id == cue_id(cues@[c as int]),
            t <= c,
            forall|a: int| 0 <= a < t ==> cue_id(#[trigger] cues@[a])@ != cue_id(cues@[c as int])@,
        decreases c - t,
    {
        if *cue_id_exec(&cues[t]) == *id {
            return true;
        }
        t = t + 1;
    }
    false
}

fn resource_of_kind_exec(rs: &Vec<PresentationResource>, id: &String, kind: ProjectPresentationResourceKind) -> (r: bool)
    ensures
        r == resource_of_kind(rs@, id@, kind),
{
    match find_last_resource(rs, id) {
        None => false,
        Some(p) => rs[p].kind == kind,
    }
}

fn has_animation_clip_exec(rs: &Vec<PresentationResource>, id: &String, clip: &String) -> (r: bool)
    ensures
        r == has_animation_clip(rs@, id@, clip@),
{
    match find_last_resource(rs, id) {
        None => false,
        Some(p) => {
            let res = &rs[p];
            match res.kind {
                ProjectPresentationResourceKind::AnimatedMesh => match &res.animated_mesh {
                    Some(desc) => has_clip_exec(&desc.clips, clip),
                    None => false,
                },
                _ => false,
            }
        },
    }
}

fn animation_cue_exec(
    cat: &PresentationCatalog,
    d: usize,
    c: usize,
    resource_id: &String,
    clip_id: &String,
    at_seconds_valid: bool,
    signal: &PresentationSignal,
    out: &mut Vec<PresentationDiagnostic>,
)
    ensures
        final(out)@ == old(out)@ + animation_cue_check(*cat, d as int, c as int, *resource_id, *clip_id, at_seconds_valid, *signal),
{
    let ghost s0 = out@;
    push_if(out, !has_animation_clip_exec(&cat.resources, resource_id, clip_id), PresentationDiagnostic::UnknownAnimationClip { document: d, cue: c });
    push_if(out, !at_seconds_valid, PresentationDiagnostic::InvalidSampleTime { document: d, cue: c });
    push_if(
        out,
        is_blank(signal.signal_id.as_str()) || !realizable_exec(&cat.cues, signal.domain, &signal.signal_id),
        PresentationDiagnostic::UnrealizableSignal { document: d, cue: c },
    );
    assert(out@ =~= s0 + animation_cue_check(*cat, d as int, c as int, *resource_id, *clip_id, at_seconds_valid, *signal));
}

fn bound_cue_exec(
    cat: &PresentationCatalog,
    d: usize,
    c: usize,
    signal_id: &String,
    resource_id: &String,
    level_valid: bool,
    audio: bool,
    out: &mut Vec<PresentationDiagnostic>,
)
    requires
        c < cat.cues@.len(),
        cue_signal(cat.cues@[c as int]) == Some((
            if audio { ProjectPresentationSignalDomain::Audio } else { ProjectPresentationSignalDomain::Particle },
            signal_id@,
        )),
    ensures
        final(out)@ == old(out)@ + bound_cue_check(*cat, d as int, c as int, *signal_id, *resource_id, level_valid, audio),
{
    let ghost s0 = out@;
    let domain = if audio { ProjectPresentationSignalDomain::Audio } else { ProjectPresentationSignalDomain::Particle };
    let kind = if audio { ProjectPresentationResourceKind::Audio } else { ProjectPresentationResourceKind::Particle };
    let level = if audio { PresentationDiagnostic::InvalidGain { document: d, cue: c } } else { PresentationDiagnostic::InvalidScale { document: d, cue: c } };
    push_if(out, !level_valid, level);
    push_if(
        out,
        is_blank(signal_id.as_str()) || signal_bound_before_exec(&cat.cues, c, domain, signal_id),
        PresentationDiagnostic::InvalidSignalBinding { document: d, cue: c },
    );
    let wrong = if audio { PresentationDiagnostic::NotAudioResource { document: d, cue: c } } else { PresentationDiagnostic::NotParticleResource { document: d, cue: c } };
    push_if(out, !resource_of_kind_exec(&cat.resources, resource_id, kind), wrong);
    assert(out@ =~= s0 + bound_cue_check(*cat, d as int, c as int, *signal_id, *resource_id, level_valid, audio));
}

fn cue_kind_exec(cat: &PresentationCatalog, d: usize, c: usize, out: &mut Vec<PresentationDiagnostic>)
    requires
        c < cat.cues@.len(),
    ensures
        final(out)@ == old(out)@ + cue_kind_diagnostics(*cat, d as int, c as int),
{
    match &cat.cues[c] {
        PresentationCue::Animation { resource_id, clip_id, at_seconds_valid, signal, .. } => {
            animation_cue_exec(cat, d, c, resource_id, clip_id, *at_seconds_valid, signal, out);
        },
        PresentationCue::Audio { signal_id, resource_id, gain_valid, .. } => {
            bound_cue_exec(cat, d, c, signal_id, resource_id, *gain_valid, true, out);
        },
        PresentationCue::Particle { signal_id, resource_id, scale_valid, .. } => {
            bound_cue_exec(cat, d, c, signal_id, resource_id, *scale_valid, false, out);
        },
        PresentationCue::Overlay { .. } => {
            assert(out@ =~= old(out)@ + cue_kind_diagnostics(*cat, d as int, c as int));
        },
    }
}

fn cue_diagnostics_exec(cat: &PresentationCatalog, d: usize, c: usize, out: &mut Vec<PresentationDiagnostic>)
    requires
        c < cat.cues@.len(),
    ensures
        final(out)@ == old(out)@ + cue_diagnostics(*cat, d as int, c as int),
{
    let ghost s0 = out@;
    cue_kind_exec(cat, d, c, out);
    let cue = &cat.cues[c];
    push_if(
        out,
        is_blank(cue_id_exec(cue).as_str()) || cue_seen_before_exec(&cat.cues, c),
        PresentationDiagnostic::InvalidCueId { document: d, cue: c },
    );
    push_if(
        out,
        find_last_resource(&cat.resources, cue_resource_exec(cue)).is_none(),
        PresentationDiagnostic::UnknownCueResource { document: d, cue: c },
    );
    assert(out@ =~= s0 + cue_diagnostics(*cat, d as int, c as int));
}

/// Check the project's presentation catalogs, in order, against the asset
/// catalog: each catalog's schema version, its resources (identities, asset
/// kind and identity, animated-mesh descriptor) and its cues (clips,
/// sample times, gains, scales, signal bindings unique per domain, cue ids,
/// resources of the right kind).
pub fn validate_presentation(
    catalogs: &Vec<PresentationCatalog>,
    assets: &Vec<CatalogAsset>,
    schema_version: u32,
) -> (out: Vec<PresentationDiagnostic>)
    ensures
        out@ == catalogs_upto(catalogs@, assets@, schema_version, catalogs@.len() as int),
{
    let mut out: Vec<PresentationDiagnostic> = Vec::new();
    let mut d: usize = 0;
    while d < catalogs.len()
        invariant
            d <= catalogs@.len(),
            out@ == catalogs_upto(catalogs@, assets@, schema_version, d as int),
        decreases catalogs@.len() - d,
    {
        let cat = &catalogs[d];
        let ghost s0 = out@;
        push_if(&mut out, cat.schema_version != schema_version, PresentationDiagnostic::UnsupportedCatalogSchema { document: d });
        let ghost s1 = out@;
        let mut k: usize = 0;
        while k < cat.resources.len()
            invariant
                d < catalogs@.len(),
                cat == &catalogs@[d as int],
                k <= cat.resources@.len(),
                out@ == s1 + resources_upto(*cat, d as int, assets@, k as int),
            decreases cat.resources@.len() - k,
        {
            resource_diagnostics_exec(&cat.resources[k], d, k, assets, &mut out);
            assert(out@ =~= s1 + resources_upto(*cat, d as int, assets@, k + 1));
            k = k + 1;
        }
        let ghost s2 = out@;
        let mut c: usize = 0;
        while c < cat.cues.len()
            invariant
                d < catalogs@.len(),
                cat == &catalogs@[d as int],
                c <= cat.cues@.len(),
                out@ == s2 + cues_upto(*cat, d as int, c as int),
            decreases cat.cues@.len() - c,
        {
            cue_diagnostics_exec(cat, d, c, &mut out);
            assert(out@ =~= s2 + cues_upto(*cat, d as int, c + 1));
            c = c + 1;
        }
        assert(out@ =~= catalogs_upto(catalogs@, assets@, schema_version, d + 1));
        d = d + 1;
    }
    out
}

} // verus!
