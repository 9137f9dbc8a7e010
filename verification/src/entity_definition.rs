//! Validation of stored entity definitions before they seed runtime
//! authority: the required identity and source fields, duplicate capability
//! declarations, and the initial values of each capability. Checks on
//! floating-point values arrive as verdicts on the capability.

use vstd::prelude::*;
use crate::ids::{is_blank, is_blank_text};
use crate::text::{dec_digits, push_dec};

verus! {

/// The class of an entity-definition diagnostic.
#[derive(Debug, Clone, Copy, PartialEq, Eq, Structural)]
pub enum EntityDefinitionDiagnosticCode {
    MissingStableId,
    MissingDisplayName,
    MissingSourceTrace,
    DuplicateCapability,
    NonFiniteInitialValue,
    InvalidInitialValue,
    UnknownCapability,
}

/// A required identifier of a capability.
#[derive(Debug, Clone, Copy, PartialEq, Eq, Structural)]
pub enum CapabilityIdField {
    ControllerId,
    WeaponId,
    RenderProjectionId,
    AppearanceResourceId,
    BindingId,
    PolicyId,
    ViewKind,
    ViewVersion,
    RuntimeMoment,
    SpawnMarkerId,
    FactionId,
}

pub open spec fn id_field_label(f: CapabilityIdField) -> Seq<char> {
    match f {
        CapabilityIdField::ControllerId => "controller id"@,
        CapabilityIdField::WeaponId => "weapon id"@,
        CapabilityIdField::RenderProjectionId => "render projection id"@,
        CapabilityIdField::AppearanceResourceId => "appearance resource id"@,
        CapabilityIdField::BindingId => "binding id"@,
        CapabilityIdField::PolicyId => "policy id"@,
        CapabilityIdField::ViewKind => "view kind"@,
        CapabilityIdField::ViewVersion => "view version"@,
        CapabilityIdField::RuntimeMoment => "runtime moment"@,
        CapabilityIdField::SpawnMarkerId => "spawn marker id"@,
        CapabilityIdField::FactionId => "faction id"@,
    }
}

impl CapabilityIdField {
    /// The name of the field in diagnostics.
    pub fn label(self) -> (r: &'static str)
        ensures
            r@ == id_field_label(self),
    {
        match self {
            CapabilityIdField::ControllerId => "controller id",
            CapabilityIdField::WeaponId => "weapon id",
            CapabilityIdField::RenderProjectionId => "render projection id",
            CapabilityIdField::AppearanceResourceId => "appearance resource id",
            CapabilityIdField::BindingId => "binding id",
            CapabilityIdField::PolicyId => "policy id",
            CapabilityIdField::ViewKind => "view kind",
            CapabilityIdField::ViewVersion => "view version",
            CapabilityIdField::RuntimeMoment => "runtime moment",
            CapabilityIdField::SpawnMarkerId => "spawn marker id",
            CapabilityIdField::FactionId => "faction id",
        }
    }
}

/// The appearance of a render projection: its resource, its optional
/// initial clip, and whether every model-scale value is finite and positive.
#[derive(Debug, Clone, PartialEq, Eq)]
pub struct AppearanceFacts {
    pub resource_id: String,
    pub initial_clip_id: Option<String>,
    pub model_scale_positive: bool,
}

/// A declared capability, as its validation reads it.
#[derive(Debug, Clone, PartialEq, Eq)]
pub enum CapabilityFacts {
    /// A transform: whether every component is finite, and whether a scale
    /// axis is zero.
    Transform { finite: bool, zero_scale_axis: bool },
    Render,
    Collision,
    /// Bounds: whether every coordinate is finite, and whether min exceeds
    /// max on some axis.
    Bounds { finite: bool, inverted: bool },
    Controller { controller_id: String },
    Health { current: u64, max: u64 },
    WeaponMount { weapon_id: String, damage: u64, range_units: u64 },
    RenderProjection { projection_id: String, appearance: Option<AppearanceFacts> },
    PolicyBinding {
        binding_id: String,
        policy_id: String,
        view_kind: String,
        view_version: String,
        runtime_moment: String,
        allowed_intents: Vec<String>,
    },
    SpawnMarker { marker_id: String },
    Faction { faction_id: String },
    Unknown { capability_kind: String },
}

/// One problem of a stored entity definition.
#[derive(Debug, Clone, Copy, PartialEq, Eq, Structural)]
pub enum DefinitionProblem {
    MissingStableId,
    MissingDisplayName,
    MissingSourceTrace,
    DuplicateCapability { index: usize },
    NonFiniteTransform { index: usize },
    ZeroScaleTransform { index: usize },
    NonFiniteBounds { index: usize },
    InvertedBounds { index: usize },
    MissingId { index: usize, field: CapabilityIdField },
    InvalidHealth { index: usize },
    InvalidWeapon { index: usize },
    BlankInitialClip { index: usize },
    InvalidModelScale { index: usize },
    NoAllowedIntents { index: usize },
    UnknownCapability { index: usize },
}

pub open spec fn problem_code(p: DefinitionProblem) -> EntityDefinitionDiagnosticCode {
    match p {
        DefinitionProblem::MissingStableId => EntityDefinitionDiagnosticCode::MissingStableId,
        DefinitionProblem::MissingDisplayName => EntityDefinitionDiagnosticCode::MissingDisplayName,
        DefinitionProblem::MissingSourceTrace => EntityDefinitionDiagnosticCode::MissingSourceTrace,
        DefinitionProblem::DuplicateCapability { .. } => EntityDefinitionDiagnosticCode::DuplicateCapability,
        DefinitionProblem::NonFiniteTransform { .. } | DefinitionProblem::NonFiniteBounds { .. } => EntityDefinitionDiagnosticCode::NonFiniteInitialValue,
        DefinitionProblem::UnknownCapability { .. } => EntityDefinitionDiagnosticCode::UnknownCapability,
        _ => EntityDefinitionDiagnosticCode::InvalidInitialValue,
    }
}

impl DefinitionProblem {
    /// The diagnostic code of this problem.
    pub fn code(self) -> (r: EntityDefinitionDiagnosticCode)
        ensures
            r == problem_code(self),
    {
        match self {
            DefinitionProblem::MissingStableId => EntityDefinitionDiagnosticCode::MissingStableId,
            DefinitionProblem::MissingDisplayName => EntityDefinitionDiagnosticCode::MissingDisplayName,
            DefinitionProblem::MissingSourceTrace => EntityDefinitionDiagnosticCode::MissingSourceTrace,
            DefinitionProblem::DuplicateCapability { .. } => EntityDefinitionDiagnosticCode::DuplicateCapability,
            DefinitionProblem::NonFiniteTransform { .. } | DefinitionProblem::NonFiniteBounds { .. } => EntityDefinitionDiagnosticCode::NonFiniteInitialValue,
            DefinitionProblem::UnknownCapability { .. } => EntityDefinitionDiagnosticCode::UnknownCapability,
            _ => EntityDefinitionDiagnosticCode::InvalidInitialValue,
        }
    }
}

/// A stored entity definition, as its validation reads it.
#[derive(Debug, Clone, PartialEq, Eq)]
pub struct EntityDefinitionFacts {
    pub stable_id: String,
    pub display_name: String,
    pub project_bundle: String,
    pub relative_path: String,
    pub capabilities: Vec<CapabilityFacts>,
}

/// The kind of a capability, by variant.
pub open spec fn capability_kind(c: CapabilityFacts) -> int {
    match c {
        CapabilityFacts::Transform { .. } => 0,
        CapabilityFacts::Render => 1,
        CapabilityFacts::Collision => 2,
        CapabilityFacts::Bounds { .. } => 3,
        CapabilityFacts::Controller { .. } => 4,
        CapabilityFacts::Health { .. } => 5,
        CapabilityFacts::WeaponMount { .. } => 6,
        CapabilityFacts::RenderProjection { .. } => 7,
        CapabilityFacts::PolicyBinding { .. } => 8,
        CapabilityFacts::SpawnMarker { .. } => 9,
        CapabilityFacts::Faction { .. } => 10,
        CapabilityFacts::Unknown { .. } => 11,
    }
}

pub open spec fn flag(b: bool, p: DefinitionProblem) -> Seq<DefinitionProblem> {
    if b {
        seq![p]
    } else {
        Seq::empty()
    }
}

pub open spec fn id_problem(value: String, index: int, field: CapabilityIdField) -> Seq<DefinitionProblem> {
    flag(is_blank_text(value@), DefinitionProblem::MissingId { index: index as usize, field })
}

/// Some allowed intent is blank, or there is none.
pub open spec fn intents_bad(intents: Seq<String>) -> bool {
    intents.len() == 0 || exists|k: int| 0 <= k < intents.len() && is_blank_text((#[trigger] intents[k])@)
}

pub open spec fn clip_blank(clip: Option<String>) -> bool {
    match clip {
        Some(c) => is_blank_text(c@),
        None => false,
    }
}

/// The initial-value problems of capability `i`, in check order.
#[verifier::opaque]
pub open spec fn capability_problems(c: CapabilityFacts, i: int) -> Seq<DefinitionProblem> {
    let x = i as usize;
    match c {
        CapabilityFacts::Transform { finite, zero_scale_axis } => flag(!finite, DefinitionProblem::NonFiniteTransform { index: x })
            + flag(zero_scale_axis, DefinitionProblem::ZeroScaleTransform { index: x }),
        CapabilityFacts::Render => Seq::empty(),
        CapabilityFacts::Collision => Seq::empty(),
        CapabilityFacts::Bounds { finite, inverted } => flag(!finite, DefinitionProblem::NonFiniteBounds { index: x })
            + flag(inverted, DefinitionProblem::InvertedBounds { index: x }),
        CapabilityFacts::Controller { controller_id } => id_problem(controller_id, i, CapabilityIdField::ControllerId),
        CapabilityFacts::Health { current, max } => flag(max == 0 || current > max, DefinitionProblem::InvalidHealth { index: x }),
        CapabilityFacts::WeaponMount { weapon_id, damage, range_units } => id_problem(weapon_id, i, CapabilityIdField::WeaponId)
            + flag(damage == 0 || range_units == 0, DefinitionProblem::InvalidWeapon { index: x }),
        CapabilityFacts::RenderProjection { projection_id, appearance } => id_problem(projection_id, i, CapabilityIdField::RenderProjectionId)
            + match appearance {
            Some(a) => id_problem(a.resource_id, i, CapabilityIdField::AppearanceResourceId)
                + flag(clip_blank(a.initial_clip_id), DefinitionProblem::BlankInitialClip { index: x })
                + flag(!a.model_scale_positive, DefinitionProblem::InvalidModelScale { index: x }),
            None => Seq::empty(),
        },
        CapabilityFacts::PolicyBinding { binding_id, policy_id, view_kind, view_version, runtime_moment, allowed_intents } =>
            id_problem(binding_id, i, CapabilityIdField::BindingId)
            + id_problem(policy_id, i, CapabilityIdField::PolicyId)
            + id_problem(view_kind, i, CapabilityIdField::ViewKind)
            + id_problem(view_version, i, CapabilityIdField::ViewVersion)
            + id_problem(runtime_moment, i, CapabilityIdField::RuntimeMoment)
            + flag(intents_bad(allowed_intents@), DefinitionProblem::NoAllowedIntents { index: x }),
        CapabilityFacts::SpawnMarker { marker_id } => id_problem(marker_id, i, CapabilityIdField::SpawnMarkerId),
        CapabilityFacts::Faction { faction_id } => id_problem(faction_id, i, CapabilityIdField::FactionId),
        CapabilityFacts::Unknown { .. } => seq![DefinitionProblem::UnknownCapability { index: x }],
    }
}

/// Capability `i` repeats the kind of an earlier declared capability.
pub open spec fn kind_seen(cs: Seq<CapabilityFacts>, i: int) -> bool {
    &&& capability_kind(cs[i]) != 11
    &&& exists|j: int| 0 <= j < i && capability_kind(#[trigger] cs[j]) == capability_kind(cs[i])
}

/// The problems of capability `i`: a repeated kind, then its initial values.
pub open spec fn capability_entry(cs: Seq<CapabilityFacts>, i: int) -> Seq<DefinitionProblem> {
    flag(kind_seen(cs, i), DefinitionProblem::DuplicateCapability { index: i as usize })
        + capability_problems(cs[i], i)
}

/// The problems of the first `n` capabilities, in order.
pub open spec fn capabilities_problems_upto(cs: Seq<CapabilityFacts>, n: int) -> Seq<DefinitionProblem>
    decreases n,
{
    if n <= 0 {
        Seq::empty()
    } else {
        capabilities_problems_upto(cs, n - 1) + capability_entry(cs, n - 1)
    }
}

/// Every problem of a stored entity definition, in report order.
pub open spec fn definition_problems(d: EntityDefinitionFacts) -> Seq<DefinitionProblem> {
    flag(is_blank_text(d.stable_id@), DefinitionProblem::MissingStableId)
        + flag(is_blank_text(d.display_name@), DefinitionProblem::MissingDisplayName)
        + flag(is_blank_text(d.project_bundle@) || is_blank_text(d.relative_path@), DefinitionProblem::MissingSourceTrace)
        + capabilities_problems_upto(d.capabilities@, d.capabilities@.len() as int)
}

fn push_flag(out: &mut Vec<DefinitionProblem>, cond: bool, p: DefinitionProblem)
    ensures
        final(out)@ == old(out)@ + flag(cond, p),
{
    if cond {
        out.push(p);
    }
    assert(out@ =~= old(out)@ + flag(cond, p));
}

fn push_id(out: &mut Vec<DefinitionProblem>, value: &String, i: usize, field: CapabilityIdField)
    ensures
        final(out)@ == old(out)@ + id_problem(*value, i as int, field),
{
    push_flag(out, is_blank(value.as_str()), DefinitionProblem::MissingId { index: i, field });
}

fn intents_are_bad(intents: &Vec<String>) -> (r: bool)
    ensures
        r == intents_bad(intents@),
{
    if intents.len() == 0 {
        return true;
    }
    let mut k: usize = 0;
    while k < intents.len()
        invariant
            k <= intents@.len(),
            forall|t: int| 0 <= t < k ==> !is_blank_text((#[trigger] intents@[t])@),
        decreases intents@.len() - k,
    {
        if is_blank(intents[k].as_str()) {
            return true;
        }
        k = k + 1;
    }
    false
}

/// The initial-value problems of capability `i`.
fn capability_problems_exec(c: &CapabilityFacts, i: usize) -> (out: Vec<DefinitionProblem>)
    ensures
        out@ == capability_problems(*c, i as int),
{
    reveal(capability_problems);
    let mut out: Vec<DefinitionProblem> = Vec::new();
    match c {
        CapabilityFacts::Transform { finite, zero_scale_axis } => {
            push_flag(&mut out, !*finite, DefinitionProblem::NonFiniteTransform { index: i });
            push_flag(&mut out, *zero_scale_axis, DefinitionProblem::ZeroScaleTransform { index: i });
        },
        CapabilityFacts::Render => {},
        CapabilityFacts::Collision => {},
        CapabilityFacts::Bounds { finite, inverted } => {
            push_flag(&mut out, !*finite, DefinitionProblem::NonFiniteBounds { index: i });
            push_flag(&mut out, *inverted, DefinitionProblem::InvertedBounds { index: i });
        },
        CapabilityFacts::Controller { controller_id } => {
            push_id(&mut out, controller_id, i, CapabilityIdField::ControllerId);
        },
        CapabilityFacts::Health { current, max } => {
            push_flag(&mut out, *max == 0 || *current > *max, DefinitionProblem::InvalidHealth { index: i });
        },
        CapabilityFacts::WeaponMount { weapon_id, damage, range_units } => {
            push_id(&mut out, weapon_id, i, CapabilityIdField::WeaponId);
            push_flag(&mut out, *damage == 0 || *range_units == 0, DefinitionProblem::InvalidWeapon { index: i });
        },
        CapabilityFacts::RenderProjection { projection_id, appearance } => {
            push_id(&mut out, projection_id, i, CapabilityIdField::RenderProjectionId);
            match appearance {
                Some(a) => {
                    push_id(&mut out, &a.resource_id, i, CapabilityIdField::AppearanceResourceId);
                    let blank = match &a.initial_clip_id {
                        Some(clip) => is_blank(clip.as_str()),
                        None => false,
                    };
                    push_flag(&mut out, blank, DefinitionProblem::BlankInitialClip { index: i });
                    push_flag(&mut out, !a.model_scale_positive, DefinitionProblem::InvalidModelScale { index: i });
                },
                None => {},
            }
        },
        CapabilityFacts::PolicyBinding { binding_id, policy_id, view_kind, view_version, runtime_moment, allowed_intents } => {
            push_id(&mut out, binding_id, i, CapabilityIdField::BindingId);
            push_id(&mut out, policy_id, i, CapabilityIdField::PolicyId);
            push_id(&mut out, view_kind, i, CapabilityIdField::ViewKind);
            push_id(&mut out, view_version, i, CapabilityIdField::ViewVersion);
            push_id(&mut out, runtime_moment, i, CapabilityIdField::RuntimeMoment);
            push_flag(&mut out, intents_are_bad(allowed_intents), DefinitionProblem::NoAllowedIntents { index: i });
        },
        CapabilityFacts::SpawnMarker { marker_id } => {
            push_id(&mut out, marker_id, i, CapabilityIdField::SpawnMarkerId);
        },
        CapabilityFacts::Faction { faction_id } => {
            push_id(&mut out, faction_id, i, CapabilityIdField::FactionId);
        },
        CapabilityFacts::Unknown { .. } => {
            out.push(DefinitionProblem::UnknownCapability { index: i });
        },
    }
    assert(out@ =~= capability_problems(*c, i as int));
    out
}

fn kind_of(c: &CapabilityFacts) -> (k: u8)
    ensures
        k == capability_kind(*c),
{
    match c {
        CapabilityFacts::Transform { .. } => 0,
        CapabilityFacts::Render => 1,
        CapabilityFacts::Collision => 2,
        CapabilityFacts::Bounds { .. } => 3,
        CapabilityFacts::Controller { .. } => 4,
        CapabilityFacts::Health { .. } => 5,
        CapabilityFacts::WeaponMount { .. } => 6,
        CapabilityFacts::RenderProjection { .. } => 7,
        CapabilityFacts::PolicyBinding { .. } => 8,
        CapabilityFacts::SpawnMarker { .. } => 9,
        CapabilityFacts::Faction { .. } => 10,
        CapabilityFacts::Unknown { .. } => 11,
    }
}

fn kind_seen_exec(cs: &Vec<CapabilityFacts>, i: usize) -> (r: bool)
    requires
        i < cs@.len(),
    ensures
        r == kind_seen(cs@, i as int),
{
    let k = kind_of(&cs[i]);
    if k == 11 {
        return false;
    }
    let mut j: usize = 0;
    while j < i
        invariant
            j <= i < cs@.len(),
            k == capability_kind(cs@[i as int]),
            k != 11,
            forall|t: int| 0 <= t < j ==> capability_kind(#[trigger] cs@[t]) != k,
        decreases i - j,
    {
        if kind_of(&cs[j]) == k {
            assert(capability_kind(cs@[j as int]) == capability_kind(cs@[i as int]));
            return true;
        }
        j = j + 1;
    }
    false
}

/// The verdict on a stored entity definition.
#[derive(Debug, Clone, PartialEq, Eq)]
pub enum DefinitionVerdict {
    Valid,
    Invalid { problems: Vec<DefinitionProblem> },
}

/// Validate a stored entity definition before it seeds runtime authority:
/// its stable id, display name and source trace, then each capability in
/// order (a repeated kind, then its initial values).
pub fn validate_entity_definition(d: &EntityDefinitionFacts) -> (r: DefinitionVerdict)
    ensures
        definition_problems(*d).len() == 0 <==> r is Valid,
        r matches DefinitionVerdict::Invalid { problems } ==> problems@ == definition_problems(*d),
{
    let mut out: Vec<DefinitionProblem> = Vec::new();
    push_flag(&mut out, is_blank(d.stable_id.as_str()), DefinitionProblem::MissingStableId);
    push_flag(&mut out, is_blank(d.display_name.as_str()), DefinitionProblem::MissingDisplayName);
    push_flag(
        &mut out,
        is_blank(d.project_bundle.as_str()) || is_blank(d.relative_path.as_str()),
        DefinitionProblem::MissingSourceTrace,
    );
    let ghost head = out@;
    let mut i: usize = 0;
    while i < d.capabilities.len()
        invariant
            i <= d.capabilities@.len(),
            out@ == head + capabilities_problems_upto(d.capabilities@, i as int),
        decreases d.capabilities@.len() - i,
    {
        let ghost before = out@;
        push_flag(&mut out, kind_seen_exec(&d.capabilities, i), DefinitionProblem::DuplicateCapability { index: i });
        let mut more = capability_problems_exec(&d.capabilities[i], i);
        out.append(&mut more);
        proof {
            assert(out@ =~= before + capability_entry(d.capabilities@, i as int));
            assert(capabilities_problems_upto(d.capabilities@, i + 1) == capabilities_problems_upto(
                d.capabilities@,
                i as int,
            ) + capability_entry(d.capabilities@, i as int));
            assert(out@ =~= head + capabilities_problems_upto(d.capabilities@, i + 1));
        }
        i = i + 1;
    }
    if out.len() == 0 {
        DefinitionVerdict::Valid
    } else {
        DefinitionVerdict::Invalid { problems: out }
    }
}

// ---------------------------------------------------------------------------
// Diagnostic text.

/// Where a problem is reported: a top-level field, a capability, or the
/// kind of a capability.
pub open spec fn problem_path(p: DefinitionProblem) -> Seq<char> {
    match p {
        DefinitionProblem::MissingStableId => "stable_id"@,
        DefinitionProblem::MissingDisplayName => "display_name"@,
        DefinitionProblem::MissingSourceTrace => "source"@,
        DefinitionProblem::DuplicateCapability { index } => "capabilities["@ + dec_digits(index as nat) + "].kind"@,
        DefinitionProblem::UnknownCapability { index } => "capabilities["@ + dec_digits(index as nat) + "].kind"@,
        DefinitionProblem::NonFiniteTransform { index } | DefinitionProblem::ZeroScaleTransform { index }
        | DefinitionProblem::NonFiniteBounds { index } | DefinitionProblem::InvertedBounds { index }
        | DefinitionProblem::MissingId { index, .. } | DefinitionProblem::InvalidHealth { index }
        | DefinitionProblem::InvalidWeapon { index } | DefinitionProblem::BlankInitialClip { index }
        | DefinitionProblem::InvalidModelScale { index } | DefinitionProblem::NoAllowedIntents { index } =>
            "capabilities["@ + dec_digits(index as nat) + "]"@,
    }
}

/// The message of a problem; `kind` is the declared kind of the capability
/// it concerns, which the duplicate and unknown declarations quote.
pub open spec fn problem_message(p: DefinitionProblem, kind: Seq<char>) -> Seq<char> {
    match p {
        DefinitionProblem::MissingStableId => "EntityDefinition stable_id is required"@,
        DefinitionProblem::MissingDisplayName => "EntityDefinition display_name is required"@,
        DefinitionProblem::MissingSourceTrace => "EntityDefinition source.project_bundle and source.relative_path are required"@,
        DefinitionProblem::NonFiniteTransform { .. } => "transform initial value must be finite"@,
        DefinitionProblem::ZeroScaleTransform { .. } => "transform scale axes must be non-zero"@,
        DefinitionProblem::NonFiniteBounds { .. } => "bounds initial value must be finite"@,
        DefinitionProblem::InvertedBounds { .. } => "bounds min must be less than or equal to max on every axis"@,
        DefinitionProblem::InvalidHealth { .. } => "health requires a non-zero max and current less than or equal to max"@,
        DefinitionProblem::InvalidWeapon { .. } => "weapon mount requires non-zero damage and range"@,
        DefinitionProblem::BlankInitialClip { .. } => "appearance initial clip id must be non-empty when present"@,
        DefinitionProblem::InvalidModelScale { .. } => "appearance model scale must contain finite positive values"@,
        DefinitionProblem::NoAllowedIntents { .. } => "policy binding requires non-empty allowed intent ids"@,
        DefinitionProblem::DuplicateCapability { .. } => "duplicate capability declaration \""@ + kind + "\""@,
        DefinitionProblem::UnknownCapability { .. } => "unknown capability declaration \""@ + kind + "\""@,
        DefinitionProblem::MissingId { field, .. } => id_field_label(field) + " is required"@,
    }
}

impl DefinitionProblem {
    /// The path of the diagnostic, such as `capabilities[2].kind`.
    pub fn path(self) -> (r: String)
        ensures
            r@ == problem_path(self),
    {
        let mut out = String::new();
        match self {
            DefinitionProblem::MissingStableId => {
                out.append("stable_id");
            },
            DefinitionProblem::MissingDisplayName => {
                out.append("display_name");
            },
            DefinitionProblem::MissingSourceTrace => {
                out.append("source");
            },
            DefinitionProblem::DuplicateCapability { index } | DefinitionProblem::UnknownCapability { index } => {
                out.append("capabilities[");
                push_dec(&mut out, index as u64);
                out.append("].kind");
            },
            DefinitionProblem::NonFiniteTransform { index } | DefinitionProblem::ZeroScaleTransform { index }
            | DefinitionProblem::NonFiniteBounds { index } | DefinitionProblem::InvertedBounds { index }
            | DefinitionProblem::MissingId { index, .. } | DefinitionProblem::InvalidHealth { index }
            | DefinitionProblem::InvalidWeapon { index } | DefinitionProblem::BlankInitialClip { index }
            | DefinitionProblem::InvalidModelScale { index } | DefinitionProblem::NoAllowedIntents { index } => {
                out.append("capabilities[");
                push_dec(&mut out, index as u64);
                out.append("]");
            },
        }
        out
    }

    /// The message of the diagnostic; `kind` is the declared kind of the
    /// capability the problem concerns.
    pub fn message(self, kind: &str) -> (r: String)
        ensures
            r@ == problem_message(self, kind@),
    {
        let mut out = String::new();
        match self {
            DefinitionProblem::MissingStableId => {
                out.append("EntityDefinition stable_id is required");
            },
            DefinitionProblem::MissingDisplayName => {
                out.append("EntityDefinition display_name is required");
            },
            DefinitionProblem::MissingSourceTrace => {
                out.append("EntityDefinition source.project_bundle and source.relative_path are required");
            },
            DefinitionProblem::NonFiniteTransform { .. } => {
                out.append("transform initial value must be finite");
            },
            DefinitionProblem::ZeroScaleTransform { .. } => {
                out.append("transform scale axes must be non-zero");
            },
            DefinitionProblem::NonFiniteBounds { .. } => {
                out.append("bounds initial value must be finite");
            },
            DefinitionProblem::InvertedBounds { .. } => {
                out.append("bounds min must be less than or equal to max on every axis");
            },
            DefinitionProblem::InvalidHealth { .. } => {
                out.append("health requires a non-zero max and current less than or equal to max");
            },
            DefinitionProblem::InvalidWeapon { .. } => {
                out.append("weapon mount requires non-zero damage and range");
            },
            DefinitionProblem::BlankInitialClip { .. } => {
                out.append("appearance initial clip id must be non-empty when present");
            },
            DefinitionProblem::InvalidModelScale { .. } => {
                out.append("appearance model scale must contain finite positive values");
            },
            DefinitionProblem::NoAllowedIntents { .. } => {
                out.append("policy binding requires non-empty allowed intent ids");
            },
            DefinitionProblem::DuplicateCapability { .. } => {
                out.append("duplicate capability declaration \"");
                out.append(kind);
                out.append("\"");
            },
            DefinitionProblem::UnknownCapability { .. } => {
                out.append("unknown capability declaration \"");
                out.append(kind);
                out.append("\"");
            },
            DefinitionProblem::MissingId { field, .. } => {
                out.append(field.label());
                out.append(" is required");
            },
        }
        out
    }
}

} // verus!
