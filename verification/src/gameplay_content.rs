//! Validation of gameplay-configuration project content: the provider
//! schemas composed into the project, typed configurations and their values,
//! module bindings, prefab overrides and trigger definitions.
//!
//! What the project's reference index holds (assets, entity definitions,
//! prefabs and their part roles, scene instances, presentation resources)
//! comes in as facts; so do the checks that rest on floating-point values.

use vstd::prelude::*;
use vstd::string::StringSliceAdditionalSpecFns;
use crate::ids::{find_sep, is_blank, is_blank_text, next_sep};
use crate::provenance::{digits_value, parse_unsigned, parses_unsigned, unsigned_digits};
use crate::authored_behavior::in_texts;
use crate::fabric_registry::utf8;
use crate::module_declarations::before;

verus! {

/// The kinds of reference a configuration value can make.
#[derive(Debug, Clone, Copy, PartialEq, Eq, Structural)]
pub enum ProjectContentReferenceKind {
    Asset,
    EntityDefinition,
    InstantiatedEntityDefinition,
    InstantiatedBoundedEntityDefinition,
    EntrySceneFpsPlayerEntityDefinition,
    SceneInstance,
    Prefab,
    PrefabPart,
    PresentationResource,
}

/// An entity definition as the index holds it: whether it has usable bounds
/// (finite, with min below max on every axis), and whether it can carry a
/// trigger (usable bounds and dynamic collision).
#[derive(Debug, Clone, PartialEq, Eq)]
pub struct IndexedEntity {
    pub stable_id: String,
    pub usable_bounds: bool,
    pub trigger_capable: bool,
}

/// A prefab and the roles of its parts.
#[derive(Debug, Clone, PartialEq, Eq)]
pub struct IndexedPrefab {
    pub prefab_id: u64,
    pub roles: Vec<String>,
}

/// What a stored scene instance instantiates.
#[derive(Debug, Clone, PartialEq, Eq)]
pub enum SceneInstanceTarget {
    /// An entity definition, and whether its transform chain is supported
    /// for triggers (finite translation, identity rotation, unit scale).
    EntityDefinition { stable_id: String, transform_ok: bool },
    Prefab { prefab_id: u64 },
}

/// A stored scene instance.
#[derive(Debug, Clone, PartialEq, Eq)]
pub struct IndexedSceneInstance {
    pub scene_instance_id: String,
    pub target: SceneInstanceTarget,
}

/// The project's reference index; each key is held once. The entry scene's
/// FPS-player instances are the stable ids of its entity-definition
/// instances that the gameplay composition accepts as an FPS player, in
/// index order.
#[derive(Debug, Clone, PartialEq, Eq)]
pub struct ReferenceIndexFacts {
    pub assets: Vec<String>,
    pub entities: Vec<IndexedEntity>,
    pub prefabs: Vec<IndexedPrefab>,
    pub scene_instances: Vec<IndexedSceneInstance>,
    pub presentation_resources: Vec<String>,
    pub entry_fps_player_instances: Vec<String>,
}

// ---------------------------------------------------------------------------
// Lookups in the index.

/// `p` is the first entity with stable id `id`.
pub open spec fn is_first_entity(es: Seq<IndexedEntity>, id: Seq<char>, p: int) -> bool {
    &&& 0 <= p < es.len()
    &&& es[p].stable_id@ == id
    &&& forall|t: int| 0 <= t < p ==> (#[trigger] es[t]).stable_id@ != id
}

pub open spec fn has_entity(es: Seq<IndexedEntity>, id: Seq<char>) -> bool {
    exists|p: int| 0 <= p < es.len() && (#[trigger] es[p]).stable_id@ == id
}

/// The indexed entity with stable id `id`.
pub open spec fn entity_named(es: Seq<IndexedEntity>, id: Seq<char>) -> IndexedEntity {
    es[choose|p: int| is_first_entity(es, id, p)]
}

pub open spec fn is_first_prefab(ps: Seq<IndexedPrefab>, id: u64, p: int) -> bool {
    &&& 0 <= p < ps.len()
    &&& ps[p].prefab_id == id
    &&& forall|t: int| 0 <= t < p ==> (#[trigger] ps[t]).prefab_id != id
}

pub open spec fn has_prefab(ps: Seq<IndexedPrefab>, id: u64) -> bool {
    exists|p: int| 0 <= p < ps.len() && (#[trigger] ps[p]).prefab_id == id
}

/// Prefab `id` is indexed and has a part with role `role`.
pub open spec fn prefab_has_role(ps: Seq<IndexedPrefab>, id: u64, role: Seq<char>) -> bool {
    has_prefab(ps, id) && in_texts(ps[choose|p: int| is_first_prefab(ps, id, p)].roles@, role)
}

pub open spec fn is_first_instance(xs: Seq<IndexedSceneInstance>, id: Seq<char>, p: int) -> bool {
    &&& 0 <= p < xs.len()
    &&& xs[p].scene_instance_id@ == id
    &&& forall|t: int| 0 <= t < p ==> (#[trigger] xs[t]).scene_instance_id@ != id
}

pub open spec fn has_instance(xs: Seq<IndexedSceneInstance>, id: Seq<char>) -> bool {
    exists|p: int| 0 <= p < xs.len() && (#[trigger] xs[p]).scene_instance_id@ == id
}

/// What scene instance `id` instantiates, if it is indexed.
pub open spec fn instance_target(xs: Seq<IndexedSceneInstance>, id: Seq<char>) -> Option<SceneInstanceTarget> {
    if has_instance(xs, id) {
        Some(xs[choose|p: int| is_first_instance(xs, id, p)].target)
    } else {
        None
    }
}

/// Some scene instance instantiates the entity definition `id`.
pub open spec fn instantiated(xs: Seq<IndexedSceneInstance>, id: Seq<char>) -> bool {
    exists|p: int|
        0 <= p < xs.len() && match (#[trigger] xs[p]).target {
            SceneInstanceTarget::EntityDefinition { stable_id, .. } => stable_id@ == id,
            _ => false,
        }
}

fn find_entity(es: &Vec<IndexedEntity>, id: &String) -> (r: Option<usize>)
    ensures
        r is None <==> !has_entity(es@, id@),
        r matches Some(p) ==> is_first_entity(es@, id@, p as int) && entity_named(es@, id@) == es@[p as int],
{
    let mut p: usize = 0;
    while p < es.len()
        invariant
            p <= es@.len(),
            forall|t: int| 0 <= t < p ==> (#[trigger] es@[t]).stable_id@ != id@,
        decreases es@.len() - p,
    {
        if es[p].stable_id == *id {
            proof {
                let c = choose|q: int| is_first_entity(es@, id@, q);
                assert(is_first_entity(es@, id@, p as int));
                assert(is_first_entity(es@, id@, c));
                if c < p {
                    assert(es@[c].stable_id@ != id@);
                }
                if p < c {
                    assert(es@[p as int].stable_id@ != id@);
                }
            }
            return Some(p);
        }
        p = p + 1;
    }
    None
}

fn find_prefab(ps: &Vec<IndexedPrefab>, id: u64) -> (r: Option<usize>)
    ensures
        r is None <==> !has_prefab(ps@, id),
        r matches Some(p) ==> is_first_prefab(ps@, id, p as int)
            && (choose|q: int| is_first_prefab(ps@, id, q)) == p as int,
{
    let mut p: usize = 0;
    while p < ps.len()
        invariant
            p <= ps@.len(),
            forall|t: int| 0 <= t < p ==> (#[trigger] ps@[t]).prefab_id != id,
        decreases ps@.len() - p,
    {
        if ps[p].prefab_id == id {
            proof {
                let c = choose|q: int| is_first_prefab(ps@, id, q);
                assert(is_first_prefab(ps@, id, p as int));
                assert(is_first_prefab(ps@, id, c));
                if c < p {
                    assert(ps@[c].prefab_id != id);
                }
                if p < c {
                    assert(ps@[p as int].prefab_id != id);
                }
            }
            return Some(p);
        }
        p = p + 1;
    }
    None
}

fn texts_contain(texts: &Vec<String>, id: &String) -> (r: bool)
    ensures
        r == in_texts(texts@, id@),
{
    let mut u: usize = 0;
    while u < texts.len()
        invariant
            u <= texts@.len(),
            forall|a: int| 0 <= a < u ==> (#[trigger] texts@[a])@ != id@,
        decreases texts@.len() - u,
    {
        if texts[u] == *id {
            assert(texts@[u as int]@ == id@);
            return true;
        }
        u = u + 1;
    }
    false
}

fn prefab_has_role_exec(ps: &Vec<IndexedPrefab>, id: u64, role: &String) -> (r: bool)
    ensures
        r == prefab_has_role(ps@, id, role@),
{
    match find_prefab(ps, id) {
        None => false,
        Some(p) => texts_contain(&ps[p].roles, role),
    }
}

fn find_instance<'a>(xs: &'a Vec<IndexedSceneInstance>, id: &String) -> (r: Option<&'a SceneInstanceTarget>)
    ensures
        r is None <==> instance_target(xs@, id@) is None,
        r matches Some(t) ==> instance_target(xs@, id@) == Some(*t),
{
    let mut p: usize = 0;
    while p < xs.len()
        invariant
            p <= xs@.len(),
            forall|t: int| 0 <= t < p ==> (#[trigger] xs@[t]).scene_instance_id@ != id@,
        decreases xs@.len() - p,
    {
        if xs[p].scene_instance_id == *id {
            proof {
                let c = choose|q: int| is_first_instance(xs@, id@, q);
                assert(is_first_instance(xs@, id@, p as int));
                assert(is_first_instance(xs@, id@, c));
                if c < p {
                    assert(xs@[c].scene_instance_id@ != id@);
                }
                if p < c {
                    assert(xs@[p as int].scene_instance_id@ == id@);
                }
            }
            return Some(&xs[p].target);
        }
        p = p + 1;
    }
    None
}

fn instantiated_exec(xs: &Vec<IndexedSceneInstance>, id: &String) -> (r: bool)
    ensures
        r == instantiated(xs@, id@),
{
    let mut p: usize = 0;
    while p < xs.len()
        invariant
            p <= xs@.len(),
            forall|t: int| 0 <= t < p ==> !match (#[trigger] xs@[t]).target {
                SceneInstanceTarget::EntityDefinition { stable_id, .. } => stable_id@ == id@,
                _ => false,
            },
        decreases xs@.len() - p,
    {
        match &xs[p].target {
            SceneInstanceTarget::EntityDefinition { stable_id, .. } => {
                if *stable_id == *id {
                    return true;
                }
            },
            _ => {},
        }
        p = p + 1;
    }
    false
}

// ---------------------------------------------------------------------------
// References.

/// The text `t` names a prefab: it is the decimal form of an indexed prefab
/// id.
pub open spec fn names_prefab(ps: Seq<IndexedPrefab>, t: Seq<u8>) -> bool {
    parses_unsigned(t, u64::MAX as nat) && has_prefab(ps, digits_value(unsigned_digits(t)) as u64)
}

/// Some role of `roles` is spelled by the bytes `r`.
pub open spec fn role_bytes_in(roles: Seq<String>, r: Seq<u8>) -> bool {
    exists|u: int| 0 <= u < roles.len() && utf8(#[trigger] roles[u]) == r
}

/// The text `t` names a prefab part: `prefab:role`, split at the first
/// colon, with an indexed prefab that has a part with that role.
pub open spec fn names_prefab_part(ps: Seq<IndexedPrefab>, t: Seq<u8>) -> bool {
    let c = next_sep(t, 58, 0);
    let id = digits_value(unsigned_digits(t.subrange(0, c))) as u64;
    &&& c < t.len()
    &&& parses_unsigned(t.subrange(0, c), u64::MAX as nat)
    &&& has_prefab(ps, id)
    &&& role_bytes_in(ps[choose|p: int| is_first_prefab(ps, id, p)].roles@, t.subrange(c + 1, t.len() as int))
}

/// The unique entry-scene FPS-player instance is `target`, and its
/// definition has usable bounds.
pub open spec fn is_entry_fps_player(index: ReferenceIndexFacts, target: Seq<char>) -> bool {
    &&& index.entry_fps_player_instances@.len() == 1
    &&& index.entry_fps_player_instances@[0]@ == target
    &&& has_entity(index.entities@, target)
    &&& entity_named(index.entities@, target).usable_bounds
}

/// A reference of kind `kind` to `target` resolves in the index.
pub open spec fn reference_exists(kind: ProjectContentReferenceKind, target: String, index: ReferenceIndexFacts) -> bool {
    let id = target@;
    let bytes = utf8(target);
    match kind {
        ProjectContentReferenceKind::Asset => in_texts(index.assets@, id),
        ProjectContentReferenceKind::EntityDefinition => has_entity(index.entities@, id),
        ProjectContentReferenceKind::InstantiatedEntityDefinition => has_entity(index.entities@, id)
            && instantiated(index.scene_instances@, id),
        ProjectContentReferenceKind::InstantiatedBoundedEntityDefinition => has_entity(index.entities@, id)
            && entity_named(index.entities@, id).usable_bounds && instantiated(index.scene_instances@, id),
        ProjectContentReferenceKind::EntrySceneFpsPlayerEntityDefinition => is_entry_fps_player(index, id),
        ProjectContentReferenceKind::SceneInstance => has_instance(index.scene_instances@, id),
        ProjectContentReferenceKind::Prefab => names_prefab(index.prefabs@, bytes),
        ProjectContentReferenceKind::PrefabPart => names_prefab_part(index.prefabs@, bytes),
        ProjectContentReferenceKind::PresentationResource => in_texts(index.presentation_resources@, id),
    }
}

fn role_bytes_in_exec(roles: &Vec<String>, b: &[u8], lo: usize) -> (r: bool)
    requires
        lo <= b@.len(),
    ensures
        r == role_bytes_in(roles@, b@.subrange(lo as int, b@.len() as int)),
{
    let mut u: usize = 0;
    while u < roles.len()
        invariant
            lo <= b@.len(),
            u <= roles@.len(),
            forall|a: int| 0 <= a < u ==> utf8(#[trigger] roles@[a]) != b@.subrange(lo as int, b@.len() as int),
        decreases roles@.len() - u,
    {
        let rb = roles[u].as_str().as_bytes();
        if crate::ids::range_equals(b, lo, b.len(), rb) {
            return true;
        }
        u = u + 1;
    }
    false
}

fn names_prefab_exec(ps: &Vec<IndexedPrefab>, target: &String) -> (r: bool)
    ensures
        r == names_prefab(ps@, utf8(*target)),
{
    let b = target.as_str().as_bytes();
    proof {
        assert(b@.subrange(0, b@.len() as int) =~= b@);
    }
    match parse_unsigned(b, 0, b.len(), u64::MAX) {
        None => false,
        Some(id) => find_prefab(ps, id).is_some(),
    }
}

fn names_prefab_part_exec(ps: &Vec<IndexedPrefab>, target: &String) -> (r: bool)
    ensures
        r == names_prefab_part(ps@, utf8(*target)),
{
    let b = target.as_str().as_bytes();
    let c = find_sep(b, 58, 0);
    if c >= b.len() {
        return false;
    }
    match parse_unsigned(b, 0, c, u64::MAX) {
        None => false,
        Some(id) => match find_prefab(ps, id) {
            None => false,
            Some(p) => role_bytes_in_exec(&ps[p].roles, b, c + 1),
        },
    }
}

/// Whether a reference of kind `kind` to `target` resolves in the index.
pub fn reference_exists_exec(kind: ProjectContentReferenceKind, target: &String, index: &ReferenceIndexFacts) -> (r: bool)
    ensures
        r == reference_exists(kind, *target, *index),
{
    match kind {
        ProjectContentReferenceKind::Asset => texts_contain(&index.assets, target),
        ProjectContentReferenceKind::EntityDefinition => find_entity(&index.entities, target).is_some(),
        ProjectContentReferenceKind::InstantiatedEntityDefinition => find_entity(&index.entities, target).is_some()
            && instantiated_exec(&index.scene_instances, target),
        ProjectContentReferenceKind::InstantiatedBoundedEntityDefinition => {
            match find_entity(&index.entities, target) {
                None => false,
                Some(p) => index.entities[p].usable_bounds && instantiated_exec(&index.scene_instances, target),
            }
        },
        ProjectContentReferenceKind::EntrySceneFpsPlayerEntityDefinition => {
            let players = &index.entry_fps_player_instances;
            if players.len() != 1 || !(players[0] == *target) {
                return false;
            }
            match find_entity(&index.entities, target) {
                None => false,
                Some(p) => index.entities[p].usable_bounds,
            }
        },
        ProjectContentReferenceKind::SceneInstance => find_instance(&index.scene_instances, target).is_some(),
        ProjectContentReferenceKind::Prefab => names_prefab_exec(&index.prefabs, target),
        ProjectContentReferenceKind::PrefabPart => names_prefab_part_exec(&index.prefabs, target),
        ProjectContentReferenceKind::PresentationResource => texts_contain(&index.presentation_resources, target),
    }
}

// ---------------------------------------------------------------------------
// Provider schemas.

/// The kind of value a provider field holds.
#[derive(Debug, Clone, Copy, PartialEq, Eq, Structural)]
pub enum ProjectConfigurationValueKind {
    Boolean,
    Integer,
    Number,
    String,
    Reference,
}

/// A provider field; `number_bounds_valid` tells whether each number bound
/// it declares is finite and the minimum does not exceed the maximum.
#[derive(Debug, Clone, PartialEq, Eq)]
pub struct ProjectConfigurationField {
    pub field_id: String,
    pub label: String,
    pub value_kind: ProjectConfigurationValueKind,
    pub reference_kind: Option<ProjectContentReferenceKind>,
    pub integer_min: Option<i64>,
    pub integer_max: Option<i64>,
    pub number_bounds_valid: bool,
    pub required: bool,
}

/// A provider schema composed into the project.
#[derive(Debug, Clone, PartialEq, Eq)]
pub struct ProjectConfigurationSchema {
    pub schema_id: String,
    pub module_id: String,
    pub provider_id: String,
    pub codec_id: String,
    pub fields: Vec<ProjectConfigurationField>,
}

/// The project-content diagnostic codes that gameplay checks raise.
#[derive(Debug, Clone, Copy, PartialEq, Eq, Structural)]
pub enum GameplayContentCode {
    InvalidDocument,
    InvalidField,
    UnknownReference,
    ReferenceKindMismatch,
}

/// One problem of the composed provider schemas.
#[derive(Debug, Clone, Copy, PartialEq, Eq, Structural)]
pub enum SchemaDiagnostic {
    InvalidSchemaIdentity { schema: usize },
    InvalidFieldIdentity { schema: usize, field: usize },
    MisplacedReferenceKind { schema: usize, field: usize },
    InvalidFieldBounds { schema: usize, field: usize },
}

pub open spec fn schema_code(d: SchemaDiagnostic) -> GameplayContentCode {
    match d {
        SchemaDiagnostic::InvalidSchemaIdentity { .. } => GameplayContentCode::InvalidDocument,
        SchemaDiagnostic::InvalidFieldIdentity { .. } => GameplayContentCode::InvalidDocument,
        _ => GameplayContentCode::InvalidField,
    }
}

impl SchemaDiagnostic {
    /// The project-content diagnostic code of this problem.
    pub fn code(self) -> (r: GameplayContentCode)
        ensures
            r == schema_code(self),
    {
        match self {
            SchemaDiagnostic::InvalidSchemaIdentity { .. } => GameplayContentCode::InvalidDocument,
            SchemaDiagnostic::InvalidFieldIdentity { .. } => GameplayContentCode::InvalidDocument,
            _ => GameplayContentCode::InvalidField,
        }
    }
}

pub open spec fn sflag(b: bool, d: SchemaDiagnostic) -> Seq<SchemaDiagnostic> {
    if b {
        seq![d]
    } else {
        Seq::empty()
    }
}

fn spush_if(out: &mut Vec<SchemaDiagnostic>, cond: bool, d: SchemaDiagnostic)
    ensures
        final(out)@ == old(out)@ + sflag(cond, d),
{
    if cond {
        out.push(d);
    }
    assert(out@ =~= old(out)@ + sflag(cond, d));
}

/// A schema with non-blank schema, module, provider and codec ids; only
/// such schemas are indexed.
pub open spec fn schema_identity_ok(s: ProjectConfigurationSchema) -> bool {
    !is_blank_text(s.schema_id@) && !is_blank_text(s.module_id@) && !is_blank_text(s.provider_id@) && !is_blank_text(s.codec_id@)
}

/// An earlier indexed schema has the id of schema `k`.
pub open spec fn schema_indexed_before(ss: Seq<ProjectConfigurationSchema>, k: int) -> bool {
    exists|t: int| 0 <= t < k && schema_identity_ok(#[trigger] ss[t]) && ss[t].schema_id@ == ss[k].schema_id@
}

/// A field with a non-blank id and label; only such fields are indexed.
pub open spec fn field_identity_ok(f: ProjectConfigurationField) -> bool {
    !is_blank_text(f.field_id@) && !is_blank_text(f.label@)
}

pub open spec fn field_indexed_before(fs: Seq<ProjectConfigurationField>, k: int) -> bool {
    exists|t: int| 0 <= t < k && field_identity_ok(#[trigger] fs[t]) && fs[t].field_id@ == fs[k].field_id@
}

pub open spec fn fields_upto(fs: Seq<ProjectConfigurationField>, si: int, n: int) -> Seq<SchemaDiagnostic>
    decreases n,
{
    if n <= 0 {
        Seq::empty()
    } else {
        let k = n - 1;
        let f = fs[k];
        let (x, y) = (si as usize, k as usize);
        fields_upto(fs, si, k)
            + sflag(!field_identity_ok(f) || field_indexed_before(fs, k), SchemaDiagnostic::InvalidFieldIdentity { schema: x, field: y })
            + sflag(
            (f.value_kind == ProjectConfigurationValueKind::Reference) != (f.reference_kind is Some),
            SchemaDiagnostic::MisplacedReferenceKind { schema: x, field: y },
        )
            + sflag(
            (f.integer_min is Some && f.integer_max is Some && f.integer_min->0 > f.integer_max->0) || !f.number_bounds_valid,
            SchemaDiagnostic::InvalidFieldBounds { schema: x, field: y },
        )
    }
}

pub open spec fn schemas_upto(ss: Seq<ProjectConfigurationSchema>, n: int) -> Seq<SchemaDiagnostic>
    decreases n,
{
    if n <= 0 {
        Seq::empty()
    } else {
        let k = n - 1;
        schemas_upto(ss, k)
            + sflag(!schema_identity_ok(ss[k]) || schema_indexed_before(ss, k), SchemaDiagnostic::InvalidSchemaIdentity { schema: k as usize })
            + fields_upto(ss[k].fields@, k, ss[k].fields@.len() as int)
    }
}

fn schema_identity_ok_exec(s: &ProjectConfigurationSchema) -> (r: bool)
    ensures
        r == schema_identity_ok(*s),
{
    !is_blank(s.schema_id.as_str()) && !is_blank(s.module_id.as_str()) && !is_blank(s.provider_id.as_str())
        && !is_blank(s.codec_id.as_str())
}

fn field_identity_ok_exec(f: &ProjectConfigurationField) -> (r: bool)
    ensures
        r == field_identity_ok(*f),
{
    !is_blank(f.field_id.as_str()) && !is_blank(f.label.as_str())
}

fn schema_indexed_before_exec(ss: &Vec<ProjectConfigurationSchema>, k: usize) -> (r: bool)
    requires
        k < ss@.len(),
    ensures
        r == schema_indexed_before(ss@, k as int),
{
    let mut t: usize = 0;
    while t < k
        invariant
            k < ss@.len(),
            t <= k,
            forall|a: int| 0 <= a < t ==> !(schema_identity_ok(#[trigger] ss@[a]) && ss@[a].schema_id@ == ss@[k as int].schema_id@),
        decreases k - t,
    {
        if schema_identity_ok_exec(&ss[t]) && ss[t].schema_id == ss[k].schema_id {
            return true;
        }
        t = t + 1;
    }
    false
}

fn field_indexed_before_exec(fs: &Vec<ProjectConfigurationField>, k: usize) -> (r: bool)
    requires
        k < fs@.len(),
    ensures
        r == field_indexed_before(fs@, k as int),
{
    let mut t: usize = 0;
    while t < k
        invariant
            k < fs@.len(),
            t <= k,
            forall|a: int| 0 <= a < t ==> !(field_identity_ok(#[trigger] fs@[a]) && fs@[a].field_id@ == fs@[k as int].field_id@),
        decreases k - t,
    {
        if field_identity_ok_exec(&fs[t]) && fs[t].field_id == fs[k].field_id {
            return true;
        }
        t = t + 1;
    }
    false
}

/// Check the provider schemas composed into the project, in order: each
/// schema's identity (non-blank ids, not already indexed), then each field's
/// identity, the reference kind it declares, and its bounds.
pub fn validate_configuration_schemas(schemas: &Vec<ProjectConfigurationSchema>) -> (out: Vec<SchemaDiagnostic>)
    ensures
        out@ == schemas_upto(schemas@, schemas@.len() as int),
{
    let mut out: Vec<SchemaDiagnostic> = Vec::new();
    let mut k: usize = 0;
    while k < schemas.len()
        invariant
            k <= schemas@.len(),
            out@ == schemas_upto(schemas@, k as int),
        decreases schemas@.len() - k,
    {
        let ghost before = out@;
        let s = &schemas[k];
        spush_if(
            &mut out,
            !schema_identity_ok_exec(s) || schema_indexed_before_exec(schemas, k),
            SchemaDiagnostic::InvalidSchemaIdentity { schema: k },
        );
        let ghost head = out@;
        let fs = &s.fields;
        let mut f: usize = 0;
        while f < fs.len()
            invariant
                k < schemas@.len(),
                fs == &schemas@[k as int].fields,
                f <= fs@.len(),
                out@ == head + fields_upto(fs@, k as int, f as int),
            decreases fs@.len() - f,
        {
            let fd = &fs[f];
            spush_if(
                &mut out,
                !field_identity_ok_exec(fd) || field_indexed_before_exec(fs, f),
                SchemaDiagnostic::InvalidFieldIdentity { schema: k, field: f },
            );
            let is_reference = match fd.value_kind {
                ProjectConfigurationValueKind::Reference => true,
                _ => false,
            };
            spush_if(&mut out, is_reference != fd.reference_kind.is_some(), SchemaDiagnostic::MisplacedReferenceKind { schema: k, field: f });
            let inverted = match (fd.integer_min, fd.integer_max) {
                (Some(lo), Some(hi)) => lo > hi,
                _ => false,
            };
            spush_if(&mut out, inverted || !fd.number_bounds_valid, SchemaDiagnostic::InvalidFieldBounds { schema: k, field: f });
            assert(out@ =~= head + fields_upto(fs@, k as int, f + 1));
            f = f + 1;
        }
        assert(out@ =~= schemas_upto(schemas@, k + 1));
        k = k + 1;
    }
    out
}

// ---------------------------------------------------------------------------
// Typed configurations and their values.

/// A configuration value. A number arrives as whether it is finite and
/// within the number bounds of its field.
#[derive(Debug, Clone, PartialEq, Eq)]
pub enum ProjectConfigurationValue {
    Boolean { value: bool },
    Integer { value: i64 },
    Number { within_bounds: bool },
    String { value: String },
    Reference { reference_kind: ProjectContentReferenceKind, target_id: String },
}

/// The value a configuration gives a field.
#[derive(Debug, Clone, PartialEq, Eq)]
pub struct ProjectConfigurationFieldValue {
    pub field_id: String,
    pub value: ProjectConfigurationValue,
}

/// A typed configuration of a module's provider schema.
#[derive(Debug, Clone, PartialEq, Eq)]
pub struct ProjectGameplayConfiguration {
    pub configuration_id: String,
    pub schema_id: String,
    pub module_id: String,
    pub provider_id: String,
    pub values: Vec<ProjectConfigurationFieldValue>,
}

/// One problem of a gameplay-configuration document `document`.
#[derive(Debug, Clone, Copy, PartialEq, Eq, Structural)]
pub enum GameplayContentDiagnostic {
    UnsupportedDocumentSchema { document: usize },
    InvalidConfigurationId { document: usize, configuration: usize },
    ConfigurationIdAcrossProject { document: usize, configuration: usize },
    UnknownSchema { document: usize, configuration: usize },
    ConfigurationModuleMismatch { document: usize, configuration: usize },
    ConfigurationProviderMismatch { document: usize, configuration: usize },
    DuplicateValue { document: usize, configuration: usize, value: usize },
    UndeclaredField { document: usize, configuration: usize, value: usize },
    ValueKindMismatch { document: usize, configuration: usize, value: usize },
    ValueOutOfBounds { document: usize, configuration: usize, value: usize },
    BlankString { document: usize, configuration: usize, value: usize },
    UnknownValueReference { document: usize, configuration: usize, value: usize },
    MissingRequiredField { document: usize, configuration: usize, field: usize },
    InvalidBindingId { document: usize, binding: usize },
    BindingIdAcrossProject { document: usize, binding: usize },
    UnknownBindingConfiguration { document: usize, binding: usize },
    BindingModuleMismatch { document: usize, binding: usize },
    UnknownBindingTarget { document: usize, binding: usize },
    DuplicateOverride { document: usize, layer: usize },
    OverrideAcrossProject { document: usize, layer: usize },
    UnknownOverrideBinding { document: usize, layer: usize },
    OverrideTargetNotPrefab { document: usize, layer: usize },
    OverridePrefabMismatch { document: usize, layer: usize },
    UnknownOverrideConfiguration { document: usize, layer: usize },
    OverrideConfigurationModuleMismatch { document: usize, layer: usize },
    DuplicateTrigger { document: usize, trigger: usize },
    TriggerTargetNotEntity { document: usize, trigger: usize },
    TriggerTargetIncapable { document: usize, trigger: usize },
}

pub open spec fn content_code(d: GameplayContentDiagnostic) -> GameplayContentCode {
    match d {
        GameplayContentDiagnostic::UnknownSchema { .. } => GameplayContentCode::UnknownReference,
        GameplayContentDiagnostic::UndeclaredField { .. } => GameplayContentCode::UnknownReference,
        GameplayContentDiagnostic::UnknownValueReference { .. } => GameplayContentCode::UnknownReference,
        GameplayContentDiagnostic::UnknownBindingConfiguration { .. } => GameplayContentCode::UnknownReference,
        GameplayContentDiagnostic::UnknownBindingTarget { .. } => GameplayContentCode::UnknownReference,
        GameplayContentDiagnostic::UnknownOverrideBinding { .. } => GameplayContentCode::UnknownReference,
        GameplayContentDiagnostic::UnknownOverrideConfiguration { .. } => GameplayContentCode::UnknownReference,
        GameplayContentDiagnostic::ConfigurationModuleMismatch { .. } => GameplayContentCode::ReferenceKindMismatch,
        GameplayContentDiagnostic::ConfigurationProviderMismatch { .. } => GameplayContentCode::ReferenceKindMismatch,
        GameplayContentDiagnostic::ValueKindMismatch { .. } => GameplayContentCode::ReferenceKindMismatch,
        GameplayContentDiagnostic::BindingModuleMismatch { .. } => GameplayContentCode::ReferenceKindMismatch,
        GameplayContentDiagnostic::OverrideTargetNotPrefab { .. } => GameplayContentCode::ReferenceKindMismatch,
        GameplayContentDiagnostic::OverridePrefabMismatch { .. } => GameplayContentCode::ReferenceKindMismatch,
        GameplayContentDiagnostic::OverrideConfigurationModuleMismatch { .. } => GameplayContentCode::ReferenceKindMismatch,
        GameplayContentDiagnostic::TriggerTargetNotEntity { .. } => GameplayContentCode::ReferenceKindMismatch,
        GameplayContentDiagnostic::TriggerTargetIncapable { .. } => GameplayContentCode::ReferenceKindMismatch,
        GameplayContentDiagnostic::ValueOutOfBounds { .. } => GameplayContentCode::InvalidField,
        GameplayContentDiagnostic::BlankString { .. } => GameplayContentCode::InvalidField,
        GameplayContentDiagnostic::MissingRequiredField { .. } => GameplayContentCode::InvalidField,
        _ => GameplayContentCode::InvalidDocument,
    }
}

impl GameplayContentDiagnostic {
    /// The project-content diagnostic code of this problem.
    pub fn code(self) -> (r: GameplayContentCode)
        ensures
            r == content_code(self),
    {
        match self {
            GameplayContentDiagnostic::UnknownSchema { .. } => GameplayContentCode::UnknownReference,
            GameplayContentDiagnostic::UndeclaredField { .. } => GameplayContentCode::UnknownReference,
            GameplayContentDiagnostic::UnknownValueReference { .. } => GameplayContentCode::UnknownReference,
            GameplayContentDiagnostic::UnknownBindingConfiguration { .. } => GameplayContentCode::UnknownReference,
            GameplayContentDiagnostic::UnknownBindingTarget { .. } => GameplayContentCode::UnknownReference,
            GameplayContentDiagnostic::UnknownOverrideBinding { .. } => GameplayContentCode::UnknownReference,
            GameplayContentDiagnostic::UnknownOverrideConfiguration { .. } => GameplayContentCode::UnknownReference,
            GameplayContentDiagnostic::ConfigurationModuleMismatch { .. } => GameplayContentCode::ReferenceKindMismatch,
            GameplayContentDiagnostic::ConfigurationProviderMismatch { .. } => GameplayContentCode::ReferenceKindMismatch,
            GameplayContentDiagnostic::ValueKindMismatch { .. } => GameplayContentCode::ReferenceKindMismatch,
            GameplayContentDiagnostic::BindingModuleMismatch { .. } => GameplayContentCode::ReferenceKindMismatch,
            GameplayContentDiagnostic::OverrideTargetNotPrefab { .. } => GameplayContentCode::ReferenceKindMismatch,
            GameplayContentDiagnostic::OverridePrefabMismatch { .. } => GameplayContentCode::ReferenceKindMismatch,
            GameplayContentDiagnostic::OverrideConfigurationModuleMismatch { .. } => GameplayContentCode::ReferenceKindMismatch,
            GameplayContentDiagnostic::TriggerTargetNotEntity { .. } => GameplayContentCode::ReferenceKindMismatch,
            GameplayContentDiagnostic::TriggerTargetIncapable { .. } => GameplayContentCode::ReferenceKindMismatch,
            GameplayContentDiagnostic::ValueOutOfBounds { .. } => GameplayContentCode::InvalidField,
            GameplayContentDiagnostic::BlankString { .. } => GameplayContentCode::InvalidField,
            GameplayContentDiagnostic::MissingRequiredField { .. } => GameplayContentCode::InvalidField,
            _ => GameplayContentCode::InvalidDocument,
        }
    }
}

pub open spec fn gflag(b: bool, d: GameplayContentDiagnostic) -> Seq<GameplayContentDiagnostic> {
    if b {
        seq![d]
    } else {
        Seq::empty()
    }
}

fn gpush_if(out: &mut Vec<GameplayContentDiagnostic>, cond: bool, d: GameplayContentDiagnostic)
    ensures
        final(out)@ == old(out)@ + gflag(cond, d),
{
    if cond {
        out.push(d);
    }
    assert(out@ =~= old(out)@ + gflag(cond, d));
}

/// `p` is the last field of `fs` with id `id`.
pub open spec fn is_last_field(fs: Seq<ProjectConfigurationField>, id: Seq<char>, p: int) -> bool {
    &&& 0 <= p < fs.len()
    &&& fs[p].field_id@ == id
    &&& forall|t: int| p < t < fs.len() ==> (#[trigger] fs[t]).field_id@ != id
}

pub open spec fn has_field(fs: Seq<ProjectConfigurationField>, id: Seq<char>) -> bool {
    exists|p: int| 0 <= p < fs.len() && (#[trigger] fs[p]).field_id@ == id
}

/// The field a value names: the last declared with its id.
pub open spec fn field_named(fs: Seq<ProjectConfigurationField>, id: Seq<char>) -> ProjectConfigurationField {
    fs[choose|p: int| is_last_field(fs, id, p)]
}

/// The value is of the kind the field declares.
pub open spec fn kind_matches(kind: ProjectConfigurationValueKind, v: ProjectConfigurationValue) -> bool {
    match v {
        ProjectConfigurationValue::Boolean { .. } => kind == ProjectConfigurationValueKind::Boolean,
        ProjectConfigurationValue::Integer { .. } => kind == ProjectConfigurationValueKind::Integer,
        ProjectConfigurationValue::Number { .. } => kind == ProjectConfigurationValueKind::Number,
        ProjectConfigurationValue::String { .. } => kind == ProjectConfigurationValueKind::String,
        ProjectConfigurationValue::Reference { .. } => kind == ProjectConfigurationValueKind::Reference,
    }
}

/// The problem of the value `k` of configuration `c` of document `d`
/// against its field: a kind mismatch alone, else an integer or number out
/// of bounds, a blank string, or a reference of another kind or that does
/// not resolve.
pub open spec fn value_diagnostics(
    f: ProjectConfigurationField,
    v: ProjectConfigurationValue,
    d: int,
    c: int,
    k: int,
    index: ReferenceIndexFacts,
) -> Seq<GameplayContentDiagnostic> {
    let (x, y, z) = (d as usize, c as usize, k as usize);
    if !kind_matches(f.value_kind, v) {
        seq![GameplayContentDiagnostic::ValueKindMismatch { document: x, configuration: y, value: z }]
    } else {
        match v {
            ProjectConfigurationValue::Integer { value } => gflag(
                (f.integer_min is Some && value < f.integer_min->0) || (f.integer_max is Some && value > f.integer_max->0),
                GameplayContentDiagnostic::ValueOutOfBounds { document: x, configuration: y, value: z },
            ),
            ProjectConfigurationValue::Number { within_bounds } => gflag(
                !within_bounds,
                GameplayContentDiagnostic::ValueOutOfBounds { document: x, configuration: y, value: z },
            ),
            ProjectConfigurationValue::String { value } => gflag(
                is_blank_text(value@),
                GameplayContentDiagnostic::BlankString { document: x, configuration: y, value: z },
            ),
            ProjectConfigurationValue::Reference { reference_kind, target_id } => gflag(
                f.reference_kind != Some(reference_kind) || !reference_exists(reference_kind, target_id, index),
                GameplayContentDiagnostic::UnknownValueReference { document: x, configuration: y, value: z },
            ),
            ProjectConfigurationValue::Boolean { .. } => Seq::empty(),
        }
    }
}

pub open spec fn value_seen_before(vs: Seq<ProjectConfigurationFieldValue>, k: int) -> bool {
    exists|t: int| 0 <= t < k && (#[trigger] vs[t]).field_id@ == vs[k].field_id@
}

pub open spec fn values_upto(
    cfg: ProjectGameplayConfiguration,
    schema: ProjectConfigurationSchema,
    d: int,
    c: int,
    index: ReferenceIndexFacts,
    n: int,
) -> Seq<GameplayContentDiagnostic>
    decreases n,
{
    if n <= 0 {
        Seq::empty()
    } else {
        let k = n - 1;
        let vs = cfg.values@;
        let (x, y, z) = (d as usize, c as usize, k as usize);
        values_upto(cfg, schema, d, c, index, k) + if value_seen_before(vs, k) {
            seq![GameplayContentDiagnostic::DuplicateValue { document: x, configuration: y, value: z }]
        } else if !has_field(schema.fields@, vs[k].field_id@) {
            seq![GameplayContentDiagnostic::UndeclaredField { document: x, configuration: y, value: z }]
        } else {
            value_diagnostics(field_named(schema.fields@, vs[k].field_id@), vs[k].value, d, c, k, index)
        }
    }
}

/// Some value of the configuration is for field `id`.
pub open spec fn supplies(vs: Seq<ProjectConfigurationFieldValue>, id: Seq<char>) -> bool {
    exists|t: int| 0 <= t < vs.len() && (#[trigger] vs[t]).field_id@ == id
}

pub open spec fn required_upto(
    cfg: ProjectGameplayConfiguration,
    schema: ProjectConfigurationSchema,
    d: int,
    c: int,
    n: int,
) -> Seq<GameplayContentDiagnostic>
    decreases n,
{
    if n <= 0 {
        Seq::empty()
    } else {
        let f = schema.fields@[n - 1];
        required_upto(cfg, schema, d, c, n - 1) + gflag(
            f.required && !supplies(cfg.values@, f.field_id@),
            GameplayContentDiagnostic::MissingRequiredField { document: d as usize, configuration: c as usize, field: (n - 1) as usize },
        )
    }
}

/// The problems of configuration `c` of document `d` against its schema:
/// the module and provider that own the schema, each value, then each
/// required field that no value supplies.
pub open spec fn configuration_value_diagnostics(
    cfg: ProjectGameplayConfiguration,
    schema: ProjectConfigurationSchema,
    d: int,
    c: int,
    index: ReferenceIndexFacts,
) -> Seq<GameplayContentDiagnostic> {
    let (x, y) = (d as usize, c as usize);
    gflag(cfg.module_id@ != schema.module_id@, GameplayContentDiagnostic::ConfigurationModuleMismatch { document: x, configuration: y })
        + gflag(cfg.provider_id@ != schema.provider_id@, GameplayContentDiagnostic::ConfigurationProviderMismatch { document: x, configuration: y })
        + values_upto(cfg, schema, d, c, index, cfg.values@.len() as int)
        + required_upto(cfg, schema, d, c, schema.fields@.len() as int)
}

proof fn lemma_required_has_no_bounds(
    cfg: ProjectGameplayConfiguration,
    schema: ProjectConfigurationSchema,
    d: int,
    c: int,
    n: int,
    x: usize,
    y: usize,
    z: usize,
)
    ensures
        !required_upto(cfg, schema, d, c, n).contains(GameplayContentDiagnostic::ValueOutOfBounds { document: x, configuration: y, value: z }),
    decreases n,
{
    if n > 0 {
        lemma_required_has_no_bounds(cfg, schema, d, c, n - 1, x, y, z);
        let prev = required_upto(cfg, schema, d, c, n - 1);
        let f = schema.fields@[n - 1];
        let add = gflag(
            f.required && !supplies(cfg.values@, f.field_id@),
            GameplayContentDiagnostic::MissingRequiredField { document: d as usize, configuration: c as usize, field: (n - 1) as usize },
        );
        let target = GameplayContentDiagnostic::ValueOutOfBounds { document: x, configuration: y, value: z };
        assert(required_upto(cfg, schema, d, c, n) == prev + add);
        if (prev + add).contains(target) {
            let i = choose|i: int| 0 <= i < (prev + add).len() && (prev + add)[i] == target;
            if i < prev.len() {
                assert(prev[i] == target);
            } else {
                assert(add[i - prev.len()] == target);
            }
        }
    }
}

/// The out-of-bounds report of value `k` among the first `n` values comes
/// from that value's own step, if anywhere.
proof fn lemma_values_bounds_report(
    cfg: ProjectGameplayConfiguration,
    schema: ProjectConfigurationSchema,
    d: int,
    c: int,
    index: ReferenceIndexFacts,
    n: int,
    k: int,
)
    requires
        0 <= k < n <= cfg.values@.len(),
        cfg.values@.len() <= usize::MAX,
    ensures
        values_upto(cfg, schema, d, c, index, n).contains(
            GameplayContentDiagnostic::ValueOutOfBounds { document: d as usize, configuration: c as usize, value: k as usize },
        ) <==> (!value_seen_before(cfg.values@, k) && has_field(schema.fields@, cfg.values@[k].field_id@)
            && value_diagnostics(field_named(schema.fields@, cfg.values@[k].field_id@), cfg.values@[k].value, d, c, k, index).contains(
            GameplayContentDiagnostic::ValueOutOfBounds { document: d as usize, configuration: c as usize, value: k as usize },
        )),
    decreases n,
{
    let target = GameplayContentDiagnostic::ValueOutOfBounds { document: d as usize, configuration: c as usize, value: k as usize };
    let j = n - 1;
    let vs = cfg.values@;
    let prev = values_upto(cfg, schema, d, c, index, j);
    let (x, y, z) = (d as usize, c as usize, j as usize);
    let step = if value_seen_before(vs, j) {
        seq![GameplayContentDiagnostic::DuplicateValue { document: x, configuration: y, value: z }]
    } else if !has_field(schema.fields@, vs[j].field_id@) {
        seq![GameplayContentDiagnostic::UndeclaredField { document: x, configuration: y, value: z }]
    } else {
        value_diagnostics(field_named(schema.fields@, vs[j].field_id@), vs[j].value, d, c, j, index)
    };
    assert(values_upto(cfg, schema, d, c, index, n) == prev + step);
    // Every entry of a step names its own value.
    assert(forall|t: int| 0 <= t < step.len() ==> step[t] != target || j == k) by {
        assert forall|t: int| 0 <= t < step.len() && step[t] == target implies j == k by {
            assert((j as usize) == (k as usize));
        }
    }
    if j > k {
        lemma_values_bounds_report(cfg, schema, d, c, index, j, k);
        if (prev + step).contains(target) {
            let i = choose|i: int| 0 <= i < (prev + step).len() && (prev + step)[i] == target;
            if i >= prev.len() {
                assert(step[i - prev.len()] == target);
            } else {
                assert(prev[i] == target);
            }
        }
        if prev.contains(target) {
            let i = choose|i: int| 0 <= i < prev.len() && prev[i] == target;
            assert((prev + step)[i] == target);
        }
    } else {
        // j == k: the earlier steps name earlier values.
        lemma_values_bounds_absent(cfg, schema, d, c, index, j, k);
        if (prev + step).contains(target) {
            let i = choose|i: int| 0 <= i < (prev + step).len() && (prev + step)[i] == target;
            if i < prev.len() {
                assert(prev[i] == target);
            } else {
                assert(step[i - prev.len()] == target);
                assert(step.contains(target));
            }
        }
        if step.contains(target) {
            let i = choose|i: int| 0 <= i < step.len() && step[i] == target;
            assert((prev + step)[prev.len() + i] == target);
        }
    }
}

proof fn lemma_values_bounds_absent(
    cfg: ProjectGameplayConfiguration,
    schema: ProjectConfigurationSchema,
    d: int,
    c: int,
    index: ReferenceIndexFacts,
    n: int,
    k: int,
)
    requires
        0 <= n <= k < cfg.values@.len(),
        cfg.values@.len() <= usize::MAX,
    ensures
        !values_upto(cfg, schema, d, c, index, n).contains(
            GameplayContentDiagnostic::ValueOutOfBounds { document: d as usize, configuration: c as usize, value: k as usize },
        ),
    decreases n,
{
    if n > 0 {
        let target = GameplayContentDiagnostic::ValueOutOfBounds { document: d as usize, configuration: c as usize, value: k as usize };
        let j = n - 1;
        let vs = cfg.values@;
        lemma_values_bounds_absent(cfg, schema, d, c, index, j, k);
        let prev = values_upto(cfg, schema, d, c, index, j);
        let (x, y, z) = (d as usize, c as usize, j as usize);
        let step = if value_seen_before(vs, j) {
            seq![GameplayContentDiagnostic::DuplicateValue { document: x, configuration: y, value: z }]
        } else if !has_field(schema.fields@, vs[j].field_id@) {
            seq![GameplayContentDiagnostic::UndeclaredField { document: x, configuration: y, value: z }]
        } else {
            value_diagnostics(field_named(schema.fields@, vs[j].field_id@), vs[j].value, d, c, j, index)
        };
        assert(values_upto(cfg, schema, d, c, index, n) == prev + step);
        if (prev + step).contains(target) {
            let i = choose|i: int| 0 <= i < (prev + step).len() && (prev + step)[i] == target;
            if i < prev.len() {
                assert(prev[i] == target);
            } else {
                assert(step[i - prev.len()] == target);
                assert((j as usize) == (k as usize));
            }
        }
    }
}

/// An integer value of an integer field is reported out of bounds exactly
/// when it lies below the field's declared minimum or above its declared
/// maximum (when the value is the first for its field and the field is
/// declared).
pub proof fn law_integer_bounds(
    cfg: ProjectGameplayConfiguration,
    schema: ProjectConfigurationSchema,
    d: usize,
    c: usize,
    index: ReferenceIndexFacts,
    k: int,
)
    requires
        0 <= k < cfg.values@.len(),
        !value_seen_before(cfg.values@, k),
        has_field(schema.fields@, cfg.values@[k].field_id@),
        field_named(schema.fields@, cfg.values@[k].field_id@).value_kind == ProjectConfigurationValueKind::Integer,
        cfg.values@[k].value is Integer,
        cfg.values@.len() <= usize::MAX,
    ensures
        ({
            let f = field_named(schema.fields@, cfg.values@[k].field_id@);
            let value = cfg.values@[k].value->Integer_value;
            configuration_value_diagnostics(cfg, schema, d as int, c as int, index).contains(
                GameplayContentDiagnostic::ValueOutOfBounds { document: d, configuration: c, value: k as usize },
            ) <==> ((f.integer_min matches Some(lo) && value < lo) || (f.integer_max matches Some(hi) && value > hi))
        }),
{
    let target = GameplayContentDiagnostic::ValueOutOfBounds { document: d, configuration: c, value: k as usize };
    let n = cfg.values@.len() as int;
    let (x, y) = (d, c);
    let g1 = gflag(cfg.module_id@ != schema.module_id@, GameplayContentDiagnostic::ConfigurationModuleMismatch { document: x, configuration: y });
    let g2 = gflag(cfg.provider_id@ != schema.provider_id@, GameplayContentDiagnostic::ConfigurationProviderMismatch { document: x, configuration: y });
    let vals = values_upto(cfg, schema, d as int, c as int, index, n);
    let req = required_upto(cfg, schema, d as int, c as int, schema.fields@.len() as int);
    let all = configuration_value_diagnostics(cfg, schema, d as int, c as int, index);
    assert(all == g1 + g2 + vals + req);
    lemma_required_has_no_bounds(cfg, schema, d as int, c as int, schema.fields@.len() as int, d, c, k as usize);
    lemma_values_bounds_report(cfg, schema, d as int, c as int, index, n, k);
    assert(all.contains(target) <==> vals.contains(target)) by {
        if all.contains(target) {
            let i = choose|i: int| 0 <= i < all.len() && all[i] == target;
            let a = g1.len() as int;
            let b = a + g2.len();
            let e = b + vals.len();
            if i < a {
                assert(g1[i] == target);
            } else if i < b {
                assert(g2[i - a] == target);
            } else if i < e {
                assert(vals[i - b] == target);
            } else {
                assert(req[i - e] == target);
                assert(req.contains(target));
            }
        }
        if vals.contains(target) {
            let i = choose|i: int| 0 <= i < vals.len() && vals[i] == target;
            assert(all[g1.len() + g2.len() + i] == target);
        }
    }
    let f = field_named(schema.fields@, cfg.values@[k].field_id@);
    let v = cfg.values@[k].value;
    let vd = value_diagnostics(f, v, d as int, c as int, k, index);
    assert((d as int) as usize == d && (c as int) as usize == c);
    let cond = (f.integer_min is Some && v->Integer_value < f.integer_min->0)
        || (f.integer_max is Some && v->Integer_value > f.integer_max->0);
    assert(vd == gflag(cond, target));
    if cond {
        assert(vd[0] == target);
    }
}

fn find_last_field(fs: &Vec<ProjectConfigurationField>, id: &String) -> (r: Option<usize>)
    ensures
        r is None <==> !has_field(fs@, id@),
        r matches Some(p) ==> is_last_field(fs@, id@, p as int) && field_named(fs@, id@) == fs@[p as int],
{
    let mut found: Option<usize> = None;
    let mut v: usize = 0;
    while v < fs.len()
        invariant
            v <= fs@.len(),
            found is None ==> forall|t: int| 0 <= t < v ==> (#[trigger] fs@[t]).field_id@ != id@,
            found matches Some(w) ==> w < v && fs@[w as int].field_id@ == id@
                && forall|t: int| w < t < v ==> (#[trigger] fs@[t]).field_id@ != id@,
        decreases fs@.len() - v,
    {
        if fs[v].field_id == *id {
            found = Some(v);
        }
        v = v + 1;
    }
    proof {
        if let Some(w) = found {
            let c = choose|u: int| is_last_field(fs@, id@, u);
            assert(is_last_field(fs@, id@, w as int));
            assert(is_last_field(fs@, id@, c));
            if c < w {
                assert(fs@[w as int].field_id@ == id@);
            }
            if w < c {
                assert(fs@[c].field_id@ == id@);
            }
        }
    }
    found
}

fn value_diagnostics_exec(
    f: &ProjectConfigurationField,
    v: &ProjectConfigurationValue,
    d: usize,
    c: usize,
    k: usize,
    index: &ReferenceIndexFacts,
    out: &mut Vec<GameplayContentDiagnostic>,
)
    ensures
        final(out)@ == old(out)@ + value_diagnostics(*f, *v, d as int, c as int, k as int, *index),
{
    let kind_ok = match (f.value_kind, v) {
        (ProjectConfigurationValueKind::Boolean, ProjectConfigurationValue::Boolean { .. }) => true,
        (ProjectConfigurationValueKind::Integer, ProjectConfigurationValue::Integer { .. }) => true,
        (ProjectConfigurationValueKind::Number, ProjectConfigurationValue::Number { .. }) => true,
        (ProjectConfigurationValueKind::String, ProjectConfigurationValue::String { .. }) => true,
        (ProjectConfigurationValueKind::Reference, ProjectConfigurationValue::Reference { .. }) => true,
        _ => false,
    };
    if !kind_ok {
        out.push(GameplayContentDiagnostic::ValueKindMismatch { document: d, configuration: c, value: k });
        return;
    }
    match v {
        ProjectConfigurationValue::Integer { value } => {
            let below = match f.integer_min {
                Some(lo) => *value < lo,
                None => false,
            };
            let above = match f.integer_max {
                Some(hi) => *value > hi,
                None => false,
            };
            gpush_if(out, below || above, GameplayContentDiagnostic::ValueOutOfBounds { document: d, configuration: c, value: k });
        },
        ProjectConfigurationValue::Number { within_bounds } => {
            gpush_if(out, !*within_bounds, GameplayContentDiagnostic::ValueOutOfBounds { document: d, configuration: c, value: k });
        },
        ProjectConfigurationValue::String { value } => {
            gpush_if(out, is_blank(value.as_str()), GameplayContentDiagnostic::BlankString { document: d, configuration: c, value: k });
        },
        ProjectConfigurationValue::Reference { reference_kind, target_id } => {
            let same_kind = match f.reference_kind {
                Some(kind) => kind == *reference_kind,
                None => false,
            };
            gpush_if(
                out,
                !same_kind || !reference_exists_exec(*reference_kind, target_id, index),
                GameplayContentDiagnostic::UnknownValueReference { document: d, configuration: c, value: k },
            );
        },
        ProjectConfigurationValue::Boolean { .. } => {},
    }
}

fn value_seen_before_exec(vs: &Vec<ProjectConfigurationFieldValue>, k: usize) -> (r: bool)
    requires
        k < vs@.len(),
    ensures
        r == value_seen_before(vs@, k as int),
{
    let mut t: usize = 0;
    while t < k
        invariant
            k < vs@.len(),
            t <= k,
            forall|a: int| 0 <= a < t ==> (#[trigger] vs@[a]).field_id@ != vs@[k as int].field_id@,
        decreases k - t,
    {
        if vs[t].field_id == vs[k].field_id {
            assert(vs@[t as int].field_id@ == vs@[k as int].field_id@);
            return true;
        }
        t = t + 1;
    }
    false
}

fn supplies_exec(vs: &Vec<ProjectConfigurationFieldValue>, id: &String) -> (r: bool)
    ensures
        r == supplies(vs@, id@),
{
    let mut t: usize = 0;
    while t < vs.len()
        invariant
            t <= vs@.len(),
            forall|a: int| 0 <= a < t ==> (#[trigger] vs@[a]).field_id@ != id@,
        decreases vs@.len() - t,
    {
        if vs[t].field_id == *id {
            assert(vs@[t as int].field_id@ == id@);
            return true;
        }
        t = t + 1;
    }
    false
}

/// Check configuration `c` of document `d` against its provider schema.
pub fn validate_configuration_values(
    cfg: &ProjectGameplayConfiguration,
    schema: &ProjectConfigurationSchema,
    d: usize,
    c: usize,
    index: &ReferenceIndexFacts,
) -> (out: Vec<GameplayContentDiagnostic>)
    ensures
        out@ == configuration_value_diagnostics(*cfg, *schema, d as int, c as int, *index),
{
    let mut out: Vec<GameplayContentDiagnostic> = Vec::new();
    gpush_if(&mut out, cfg.module_id != schema.module_id, GameplayContentDiagnostic::ConfigurationModuleMismatch { document: d, configuration: c });
    gpush_if(&mut out, cfg.provider_id != schema.provider_id, GameplayContentDiagnostic::ConfigurationProviderMismatch { document: d, configuration: c });
    let ghost head = out@;
    let vs = &cfg.values;
    let mut k: usize = 0;
    while k < vs.len()
        invariant
            vs == &cfg.values,
            k <= vs@.len(),
            out@ == head + values_upto(*cfg, *schema, d as int, c as int, *index, k as int),
        decreases vs@.len() - k,
    {
        let ghost before = out@;
        if value_seen_before_exec(vs, k) {
            out.push(GameplayContentDiagnostic::DuplicateValue { document: d, configuration: c, value: k });
        } else {
            match find_last_field(&schema.fields, &vs[k].field_id) {
                None => out.push(GameplayContentDiagnostic::UndeclaredField { document: d, configuration: c, value: k }),
                Some(p) => value_diagnostics_exec(&schema.fields[p], &vs[k].value, d, c, k, index, &mut out),
            }
        }
        assert(out@ =~= head + values_upto(*cfg, *schema, d as int, c as int, *index, k + 1));
        k = k + 1;
    }
    let ghost mid = out@;
    let fs = &schema.fields;
    let mut f: usize = 0;
    while f < fs.len()
        invariant
            fs == &schema.fields,
            vs == &cfg.values,
            f <= fs@.len(),
            out@ == mid + required_upto(*cfg, *schema, d as int, c as int, f as int),
        decreases fs@.len() - f,
    {
        gpush_if(
            &mut out,
            fs[f].required && !supplies_exec(vs, &fs[f].field_id),
            GameplayContentDiagnostic::MissingRequiredField { document: d, configuration: c, field: f },
        );
        assert(out@ =~= mid + required_upto(*cfg, *schema, d as int, c as int, f + 1));
        f = f + 1;
    }
    assert(out@ =~= configuration_value_diagnostics(*cfg, *schema, d as int, c as int, *index));
    out
}

// ---------------------------------------------------------------------------
// Gameplay-configuration documents.

/// What a module binding applies to.
#[derive(Debug, Clone, PartialEq, Eq)]
pub enum GameplayModuleBindingTarget {
    Session,
    EntityDefinition { stable_id: String },
    Prefab { prefab: u64 },
    PrefabPart { prefab: u64, role: String },
}

/// A binding of a module's configuration to a target.
#[derive(Debug, Clone, PartialEq, Eq)]
pub struct GameplayModuleBinding {
    pub binding_id: String,
    pub configuration_id: String,
    pub module_id: String,
    pub target: GameplayModuleBindingTarget,
}

/// An override of a binding on one scene instance.
#[derive(Debug, Clone, PartialEq, Eq)]
pub struct GameplayOverrideLayer {
    pub binding_id: String,
    pub scene_instance_id: String,
    pub configuration_id: Option<String>,
}

/// A trigger definition on a scene instance.
#[derive(Debug, Clone, PartialEq, Eq)]
pub struct GameplayTriggerDefinition {
    pub scene_instance_id: String,
}

/// A gameplay-configuration document.
#[derive(Debug, Clone, PartialEq, Eq)]
pub struct GameplayConfigurationDocument {
    pub schema_version: u32,
    pub configurations: Vec<ProjectGameplayConfiguration>,
    pub bindings: Vec<GameplayModuleBinding>,
    pub overrides: Vec<GameplayOverrideLayer>,
    pub triggers: Vec<GameplayTriggerDefinition>,
}

/// `p` is the last indexed schema with id `id`.
pub open spec fn is_last_schema(ss: Seq<ProjectConfigurationSchema>, id: Seq<char>, p: int) -> bool {
    &&& 0 <= p < ss.len()
    &&& schema_identity_ok(ss[p]) && ss[p].schema_id@ == id
    &&& forall|t: int| p < t < ss.len() ==> !(schema_identity_ok(#[trigger] ss[t]) && ss[t].schema_id@ == id)
}

pub open spec fn has_schema(ss: Seq<ProjectConfigurationSchema>, id: Seq<char>) -> bool {
    exists|p: int| 0 <= p < ss.len() && schema_identity_ok(#[trigger] ss[p]) && ss[p].schema_id@ == id
}

pub open spec fn schema_named(ss: Seq<ProjectConfigurationSchema>, id: Seq<char>) -> ProjectConfigurationSchema {
    ss[choose|p: int| is_last_schema(ss, id, p)]
}

/// `p` is the last configuration of `cs` with the non-blank id `id`.
pub open spec fn is_last_config(cs: Seq<ProjectGameplayConfiguration>, id: Seq<char>, p: int) -> bool {
    &&& 0 <= p < cs.len()
    &&& cs[p].configuration_id@ == id
    &&& forall|t: int| p < t < cs.len() ==> (#[trigger] cs[t]).configuration_id@ != id
}

pub open spec fn has_config(cs: Seq<ProjectGameplayConfiguration>, id: Seq<char>) -> bool {
    !is_blank_text(id) && exists|p: int| 0 <= p < cs.len() && (#[trigger] cs[p]).configuration_id@ == id
}

pub open spec fn config_named(cs: Seq<ProjectGameplayConfiguration>, id: Seq<char>) -> ProjectGameplayConfiguration {
    cs[choose|p: int| is_last_config(cs, id, p)]
}

pub open spec fn is_last_binding(bs: Seq<GameplayModuleBinding>, id: Seq<char>, p: int) -> bool {
    &&& 0 <= p < bs.len()
    &&& bs[p].binding_id@ == id
    &&& forall|t: int| p < t < bs.len() ==> (#[trigger] bs[t]).binding_id@ != id
}

pub open spec fn has_binding(bs: Seq<GameplayModuleBinding>, id: Seq<char>) -> bool {
    !is_blank_text(id) && exists|p: int| 0 <= p < bs.len() && (#[trigger] bs[p]).binding_id@ == id
}

pub open spec fn binding_named(bs: Seq<GameplayModuleBinding>, id: Seq<char>) -> GameplayModuleBinding {
    bs[choose|p: int| is_last_binding(bs, id, p)]
}

/// The binding target resolves in the index.
pub open spec fn target_known(t: GameplayModuleBindingTarget, index: ReferenceIndexFacts) -> bool {
    match t {
        GameplayModuleBindingTarget::Session => true,
        GameplayModuleBindingTarget::EntityDefinition { stable_id } => has_entity(index.entities@, stable_id@),
        GameplayModuleBindingTarget::Prefab { prefab } => has_prefab(index.prefabs@, prefab),
        GameplayModuleBindingTarget::PrefabPart { prefab, role } => prefab_has_role(index.prefabs@, prefab, role@),
    }
}

/// The prefab a binding targets, directly or through one of its parts.
pub open spec fn target_prefab(t: GameplayModuleBindingTarget) -> Option<u64> {
    match t {
        GameplayModuleBindingTarget::Prefab { prefab } => Some(prefab),
        GameplayModuleBindingTarget::PrefabPart { prefab, .. } => Some(prefab),
        _ => None,
    }
}

pub open spec fn cfg_valid(docs: Seq<GameplayConfigurationDocument>, j: int, t: int) -> bool {
    0 <= j < docs.len() && 0 <= t < docs[j].configurations@.len()
}

pub open spec fn cfg_id(docs: Seq<GameplayConfigurationDocument>, j: int, t: int) -> Seq<char> {
    docs[j].configurations@[t].configuration_id@
}

/// A configuration before configuration `c` of document `d`, in any
/// document, has its id.
pub open spec fn config_seen_in_project(docs: Seq<GameplayConfigurationDocument>, d: int, c: int) -> bool {
    exists|j: int, t: int| #![trigger cfg_id(docs, j, t)] cfg_valid(docs, j, t) && before(j, t, d, c) && cfg_id(docs, j, t) == cfg_id(docs, d, c)
}

pub open spec fn bind_valid(docs: Seq<GameplayConfigurationDocument>, j: int, t: int) -> bool {
    0 <= j < docs.len() && 0 <= t < docs[j].bindings@.len()
}

pub open spec fn bind_id(docs: Seq<GameplayConfigurationDocument>, j: int, t: int) -> Seq<char> {
    docs[j].bindings@[t].binding_id@
}

pub open spec fn binding_seen_in_project(docs: Seq<GameplayConfigurationDocument>, d: int, b: int) -> bool {
    exists|j: int, t: int| #![trigger bind_id(docs, j, t)] bind_valid(docs, j, t) && before(j, t, d, b) && bind_id(docs, j, t) == bind_id(docs, d, b)
}

pub open spec fn layer_valid(docs: Seq<GameplayConfigurationDocument>, j: int, t: int) -> bool {
    0 <= j < docs.len() && 0 <= t < docs[j].overrides@.len()
}

/// The identity of an override: its binding and its scene instance.
pub open spec fn layer_key(docs: Seq<GameplayConfigurationDocument>, j: int, t: int) -> (Seq<char>, Seq<char>) {
    (docs[j].overrides@[t].binding_id@, docs[j].overrides@[t].scene_instance_id@)
}

pub open spec fn override_seen_in_project(docs: Seq<GameplayConfigurationDocument>, d: int, o: int) -> bool {
    exists|j: int, t: int| #![trigger layer_key(docs, j, t)] layer_valid(docs, j, t) && before(j, t, d, o) && layer_key(docs, j, t) == layer_key(docs, d, o)
}

pub open spec fn trig_valid(docs: Seq<GameplayConfigurationDocument>, j: int, t: int) -> bool {
    0 <= j < docs.len() && 0 <= t < docs[j].triggers@.len()
}

pub open spec fn trig_id(docs: Seq<GameplayConfigurationDocument>, j: int, t: int) -> Seq<char> {
    docs[j].triggers@[t].scene_instance_id@
}

pub open spec fn trigger_seen_in_project(docs: Seq<GameplayConfigurationDocument>, d: int, t0: int) -> bool {
    exists|j: int, t: int| #![trigger trig_id(docs, j, t)] trig_valid(docs, j, t) && before(j, t, d, t0) && trig_id(docs, j, t) == trig_id(docs, d, t0)
}

fn config_seen_in_project_exec(docs: &Vec<GameplayConfigurationDocument>, d: usize, k: usize) -> (r: bool)
    requires
        cfg_valid(docs@, d as int, k as int),
    ensures
        r == config_seen_in_project(docs@, d as int, k as int),
{
    let mut j: usize = 0;
    while j < docs.len() && j <= d
        invariant
            cfg_valid(docs@, d as int, k as int),
            j <= d + 1,
            forall|j2: int, t2: int| #![trigger cfg_id(docs@, j2, t2)]
                cfg_valid(docs@, j2, t2) && before(j2, t2, d as int, k as int) && j2 < j ==> cfg_id(docs@, j2, t2) != cfg_id(docs@, d as int, k as int),
        decreases d + 1 - j,
    {
        let items = &docs[j].configurations;
        let limit = if j < d { items.len() } else { k };
        let mut t: usize = 0;
        while t < limit
            invariant
                items == &docs@[j as int].configurations,
                j <= d,
                cfg_valid(docs@, d as int, k as int),
                limit <= items@.len(),
                limit == (if j < d { items@.len() } else { k as nat }),
                t <= limit,
                forall|j2: int, t2: int| #![trigger cfg_id(docs@, j2, t2)]
                    cfg_valid(docs@, j2, t2) && before(j2, t2, d as int, k as int) && (j2 < j || (j2 == j && t2 < t))
                        ==> cfg_id(docs@, j2, t2) != cfg_id(docs@, d as int, k as int),
            decreases limit - t,
        {
            if items[t].configuration_id == docs[d].configurations[k].configuration_id {
                assert(cfg_id(docs@, j as int, t as int) == cfg_id(docs@, d as int, k as int));
                return true;
            }
            t = t + 1;
        }
        j = j + 1;
    }
    false
}

fn binding_seen_in_project_exec(docs: &Vec<GameplayConfigurationDocument>, d: usize, k: usize) -> (r: bool)
    requires
        bind_valid(docs@, d as int, k as int),
    ensures
        r == binding_seen_in_project(docs@, d as int, k as int),
{
    let mut j: usize = 0;
    while j < docs.len() && j <= d
        invariant
            bind_valid(docs@, d as int, k as int),
            j <= d + 1,
            forall|j2: int, t2: int| #![trigger bind_id(docs@, j2, t2)]
                bind_valid(docs@, j2, t2) && before(j2, t2, d as int, k as int) && j2 < j ==> bind_id(docs@, j2, t2) != bind_id(docs@, d as int, k as int),
        decreases d + 1 - j,
    {
        let items = &docs[j].bindings;
        let limit = if j < d { items.len() } else { k };
        let mut t: usize = 0;
        while t < limit
            invariant
                items == &docs@[j as int].bindings,
                j <= d,
                bind_valid(docs@, d as int, k as int),
                limit <= items@.len(),
                limit == (if j < d { items@.len() } else { k as nat }),
                t <= limit,
                forall|j2: int, t2: int| #![trigger bind_id(docs@, j2, t2)]
                    bind_valid(docs@, j2, t2) && before(j2, t2, d as int, k as int) && (j2 < j || (j2 == j && t2 < t))
                        ==> bind_id(docs@, j2, t2) != bind_id(docs@, d as int, k as int),
            decreases limit - t,
        {
            if items[t].binding_id == docs[d].bindings[k].binding_id {
                assert(bind_id(docs@, j as int, t as int) == bind_id(docs@, d as int, k as int));
                return true;
            }
            t = t + 1;
        }
        j = j + 1;
    }
    false
}

fn override_seen_in_project_exec(docs: &Vec<GameplayConfigurationDocument>, d: usize, k: usize) -> (r: bool)
    requires
        layer_valid(docs@, d as int, k as int),
    ensures
        r == override_seen_in_project(docs@, d as int, k as int),
{
    let mut j: usize = 0;
    while j < docs.len() && j <= d
        invariant
            layer_valid(docs@, d as int, k as int),
            j <= d + 1,
            forall|j2: int, t2: int| #![trigger layer_key(docs@, j2, t2)]
                layer_valid(docs@, j2, t2) && before(j2, t2, d as int, k as int) && j2 < j ==> layer_key(docs@, j2, t2) != layer_key(docs@, d as int, k as int),
        decreases d + 1 - j,
    {
        let items = &docs[j].overrides;
        let limit = if j < d { items.len() } else { k };
        let mut t: usize = 0;
        while t < limit
            invariant
                items == &docs@[j as int].overrides,
                j <= d,
                layer_valid(docs@, d as int, k as int),
                limit <= items@.len(),
                limit == (if j < d { items@.len() } else { k as nat }),
                t <= limit,
                forall|j2: int, t2: int| #![trigger layer_key(docs@, j2, t2)]
                    layer_valid(docs@, j2, t2) && before(j2, t2, d as int, k as int) && (j2 < j || (j2 == j && t2 < t))
                        ==> layer_key(docs@, j2, t2) != layer_key(docs@, d as int, k as int),
            decreases limit - t,
        {
            if items[t].binding_id == docs[d].overrides[k].binding_id && items[t].scene_instance_id == docs[d].overrides[k].scene_instance_id {
                assert(layer_key(docs@, j as int, t as int) == layer_key(docs@, d as int, k as int));
                return true;
            }
            t = t + 1;
        }
        j = j + 1;
    }
    false
}

fn trigger_seen_in_project_exec(docs: &Vec<GameplayConfigurationDocument>, d: usize, k: usize) -> (r: bool)
    requires
        trig_valid(docs@, d as int, k as int),
    ensures
        r == trigger_seen_in_project(docs@, d as int, k as int),
{
    let mut j: usize = 0;
    while j < docs.len() && j <= d
        invariant
            trig_valid(docs@, d as int, k as int),
            j <= d + 1,
            forall|j2: int, t2: int| #![trigger trig_id(docs@, j2, t2)]
                trig_valid(docs@, j2, t2) && before(j2, t2, d as int, k as int) && j2 < j ==> trig_id(docs@, j2, t2) != trig_id(docs@, d as int, k as int),
        decreases d + 1 - j,
    {
        let items = &docs[j].triggers;
        let limit = if j < d { items.len() } else { k };
        let mut t: usize = 0;
        while t < limit
            invariant
                items == &docs@[j as int].triggers,
                j <= d,
                trig_valid(docs@, d as int, k as int),
                limit <= items@.len(),
                limit == (if j < d { items@.len() } else { k as nat }),
                t <= limit,
                forall|j2: int, t2: int| #![trigger trig_id(docs@, j2, t2)]
                    trig_valid(docs@, j2, t2) && before(j2, t2, d as int, k as int) && (j2 < j || (j2 == j && t2 < t))
                        ==> trig_id(docs@, j2, t2) != trig_id(docs@, d as int, k as int),
            decreases limit - t,
        {
            if items[t].scene_instance_id == docs[d].triggers[k].scene_instance_id {
                assert(trig_id(docs@, j as int, t as int) == trig_id(docs@, d as int, k as int));
                return true;
            }
            t = t + 1;
        }
        j = j + 1;
    }
    false
}

pub open spec fn config_seen_in_document(cs: Seq<ProjectGameplayConfiguration>, c: int) -> bool {
    exists|t: int| 0 <= t < c && (#[trigger] cs[t]).configuration_id@ == cs[c].configuration_id@
}

pub open spec fn binding_seen_in_document(bs: Seq<GameplayModuleBinding>, b: int) -> bool {
    exists|t: int| 0 <= t < b && (#[trigger] bs[t]).binding_id@ == bs[b].binding_id@
}

pub open spec fn override_seen_in_document(os: Seq<GameplayOverrideLayer>, o: int) -> bool {
    exists|t: int| 0 <= t < o && (#[trigger] os[t]).binding_id@ == os[o].binding_id@
        && os[t].scene_instance_id@ == os[o].scene_instance_id@
}

/// The problems of configuration `c` of document `d`: a blank or repeated
/// id, an id repeated across the project, then an unknown schema or the
/// values against the schema.
pub open spec fn configuration_diagnostics(
    docs: Seq<GameplayConfigurationDocument>,
    d: int,
    c: int,
    ss: Seq<ProjectConfigurationSchema>,
    index: ReferenceIndexFacts,
) -> Seq<GameplayContentDiagnostic> {
    let cs = docs[d].configurations@;
    let cfg = cs[c];
    let (x, y) = (d as usize, c as usize);
    gflag(
        is_blank_text(cfg.configuration_id@) || config_seen_in_document(cs, c),
        GameplayContentDiagnostic::InvalidConfigurationId { document: x, configuration: y },
    )
        + gflag(config_seen_in_project(docs, d, c), GameplayContentDiagnostic::ConfigurationIdAcrossProject { document: x, configuration: y })
        + if has_schema(ss, cfg.schema_id@) {
        configuration_value_diagnostics(cfg, schema_named(ss, cfg.schema_id@), d, c, index)
    } else {
        seq![GameplayContentDiagnostic::UnknownSchema { document: x, configuration: y }]
    }
}

/// The problems of binding `b` of document `d`: a blank or repeated id, an
/// id repeated across the project, its configuration (unknown, or of another
/// module), then a target that does not resolve.
pub open spec fn binding_diagnostics(docs: Seq<GameplayConfigurationDocument>, d: int, b: int, index: ReferenceIndexFacts) -> Seq<GameplayContentDiagnostic> {
    let doc = docs[d];
    let bs = doc.bindings@;
    let binding = bs[b];
    let (x, y) = (d as usize, b as usize);
    gflag(
        is_blank_text(binding.binding_id@) || binding_seen_in_document(bs, b),
        GameplayContentDiagnostic::InvalidBindingId { document: x, binding: y },
    )
        + gflag(binding_seen_in_project(docs, d, b), GameplayContentDiagnostic::BindingIdAcrossProject { document: x, binding: y })
        + if !has_config(doc.configurations@, binding.configuration_id@) {
        seq![GameplayContentDiagnostic::UnknownBindingConfiguration { document: x, binding: y }]
    } else {
        gflag(
            config_named(doc.configurations@, binding.configuration_id@).module_id@ != binding.module_id@,
            GameplayContentDiagnostic::BindingModuleMismatch { document: x, binding: y },
        )
    }
        + gflag(!target_known(binding.target, index), GameplayContentDiagnostic::UnknownBindingTarget { document: x, binding: y })
}

/// The configuration an override selects: unknown, or of another module
/// than its binding.
pub open spec fn override_configuration_check(
    doc: GameplayConfigurationDocument,
    layer: GameplayOverrideLayer,
    binding: GameplayModuleBinding,
    d: int,
    o: int,
) -> Seq<GameplayContentDiagnostic> {
    let (x, y) = (d as usize, o as usize);
    match layer.configuration_id {
        Some(id) => if !has_config(doc.configurations@, id@) {
            seq![GameplayContentDiagnostic::UnknownOverrideConfiguration { document: x, layer: y }]
        } else {
            gflag(
                config_named(doc.configurations@, id@).module_id@ != binding.module_id@,
                GameplayContentDiagnostic::OverrideConfigurationModuleMismatch { document: x, layer: y },
            )
        },
        None => Seq::empty(),
    }
}

/// The problems of override `o` of document `d`: a repeated identity in the
/// document and across the project; then an unknown binding alone, or a
/// scene instance that is no prefab instance alone, or else a prefab other
/// than the binding's and the configuration it selects.
pub open spec fn override_diagnostics(docs: Seq<GameplayConfigurationDocument>, d: int, o: int, index: ReferenceIndexFacts) -> Seq<GameplayContentDiagnostic> {
    let doc = docs[d];
    let layer = doc.overrides@[o];
    let (x, y) = (d as usize, o as usize);
    gflag(override_seen_in_document(doc.overrides@, o), GameplayContentDiagnostic::DuplicateOverride { document: x, layer: y })
        + gflag(override_seen_in_project(docs, d, o), GameplayContentDiagnostic::OverrideAcrossProject { document: x, layer: y })
        + if !has_binding(doc.bindings@, layer.binding_id@) {
        seq![GameplayContentDiagnostic::UnknownOverrideBinding { document: x, layer: y }]
    } else {
        override_target_check(doc, layer, binding_named(doc.bindings@, layer.binding_id@), index, d, o)
    }
}

/// The scene instance an override targets, given its binding: no prefab
/// instance alone, or else a prefab other than the binding's and the
/// configuration the override selects.
pub open spec fn override_target_check(
    doc: GameplayConfigurationDocument,
    layer: GameplayOverrideLayer,
    binding: GameplayModuleBinding,
    index: ReferenceIndexFacts,
    d: int,
    o: int,
) -> Seq<GameplayContentDiagnostic> {
    let (x, y) = (d as usize, o as usize);
    match instance_target(index.scene_instances@, layer.scene_instance_id@) {
        Some(SceneInstanceTarget::Prefab { prefab_id }) => gflag(
            target_prefab(binding.target) != Some(prefab_id),
            GameplayContentDiagnostic::OverridePrefabMismatch { document: x, layer: y },
        ) + override_configuration_check(doc, layer, binding, d, o),
        _ => seq![GameplayContentDiagnostic::OverrideTargetNotPrefab { document: x, layer: y }],
    }
}

/// The problems of trigger `t` of document `d`: a scene instance that
/// another trigger of the project already targets; then a target that is
/// no entity-definition instance alone, or one that cannot carry a trigger.
pub open spec fn trigger_diagnostics(docs: Seq<GameplayConfigurationDocument>, d: int, t: int, index: ReferenceIndexFacts) -> Seq<GameplayContentDiagnostic> {
    let trigger = docs[d].triggers@[t];
    let (x, y) = (d as usize, t as usize);
    gflag(trigger_seen_in_project(docs, d, t), GameplayContentDiagnostic::DuplicateTrigger { document: x, trigger: y })
        + match instance_target(index.scene_instances@, trigger.scene_instance_id@) {
        Some(SceneInstanceTarget::EntityDefinition { stable_id, transform_ok }) => gflag(
            !(has_entity(index.entities@, stable_id@) && entity_named(index.entities@, stable_id@).trigger_capable) || !transform_ok,
            GameplayContentDiagnostic::TriggerTargetIncapable { document: x, trigger: y },
        ),
        _ => seq![GameplayContentDiagnostic::TriggerTargetNotEntity { document: x, trigger: y }],
    }
}

fn find_last_schema(ss: &Vec<ProjectConfigurationSchema>, id: &String) -> (r: Option<usize>)
    ensures
        r is None <==> !has_schema(ss@, id@),
        r matches Some(p) ==> p < ss@.len() && schema_named(ss@, id@) == ss@[p as int],
{
    let mut found: Option<usize> = None;
    let mut v: usize = 0;
    while v < ss.len()
        invariant
            v <= ss@.len(),
            found is None ==> forall|t: int| 0 <= t < v ==> !(schema_identity_ok(#[trigger] ss@[t]) && ss@[t].schema_id@ == id@),
            found matches Some(w) ==> w < v && schema_identity_ok(ss@[w as int]) && ss@[w as int].schema_id@ == id@
                && forall|t: int| w < t < v ==> !(schema_identity_ok(#[trigger] ss@[t]) && ss@[t].schema_id@ == id@),
        decreases ss@.len() - v,
    {
        if schema_identity_ok_exec(&ss[v]) && ss[v].schema_id == *id {
            found = Some(v);
        }
        v = v + 1;
    }
    proof {
        if let Some(w) = found {
            let c = choose|u: int| is_last_schema(ss@, id@, u);
            assert(is_last_schema(ss@, id@, w as int));
            assert(is_last_schema(ss@, id@, c));
            if c < w {
                assert(schema_identity_ok(ss@[w as int]));
            }
            if w < c {
                assert(schema_identity_ok(ss@[c]));
            }
        }
    }
    found
}

fn find_last_config(cs: &Vec<ProjectGameplayConfiguration>, id: &String) -> (r: Option<usize>)
    ensures
        r is None <==> !has_config(cs@, id@),
        r matches Some(p) ==> p < cs@.len() && config_named(cs@, id@) == cs@[p as int],
{
    if is_blank(id.as_str()) {
        return None;
    }
    let mut found: Option<usize> = None;
    let mut v: usize = 0;
    while v < cs.len()
        invariant
            v <= cs@.len(),
            found is None ==> forall|t: int| 0 <= t < v ==> (#[trigger] cs@[t]).configuration_id@ != id@,
            found matches Some(w) ==> w < v && cs@[w as int].configuration_id@ == id@
                && forall|t: int| w < t < v ==> (#[trigger] cs@[t]).configuration_id@ != id@,
        decreases cs@.len() - v,
    {
        if cs[v].configuration_id == *id {
            found = Some(v);
        }
        v = v + 1;
    }
    proof {
        if let Some(w) = found {
            let c = choose|u: int| is_last_config(cs@, id@, u);
            assert(is_last_config(cs@, id@, w as int));
            assert(is_last_config(cs@, id@, c));
            if c < w {
                assert(cs@[w as int].configuration_id@ == id@);
            }
            if w < c {
                assert(cs@[c].configuration_id@ == id@);
            }
        }
    }
    found
}

fn find_last_binding(bs: &Vec<GameplayModuleBinding>, id: &String) -> (r: Option<usize>)
    ensures
        r is None <==> !has_binding(bs@, id@),
        r matches Some(p) ==> p < bs@.len() && binding_named(bs@, id@) == bs@[p as int],
{
    if is_blank(id.as_str()) {
        return None;
    }
    let mut found: Option<usize> = None;
    let mut v: usize = 0;
    while v < bs.len()
        invariant
            v <= bs@.len(),
            found is None ==> forall|t: int| 0 <= t < v ==> (#[trigger] bs@[t]).binding_id@ != id@,
            found matches Some(w) ==> w < v && bs@[w as int].binding_id@ == id@
                && forall|t: int| w < t < v ==> (#[trigger] bs@[t]).binding_id@ != id@,
        decreases bs@.len() - v,
    {
        if bs[v].binding_id == *id {
            found = Some(v);
        }
        v = v + 1;
    }
    proof {
        if let Some(w) = found {
            let c = choose|u: int| is_last_binding(bs@, id@, u);
            assert(is_last_binding(bs@, id@, w as int));
            assert(is_last_binding(bs@, id@, c));
            if c < w {
                assert(bs@[w as int].binding_id@ == id@);
            }
            if w < c {
                assert(bs@[c].binding_id@ == id@);
            }
        }
    }
    found
}

fn config_seen_in_document_exec(cs: &Vec<ProjectGameplayConfiguration>, c: usize) -> (r: bool)
    requires
        c < cs@.len(),
    ensures
        r == config_seen_in_document(cs@, c as int),
{
    let mut t: usize = 0;
    while t < c
        invariant
            c < cs@.len(),
            t <= c,
            forall|a: int| 0 <= a < t ==> (#[trigger] cs@[a]).configuration_id@ != cs@[c as int].configuration_id@,
        decreases c - t,
    {
        if cs[t].configuration_id == cs[c].configuration_id {
            assert(cs@[t as int].configuration_id@ == cs@[c as int].configuration_id@);
            return true;
        }
        t = t + 1;
    }
    false
}

fn binding_seen_in_document_exec(bs: &Vec<GameplayModuleBinding>, b: usize) -> (r: bool)
    requires
        b < bs@.len(),
    ensures
        r == binding_seen_in_document(bs@, b as int),
{
    let mut t: usize = 0;
    while t < b
        invariant
            b < bs@.len(),
            t <= b,
            forall|a: int| 0 <= a < t ==> (#[trigger] bs@[a]).binding_id@ != bs@[b as int].binding_id@,
        decreases b - t,
    {
        if bs[t].binding_id == bs[b].binding_id {
            assert(bs@[t as int].binding_id@ == bs@[b as int].binding_id@);
            return true;
        }
        t = t + 1;
    }
    false
}

fn override_seen_in_document_exec(os: &Vec<GameplayOverrideLayer>, o: usize) -> (r: bool)
    requires
        o < os@.len(),
    ensures
        r == override_seen_in_document(os@, o as int),
{
    let mut t: usize = 0;
    while t < o
        invariant
            o < os@.len(),
            t <= o,
            forall|a: int| 0 <= a < t ==> !((#[trigger] os@[a]).binding_id@ == os@[o as int].binding_id@
                && os@[a].scene_instance_id@ == os@[o as int].scene_instance_id@),
        decreases o - t,
    {
        if os[t].binding_id == os[o].binding_id && os[t].scene_instance_id == os[o].scene_instance_id {
            assert(os@[t as int].binding_id@ == os@[o as int].binding_id@);
            return true;
        }
        t = t + 1;
    }
    false
}

fn target_known_exec(t: &GameplayModuleBindingTarget, index: &ReferenceIndexFacts) -> (r: bool)
    ensures
        r == target_known(*t, *index),
{
    match t {
        GameplayModuleBindingTarget::Session => true,
        GameplayModuleBindingTarget::EntityDefinition { stable_id } => find_entity(&index.entities, stable_id).is_some(),
        GameplayModuleBindingTarget::Prefab { prefab } => find_prefab(&index.prefabs, *prefab).is_some(),
        GameplayModuleBindingTarget::PrefabPart { prefab, role } => prefab_has_role_exec(&index.prefabs, *prefab, role),
    }
}

fn configuration_diagnostics_exec(
    docs: &Vec<GameplayConfigurationDocument>,
    d: usize,
    c: usize,
    ss: &Vec<ProjectConfigurationSchema>,
    index: &ReferenceIndexFacts,
    out: &mut Vec<GameplayContentDiagnostic>,
)
    requires
        cfg_valid(docs@, d as int, c as int),
    ensures
        final(out)@ == old(out)@ + configuration_diagnostics(docs@, d as int, c as int, ss@, *index),
{
    let cs = &docs[d].configurations;
    let cfg = &cs[c];
    gpush_if(
        out,
        is_blank(cfg.configuration_id.as_str()) || config_seen_in_document_exec(cs, c),
        GameplayContentDiagnostic::InvalidConfigurationId { document: d, configuration: c },
    );
    gpush_if(
        out,
        config_seen_in_project_exec(docs, d, c),
        GameplayContentDiagnostic::ConfigurationIdAcrossProject { document: d, configuration: c },
    );
    let ghost mid = out@;
    match find_last_schema(ss, &cfg.schema_id) {
        Some(p) => {
            let mut more = validate_configuration_values(cfg, &ss[p], d, c, index);
            out.append(&mut more);
        },
        None => out.push(GameplayContentDiagnostic::UnknownSchema { document: d, configuration: c }),
    }
    assert(out@ =~= old(out)@ + configuration_diagnostics(docs@, d as int, c as int, ss@, *index));
}

fn binding_diagnostics_exec(
    docs: &Vec<GameplayConfigurationDocument>,
    d: usize,
    b: usize,
    index: &ReferenceIndexFacts,
    out: &mut Vec<GameplayContentDiagnostic>,
)
    requires
        bind_valid(docs@, d as int, b as int),
    ensures
        final(out)@ == old(out)@ + binding_diagnostics(docs@, d as int, b as int, *index),
{
    let doc = &docs[d];
    let bs = &doc.bindings;
    let binding = &bs[b];
    gpush_if(
        out,
        is_blank(binding.binding_id.as_str()) || binding_seen_in_document_exec(bs, b),
        GameplayContentDiagnostic::InvalidBindingId { document: d, binding: b },
    );
    gpush_if(out, binding_seen_in_project_exec(docs, d, b), GameplayContentDiagnostic::BindingIdAcrossProject { document: d, binding: b });
    let ghost mid = out@;
    match find_last_config(&doc.configurations, &binding.configuration_id) {
        None => out.push(GameplayContentDiagnostic::UnknownBindingConfiguration { document: d, binding: b }),
        Some(p) => gpush_if(
            out,
            doc.configurations[p].module_id != binding.module_id,
            GameplayContentDiagnostic::BindingModuleMismatch { document: d, binding: b },
        ),
    }
    let ghost mid2 = out@;
    gpush_if(out, !target_known_exec(&binding.target, index), GameplayContentDiagnostic::UnknownBindingTarget { document: d, binding: b });
    assert(out@ =~= old(out)@ + binding_diagnostics(docs@, d as int, b as int, *index));
}

fn override_target_exec(
    doc: &GameplayConfigurationDocument,
    layer: &GameplayOverrideLayer,
    binding: &GameplayModuleBinding,
    index: &ReferenceIndexFacts,
    d: usize,
    o: usize,
    out: &mut Vec<GameplayContentDiagnostic>,
)
    ensures
        final(out)@ == old(out)@ + override_target_check(*doc, *layer, *binding, *index, d as int, o as int),
{
    match find_instance(&index.scene_instances, &layer.scene_instance_id) {
        Some(SceneInstanceTarget::Prefab { prefab_id }) => {
            let target = match &binding.target {
                GameplayModuleBindingTarget::Prefab { prefab } => Some(*prefab),
                GameplayModuleBindingTarget::PrefabPart { prefab, .. } => Some(*prefab),
                _ => None,
            };
            let same = match target {
                Some(x) => x == *prefab_id,
                None => false,
            };
            gpush_if(out, !same, GameplayContentDiagnostic::OverridePrefabMismatch { document: d, layer: o });
            let ghost mid = out@;
            match &layer.configuration_id {
                Some(id) => match find_last_config(&doc.configurations, id) {
                    None => out.push(GameplayContentDiagnostic::UnknownOverrideConfiguration { document: d, layer: o }),
                    Some(q) => gpush_if(
                        out,
                        doc.configurations[q].module_id != binding.module_id,
                        GameplayContentDiagnostic::OverrideConfigurationModuleMismatch { document: d, layer: o },
                    ),
                },
                None => {},
            }
            assert(out@ =~= mid + override_configuration_check(*doc, *layer, *binding, d as int, o as int));
        },
        _ => out.push(GameplayContentDiagnostic::OverrideTargetNotPrefab { document: d, layer: o }),
    }
    assert(out@ =~= old(out)@ + override_target_check(*doc, *layer, *binding, *index, d as int, o as int));
}

fn override_diagnostics_exec(
    docs: &Vec<GameplayConfigurationDocument>,
    d: usize,
    o: usize,
    index: &ReferenceIndexFacts,
    out: &mut Vec<GameplayContentDiagnostic>,
)
    requires
        layer_valid(docs@, d as int, o as int),
    ensures
        final(out)@ == old(out)@ + override_diagnostics(docs@, d as int, o as int, *index),
{
    let doc = &docs[d];
    let layer = &doc.overrides[o];
    gpush_if(out, override_seen_in_document_exec(&doc.overrides, o), GameplayContentDiagnostic::DuplicateOverride { document: d, layer: o });
    gpush_if(out, override_seen_in_project_exec(docs, d, o), GameplayContentDiagnostic::OverrideAcrossProject { document: d, layer: o });
    let ghost mid = out@;
    match find_last_binding(&doc.bindings, &layer.binding_id) {
        None => out.push(GameplayContentDiagnostic::UnknownOverrideBinding { document: d, layer: o }),
        Some(p) => override_target_exec(doc, layer, &doc.bindings[p], index, d, o, out),
    }
    assert(out@ =~= old(out)@ + override_diagnostics(docs@, d as int, o as int, *index));
}

fn trigger_diagnostics_exec(
    docs: &Vec<GameplayConfigurationDocument>,
    d: usize,
    t: usize,
    index: &ReferenceIndexFacts,
    out: &mut Vec<GameplayContentDiagnostic>,
)
    requires
        trig_valid(docs@, d as int, t as int),
    ensures
        final(out)@ == old(out)@ + trigger_diagnostics(docs@, d as int, t as int, *index),
{
    let trigger = &docs[d].triggers[t];
    gpush_if(out, trigger_seen_in_project_exec(docs, d, t), GameplayContentDiagnostic::DuplicateTrigger { document: d, trigger: t });
    let ghost mid = out@;
    match find_instance(&index.scene_instances, &trigger.scene_instance_id) {
        Some(SceneInstanceTarget::EntityDefinition { stable_id, transform_ok }) => {
            let capable = match find_entity(&index.entities, stable_id) {
                Some(p) => index.entities[p].trigger_capable,
                None => false,
            };
            gpush_if(out, !capable || !*transform_ok, GameplayContentDiagnostic::TriggerTargetIncapable { document: d, trigger: t });
        },
        _ => out.push(GameplayContentDiagnostic::TriggerTargetNotEntity { document: d, trigger: t }),
    }
    assert(out@ =~= old(out)@ + trigger_diagnostics(docs@, d as int, t as int, *index));
}

pub open spec fn configurations_upto(docs: Seq<GameplayConfigurationDocument>, d: int, ss: Seq<ProjectConfigurationSchema>, index: ReferenceIndexFacts, n: int) -> Seq<GameplayContentDiagnostic>
    decreases n,
{
    if n <= 0 {
        Seq::empty()
    } else {
        configurations_upto(docs, d, ss, index, n - 1) + configuration_diagnostics(docs, d, n - 1, ss, index)
    }
}

pub open spec fn bindings_upto(docs: Seq<GameplayConfigurationDocument>, d: int, index: ReferenceIndexFacts, n: int) -> Seq<GameplayContentDiagnostic>
    decreases n,
{
    if n <= 0 {
        Seq::empty()
    } else {
        bindings_upto(docs, d, index, n - 1) + binding_diagnostics(docs, d, n - 1, index)
    }
}

pub open spec fn overrides_upto(docs: Seq<GameplayConfigurationDocument>, d: int, index: ReferenceIndexFacts, n: int) -> Seq<GameplayContentDiagnostic>
    decreases n,
{
    if n <= 0 {
        Seq::empty()
    } else {
        overrides_upto(docs, d, index, n - 1) + override_diagnostics(docs, d, n - 1, index)
    }
}

pub open spec fn triggers_upto(docs: Seq<GameplayConfigurationDocument>, d: int, index: ReferenceIndexFacts, n: int) -> Seq<GameplayContentDiagnostic>
    decreases n,
{
    if n <= 0 {
        Seq::empty()
    } else {
        triggers_upto(docs, d, index, n - 1) + trigger_diagnostics(docs, d, n - 1, index)
    }
}

/// The problems of document `d`: an unsupported schema version, then its
/// configurations, bindings, overrides and triggers.
pub open spec fn document_diagnostics(
    docs: Seq<GameplayConfigurationDocument>,
    d: int,
    ss: Seq<ProjectConfigurationSchema>,
    index: ReferenceIndexFacts,
    schema_version: u32,
) -> Seq<GameplayContentDiagnostic> {
    let doc = docs[d];
    gflag(doc.schema_version != schema_version, GameplayContentDiagnostic::UnsupportedDocumentSchema { document: d as usize })
        + configurations_upto(docs, d, ss, index, doc.configurations@.len() as int)
        + bindings_upto(docs, d, index, doc.bindings@.len() as int)
        + overrides_upto(docs, d, index, doc.overrides@.len() as int)
        + triggers_upto(docs, d, index, doc.triggers@.len() as int)
}

pub open spec fn documents_upto(
    docs: Seq<GameplayConfigurationDocument>,
    ss: Seq<ProjectConfigurationSchema>,
    index: ReferenceIndexFacts,
    schema_version: u32,
    n: int,
) -> Seq<GameplayContentDiagnostic>
    decreases n,
{
    if n <= 0 {
        Seq::empty()
    } else {
        documents_upto(docs, ss, index, schema_version, n - 1) + document_diagnostics(docs, n - 1, ss, index, schema_version)
    }
}

fn configurations_exec(
    docs: &Vec<GameplayConfigurationDocument>,
    d: usize,
    ss: &Vec<ProjectConfigurationSchema>,
    index: &ReferenceIndexFacts,
    out: &mut Vec<GameplayContentDiagnostic>,
)
    requires
        d < docs@.len(),
    ensures
        final(out)@ == old(out)@ + configurations_upto(docs@, d as int, ss@, *index, docs@[d as int].configurations@.len() as int),
{
    let doc = &docs[d];
    let ghost s0 = out@;
    let mut k: usize = 0;
    while k < doc.configurations.len()
        invariant
            d < docs@.len(),
            doc == &docs@[d as int],
            k <= doc.configurations@.len(),
            out@ == s0 + configurations_upto(docs@, d as int, ss@, *index, k as int),
        decreases doc.configurations@.len() - k,
    {
        configuration_diagnostics_exec(docs, d, k, ss, index, out);
        assert(out@ =~= s0 + configurations_upto(docs@, d as int, ss@, *index, k + 1));
        k = k + 1;
    }
}

fn bindings_exec(
    docs: &Vec<GameplayConfigurationDocument>,
    d: usize,
    index: &ReferenceIndexFacts,
    out: &mut Vec<GameplayContentDiagnostic>,
)
    requires
        d < docs@.len(),
    ensures
        final(out)@ == old(out)@ + bindings_upto(docs@, d as int, *index, docs@[d as int].bindings@.len() as int),
{
    let doc = &docs[d];
    let ghost s0 = out@;
    let mut k: usize = 0;
    while k < doc.bindings.len()
        invariant
            d < docs@.len(),
            doc == &docs@[d as int],
            k <= doc.bindings@.len(),
            out@ == s0 + bindings_upto(docs@, d as int, *index, k as int),
        decreases doc.bindings@.len() - k,
    {
        binding_diagnostics_exec(docs, d, k, index, out);
        assert(out@ =~= s0 + bindings_upto(docs@, d as int, *index, k + 1));
        k = k + 1;
    }
}

fn overrides_exec(
    docs: &Vec<GameplayConfigurationDocument>,
    d: usize,
    index: &ReferenceIndexFacts,
    out: &mut Vec<GameplayContentDiagnostic>,
)
    requires
        d < docs@.len(),
    ensures
        final(out)@ == old(out)@ + overrides_upto(docs@, d as int, *index, docs@[d as int].overrides@.len() as int),
{
    let doc = &docs[d];
    let ghost s0 = out@;
    let mut k: usize = 0;
    while k < doc.overrides.len()
        invariant
            d < docs@.len(),
            doc == &docs@[d as int],
            k <= doc.overrides@.len(),
            out@ == s0 + overrides_upto(docs@, d as int, *index, k as int),
        decreases doc.overrides@.len() - k,
    {
        override_diagnostics_exec(docs, d, k, index, out);
        assert(out@ =~= s0 + overrides_upto(docs@, d as int, *index, k + 1));
        k = k + 1;
    }
}

fn triggers_exec(
    docs: &Vec<GameplayConfigurationDocument>,
    d: usize,
    index: &ReferenceIndexFacts,
    out: &mut Vec<GameplayContentDiagnostic>,
)
    requires
        d < docs@.len(),
    ensures
        final(out)@ == old(out)@ + triggers_upto(docs@, d as int, *index, docs@[d as int].triggers@.len() as int),
{
    let doc = &docs[d];
    let ghost s0 = out@;
    let mut k: usize = 0;
    while k < doc.triggers.len()
        invariant
            d < docs@.len(),
            doc == &docs@[d as int],
            k <= doc.triggers@.len(),
            out@ == s0 + triggers_upto(docs@, d as int, *index, k as int),
        decreases doc.triggers@.len() - k,
    {
        trigger_diagnostics_exec(docs, d, k, index, out);
        assert(out@ =~= s0 + triggers_upto(docs@, d as int, *index, k + 1));
        k = k + 1;
    }
}

fn document_diagnostics_exec(
    docs: &Vec<GameplayConfigurationDocument>,
    d: usize,
    ss: &Vec<ProjectConfigurationSchema>,
    index: &ReferenceIndexFacts,
    schema_version: u32,
    out: &mut Vec<GameplayContentDiagnostic>,
)
    requires
        d < docs@.len(),
    ensures
        final(out)@ == old(out)@ + document_diagnostics(docs@, d as int, ss@, *index, schema_version),
{
    gpush_if(out, docs[d].schema_version != schema_version, GameplayContentDiagnostic::UnsupportedDocumentSchema { document: d });
    configurations_exec(docs, d, ss, index, out);
    bindings_exec(docs, d, index, out);
    overrides_exec(docs, d, index, out);
    triggers_exec(docs, d, index, out);
    assert(out@ =~= old(out)@ + document_diagnostics(docs@, d as int, ss@, *index, schema_version));
}

/// Check the project's gameplay-configuration documents, in order, against
/// the composed provider schemas and the reference index: each document's
/// schema version, its configurations (ids unique in the document and
/// across the project, a known schema, values that fit it), its bindings
/// (ids, configuration, module, target), its overrides (one per binding and
/// prefab instance, in the document and across the project) and its
/// triggers (one per entity instance across the project, on an instance
/// that can carry one).
pub fn validate_gameplay(
    docs: &Vec<GameplayConfigurationDocument>,
    schemas: &Vec<ProjectConfigurationSchema>,
    index: &ReferenceIndexFacts,
    schema_version: u32,
) -> (out: Vec<GameplayContentDiagnostic>)
    ensures
        out@ == documents_upto(docs@, schemas@, *index, schema_version, docs@.len() as int),
{
    let mut out: Vec<GameplayContentDiagnostic> = Vec::new();
    let mut d: usize = 0;
    while d < docs.len()
        invariant
            d <= docs@.len(),
            out@ == documents_upto(docs@, schemas@, *index, schema_version, d as int),
        decreases docs@.len() - d,
    {
        document_diagnostics_exec(docs, d, schemas, index, schema_version, &mut out);
        d = d + 1;
    }
    out
}

} // verus!
