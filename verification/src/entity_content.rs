//! Validation of the project's entity-definition documents: each stored
//! definition on its own, and the presentation resources that its
//! appearances reference.

use vstd::prelude::*;
use crate::entity_definition::{
    definition_problems, validate_entity_definition, AppearanceFacts, CapabilityFacts, DefinitionProblem,
    DefinitionVerdict, EntityDefinitionFacts,
};
use crate::presentation::{find_last_resource, has_clip, has_clip_exec, has_resource, resource_named, PresentationResource};

verus! {

/// One problem of entity-definition document `document`.
#[derive(Debug, Clone, Copy, PartialEq, Eq, Structural)]
pub enum EntityContentDiagnostic {
    /// A problem of the stored definition itself.
    Definition { document: usize, problem: DefinitionProblem },
    UnknownAppearanceResource { document: usize, capability: usize },
    AppearanceNotAnimatedMesh { document: usize, capability: usize },
    UnknownInitialClip { document: usize, capability: usize },
}

#[derive(Debug, Clone, Copy, PartialEq, Eq, Structural)]
pub enum EntityContentCode {
    InvalidDocument,
    InvalidField,
    UnknownReference,
}

pub open spec fn entity_content_code(d: EntityContentDiagnostic) -> EntityContentCode {
    match d {
        EntityContentDiagnostic::Definition { .. } => EntityContentCode::InvalidDocument,
        EntityContentDiagnostic::AppearanceNotAnimatedMesh { .. } => EntityContentCode::InvalidField,
        _ => EntityContentCode::UnknownReference,
    }
}

impl EntityContentDiagnostic {
    /// The project-content diagnostic code of this problem.
    pub fn code(self) -> (r: EntityContentCode)
        ensures
            r == entity_content_code(self),
    {
        match self {
            EntityContentDiagnostic::Definition { .. } => EntityContentCode::InvalidDocument,
            EntityContentDiagnostic::AppearanceNotAnimatedMesh { .. } => EntityContentCode::InvalidField,
            _ => EntityContentCode::UnknownReference,
        }
    }
}

pub open spec fn as_definition_problems(ps: Seq<DefinitionProblem>, d: int) -> Seq<EntityContentDiagnostic> {
    ps.map_values(|p: DefinitionProblem| EntityContentDiagnostic::Definition { document: d as usize, problem: p })
}

/// The problems of an appearance of capability `k`: an unknown resource
/// alone, or a resource without an animated mesh alone, or an initial clip
/// that the mesh lacks.
pub open spec fn appearance_diagnostics(a: AppearanceFacts, d: int, k: int, rs: Seq<PresentationResource>) -> Seq<EntityContentDiagnostic> {
    let (x, y) = (d as usize, k as usize);
    if !has_resource(rs, a.resource_id@) {
        seq![EntityContentDiagnostic::UnknownAppearanceResource { document: x, capability: y }]
    } else {
        match resource_named(rs, a.resource_id@).animated_mesh {
            None => seq![EntityContentDiagnostic::AppearanceNotAnimatedMesh { document: x, capability: y }],
            Some(desc) => match a.initial_clip_id {
                Some(clip) => if has_clip(desc.clips@, clip@) {
                    Seq::empty()
                } else {
                    seq![EntityContentDiagnostic::UnknownInitialClip { document: x, capability: y }]
                },
                None => Seq::empty(),
            },
        }
    }
}

pub open spec fn capability_appearance(c: CapabilityFacts, d: int, k: int, rs: Seq<PresentationResource>) -> Seq<EntityContentDiagnostic> {
    match c {
        CapabilityFacts::RenderProjection { appearance: Some(a), .. } => appearance_diagnostics(a, d, k, rs),
        _ => Seq::empty(),
    }
}

pub open spec fn appearances_upto(def: EntityDefinitionFacts, d: int, rs: Seq<PresentationResource>, n: int) -> Seq<EntityContentDiagnostic>
    decreases n,
{
    if n <= 0 {
        Seq::empty()
    } else {
        appearances_upto(def, d, rs, n - 1) + capability_appearance(def.capabilities@[n - 1], d, n - 1, rs)
    }
}

/// The problems of document `d`: its definition's own problems, then the
/// appearances of its capabilities.
pub open spec fn entity_document_diagnostics(def: EntityDefinitionFacts, d: int, rs: Seq<PresentationResource>) -> Seq<EntityContentDiagnostic> {
    as_definition_problems(definition_problems(def), d) + appearances_upto(def, d, rs, def.capabilities@.len() as int)
}

pub open spec fn entity_documents_upto(defs: Seq<EntityDefinitionFacts>, rs: Seq<PresentationResource>, n: int) -> Seq<EntityContentDiagnostic>
    decreases n,
{
    if n <= 0 {
        Seq::empty()
    } else {
        entity_documents_upto(defs, rs, n - 1) + entity_document_diagnostics(defs[n - 1], n - 1, rs)
    }
}

fn appearance_exec(a: &AppearanceFacts, d: usize, k: usize, rs: &Vec<PresentationResource>, out: &mut Vec<EntityContentDiagnostic>)
    ensures
        final(out)@ == old(out)@ + appearance_diagnostics(*a, d as int, k as int, rs@),
{
    match find_last_resource(rs, &a.resource_id) {
        None => out.push(EntityContentDiagnostic::UnknownAppearanceResource { document: d, capability: k }),
        Some(p) => match &rs[p].animated_mesh {
            None => out.push(EntityContentDiagnostic::AppearanceNotAnimatedMesh { document: d, capability: k }),
            Some(desc) => match &a.initial_clip_id {
                Some(clip) => {
                    if !has_clip_exec(&desc.clips, clip) {
                        out.push(EntityContentDiagnostic::UnknownInitialClip { document: d, capability: k });
                    }
                },
                None => {},
            },
        },
    }
    assert(out@ =~= old(out)@ + appearance_diagnostics(*a, d as int, k as int, rs@));
}

fn push_definition_problems(out: &mut Vec<EntityContentDiagnostic>, ps: Vec<DefinitionProblem>, d: usize)
    ensures
        final(out)@ == old(out)@ + as_definition_problems(ps@, d as int),
{
    let mut k: usize = 0;
    while k < ps.len()
        invariant
            k <= ps@.len(),
            out@ == old(out)@ + as_definition_problems(ps@.take(k as int), d as int),
        decreases ps@.len() - k,
    {
        out.push(EntityContentDiagnostic::Definition { document: d, problem: ps[k] });
        assert(ps@.take(k + 1) =~= ps@.take(k as int).push(ps@[k as int]));
        assert(as_definition_problems(ps@.take(k + 1), d as int) =~= as_definition_problems(ps@.take(k as int), d as int).push(
            EntityContentDiagnostic::Definition { document: d, problem: ps@[k as int] },
        ));
        k = k + 1;
    }
    assert(ps@.take(ps@.len() as int) =~= ps@);
}

/// Check the project's entity definitions, in document order, against the
/// presentation resources that the project's catalogs index (the last
/// resource declared under an id stands for it): each definition's own
/// problems, then each appearance's resource, animated mesh and initial
/// clip.
pub fn validate_entities(defs: &Vec<EntityDefinitionFacts>, resources: &Vec<PresentationResource>) -> (out: Vec<EntityContentDiagnostic>)
    ensures
        out@ == entity_documents_upto(defs@, resources@, defs@.len() as int),
{
    let mut out: Vec<EntityContentDiagnostic> = Vec::new();
    let mut d: usize = 0;
    while d < defs.len()
        invariant
            d <= defs@.len(),
            out@ == entity_documents_upto(defs@, resources@, d as int),
        decreases defs@.len() - d,
    {
        let ghost s0 = out@;
        let def = &defs[d];
        match validate_entity_definition(def) {
            DefinitionVerdict::Valid => {
                assert(as_definition_problems(definition_problems(*def), d as int) =~= Seq::<EntityContentDiagnostic>::empty());
            },
            DefinitionVerdict::Invalid { problems } => push_definition_problems(&mut out, problems, d),
        }
        let ghost s1 = out@;
        let mut k: usize = 0;
        while k < def.capabilities.len()
            invariant
                d < defs@.len(),
                def == &defs@[d as int],
                k <= def.capabilities@.len(),
                out@ == s1 + appearances_upto(*def, d as int, resources@, k as int),
            decreases def.capabilities@.len() - k,
        {
            match &def.capabilities[k] {
                CapabilityFacts::RenderProjection { appearance: Some(a), .. } => appearance_exec(a, d, k, resources, &mut out),
                _ => {},
            }
            assert(out@ =~= s1 + appearances_upto(*def, d as int, resources@, k + 1));
            k = k + 1;
        }
        assert(out@ =~= entity_documents_upto(defs@, resources@, d + 1));
        d = d + 1;
    }
    out
}

} // verus!
