//! The decisions of an entity authoring command: which event an applied
//! command reports, and how each refusal of the entity store, or of the
//! command's own source, is classified. Every outcome names the command's
//! subject entity.

use vstd::prelude::*;
use crate::rules::{AuthoringCapabilityKind, AuthoringCommandKind};
use crate::entity_definition::{
    definition_problems, validate_entity_definition, CapabilityFacts, DefinitionProblem, DefinitionVerdict,
    EntityDefinitionFacts,
};

verus! {

/// The event an accepted command reports.
#[derive(Debug, Clone, Copy, PartialEq, Eq, Structural)]
pub enum AuthoringEventKind {
    Created,
    Destroyed,
    Disabled,
    Enabled,
    LabelAdded,
    LabelRemoved,
    CapabilityAttached,
    TransformSet,
    Moved,
    RelationSet,
    RelationCleared,
}

/// Why a command was refused.
#[derive(Debug, Clone, Copy, PartialEq, Eq, Structural)]
pub enum AuthoringRejectionReason {
    AlreadyExists,
    IdRetired,
    UnknownEntity,
    Tombstoned,
    InvalidTransition,
    LabelAlreadyPresent,
    LabelAbsent,
    NotTransformEligible,
    Immovable,
    NonFinite,
    NotSpatial,
    NoCollider,
    RelationCycle,
    EndpointNotTransformEligible,
    SelfRelation,
    NoSuchRelation,
    ProjectionOnly,
    InvalidAsset,
    EntityNotAlive,
}

/// A refusal of a lifecycle operation.
#[derive(Debug, Clone, Copy, PartialEq, Eq, Structural)]
pub enum LifecycleError {
    AlreadyExists,
    IdRetired,
    UnknownEntity,
    Tombstoned,
    InvalidTransition,
    LabelAlreadyPresent,
    LabelAbsent,
}

/// A refusal of a transform operation.
#[derive(Debug, Clone, Copy, PartialEq, Eq, Structural)]
pub enum TransformError {
    UnknownEntity,
    Tombstoned,
    Disabled,
    NotTransformEligible,
    Immovable,
    NonFinite,
}

/// A refusal of a kinematic move.
#[derive(Debug, Clone, Copy, PartialEq, Eq, Structural)]
pub enum MovementError {
    UnknownEntity,
    Tombstoned,
    Disabled,
    NotSpatial,
    NoCollider,
    Immovable,
    NonFinite,
}

/// A refusal of a relation operation.
#[derive(Debug, Clone, Copy, PartialEq, Eq, Structural)]
pub enum RelationError {
    UnknownEntity,
    Tombstoned,
    Cycle,
    NotTransformEligible,
    SelfRelation,
    NoSuchRelation,
    ProjectionOnly,
}

/// A refusal of the entity store, by the operation family that gave it.
#[derive(Debug, Clone, Copy, PartialEq, Eq, Structural)]
pub enum StoreError {
    Lifecycle(LifecycleError),
    Transform(TransformError),
    Movement(MovementError),
    Relation(RelationError),
}

/// The lifecycle state of a stored entity.
#[derive(Debug, Clone, Copy, PartialEq, Eq, Structural)]
pub enum EntityLifecycleState {
    Active,
    Disabled,
    Tombstoned,
}

/// What applying the command gave.
#[derive(Debug, Clone, Copy, PartialEq, Eq, Structural)]
pub enum StoreAnswer {
    /// The command's source names an asset id that does not parse; the
    /// store was not asked.
    InvalidSource,
    /// The store applied the lifecycle, transform, movement or relation
    /// operation.
    Applied,
    /// The store refused the operation.
    Refused { error: StoreError },
    /// A capability attach: the entity's lifecycle state beforehand (`None`
    /// when unknown), and whether the store attached the capability.
    Attach { lifecycle: Option<EntityLifecycleState>, attached: bool },
}

/// The outcome of a command for its subject entity.
#[derive(Debug, Clone, Copy, PartialEq, Eq, Structural)]
pub enum AuthoringOutcome {
    Accepted { kind: AuthoringEventKind, entity: u64 },
    Rejected { reason: AuthoringRejectionReason, entity: u64 },
}

/// The event a command reports when the store applies it.
pub open spec fn event_kind_of(c: AuthoringCommandKind) -> AuthoringEventKind {
    match c {
        AuthoringCommandKind::Create => AuthoringEventKind::Created,
        AuthoringCommandKind::Destroy => AuthoringEventKind::Destroyed,
        AuthoringCommandKind::Disable => AuthoringEventKind::Disabled,
        AuthoringCommandKind::Enable => AuthoringEventKind::Enabled,
        AuthoringCommandKind::AddLabel => AuthoringEventKind::LabelAdded,
        AuthoringCommandKind::RemoveLabel => AuthoringEventKind::LabelRemoved,
        AuthoringCommandKind::AttachCapability { .. } => AuthoringEventKind::CapabilityAttached,
        AuthoringCommandKind::SetTransform => AuthoringEventKind::TransformSet,
        AuthoringCommandKind::Move => AuthoringEventKind::Moved,
        AuthoringCommandKind::AttachTransformParent
        | AuthoringCommandKind::SetContainment
        | AuthoringCommandKind::SetDerivedFrom => AuthoringEventKind::RelationSet,
        AuthoringCommandKind::DetachTransformParent
        | AuthoringCommandKind::ClearContainment => AuthoringEventKind::RelationCleared,
    }
}

/// How a store refusal is classified. A disabled entity refused by a
/// transform or a move is an invalid lifecycle transition.
pub open spec fn reason_of(e: StoreError) -> AuthoringRejectionReason {
    match e {
        StoreError::Lifecycle(l) => match l {
            LifecycleError::AlreadyExists => AuthoringRejectionReason::AlreadyExists,
            LifecycleError::IdRetired => AuthoringRejectionReason::IdRetired,
            LifecycleError::UnknownEntity => AuthoringRejectionReason::UnknownEntity,
            LifecycleError::Tombstoned => AuthoringRejectionReason::Tombstoned,
            LifecycleError::InvalidTransition => AuthoringRejectionReason::InvalidTransition,
            LifecycleError::LabelAlreadyPresent => AuthoringRejectionReason::LabelAlreadyPresent,
            LifecycleError::LabelAbsent => AuthoringRejectionReason::LabelAbsent,
        },
        StoreError::Transform(t) => match t {
            TransformError::UnknownEntity => AuthoringRejectionReason::UnknownEntity,
            TransformError::Tombstoned => AuthoringRejectionReason::Tombstoned,
            TransformError::Disabled => AuthoringRejectionReason::InvalidTransition,
            TransformError::NotTransformEligible => AuthoringRejectionReason::NotTransformEligible,
            TransformError::Immovable => AuthoringRejectionReason::Immovable,
            TransformError::NonFinite => AuthoringRejectionReason::NonFinite,
        },
        StoreError::Movement(m) => match m {
            MovementError::UnknownEntity => AuthoringRejectionReason::UnknownEntity,
            MovementError::Tombstoned => AuthoringRejectionReason::Tombstoned,
            MovementError::Disabled => AuthoringRejectionReason::InvalidTransition,
            MovementError::NotSpatial => AuthoringRejectionReason::NotSpatial,
            MovementError::NoCollider => AuthoringRejectionReason::NoCollider,
            MovementError::Immovable => AuthoringRejectionReason::Immovable,
            MovementError::NonFinite => AuthoringRejectionReason::NonFinite,
        },
        StoreError::Relation(r) => match r {
            RelationError::UnknownEntity => AuthoringRejectionReason::UnknownEntity,
            RelationError::Tombstoned => AuthoringRejectionReason::Tombstoned,
            RelationError::Cycle => AuthoringRejectionReason::RelationCycle,
            RelationError::NotTransformEligible => AuthoringRejectionReason::EndpointNotTransformEligible,
            RelationError::SelfRelation => AuthoringRejectionReason::SelfRelation,
            RelationError::NoSuchRelation => AuthoringRejectionReason::NoSuchRelation,
            RelationError::ProjectionOnly => AuthoringRejectionReason::ProjectionOnly,
        },
    }
}

/// The outcome of command `c` on entity `subject`, given what applying it
/// gave. An attach is refused for an unknown or tombstoned entity before
/// the store is asked, and one the store declines means the entity is not
/// alive (disabled).
pub open spec fn authoring_outcome_of(c: AuthoringCommandKind, subject: u64, answer: StoreAnswer) -> AuthoringOutcome {
    match answer {
        StoreAnswer::InvalidSource => AuthoringOutcome::Rejected { reason: AuthoringRejectionReason::InvalidAsset, entity: subject },
        StoreAnswer::Applied => AuthoringOutcome::Accepted { kind: event_kind_of(c), entity: subject },
        StoreAnswer::Refused { error } => AuthoringOutcome::Rejected { reason: reason_of(error), entity: subject },
        StoreAnswer::Attach { lifecycle, attached } => match lifecycle {
            None => AuthoringOutcome::Rejected { reason: AuthoringRejectionReason::UnknownEntity, entity: subject },
            Some(EntityLifecycleState::Tombstoned) =>
                AuthoringOutcome::Rejected { reason: AuthoringRejectionReason::Tombstoned, entity: subject },
            Some(_) => if attached {
                AuthoringOutcome::Accepted { kind: AuthoringEventKind::CapabilityAttached, entity: subject }
            } else {
                AuthoringOutcome::Rejected { reason: AuthoringRejectionReason::EntityNotAlive, entity: subject }
            },
        },
    }
}

/// The event a command reports when the store applies it.
pub fn event_kind(c: AuthoringCommandKind) -> (r: AuthoringEventKind)
    ensures
        r == event_kind_of(c),
{
    match c {
        AuthoringCommandKind::Create => AuthoringEventKind::Created,
        AuthoringCommandKind::Destroy => AuthoringEventKind::Destroyed,
        AuthoringCommandKind::Disable => AuthoringEventKind::Disabled,
        AuthoringCommandKind::Enable => AuthoringEventKind::Enabled,
        AuthoringCommandKind::AddLabel => AuthoringEventKind::LabelAdded,
        AuthoringCommandKind::RemoveLabel => AuthoringEventKind::LabelRemoved,
        AuthoringCommandKind::AttachCapability { .. } => AuthoringEventKind::CapabilityAttached,
        AuthoringCommandKind::SetTransform => AuthoringEventKind::TransformSet,
        AuthoringCommandKind::Move => AuthoringEventKind::Moved,
        AuthoringCommandKind::AttachTransformParent
        | AuthoringCommandKind::SetContainment
        | AuthoringCommandKind::SetDerivedFrom => AuthoringEventKind::RelationSet,
        AuthoringCommandKind::DetachTransformParent
        | AuthoringCommandKind::ClearContainment => AuthoringEventKind::RelationCleared,
    }
}

/// How a store refusal is classified.
pub fn rejection_reason(e: StoreError) -> (r: AuthoringRejectionReason)
    ensures
        r == reason_of(e),
{
    match e {
        StoreError::Lifecycle(l) => match l {
            LifecycleError::AlreadyExists => AuthoringRejectionReason::AlreadyExists,
            LifecycleError::IdRetired => AuthoringRejectionReason::IdRetired,
            LifecycleError::UnknownEntity => AuthoringRejectionReason::UnknownEntity,
            LifecycleError::Tombstoned => AuthoringRejectionReason::Tombstoned,
            LifecycleError::InvalidTransition => AuthoringRejectionReason::InvalidTransition,
            LifecycleError::LabelAlreadyPresent => AuthoringRejectionReason::LabelAlreadyPresent,
            LifecycleError::LabelAbsent => AuthoringRejectionReason::LabelAbsent,
        },
        StoreError::Transform(t) => match t {
            TransformError::UnknownEntity => AuthoringRejectionReason::UnknownEntity,
            TransformError::Tombstoned => AuthoringRejectionReason::Tombstoned,
            TransformError::Disabled => AuthoringRejectionReason::InvalidTransition,
            TransformError::NotTransformEligible => AuthoringRejectionReason::NotTransformEligible,
            TransformError::Immovable => AuthoringRejectionReason::Immovable,
            TransformError::NonFinite => AuthoringRejectionReason::NonFinite,
        },
        StoreError::Movement(m) => match m {
            MovementError::UnknownEntity => AuthoringRejectionReason::UnknownEntity,
            MovementError::Tombstoned => AuthoringRejectionReason::Tombstoned,
            MovementError::Disabled => AuthoringRejectionReason::InvalidTransition,
            MovementError::NotSpatial => AuthoringRejectionReason::NotSpatial,
            MovementError::NoCollider => AuthoringRejectionReason::NoCollider,
            MovementError::Immovable => AuthoringRejectionReason::Immovable,
            MovementError::NonFinite => AuthoringRejectionReason::NonFinite,
        },
        StoreError::Relation(r) => match r {
            RelationError::UnknownEntity => AuthoringRejectionReason::UnknownEntity,
            RelationError::Tombstoned => AuthoringRejectionReason::Tombstoned,
            RelationError::Cycle => AuthoringRejectionReason::RelationCycle,
            RelationError::NotTransformEligible => AuthoringRejectionReason::EndpointNotTransformEligible,
            RelationError::SelfRelation => AuthoringRejectionReason::SelfRelation,
            RelationError::NoSuchRelation => AuthoringRejectionReason::NoSuchRelation,
            RelationError::ProjectionOnly => AuthoringRejectionReason::ProjectionOnly,
        },
    }
}

/// Classify what applying command `c` to entity `subject` gave.
pub fn authoring_outcome(c: AuthoringCommandKind, subject: u64, answer: StoreAnswer) -> (r: AuthoringOutcome)
    ensures
        r == authoring_outcome_of(c, subject, answer),
{
    match answer {
        StoreAnswer::InvalidSource => AuthoringOutcome::Rejected { reason: AuthoringRejectionReason::InvalidAsset, entity: subject },
        StoreAnswer::Applied => AuthoringOutcome::Accepted { kind: event_kind(c), entity: subject },
        StoreAnswer::Refused { error } => AuthoringOutcome::Rejected { reason: rejection_reason(error), entity: subject },
        StoreAnswer::Attach { lifecycle, attached } => match lifecycle {
            None => AuthoringOutcome::Rejected { reason: AuthoringRejectionReason::UnknownEntity, entity: subject },
            Some(EntityLifecycleState::Tombstoned) =>
                AuthoringOutcome::Rejected { reason: AuthoringRejectionReason::Tombstoned, entity: subject },
            Some(_) => if attached {
                AuthoringOutcome::Accepted { kind: AuthoringEventKind::CapabilityAttached, entity: subject }
            } else {
                AuthoringOutcome::Rejected { reason: AuthoringRejectionReason::EntityNotAlive, entity: subject }
            },
        },
    }
}

/// Every outcome names the command's subject, and a command is accepted
/// exactly when the store applied it (for an attach: a live entity the
/// store attached to).
pub proof fn law_outcome_names_subject(c: AuthoringCommandKind, subject: u64, answer: StoreAnswer)
    ensures
        match authoring_outcome_of(c, subject, answer) {
            AuthoringOutcome::Accepted { entity, .. } => entity == subject,
            AuthoringOutcome::Rejected { entity, .. } => entity == subject,
        },
        authoring_outcome_of(c, subject, answer) is Accepted <==> (
            answer == StoreAnswer::Applied
            || (answer matches StoreAnswer::Attach { lifecycle: Some(l), attached: true } && l != EntityLifecycleState::Tombstoned)
        ),
{
}

// ---------------------------------------------------------------------------
// Bootstrapping a stored entity definition.

/// The store attachment a stored capability becomes, if any. Domain-owned
/// capabilities (controller, health, weapon, render projection, policy,
/// spawn marker, faction) are consumed by their own Rules instead.
pub open spec fn store_capability(c: CapabilityFacts) -> Option<AuthoringCapabilityKind> {
    match c {
        CapabilityFacts::Transform { .. } => Some(AuthoringCapabilityKind::Transform),
        CapabilityFacts::Render => Some(AuthoringCapabilityKind::Render),
        CapabilityFacts::Collision => Some(AuthoringCapabilityKind::Collision),
        CapabilityFacts::Bounds { .. } => Some(AuthoringCapabilityKind::Bounds),
        _ => None,
    }
}

/// The attachments of the first `n` capabilities, each with its capability's
/// index, in order.
pub open spec fn bootstrap_attaches(caps: Seq<CapabilityFacts>, n: int) -> Seq<(usize, AuthoringCapabilityKind)>
    decreases n,
{
    if n <= 0 {
        Seq::empty()
    } else {
        match store_capability(caps[n - 1]) {
            Some(k) => bootstrap_attaches(caps, n - 1).push(((n - 1) as usize, k)),
            None => bootstrap_attaches(caps, n - 1),
        }
    }
}

/// The first refusal among the first `n` planned attachments.
pub open spec fn attach_refusal(
    plan: Seq<(usize, AuthoringCapabilityKind)>,
    entity: u64,
    answers: Seq<StoreAnswer>,
    n: int,
) -> Option<AuthoringRejectionReason>
    decreases n,
{
    if n <= 0 {
        None
    } else {
        match attach_refusal(plan, entity, answers, n - 1) {
            Some(r) => Some(r),
            None => match authoring_outcome_of(
                AuthoringCommandKind::AttachCapability { capability: plan[n - 1].1 },
                entity,
                answers[n - 1],
            ) {
                AuthoringOutcome::Rejected { reason, .. } => Some(reason),
                AuthoringOutcome::Accepted { .. } => None,
            },
        }
    }
}

/// The record of a bootstrapped definition: who it is, the runtime entity,
/// where it came from, the capabilities applied as store attachments, and
/// the replay unit it belongs to.
#[derive(Debug, Clone, PartialEq, Eq)]
pub struct EntityBootstrapRecord {
    pub stable_id: String,
    pub display_name: String,
    pub entity: u64,
    pub project_bundle: String,
    pub relative_path: String,
    pub applied: Vec<(usize, AuthoringCapabilityKind)>,
    pub replay_unit_label: String,
}

/// Why a definition was not bootstrapped.
#[derive(Debug, Clone, PartialEq, Eq)]
pub enum EntityBootstrapError {
    /// The stored definition is invalid; nothing was staged.
    Invalid { problems: Vec<DefinitionProblem> },
    /// The store refused the create or an attachment.
    Rejected { reason: AuthoringRejectionReason, entity: u64 },
}

/// The attachments a definition's capabilities become, in order.
pub fn bootstrap_attach_plan(d: &EntityDefinitionFacts) -> (plan: Vec<(usize, AuthoringCapabilityKind)>)
    ensures
        plan@ == bootstrap_attaches(d.capabilities@, d.capabilities@.len() as int),
{
    let mut plan: Vec<(usize, AuthoringCapabilityKind)> = Vec::new();
    let mut i: usize = 0;
    while i < d.capabilities.len()
        invariant
            i <= d.capabilities@.len(),
            plan@ == bootstrap_attaches(d.capabilities@, i as int),
        decreases d.capabilities@.len() - i,
    {
        match &d.capabilities[i] {
            CapabilityFacts::Transform { .. } => plan.push((i, AuthoringCapabilityKind::Transform)),
            CapabilityFacts::Render => plan.push((i, AuthoringCapabilityKind::Render)),
            CapabilityFacts::Collision => plan.push((i, AuthoringCapabilityKind::Collision)),
            CapabilityFacts::Bounds { .. } => plan.push((i, AuthoringCapabilityKind::Bounds)),
            _ => {},
        }
        i = i + 1;
    }
    plan
}

/// Bootstrap a stored definition as runtime entity `entity`, given the
/// store's answers to the create (`create`) and to each planned attachment
/// (`attaches`, in plan order). An invalid definition is refused before
/// anything is staged; then the create, then the first refused attachment,
/// refuses the whole bootstrap. Otherwise the record lists every planned
/// attachment under the replay unit `entity_definition.bootstrap`.
pub fn entity_bootstrap(
    d: &EntityDefinitionFacts,
    entity: u64,
    create: StoreAnswer,
    attaches: &Vec<StoreAnswer>,
) -> (r: Result<EntityBootstrapRecord, EntityBootstrapError>)
    requires
        attaches@.len() == bootstrap_attaches(d.capabilities@, d.capabilities@.len() as int).len(),
    ensures
        ({
            let plan = bootstrap_attaches(d.capabilities@, d.capabilities@.len() as int);
            let created = authoring_outcome_of(AuthoringCommandKind::Create, entity, create);
            let refused = attach_refusal(plan, entity, attaches@, plan.len() as int);
            &&& definition_problems(*d).len() > 0 ==> (r matches Err(EntityBootstrapError::Invalid { problems })
                && problems@ == definition_problems(*d))
            &&& definition_problems(*d).len() == 0 ==> (created matches AuthoringOutcome::Rejected { reason, .. } ==> r
                == Err::<EntityBootstrapRecord, EntityBootstrapError>(EntityBootstrapError::Rejected { reason, entity }))
            &&& definition_problems(*d).len() == 0 && created is Accepted ==> (refused matches Some(reason) ==> r
                == Err::<EntityBootstrapRecord, EntityBootstrapError>(EntityBootstrapError::Rejected { reason, entity }))
            &&& definition_problems(*d).len() == 0 && created is Accepted && refused is None ==> match r {
                Ok(rec) => {
                    &&& rec.stable_id@ == d.stable_id@
                    &&& rec.display_name@ == d.display_name@
                    &&& rec.entity == entity
                    &&& rec.project_bundle@ == d.project_bundle@
                    &&& rec.relative_path@ == d.relative_path@
                    &&& rec.applied@ == plan
                    &&& rec.replay_unit_label@ == "entity_definition.bootstrap"@
                },
                Err(_) => false,
            }
        }),
{
    match validate_entity_definition(d) {
        DefinitionVerdict::Invalid { problems } => {
            return Err(EntityBootstrapError::Invalid { problems });
        },
        DefinitionVerdict::Valid => {},
    }
    match authoring_outcome(AuthoringCommandKind::Create, entity, create) {
        AuthoringOutcome::Rejected { reason, .. } => {
            return Err(EntityBootstrapError::Rejected { reason, entity });
        },
        AuthoringOutcome::Accepted { .. } => {},
    }
    let plan = bootstrap_attach_plan(d);
    let mut k: usize = 0;
    while k < plan.len()
        invariant
            k <= plan@.len(),
            plan@.len() == attaches@.len(),
            plan@ == bootstrap_attaches(d.capabilities@, d.capabilities@.len() as int),
            definition_problems(*d).len() == 0,
            authoring_outcome_of(AuthoringCommandKind::Create, entity, create) is Accepted,
            attach_refusal(plan@, entity, attaches@, k as int) is None,
        decreases plan@.len() - k,
    {
        let (_, kind) = plan[k];
        match authoring_outcome(AuthoringCommandKind::AttachCapability { capability: kind }, entity, attaches[k]) {
            AuthoringOutcome::Rejected { reason, .. } => {
                proof {
                    assert(attach_refusal(plan@, entity, attaches@, k + 1) == Some(reason));
                    lemma_attach_refusal_settled(plan@, entity, attaches@, k + 1, plan@.len() as int);
                }
                return Err(EntityBootstrapError::Rejected { reason, entity });
            },
            AuthoringOutcome::Accepted { .. } => {},
        }
        k = k + 1;
    }
    let mut label = String::new();
    label.append("entity_definition.bootstrap");
    Ok(EntityBootstrapRecord {
        stable_id: d.stable_id.clone(),
        display_name: d.display_name.clone(),
        entity,
        project_bundle: d.project_bundle.clone(),
        relative_path: d.relative_path.clone(),
        applied: plan,
        replay_unit_label: label,
    })
}

proof fn lemma_attach_refusal_settled(
    plan: Seq<(usize, AuthoringCapabilityKind)>,
    entity: u64,
    answers: Seq<StoreAnswer>,
    k: int,
    m: int,
)
    requires
        0 < k <= m,
        attach_refusal(plan, entity, answers, k) is Some,
    ensures
        attach_refusal(plan, entity, answers, m) == attach_refusal(plan, entity, answers, k),
    decreases m - k,
{
    if m > k {
        lemma_attach_refusal_settled(plan, entity, answers, k, m - 1);
    }
}

} // verus!
