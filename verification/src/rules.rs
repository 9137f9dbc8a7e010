//! Entity-capability mutation rights of the named ECRP Rules: which Rule may
//! apply which kind of authoring command.

use vstd::prelude::*;

verus! {

#[derive(Debug, Clone, Copy, PartialEq, Eq, Structural)]
pub enum EcrpRuleOwner {
    EntityBootstrap,
    LifecycleRule,
    TransformRule,
    MovementRule,
    CollisionRule,
    ControllerRule,
    RenderProjectionRule,
    RelationRule,
}

#[derive(Debug, Clone, Copy, PartialEq, Eq, Structural)]
pub enum EcrpCapabilityMutation {
    Lifecycle,
    AttachTransform,
    AttachBounds,
    AttachRenderProjection,
    AttachCollision,
    ActivateCollision,
    ActivateController,
    SetTransform,
    Move,
    Relation,
}

/// The capability an authoring command attaches.
#[derive(Debug, Clone, Copy, PartialEq, Eq, Structural)]
pub enum AuthoringCapabilityKind {
    Transform,
    Render,
    Collision,
    Bounds,
}

/// The kind of an entity authoring command, as far as mutation rights read it.
#[derive(Debug, Clone, Copy, PartialEq, Eq, Structural)]
pub enum AuthoringCommandKind {
    Create,
    Destroy,
    Disable,
    Enable,
    AddLabel,
    RemoveLabel,
    AttachCapability { capability: AuthoringCapabilityKind },
    SetTransform,
    Move,
    AttachTransformParent,
    DetachTransformParent,
    SetContainment,
    ClearContainment,
    SetDerivedFrom,
}

/// The capability mutation an authoring command performs.
pub open spec fn mutation_of(command: AuthoringCommandKind) -> EcrpCapabilityMutation {
    match command {
        AuthoringCommandKind::Create
        | AuthoringCommandKind::Destroy
        | AuthoringCommandKind::Disable
        | AuthoringCommandKind::Enable
        | AuthoringCommandKind::AddLabel
        | AuthoringCommandKind::RemoveLabel => EcrpCapabilityMutation::Lifecycle,
        AuthoringCommandKind::AttachCapability { capability } => match capability {
            AuthoringCapabilityKind::Transform => EcrpCapabilityMutation::AttachTransform,
            AuthoringCapabilityKind::Render => EcrpCapabilityMutation::AttachRenderProjection,
            AuthoringCapabilityKind::Collision => EcrpCapabilityMutation::AttachCollision,
            AuthoringCapabilityKind::Bounds => EcrpCapabilityMutation::AttachBounds,
        },
        AuthoringCommandKind::SetTransform => EcrpCapabilityMutation::SetTransform,
        AuthoringCommandKind::Move => EcrpCapabilityMutation::Move,
        AuthoringCommandKind::AttachTransformParent
        | AuthoringCommandKind::DetachTransformParent
        | AuthoringCommandKind::SetContainment
        | AuthoringCommandKind::ClearContainment
        | AuthoringCommandKind::SetDerivedFrom => EcrpCapabilityMutation::Relation,
    }
}

/// The capability mutation an authoring command performs.
pub fn command_mutation(command: AuthoringCommandKind) -> (m: EcrpCapabilityMutation)
    ensures
        m == mutation_of(command),
{
    match command {
        AuthoringCommandKind::Create
        | AuthoringCommandKind::Destroy
        | AuthoringCommandKind::Disable
        | AuthoringCommandKind::Enable
        | AuthoringCommandKind::AddLabel
        | AuthoringCommandKind::RemoveLabel => EcrpCapabilityMutation::Lifecycle,
        AuthoringCommandKind::AttachCapability { capability } => match capability {
            AuthoringCapabilityKind::Transform => EcrpCapabilityMutation::AttachTransform,
            AuthoringCapabilityKind::Render => EcrpCapabilityMutation::AttachRenderProjection,
            AuthoringCapabilityKind::Collision => EcrpCapabilityMutation::AttachCollision,
            AuthoringCapabilityKind::Bounds => EcrpCapabilityMutation::AttachBounds,
        },
        AuthoringCommandKind::SetTransform => EcrpCapabilityMutation::SetTransform,
        AuthoringCommandKind::Move => EcrpCapabilityMutation::Move,
        AuthoringCommandKind::AttachTransformParent
        | AuthoringCommandKind::DetachTransformParent
        | AuthoringCommandKind::SetContainment
        | AuthoringCommandKind::ClearContainment
        | AuthoringCommandKind::SetDerivedFrom => EcrpCapabilityMutation::Relation,
    }
}

/// The mutation-right table of the ECRP Rules.
pub open spec fn owner_allows(owner: EcrpRuleOwner, mutation: EcrpCapabilityMutation) -> bool {
    match owner {
        EcrpRuleOwner::EntityBootstrap => mutation == EcrpCapabilityMutation::Lifecycle || mutation
            == EcrpCapabilityMutation::AttachTransform || mutation
            == EcrpCapabilityMutation::AttachBounds || mutation
            == EcrpCapabilityMutation::AttachRenderProjection || mutation
            == EcrpCapabilityMutation::AttachCollision,
        EcrpRuleOwner::LifecycleRule => mutation == EcrpCapabilityMutation::Lifecycle,
        EcrpRuleOwner::TransformRule => mutation == EcrpCapabilityMutation::SetTransform,
        EcrpRuleOwner::MovementRule => mutation == EcrpCapabilityMutation::Move,
        EcrpRuleOwner::CollisionRule => mutation == EcrpCapabilityMutation::AttachCollision
            || mutation == EcrpCapabilityMutation::AttachBounds || mutation
            == EcrpCapabilityMutation::ActivateCollision,
        EcrpRuleOwner::ControllerRule => mutation == EcrpCapabilityMutation::ActivateController,
        EcrpRuleOwner::RenderProjectionRule => mutation
            == EcrpCapabilityMutation::AttachRenderProjection,
        EcrpRuleOwner::RelationRule => mutation == EcrpCapabilityMutation::Relation,
    }
}

/// Every capability mutation has an owning Rule, and the moving,
/// transform-setting, relation, controller and collision-activation rights
/// each belong to exactly one Rule.
pub proof fn law_mutation_rights(owner: EcrpRuleOwner, m: EcrpCapabilityMutation)
    ensures
        exists|o: EcrpRuleOwner| owner_allows(o, m),
        owner_allows(owner, EcrpCapabilityMutation::Move) <==> owner == EcrpRuleOwner::MovementRule,
        owner_allows(owner, EcrpCapabilityMutation::SetTransform) <==> owner
            == EcrpRuleOwner::TransformRule,
        owner_allows(owner, EcrpCapabilityMutation::Relation) <==> owner
            == EcrpRuleOwner::RelationRule,
        owner_allows(owner, EcrpCapabilityMutation::ActivateController) <==> owner
            == EcrpRuleOwner::ControllerRule,
        owner_allows(owner, EcrpCapabilityMutation::ActivateCollision) <==> owner
            == EcrpRuleOwner::CollisionRule,
{
    match m {
        EcrpCapabilityMutation::Lifecycle => assert(owner_allows(EcrpRuleOwner::LifecycleRule, m)),
        EcrpCapabilityMutation::AttachTransform => assert(owner_allows(EcrpRuleOwner::EntityBootstrap, m)),
        EcrpCapabilityMutation::AttachBounds => assert(owner_allows(EcrpRuleOwner::CollisionRule, m)),
        EcrpCapabilityMutation::AttachRenderProjection => assert(owner_allows(EcrpRuleOwner::RenderProjectionRule, m)),
        EcrpCapabilityMutation::AttachCollision => assert(owner_allows(EcrpRuleOwner::CollisionRule, m)),
        EcrpCapabilityMutation::ActivateCollision => assert(owner_allows(EcrpRuleOwner::CollisionRule, m)),
        EcrpCapabilityMutation::ActivateController => assert(owner_allows(EcrpRuleOwner::ControllerRule, m)),
        EcrpCapabilityMutation::SetTransform => assert(owner_allows(EcrpRuleOwner::TransformRule, m)),
        EcrpCapabilityMutation::Move => assert(owner_allows(EcrpRuleOwner::MovementRule, m)),
        EcrpCapabilityMutation::Relation => assert(owner_allows(EcrpRuleOwner::RelationRule, m)),
    }
}

/// Which Rules may apply each authoring command: the lifecycle commands
/// (create, destroy, disable, enable, add or remove a label) the lifecycle
/// Rule and entity bootstrap; the relation commands the relation Rule alone;
/// setting a transform the transform Rule alone; a move the movement Rule
/// alone; attaching a transform entity bootstrap alone; attaching a render
/// projection bootstrap or the render-projection Rule; attaching collision
/// or bounds bootstrap or the collision Rule.
pub proof fn law_command_rights(owner: EcrpRuleOwner, command: AuthoringCommandKind)
    ensures
        (command is Create || command is Destroy || command is Disable || command is Enable || command is AddLabel
            || command is RemoveLabel) ==> (owner_allows(owner, mutation_of(command)) <==> (owner
            == EcrpRuleOwner::LifecycleRule || owner == EcrpRuleOwner::EntityBootstrap)),
        (command is AttachTransformParent || command is DetachTransformParent || command is SetContainment
            || command is ClearContainment || command is SetDerivedFrom) ==> (owner_allows(owner, mutation_of(command))
            <==> owner == EcrpRuleOwner::RelationRule),
        command is SetTransform ==> (owner_allows(owner, mutation_of(command)) <==> owner == EcrpRuleOwner::TransformRule),
        command is Move ==> (owner_allows(owner, mutation_of(command)) <==> owner == EcrpRuleOwner::MovementRule),
        command == (AuthoringCommandKind::AttachCapability { capability: AuthoringCapabilityKind::Transform }) ==> (
        owner_allows(owner, mutation_of(command)) <==> owner == EcrpRuleOwner::EntityBootstrap),
        command == (AuthoringCommandKind::AttachCapability { capability: AuthoringCapabilityKind::Render }) ==> (
        owner_allows(owner, mutation_of(command)) <==> (owner == EcrpRuleOwner::EntityBootstrap || owner
            == EcrpRuleOwner::RenderProjectionRule)),
        (command == (AuthoringCommandKind::AttachCapability { capability: AuthoringCapabilityKind::Collision })
            || command == (AuthoringCommandKind::AttachCapability { capability: AuthoringCapabilityKind::Bounds })) ==> (
        owner_allows(owner, mutation_of(command)) <==> (owner == EcrpRuleOwner::EntityBootstrap || owner
            == EcrpRuleOwner::CollisionRule)),
{
}

/// Whether the named Rule owns the capability mutation.
pub fn rule_owner_allows(owner: EcrpRuleOwner, mutation: EcrpCapabilityMutation) -> (b: bool)
    ensures
        b == owner_allows(owner, mutation),
{
    match owner {
        EcrpRuleOwner::EntityBootstrap => match mutation {
            EcrpCapabilityMutation::Lifecycle
            | EcrpCapabilityMutation::AttachTransform
            | EcrpCapabilityMutation::AttachBounds
            | EcrpCapabilityMutation::AttachRenderProjection
            | EcrpCapabilityMutation::AttachCollision => true,
            _ => false,
        },
        EcrpRuleOwner::LifecycleRule => mutation == EcrpCapabilityMutation::Lifecycle,
        EcrpRuleOwner::TransformRule => mutation == EcrpCapabilityMutation::SetTransform,
        EcrpRuleOwner::MovementRule => mutation == EcrpCapabilityMutation::Move,
        EcrpRuleOwner::CollisionRule => match mutation {
            EcrpCapabilityMutation::AttachCollision
            | EcrpCapabilityMutation::AttachBounds
            | EcrpCapabilityMutation::ActivateCollision => true,
            _ => false,
        },
        EcrpRuleOwner::ControllerRule => mutation == EcrpCapabilityMutation::ActivateController,
        EcrpRuleOwner::RenderProjectionRule => mutation
            == EcrpCapabilityMutation::AttachRenderProjection,
        EcrpRuleOwner::RelationRule => mutation == EcrpCapabilityMutation::Relation,
    }
}

/// The diagnostic of a Rule applying a mutation it does not own.
#[derive(Debug, Clone, PartialEq, Eq)]
pub struct EcrpRuleMutationDiagnostic {
    pub owner: EcrpRuleOwner,
    pub command_kind: &'static str,
    pub mutation: EcrpCapabilityMutation,
    pub message: String,
}

pub open spec fn owner_name(owner: EcrpRuleOwner) -> Seq<char> {
    match owner {
        EcrpRuleOwner::EntityBootstrap => "EntityBootstrap"@,
        EcrpRuleOwner::LifecycleRule => "LifecycleRule"@,
        EcrpRuleOwner::TransformRule => "TransformRule"@,
        EcrpRuleOwner::MovementRule => "MovementRule"@,
        EcrpRuleOwner::CollisionRule => "CollisionRule"@,
        EcrpRuleOwner::ControllerRule => "ControllerRule"@,
        EcrpRuleOwner::RenderProjectionRule => "RenderProjectionRule"@,
        EcrpRuleOwner::RelationRule => "RelationRule"@,
    }
}

pub open spec fn mutation_name(m: EcrpCapabilityMutation) -> Seq<char> {
    match m {
        EcrpCapabilityMutation::Lifecycle => "Lifecycle"@,
        EcrpCapabilityMutation::AttachTransform => "AttachTransform"@,
        EcrpCapabilityMutation::AttachBounds => "AttachBounds"@,
        EcrpCapabilityMutation::AttachRenderProjection => "AttachRenderProjection"@,
        EcrpCapabilityMutation::AttachCollision => "AttachCollision"@,
        EcrpCapabilityMutation::ActivateCollision => "ActivateCollision"@,
        EcrpCapabilityMutation::ActivateController => "ActivateController"@,
        EcrpCapabilityMutation::SetTransform => "SetTransform"@,
        EcrpCapabilityMutation::Move => "Move"@,
        EcrpCapabilityMutation::Relation => "Relation"@,
    }
}

fn owner_name_str(owner: EcrpRuleOwner) -> (s: &'static str)
    ensures
        s@ == owner_name(owner),
{
    match owner {
        EcrpRuleOwner::EntityBootstrap => "EntityBootstrap",
        EcrpRuleOwner::LifecycleRule => "LifecycleRule",
        EcrpRuleOwner::TransformRule => "TransformRule",
        EcrpRuleOwner::MovementRule => "MovementRule",
        EcrpRuleOwner::CollisionRule => "CollisionRule",
        EcrpRuleOwner::ControllerRule => "ControllerRule",
        EcrpRuleOwner::RenderProjectionRule => "RenderProjectionRule",
        EcrpRuleOwner::RelationRule => "RelationRule",
    }
}

fn mutation_name_str(m: EcrpCapabilityMutation) -> (s: &'static str)
    ensures
        s@ == mutation_name(m),
{
    match m {
        EcrpCapabilityMutation::Lifecycle => "Lifecycle",
        EcrpCapabilityMutation::AttachTransform => "AttachTransform",
        EcrpCapabilityMutation::AttachBounds => "AttachBounds",
        EcrpCapabilityMutation::AttachRenderProjection => "AttachRenderProjection",
        EcrpCapabilityMutation::AttachCollision => "AttachCollision",
        EcrpCapabilityMutation::ActivateCollision => "ActivateCollision",
        EcrpCapabilityMutation::ActivateController => "ActivateController",
        EcrpCapabilityMutation::SetTransform => "SetTransform",
        EcrpCapabilityMutation::Move => "Move",
        EcrpCapabilityMutation::Relation => "Relation",
    }
}

/// The text of a forbidden-mutation diagnostic.
pub open spec fn forbidden_message(owner: EcrpRuleOwner, m: EcrpCapabilityMutation) -> Seq<char> {
    owner_name(owner) + " cannot apply "@ + mutation_name(m)
        + "; ECRP capability mutation requires its owning Rule"@
}

/// Check that `owner` may apply `command`; otherwise return the diagnostic
/// naming the owner, the command kind and the mutation it would perform.
pub fn validate_rule_mutation_right(
    owner: EcrpRuleOwner,
    command: AuthoringCommandKind,
    command_kind: &'static str,
) -> (r: Result<(), EcrpRuleMutationDiagnostic>)
    ensures
        owner_allows(owner, mutation_of(command)) <==> r is Ok,
        r matches Err(d) ==> d.owner == owner && d.command_kind == command_kind && d.mutation
            == mutation_of(command) && d.message@ == forbidden_message(owner, mutation_of(command)),
{
    let mutation = command_mutation(command);
    if rule_owner_allows(owner, mutation) {
        Ok(())
    } else {
        let mut message = String::new();
        message.append(owner_name_str(owner));
        message.append(" cannot apply ");
        message.append(mutation_name_str(mutation));
        message.append("; ECRP capability mutation requires its owning Rule");
        assert(message@ =~= forbidden_message(owner, mutation));
        Err(EcrpRuleMutationDiagnostic { owner, command_kind, mutation, message })
    }
}

/// Entity-definition bootstrap diagnostic codes of a project bundle batch.
#[derive(Debug, Clone, Copy, PartialEq, Eq, Structural)]
pub enum ProjectBundleEntityDefinitionBootstrapDiagnosticCode {
    MissingProjectBundle,
    EmptyDefinitions,
    DefinitionInvalid,
    SourceProjectBundleMismatch,
    DuplicateDefinitionStableId,
    DuplicateRuntimeEntity,
    RuntimeEntityAlreadyExists,
    RuntimeEntityMissing,
}

} // verus!
