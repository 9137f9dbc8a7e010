use asha_services::entity_definition::{CapabilityFacts, EntityDefinitionFacts};
use asha_services::entity_authoring::{
    bootstrap_attach_plan, entity_bootstrap, EntityBootstrapError, LifecycleError,
    authoring_outcome, AuthoringEventKind, AuthoringOutcome, AuthoringRejectionReason,
    EntityLifecycleState, MovementError, RelationError, StoreAnswer, StoreError, TransformError,
};
use asha_services::rules::{AuthoringCapabilityKind, AuthoringCommandKind};

#[test]
fn an_applied_command_reports_its_event_for_its_subject() {
    assert_eq!(
        authoring_outcome(AuthoringCommandKind::Create, 7, StoreAnswer::Applied),
        AuthoringOutcome::Accepted { kind: AuthoringEventKind::Created, entity: 7 }
    );
    assert_eq!(
        authoring_outcome(AuthoringCommandKind::ClearContainment, 3, StoreAnswer::Applied),
        AuthoringOutcome::Accepted { kind: AuthoringEventKind::RelationCleared, entity: 3 }
    );
}

#[test]
fn store_refusals_are_classified() {
    assert_eq!(
        authoring_outcome(
            AuthoringCommandKind::SetTransform,
            2,
            StoreAnswer::Refused { error: StoreError::Transform(TransformError::Disabled) }
        ),
        AuthoringOutcome::Rejected { reason: AuthoringRejectionReason::InvalidTransition, entity: 2 }
    );
    assert_eq!(
        authoring_outcome(
            AuthoringCommandKind::Move,
            2,
            StoreAnswer::Refused { error: StoreError::Movement(MovementError::NotSpatial) }
        ),
        AuthoringOutcome::Rejected { reason: AuthoringRejectionReason::NotSpatial, entity: 2 }
    );
    assert_eq!(
        authoring_outcome(
            AuthoringCommandKind::AttachTransformParent,
            4,
            StoreAnswer::Refused { error: StoreError::Relation(RelationError::NotTransformEligible) }
        ),
        AuthoringOutcome::Rejected {
            reason: AuthoringRejectionReason::EndpointNotTransformEligible,
            entity: 4
        }
    );
    assert_eq!(
        authoring_outcome(AuthoringCommandKind::Create, 9, StoreAnswer::InvalidSource),
        AuthoringOutcome::Rejected { reason: AuthoringRejectionReason::InvalidAsset, entity: 9 }
    );
}

#[test]
fn attach_is_refused_for_dead_or_unknown_entities() {
    let attach = AuthoringCommandKind::AttachCapability { capability: AuthoringCapabilityKind::Render };
    assert_eq!(
        authoring_outcome(attach, 1, StoreAnswer::Attach { lifecycle: None, attached: false }),
        AuthoringOutcome::Rejected { reason: AuthoringRejectionReason::UnknownEntity, entity: 1 }
    );
    assert_eq!(
        authoring_outcome(
            attach,
            1,
            StoreAnswer::Attach { lifecycle: Some(EntityLifecycleState::Tombstoned), attached: false }
        ),
        AuthoringOutcome::Rejected { reason: AuthoringRejectionReason::Tombstoned, entity: 1 }
    );
    assert_eq!(
        authoring_outcome(
            attach,
            1,
            StoreAnswer::Attach { lifecycle: Some(EntityLifecycleState::Disabled), attached: false }
        ),
        AuthoringOutcome::Rejected { reason: AuthoringRejectionReason::EntityNotAlive, entity: 1 }
    );
    assert_eq!(
        authoring_outcome(
            attach,
            1,
            StoreAnswer::Attach { lifecycle: Some(EntityLifecycleState::Active), attached: true }
        ),
        AuthoringOutcome::Accepted { kind: AuthoringEventKind::CapabilityAttached, entity: 1 }
    );
}

fn demo_definition() -> EntityDefinitionFacts {
    EntityDefinitionFacts {
        stable_id: "actor/demo-player".to_owned(),
        display_name: "Demo Player".to_owned(),
        project_bundle: "asha-demo".to_owned(),
        relative_path: "catalogs/actors/demo-player.entity.json".to_owned(),
        capabilities: vec![
            CapabilityFacts::Transform { finite: true, zero_scale_axis: false },
            CapabilityFacts::Health { current: 10, max: 10 },
            CapabilityFacts::Render,
            CapabilityFacts::Collision,
        ],
    }
}

#[test]
fn bootstrap_attaches_store_capabilities_and_records_them() {
    let d = demo_definition();
    let plan = bootstrap_attach_plan(&d);
    assert_eq!(
        plan,
        vec![
            (0, AuthoringCapabilityKind::Transform),
            (2, AuthoringCapabilityKind::Render),
            (3, AuthoringCapabilityKind::Collision),
        ]
    );
    let live = StoreAnswer::Attach { lifecycle: Some(EntityLifecycleState::Active), attached: true };
    let record = entity_bootstrap(&d, 42, StoreAnswer::Applied, &vec![live, live, live]).expect("record");
    assert_eq!(record.entity, 42);
    assert_eq!(record.stable_id, "actor/demo-player");
    assert_eq!(record.applied, plan);
    assert_eq!(record.replay_unit_label, "entity_definition.bootstrap");
}

#[test]
fn bootstrap_refuses_an_invalid_definition_or_a_refused_step() {
    let mut invalid = demo_definition();
    invalid.stable_id = " ".to_owned();
    assert!(matches!(
        entity_bootstrap(&invalid, 1, StoreAnswer::Applied, &vec![StoreAnswer::Applied; 3]),
        Err(EntityBootstrapError::Invalid { .. })
    ));
    let d = demo_definition();
    let live = StoreAnswer::Attach { lifecycle: Some(EntityLifecycleState::Active), attached: true };
    assert_eq!(
        entity_bootstrap(
            &d,
            1,
            StoreAnswer::Refused { error: StoreError::Lifecycle(LifecycleError::AlreadyExists) },
            &vec![live, live, live]
        ),
        Err(EntityBootstrapError::Rejected { reason: AuthoringRejectionReason::AlreadyExists, entity: 1 })
    );
    let declined = StoreAnswer::Attach { lifecycle: Some(EntityLifecycleState::Disabled), attached: false };
    assert_eq!(
        entity_bootstrap(&d, 1, StoreAnswer::Applied, &vec![live, declined, live]),
        Err(EntityBootstrapError::Rejected { reason: AuthoringRejectionReason::EntityNotAlive, entity: 1 })
    );
}
