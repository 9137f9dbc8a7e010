use asha_services::physics::{
    integration_precheck, CollisionMode, PhysicsErrorCategory, PhysicsErrorKind, PolicyTickEnvelope,
};

#[test]
fn collision_required_movement_fails_closed() {
    assert_eq!(
        integration_precheck(CollisionMode::QueryRequired, true),
        Err(PhysicsErrorKind::CollisionQueryRequired)
    );
    // The collision check comes before the finiteness check.
    assert_eq!(
        integration_precheck(CollisionMode::QueryRequired, false),
        Err(PhysicsErrorKind::CollisionQueryRequired)
    );
    assert_eq!(PhysicsErrorKind::CollisionQueryRequired.code(), "collision_query_required");
    assert_eq!(
        PhysicsErrorKind::CollisionQueryRequired.category(),
        PhysicsErrorCategory::Unsupported
    );
}

#[test]
fn non_finite_inputs_are_rejected() {
    assert_eq!(
        integration_precheck(CollisionMode::NoQuery, false),
        Err(PhysicsErrorKind::NonFiniteInput)
    );
    assert_eq!(PhysicsErrorKind::NonFiniteInput.code(), "non_finite_input");
    assert_eq!(PhysicsErrorKind::NonFiniteInput.category(), PhysicsErrorCategory::Invalid);
    assert_eq!(integration_precheck(CollisionMode::NoQuery, true), Ok(()));
}

#[test]
fn invalid_step_is_an_invalid_input() {
    assert_eq!(PhysicsErrorKind::InvalidStep.code(), "invalid_step");
    assert_eq!(PhysicsErrorKind::InvalidStep.category(), PhysicsErrorCategory::Invalid);
    let envelope = PolicyTickEnvelope { tick: 3, seed: 9 };
    assert_eq!(envelope, PolicyTickEnvelope { tick: 3, seed: 9 });
}
