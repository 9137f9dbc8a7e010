use asha_services::rules::{
    command_mutation, rule_owner_allows, validate_rule_mutation_right, AuthoringCapabilityKind,
    AuthoringCommandKind, EcrpCapabilityMutation, EcrpRuleOwner,
};

#[test]
fn movement_rule_cannot_attach_collision() {
    let command = AuthoringCommandKind::AttachCapability {
        capability: AuthoringCapabilityKind::Collision,
    };
    let diagnostic =
        validate_rule_mutation_right(EcrpRuleOwner::MovementRule, command, "attachCapability")
            .expect_err("forbidden");
    assert_eq!(diagnostic.owner, EcrpRuleOwner::MovementRule);
    assert_eq!(diagnostic.mutation, EcrpCapabilityMutation::AttachCollision);
    assert_eq!(diagnostic.command_kind, "attachCapability");
    assert_eq!(
        diagnostic.message,
        "MovementRule cannot apply AttachCollision; ECRP capability mutation requires its owning Rule"
    );
}

#[test]
fn owning_rules_may_apply_their_mutations() {
    assert_eq!(
        validate_rule_mutation_right(EcrpRuleOwner::MovementRule, AuthoringCommandKind::Move, "move"),
        Ok(())
    );
    assert_eq!(
        validate_rule_mutation_right(
            EcrpRuleOwner::EntityBootstrap,
            AuthoringCommandKind::AttachCapability {
                capability: AuthoringCapabilityKind::Transform
            },
            "attachCapability"
        ),
        Ok(())
    );
    assert!(validate_rule_mutation_right(
        EcrpRuleOwner::EntityBootstrap,
        AuthoringCommandKind::Move,
        "move"
    )
    .is_err());
}

#[test]
fn commands_map_to_capability_mutations() {
    assert_eq!(command_mutation(AuthoringCommandKind::Create), EcrpCapabilityMutation::Lifecycle);
    assert_eq!(command_mutation(AuthoringCommandKind::RemoveLabel), EcrpCapabilityMutation::Lifecycle);
    assert_eq!(
        command_mutation(AuthoringCommandKind::AttachCapability {
            capability: AuthoringCapabilityKind::Render
        }),
        EcrpCapabilityMutation::AttachRenderProjection
    );
    assert_eq!(
        command_mutation(AuthoringCommandKind::AttachCapability {
            capability: AuthoringCapabilityKind::Bounds
        }),
        EcrpCapabilityMutation::AttachBounds
    );
    assert_eq!(command_mutation(AuthoringCommandKind::SetTransform), EcrpCapabilityMutation::SetTransform);
    assert_eq!(command_mutation(AuthoringCommandKind::SetContainment), EcrpCapabilityMutation::Relation);
}

#[test]
fn exclusive_rights_belong_to_one_rule() {
    let owners = [
        EcrpRuleOwner::EntityBootstrap,
        EcrpRuleOwner::LifecycleRule,
        EcrpRuleOwner::TransformRule,
        EcrpRuleOwner::MovementRule,
        EcrpRuleOwner::CollisionRule,
        EcrpRuleOwner::ControllerRule,
        EcrpRuleOwner::RenderProjectionRule,
        EcrpRuleOwner::RelationRule,
    ];
    let movers: Vec<_> = owners
        .iter()
        .filter(|o| rule_owner_allows(**o, EcrpCapabilityMutation::Move))
        .collect();
    assert_eq!(movers, vec![&EcrpRuleOwner::MovementRule]);
    let bounds: Vec<_> = owners
        .iter()
        .filter(|o| rule_owner_allows(**o, EcrpCapabilityMutation::AttachBounds))
        .collect();
    assert_eq!(bounds, vec![&EcrpRuleOwner::EntityBootstrap, &EcrpRuleOwner::CollisionRule]);
}
