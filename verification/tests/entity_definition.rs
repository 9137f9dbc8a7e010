use asha_services::entity_definition::{
    validate_entity_definition, AppearanceFacts, CapabilityFacts, CapabilityIdField,
    DefinitionProblem, DefinitionVerdict, EntityDefinitionDiagnosticCode, EntityDefinitionFacts,
};

fn identity_transform() -> CapabilityFacts {
    CapabilityFacts::Transform { finite: true, zero_scale_axis: false }
}

fn minimal_entity_definition() -> EntityDefinitionFacts {
    EntityDefinitionFacts {
        stable_id: "actor/demo-player".to_owned(),
        display_name: "Demo Player".to_owned(),
        project_bundle: "asha-demo".to_owned(),
        relative_path: "catalogs/actors/demo-player.entity.json".to_owned(),
        capabilities: vec![identity_transform()],
    }
}

fn problems(d: &EntityDefinitionFacts) -> Vec<DefinitionProblem> {
    match validate_entity_definition(d) {
        DefinitionVerdict::Valid => Vec::new(),
        DefinitionVerdict::Invalid { problems } => problems,
    }
}

#[test]
fn minimal_definition_is_valid() {
    assert_eq!(validate_entity_definition(&minimal_entity_definition()), DefinitionVerdict::Valid);
}

#[test]
fn invalid_entity_definition_rejects_unknown_duplicate_and_invalid_capability() {
    let mut definition = minimal_entity_definition();
    definition.capabilities = vec![
        CapabilityFacts::Transform { finite: true, zero_scale_axis: true },
        CapabilityFacts::Transform { finite: false, zero_scale_axis: false },
        CapabilityFacts::Unknown { capability_kind: "health".to_owned() },
    ];
    let DefinitionVerdict::Invalid { problems } = validate_entity_definition(&definition) else {
        panic!("expected invalid EntityDefinition");
    };
    let codes: Vec<EntityDefinitionDiagnosticCode> = problems.iter().map(|p| p.code()).collect();
    assert!(codes.contains(&EntityDefinitionDiagnosticCode::UnknownCapability));
    assert!(codes.contains(&EntityDefinitionDiagnosticCode::DuplicateCapability));
    assert!(codes.contains(&EntityDefinitionDiagnosticCode::NonFiniteInitialValue));
    assert!(codes.contains(&EntityDefinitionDiagnosticCode::InvalidInitialValue));
    assert_eq!(
        problems,
        vec![
            DefinitionProblem::ZeroScaleTransform { index: 0 },
            DefinitionProblem::DuplicateCapability { index: 1 },
            DefinitionProblem::NonFiniteTransform { index: 1 },
            DefinitionProblem::UnknownCapability { index: 2 },
        ]
    );
}

#[test]
fn blank_identity_fields_are_reported_first() {
    let mut definition = minimal_entity_definition();
    definition.stable_id = "  ".to_owned();
    definition.display_name = String::new();
    definition.relative_path = "\t".to_owned();
    assert_eq!(
        problems(&definition),
        vec![
            DefinitionProblem::MissingStableId,
            DefinitionProblem::MissingDisplayName,
            DefinitionProblem::MissingSourceTrace,
        ]
    );
    assert_eq!(problems(&definition)[2].code(), EntityDefinitionDiagnosticCode::MissingSourceTrace);
}

#[test]
fn repeated_unknown_capabilities_are_not_duplicates() {
    let mut definition = minimal_entity_definition();
    definition.capabilities = vec![
        CapabilityFacts::Unknown { capability_kind: "a".to_owned() },
        CapabilityFacts::Unknown { capability_kind: "a".to_owned() },
    ];
    assert_eq!(
        problems(&definition),
        vec![
            DefinitionProblem::UnknownCapability { index: 0 },
            DefinitionProblem::UnknownCapability { index: 1 },
        ]
    );
}

#[test]
fn health_and_weapon_initial_values_are_checked() {
    let mut definition = minimal_entity_definition();
    definition.capabilities = vec![
        CapabilityFacts::Health { current: 5, max: 4 },
        CapabilityFacts::WeaponMount { weapon_id: " ".to_owned(), damage: 0, range_units: 10 },
        CapabilityFacts::Health { current: 0, max: 0 },
    ];
    assert_eq!(
        problems(&definition),
        vec![
            DefinitionProblem::InvalidHealth { index: 0 },
            DefinitionProblem::MissingId { index: 1, field: CapabilityIdField::WeaponId },
            DefinitionProblem::InvalidWeapon { index: 1 },
            DefinitionProblem::DuplicateCapability { index: 2 },
            DefinitionProblem::InvalidHealth { index: 2 },
        ]
    );
    definition.capabilities = vec![
        CapabilityFacts::Health { current: 4, max: 4 },
        CapabilityFacts::WeaponMount { weapon_id: "rifle".to_owned(), damage: 1, range_units: 1 },
    ];
    assert!(problems(&definition).is_empty());
}

#[test]
fn projection_and_binding_fields_are_required() {
    let mut definition = minimal_entity_definition();
    definition.capabilities = vec![
        CapabilityFacts::RenderProjection {
            projection_id: "proj".to_owned(),
            appearance: Some(AppearanceFacts {
                resource_id: "".to_owned(),
                initial_clip_id: Some(" ".to_owned()),
                model_scale_positive: false,
            }),
        },
        CapabilityFacts::PolicyBinding {
            binding_id: "b".to_owned(),
            policy_id: "".to_owned(),
            view_kind: "k".to_owned(),
            view_version: "v1".to_owned(),
            runtime_moment: "".to_owned(),
            allowed_intents: vec!["move".to_owned(), " ".to_owned()],
        },
        CapabilityFacts::SpawnMarker { marker_id: "".to_owned() },
        CapabilityFacts::Faction { faction_id: "red".to_owned() },
        CapabilityFacts::Controller { controller_id: "".to_owned() },
    ];
    assert_eq!(
        problems(&definition),
        vec![
            DefinitionProblem::MissingId { index: 0, field: CapabilityIdField::AppearanceResourceId },
            DefinitionProblem::BlankInitialClip { index: 0 },
            DefinitionProblem::InvalidModelScale { index: 0 },
            DefinitionProblem::MissingId { index: 1, field: CapabilityIdField::PolicyId },
            DefinitionProblem::MissingId { index: 1, field: CapabilityIdField::RuntimeMoment },
            DefinitionProblem::NoAllowedIntents { index: 1 },
            DefinitionProblem::MissingId { index: 2, field: CapabilityIdField::SpawnMarkerId },
            DefinitionProblem::MissingId { index: 4, field: CapabilityIdField::ControllerId },
        ]
    );
    assert_eq!(CapabilityIdField::RuntimeMoment.label(), "runtime moment");
}

#[test]
fn binding_without_intents_and_inverted_bounds_are_rejected() {
    let mut definition = minimal_entity_definition();
    definition.capabilities = vec![
        CapabilityFacts::Bounds { finite: false, inverted: true },
        CapabilityFacts::PolicyBinding {
            binding_id: "b".to_owned(),
            policy_id: "p".to_owned(),
            view_kind: "k".to_owned(),
            view_version: "v1".to_owned(),
            runtime_moment: "tick".to_owned(),
            allowed_intents: Vec::new(),
        },
        CapabilityFacts::Render,
        CapabilityFacts::Collision,
    ];
    assert_eq!(
        problems(&definition),
        vec![
            DefinitionProblem::NonFiniteBounds { index: 0 },
            DefinitionProblem::InvertedBounds { index: 0 },
            DefinitionProblem::NoAllowedIntents { index: 1 },
        ]
    );
}

#[test]
fn problems_render_their_diagnostic_path_and_message() {
    assert_eq!(DefinitionProblem::MissingStableId.path(), "stable_id");
    assert_eq!(
        DefinitionProblem::MissingSourceTrace.message(""),
        "EntityDefinition source.project_bundle and source.relative_path are required"
    );
    let duplicate = DefinitionProblem::DuplicateCapability { index: 12 };
    assert_eq!(duplicate.path(), "capabilities[12].kind");
    assert_eq!(duplicate.message("health"), "duplicate capability declaration \"health\"");
    let missing = DefinitionProblem::MissingId { index: 3, field: CapabilityIdField::WeaponId };
    assert_eq!(missing.path(), "capabilities[3]");
    assert_eq!(missing.message("weaponMount"), "weapon id is required");
    let unknown = DefinitionProblem::UnknownCapability { index: 0 };
    assert_eq!(unknown.message("teleporter"), "unknown capability declaration \"teleporter\"");
}
