use asha_services::gameplay_content::{
    reference_exists_exec, validate_configuration_schemas, validate_gameplay, GameplayConfigurationDocument,
    GameplayContentCode, GameplayContentDiagnostic, GameplayModuleBinding, GameplayModuleBindingTarget,
    GameplayOverrideLayer, GameplayTriggerDefinition, IndexedEntity, IndexedPrefab, IndexedSceneInstance,
    ProjectConfigurationField, ProjectConfigurationFieldValue, ProjectConfigurationSchema,
    ProjectConfigurationValue, ProjectConfigurationValueKind, ProjectContentReferenceKind,
    ProjectGameplayConfiguration, ReferenceIndexFacts, SceneInstanceTarget, SchemaDiagnostic,
};

fn field(id: &str, kind: ProjectConfigurationValueKind, reference: Option<ProjectContentReferenceKind>) -> ProjectConfigurationField {
    ProjectConfigurationField {
        field_id: id.to_owned(),
        label: id.to_owned(),
        value_kind: kind,
        reference_kind: reference,
        integer_min: None,
        integer_max: None,
        number_bounds_valid: true,
        required: false,
    }
}

fn schema() -> ProjectConfigurationSchema {
    let mut cooldown = field("cooldownTicks", ProjectConfigurationValueKind::Integer, None);
    cooldown.integer_min = Some(0);
    cooldown.integer_max = Some(120);
    cooldown.required = true;
    ProjectConfigurationSchema {
        schema_id: "reference.primary-action.v1".to_owned(),
        module_id: "reference.primary-action".to_owned(),
        provider_id: "reference.primary-action.provider".to_owned(),
        codec_id: "asha.project-configuration.canonical-json.v1".to_owned(),
        fields: vec![
            cooldown,
            field("label", ProjectConfigurationValueKind::String, None),
            field(
                "requiredActor",
                ProjectConfigurationValueKind::Reference,
                Some(ProjectContentReferenceKind::InstantiatedEntityDefinition),
            ),
            field(
                "requiredBoundedActor",
                ProjectConfigurationValueKind::Reference,
                Some(ProjectContentReferenceKind::InstantiatedBoundedEntityDefinition),
            ),
            field("part", ProjectConfigurationValueKind::Reference, Some(ProjectContentReferenceKind::PrefabPart)),
        ],
    }
}

fn index() -> ReferenceIndexFacts {
    ReferenceIndexFacts {
        assets: vec!["voxel:tunnel".to_owned()],
        entities: vec![
            IndexedEntity { stable_id: "reference.trigger".to_owned(), usable_bounds: true, trigger_capable: true },
            IndexedEntity { stable_id: "reference.console".to_owned(), usable_bounds: true, trigger_capable: false },
        ],
        prefabs: vec![IndexedPrefab { prefab_id: 7, roles: vec!["interaction/body".to_owned()] }],
        scene_instances: vec![
            IndexedSceneInstance {
                scene_instance_id: "reference.trigger.instance".to_owned(),
                target: SceneInstanceTarget::EntityDefinition { stable_id: "reference.trigger".to_owned(), transform_ok: true },
            },
            IndexedSceneInstance {
                scene_instance_id: "reference.console.blue".to_owned(),
                target: SceneInstanceTarget::Prefab { prefab_id: 7 },
            },
        ],
        presentation_resources: Vec::new(),
        entry_fps_player_instances: vec!["reference.trigger".to_owned()],
    }
}

fn value(field_id: &str, value: ProjectConfigurationValue) -> ProjectConfigurationFieldValue {
    ProjectConfigurationFieldValue { field_id: field_id.to_owned(), value }
}

fn reference(kind: ProjectContentReferenceKind, target: &str) -> ProjectConfigurationValue {
    ProjectConfigurationValue::Reference { reference_kind: kind, target_id: target.to_owned() }
}

fn document() -> GameplayConfigurationDocument {
    GameplayConfigurationDocument {
        schema_version: 1,
        configurations: vec![ProjectGameplayConfiguration {
            configuration_id: "primary".to_owned(),
            schema_id: "reference.primary-action.v1".to_owned(),
            module_id: "reference.primary-action".to_owned(),
            provider_id: "reference.primary-action.provider".to_owned(),
            values: vec![value("cooldownTicks", ProjectConfigurationValue::Integer { value: 30 })],
        }],
        bindings: vec![GameplayModuleBinding {
            binding_id: "console-binding".to_owned(),
            configuration_id: "primary".to_owned(),
            module_id: "reference.primary-action".to_owned(),
            target: GameplayModuleBindingTarget::PrefabPart { prefab: 7, role: "interaction/body".to_owned() },
        }],
        overrides: vec![GameplayOverrideLayer {
            binding_id: "console-binding".to_owned(),
            scene_instance_id: "reference.console.blue".to_owned(),
            configuration_id: Some("primary".to_owned()),
        }],
        triggers: vec![GameplayTriggerDefinition { scene_instance_id: "reference.trigger.instance".to_owned() }],
    }
}

fn check(doc: &GameplayConfigurationDocument) -> Vec<GameplayContentDiagnostic> {
    validate_gameplay(&vec![doc.clone()], &vec![schema()], &index(), 1)
}

#[test]
fn a_consistent_gameplay_document_passes() {
    assert!(validate_configuration_schemas(&vec![schema()]).is_empty());
    assert!(check(&document()).is_empty());
}

#[test]
fn instantiated_entity_definition_reference_requires_a_scene_instance() {
    let mut instantiated = document();
    instantiated.configurations[0]
        .values
        .push(value("requiredActor", reference(ProjectContentReferenceKind::InstantiatedEntityDefinition, "reference.trigger")));
    assert!(check(&instantiated).is_empty());

    let mut uninstantiated = document();
    uninstantiated.configurations[0]
        .values
        .push(value("requiredActor", reference(ProjectContentReferenceKind::InstantiatedEntityDefinition, "reference.console")));
    let diagnostics = check(&uninstantiated);
    assert_eq!(
        diagnostics,
        vec![GameplayContentDiagnostic::UnknownValueReference { document: 0, configuration: 0, value: 1 }]
    );
    assert_eq!(diagnostics[0].code(), GameplayContentCode::UnknownReference);
}

#[test]
fn instantiated_bounded_entity_definition_reference_requires_usable_bounds() {
    let with_bounds = |usable: bool| {
        let mut idx = index();
        idx.entities[0].usable_bounds = usable;
        let mut doc = document();
        doc.configurations[0].values.push(value(
            "requiredBoundedActor",
            reference(ProjectContentReferenceKind::InstantiatedBoundedEntityDefinition, "reference.trigger"),
        ));
        validate_gameplay(&vec![doc], &vec![schema()], &idx, 1)
    };
    assert!(with_bounds(true).is_empty());
    assert_eq!(
        with_bounds(false),
        vec![GameplayContentDiagnostic::UnknownValueReference { document: 0, configuration: 0, value: 1 }]
    );
}

#[test]
fn references_resolve_by_kind() {
    let idx = index();
    assert!(reference_exists_exec(ProjectContentReferenceKind::Asset, &"voxel:tunnel".to_owned(), &idx));
    assert!(reference_exists_exec(ProjectContentReferenceKind::Prefab, &"7".to_owned(), &idx));
    assert!(reference_exists_exec(ProjectContentReferenceKind::Prefab, &"+7".to_owned(), &idx));
    assert!(!reference_exists_exec(ProjectContentReferenceKind::Prefab, &"8".to_owned(), &idx));
    assert!(!reference_exists_exec(ProjectContentReferenceKind::Prefab, &"seven".to_owned(), &idx));
    assert!(reference_exists_exec(ProjectContentReferenceKind::PrefabPart, &"7:interaction/body".to_owned(), &idx));
    assert!(!reference_exists_exec(ProjectContentReferenceKind::PrefabPart, &"7:interaction".to_owned(), &idx));
    assert!(!reference_exists_exec(ProjectContentReferenceKind::PrefabPart, &"7".to_owned(), &idx));
    assert!(reference_exists_exec(ProjectContentReferenceKind::SceneInstance, &"reference.console.blue".to_owned(), &idx));
    assert!(reference_exists_exec(
        ProjectContentReferenceKind::EntrySceneFpsPlayerEntityDefinition,
        &"reference.trigger".to_owned(),
        &idx
    ));
    assert!(!reference_exists_exec(
        ProjectContentReferenceKind::EntrySceneFpsPlayerEntityDefinition,
        &"reference.console".to_owned(),
        &idx
    ));
    assert!(!reference_exists_exec(ProjectContentReferenceKind::PresentationResource, &"x".to_owned(), &idx));
}

#[test]
fn configuration_values_are_checked_against_their_fields() {
    let mut doc = document();
    doc.configurations[0].values = vec![
        value("cooldownTicks", ProjectConfigurationValue::Integer { value: 121 }),
        value("cooldownTicks", ProjectConfigurationValue::Integer { value: 1 }),
        value("label", ProjectConfigurationValue::String { value: "  ".to_owned() }),
        value("unknown", ProjectConfigurationValue::Boolean { value: true }),
        value("part", ProjectConfigurationValue::Boolean { value: true }),
    ];
    doc.configurations[0].provider_id = "other".to_owned();
    assert_eq!(
        check(&doc),
        vec![
            GameplayContentDiagnostic::ConfigurationProviderMismatch { document: 0, configuration: 0 },
            GameplayContentDiagnostic::ValueOutOfBounds { document: 0, configuration: 0, value: 0 },
            GameplayContentDiagnostic::DuplicateValue { document: 0, configuration: 0, value: 1 },
            GameplayContentDiagnostic::BlankString { document: 0, configuration: 0, value: 2 },
            GameplayContentDiagnostic::UndeclaredField { document: 0, configuration: 0, value: 3 },
            GameplayContentDiagnostic::ValueKindMismatch { document: 0, configuration: 0, value: 4 },
        ]
    );
    let mut missing = document();
    missing.configurations[0].values.clear();
    assert_eq!(
        check(&missing),
        vec![GameplayContentDiagnostic::MissingRequiredField { document: 0, configuration: 0, field: 0 }]
    );
}

#[test]
fn bindings_overrides_and_triggers_must_resolve() {
    let mut doc = document();
    doc.bindings.push(GameplayModuleBinding {
        binding_id: "console-binding".to_owned(),
        configuration_id: "absent".to_owned(),
        module_id: "reference.primary-action".to_owned(),
        target: GameplayModuleBindingTarget::Prefab { prefab: 9 },
    });
    doc.overrides.push(GameplayOverrideLayer {
        binding_id: "console-binding".to_owned(),
        scene_instance_id: "reference.trigger.instance".to_owned(),
        configuration_id: None,
    });
    doc.triggers.push(GameplayTriggerDefinition { scene_instance_id: "reference.trigger.instance".to_owned() });
    doc.triggers.push(GameplayTriggerDefinition { scene_instance_id: "reference.console.blue".to_owned() });
    assert_eq!(
        check(&doc),
        vec![
            GameplayContentDiagnostic::InvalidBindingId { document: 0, binding: 1 },
            GameplayContentDiagnostic::BindingIdAcrossProject { document: 0, binding: 1 },
            GameplayContentDiagnostic::UnknownBindingConfiguration { document: 0, binding: 1 },
            GameplayContentDiagnostic::UnknownBindingTarget { document: 0, binding: 1 },
            GameplayContentDiagnostic::OverridePrefabMismatch { document: 0, layer: 0 },
            GameplayContentDiagnostic::OverrideTargetNotPrefab { document: 0, layer: 1 },
            GameplayContentDiagnostic::DuplicateTrigger { document: 0, trigger: 1 },
            GameplayContentDiagnostic::TriggerTargetNotEntity { document: 0, trigger: 2 },
        ]
    );
}

#[test]
fn ids_are_unique_across_the_project() {
    let docs = vec![document(), document()];
    let mut two = document();
    two.schema_version = 2;
    let diagnostics = validate_gameplay(&docs, &vec![schema()], &index(), 1);
    assert_eq!(
        diagnostics,
        vec![
            GameplayContentDiagnostic::ConfigurationIdAcrossProject { document: 1, configuration: 0 },
            GameplayContentDiagnostic::BindingIdAcrossProject { document: 1, binding: 0 },
            GameplayContentDiagnostic::OverrideAcrossProject { document: 1, layer: 0 },
            GameplayContentDiagnostic::DuplicateTrigger { document: 1, trigger: 0 },
        ]
    );
    assert_eq!(
        validate_gameplay(&vec![two], &vec![schema()], &index(), 1),
        vec![GameplayContentDiagnostic::UnsupportedDocumentSchema { document: 0 }]
    );
}

#[test]
fn provider_schemas_need_identities_and_consistent_fields() {
    let mut bad = schema();
    bad.codec_id = " ".to_owned();
    bad.fields[1].reference_kind = Some(ProjectContentReferenceKind::Asset);
    bad.fields[2].field_id = "cooldownTicks".to_owned();
    bad.fields[0].integer_min = Some(200);
    let diagnostics = validate_configuration_schemas(&vec![schema(), bad, schema()]);
    assert_eq!(
        diagnostics,
        vec![
            SchemaDiagnostic::InvalidSchemaIdentity { schema: 1 },
            SchemaDiagnostic::InvalidFieldBounds { schema: 1, field: 0 },
            SchemaDiagnostic::MisplacedReferenceKind { schema: 1, field: 1 },
            SchemaDiagnostic::InvalidFieldIdentity { schema: 1, field: 2 },
            SchemaDiagnostic::InvalidSchemaIdentity { schema: 2 },
        ]
    );
    assert_eq!(diagnostics[1].code(), GameplayContentCode::InvalidField);
}
