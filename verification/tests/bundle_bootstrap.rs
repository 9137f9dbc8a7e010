use asha_services::bundle_bootstrap::{
    bind_project_bundle_entity_definitions, validate_project_bundle_bootstrap_request,
    AppliedCapability, BootstrapIssue, ProjectBundleBootstrapTarget,
    ProjectBundleEntityDefinitionBootstrapDiagnosticCode, ProjectBundleEntityDefinitionBootstrapEntry,
    ProjectBundleEntityDefinitionBootstrapRequest,
};
use asha_services::entity_definition::{
    CapabilityFacts, DefinitionProblem, EntityDefinitionDiagnosticCode, EntityDefinitionFacts,
};

fn minimal_entity_definition() -> EntityDefinitionFacts {
    EntityDefinitionFacts {
        stable_id: "actor/demo-player".to_owned(),
        display_name: "Demo Player".to_owned(),
        project_bundle: "asha-demo".to_owned(),
        relative_path: "catalogs/actors/demo-player.entity.json".to_owned(),
        capabilities: vec![CapabilityFacts::Transform { finite: true, zero_scale_axis: false }],
    }
}

fn target_entity_definition() -> EntityDefinitionFacts {
    EntityDefinitionFacts {
        stable_id: "actor/demo-target".to_owned(),
        display_name: "Demo Target".to_owned(),
        project_bundle: "asha-demo".to_owned(),
        relative_path: "catalogs/actors/demo-target.entity.json".to_owned(),
        capabilities: vec![
            CapabilityFacts::Transform { finite: true, zero_scale_axis: false },
            CapabilityFacts::Render,
            CapabilityFacts::Collision,
            CapabilityFacts::Bounds { finite: true, inverted: false },
        ],
    }
}

fn project_bundle_request(
    entries: Vec<(u64, EntityDefinitionFacts)>,
) -> ProjectBundleEntityDefinitionBootstrapRequest {
    ProjectBundleEntityDefinitionBootstrapRequest {
        project_bundle: "asha-demo".to_owned(),
        entries: entries
            .into_iter()
            .map(|(entity, definition)| ProjectBundleEntityDefinitionBootstrapEntry { entity, definition })
            .collect(),
    }
}

#[test]
fn project_bundle_bootstrap_preflight_rejects_invalid_batch_without_mutation() {
    let allocated = vec![7u64];
    let mut duplicate_definition = target_entity_definition();
    duplicate_definition.stable_id = "actor/demo-player".to_owned();
    let mut wrong_bundle_definition = target_entity_definition();
    wrong_bundle_definition.stable_id = "actor/wrong-bundle".to_owned();
    wrong_bundle_definition.project_bundle = "other-demo".to_owned();
    let mut invalid_definition = target_entity_definition();
    invalid_definition.stable_id = "actor/invalid".to_owned();
    invalid_definition
        .capabilities
        .push(CapabilityFacts::Unknown { capability_kind: "health".to_owned() });
    let request = project_bundle_request(vec![
        (7, minimal_entity_definition()),
        (8, duplicate_definition),
        (8, wrong_bundle_definition),
        (9, invalid_definition),
    ]);

    let diagnostics =
        validate_project_bundle_bootstrap_request(&allocated, &request, ProjectBundleBootstrapTarget::Create);
    assert!(!diagnostics.is_empty());
    let codes: Vec<ProjectBundleEntityDefinitionBootstrapDiagnosticCode> =
        diagnostics.iter().map(|d| d.issue.code()).collect();
    assert!(codes.contains(&ProjectBundleEntityDefinitionBootstrapDiagnosticCode::RuntimeEntityAlreadyExists));
    assert!(codes.contains(&ProjectBundleEntityDefinitionBootstrapDiagnosticCode::DuplicateDefinitionStableId));
    assert!(codes.contains(&ProjectBundleEntityDefinitionBootstrapDiagnosticCode::DuplicateRuntimeEntity));
    assert!(codes.contains(&ProjectBundleEntityDefinitionBootstrapDiagnosticCode::SourceProjectBundleMismatch));
    assert!(diagnostics.iter().any(|d| d
        .definition_diagnostics
        .iter()
        .any(|nested| nested.code() == EntityDefinitionDiagnosticCode::UnknownCapability)));
    let issues: Vec<BootstrapIssue> = diagnostics.iter().map(|d| d.issue).collect();
    assert_eq!(
        issues,
        vec![
            BootstrapIssue::RuntimeEntityAlreadyExists { index: 0 },
            BootstrapIssue::DuplicateDefinitionStableId { index: 1 },
            BootstrapIssue::SourceProjectBundleMismatch { index: 2 },
            BootstrapIssue::DuplicateRuntimeEntity { index: 2 },
            BootstrapIssue::DefinitionInvalid { index: 3 },
        ]
    );
    assert_eq!(
        diagnostics[4].definition_diagnostics,
        vec![DefinitionProblem::UnknownCapability { index: 4 }]
    );
}

#[test]
fn empty_batch_without_bundle_reports_both() {
    let request = ProjectBundleEntityDefinitionBootstrapRequest {
        project_bundle: " ".to_owned(),
        entries: Vec::new(),
    };
    let issues: Vec<BootstrapIssue> =
        validate_project_bundle_bootstrap_request(&[], &request, ProjectBundleBootstrapTarget::Create)
            .iter()
            .map(|d| d.issue)
            .collect();
    assert_eq!(issues, vec![BootstrapIssue::MissingProjectBundle, BootstrapIssue::EmptyDefinitions]);
}

#[test]
fn valid_batch_passes_preflight_for_create() {
    let request = project_bundle_request(vec![
        (77, minimal_entity_definition()),
        (78, target_entity_definition()),
    ]);
    assert!(validate_project_bundle_bootstrap_request(&[1, 2], &request, ProjectBundleBootstrapTarget::Create)
        .is_empty());
}

#[test]
fn binding_requires_existing_entities() {
    let request = project_bundle_request(vec![
        (77, minimal_entity_definition()),
        (78, target_entity_definition()),
    ]);
    let Err(diagnostics) = bind_project_bundle_entity_definitions(&[77], 5, &request) else {
        panic!("binding to a missing entity must fail");
    };
    assert_eq!(diagnostics.len(), 1);
    assert_eq!(diagnostics[0].issue, BootstrapIssue::RuntimeEntityMissing { index: 1 });
    assert_eq!(
        diagnostics[0].issue.code(),
        ProjectBundleEntityDefinitionBootstrapDiagnosticCode::RuntimeEntityMissing
    );
}

#[test]
fn binding_reads_out_base_capabilities() {
    let request = project_bundle_request(vec![
        (77, minimal_entity_definition()),
        (78, target_entity_definition()),
    ]);
    let record = bind_project_bundle_entity_definitions(&[78, 77], 41, &request).unwrap();
    assert_eq!(record.project_bundle, "asha-demo");
    assert_eq!(record.entity_hash, 41);
    assert_eq!(record.replay_unit_label, "project_bundle.entity_definitions.canonical_binding");
    assert_eq!(record.records.len(), 2);
    assert_eq!(record.records[0].stable_id, "actor/demo-player");
    assert_eq!(record.records[0].entity, 77);
    assert_eq!(record.records[1].display_name, "Demo Target");
    assert_eq!(record.records[1].relative_path, "catalogs/actors/demo-target.entity.json");
    assert_eq!(record.records[1].replay_unit_label, "entity_definition.canonical_binding");
    assert_eq!(record.records[1].entity_hash, 41);
    assert_eq!(
        record.records[1].applied_capabilities,
        vec![AppliedCapability::Transform, AppliedCapability::Collision, AppliedCapability::Bounds]
    );
    let labels: Vec<&str> = record.records[1].applied_capabilities.iter().map(|c| c.label()).collect();
    assert_eq!(labels, vec!["transform", "collision", "bounds"]);
}
