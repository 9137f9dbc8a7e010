use asha_services::authoring::{
    apply_authoring, state_is_well_formed, source_path_map, DocumentSource, SourcePathProblem, resolve_appearance_update, AppearanceChange, AppearanceDocuments, AppearanceProblem,
    AppearanceUpdate, AuthoringCode, AuthoringCommand, AuthoringRejection, AuthoringRequest, AuthoringState,
    DocumentKey, EntityDocument, ProjectContentDocumentKind, SourcePathEntry,
};
use asha_services::entity_definition::{AppearanceFacts, CapabilityFacts};
use asha_services::presentation::{
    AnimatedMeshDescriptor, AnimationClip, PresentationResource, ProjectPresentationResourceKind,
};

fn key(kind: ProjectContentDocumentKind, id: &str) -> DocumentKey {
    DocumentKey { kind, document_id: id.to_owned() }
}

fn state() -> AuthoringState {
    AuthoringState {
        set_hash: "fnv1a64:00000000000000aa".to_owned(),
        reference_revision: 0,
        documents: vec![
            key(ProjectContentDocumentKind::EntityDefinition, "entities/reference-trigger.json"),
            key(ProjectContentDocumentKind::PresentationCatalog, "presentation/reference-cues.json"),
        ],
        source_paths: vec![
            SourcePathEntry {
                key: key(ProjectContentDocumentKind::EntityDefinition, "entities/reference-trigger.json"),
                source_path: "content/entities/reference-trigger.json".to_owned(),
            },
            SourcePathEntry {
                key: key(ProjectContentDocumentKind::PresentationCatalog, "presentation/reference-cues.json"),
                source_path: "content/presentation/reference-cues.json".to_owned(),
            },
        ],
    }
}

fn mesh(id: &str, clips: &[&str], default_clip: Option<&str>) -> PresentationResource {
    PresentationResource {
        resource_id: id.to_owned(),
        kind: ProjectPresentationResourceKind::AnimatedMesh,
        asset_id: format!("mesh/{id}"),
        source_path: "meshes/character.glb".to_owned(),
        content_hash: "fnv1a64:0000000000000001".to_owned(),
        animated_mesh: Some(AnimatedMeshDescriptor {
            asset: format!("mesh/{id}"),
            content_hash: None,
            clips: clips.iter().map(|c| AnimationClip { id: (*c).to_owned(), duration_valid: true }).collect(),
            default_clip: default_clip.map(|c| c.to_owned()),
            material_slots: Vec::new(),
            bounds_valid: true,
        }),
    }
}

fn audio(id: &str) -> PresentationResource {
    PresentationResource {
        resource_id: id.to_owned(),
        kind: ProjectPresentationResourceKind::Audio,
        asset_id: "audio/confirm".to_owned(),
        source_path: "audio/confirm.ogg".to_owned(),
        content_hash: "fnv1a64:0000000000000002".to_owned(),
        animated_mesh: None,
    }
}

fn appearance_documents(binding: Option<AppearanceFacts>) -> AppearanceDocuments {
    AppearanceDocuments {
        catalogs: vec![vec![
            mesh("reference.character.mesh", &["idle", "walk"], Some("idle")),
            audio("reference.confirm.audio"),
        ]],
        entities: vec![EntityDocument {
            document_id: "entities/reference-trigger.json".to_owned(),
            capabilities: vec![
                CapabilityFacts::Render,
                CapabilityFacts::RenderProjection {
                    projection_id: "reference.trigger.appearance".to_owned(),
                    appearance: binding,
                },
            ],
        }],
    }
}

fn bound(clip: Option<&str>) -> Option<AppearanceFacts> {
    Some(AppearanceFacts {
        resource_id: "reference.character.mesh".to_owned(),
        initial_clip_id: clip.map(|c| c.to_owned()),
        model_scale_positive: true,
    })
}

fn request(command: AuthoringCommand) -> AuthoringRequest {
    AuthoringRequest { expected_set_hash: "fnv1a64:00000000000000aa".to_owned(), command }
}

#[test]
fn stale_authoring_rejects_before_returning_a_save_candidate() {
    let stale = AuthoringRequest {
        expected_set_hash: "fnv1a64:stale".to_owned(),
        command: AuthoringCommand::Delete {
            document_id: "presentation/reference-cues.json".to_owned(),
            document_kind: ProjectContentDocumentKind::PresentationCatalog,
        },
    };
    let result = apply_authoring(&state(), &stale, 0, &appearance_documents(None));
    let rejection = result.expect_err("stale request");
    assert_eq!(rejection, AuthoringRejection::StaleRevision);
    assert_eq!(rejection.code(), AuthoringCode::StaleRevision);
}

#[test]
fn a_changed_reference_revision_is_stale_too() {
    let delete = request(AuthoringCommand::Delete {
        document_id: "presentation/reference-cues.json".to_owned(),
        document_kind: ProjectContentDocumentKind::PresentationCatalog,
    });
    let result = apply_authoring(&state(), &delete, 1, &appearance_documents(None));
    assert_eq!(result, Err(AuthoringRejection::StaleRevision));
}

#[test]
fn upsert_replaces_the_document_and_moves_it_last() {
    let upsert = request(AuthoringCommand::Upsert {
        source_path: "content/entities/reference-trigger.json".to_owned(),
        document: key(ProjectContentDocumentKind::EntityDefinition, "entities/reference-trigger.json"),
    });
    let edit = apply_authoring(&state(), &upsert, 0, &appearance_documents(None)).expect("accepted");
    assert_eq!(
        edit.documents,
        vec![
            key(ProjectContentDocumentKind::PresentationCatalog, "presentation/reference-cues.json"),
            key(ProjectContentDocumentKind::EntityDefinition, "entities/reference-trigger.json"),
        ]
    );
    assert_eq!(edit.source_paths.len(), 2);
    assert_eq!(edit.source_paths[1].source_path, "content/entities/reference-trigger.json");
    assert!(edit.appearance.is_none());
}

#[test]
fn upsert_of_a_new_document_then_delete_restores_the_set() {
    let new_key = key(ProjectContentDocumentKind::InputCatalog, "input/actions.json");
    let upsert = request(AuthoringCommand::Upsert {
        source_path: "content/input/actions.json".to_owned(),
        document: new_key.clone(),
    });
    let edit = apply_authoring(&state(), &upsert, 0, &appearance_documents(None)).expect("accepted");
    assert_eq!(edit.documents.len(), 3);
    assert_eq!(edit.documents[2], new_key);
    let next = AuthoringState {
        set_hash: "fnv1a64:00000000000000bb".to_owned(),
        reference_revision: 0,
        documents: edit.documents,
        source_paths: edit.source_paths,
    };
    let delete = AuthoringRequest {
        expected_set_hash: "fnv1a64:00000000000000bb".to_owned(),
        command: AuthoringCommand::Delete { document_id: "input/actions.json".to_owned(), document_kind: ProjectContentDocumentKind::InputCatalog },
    };
    let restored = apply_authoring(&next, &delete, 0, &appearance_documents(None)).expect("accepted");
    assert_eq!(restored.documents, state().documents);
    assert_eq!(restored.source_paths, state().source_paths);
}

#[test]
fn upsert_refuses_an_invalid_or_taken_source_path() {
    let invalid = request(AuthoringCommand::Upsert {
        source_path: "/abs/path.json".to_owned(),
        document: key(ProjectContentDocumentKind::InputCatalog, "input/actions.json"),
    });
    let rejection = apply_authoring(&state(), &invalid, 0, &appearance_documents(None)).expect_err("invalid path");
    assert_eq!(rejection, AuthoringRejection::InvalidSourcePath);
    assert_eq!(rejection.code(), AuthoringCode::InvalidField);

    let taken = request(AuthoringCommand::Upsert {
        source_path: "content/presentation/reference-cues.json".to_owned(),
        document: key(ProjectContentDocumentKind::InputCatalog, "input/actions.json"),
    });
    let rejection = apply_authoring(&state(), &taken, 0, &appearance_documents(None)).expect_err("taken path");
    assert_eq!(
        rejection,
        AuthoringRejection::SourcePathOwned { owner_document_id: "presentation/reference-cues.json".to_owned() }
    );
    assert_eq!(rejection.code(), AuthoringCode::DuplicateDocument);
}

#[test]
fn delete_of_an_unknown_document_is_an_unknown_reference() {
    // Same id, other kind: not the same document.
    let delete = request(AuthoringCommand::Delete {
        document_id: "presentation/reference-cues.json".to_owned(),
        document_kind: ProjectContentDocumentKind::AssetCatalog,
    });
    let rejection = apply_authoring(&state(), &delete, 0, &appearance_documents(None)).expect_err("unknown");
    assert_eq!(rejection, AuthoringRejection::UnknownDocument);
    assert_eq!(rejection.code(), AuthoringCode::UnknownReference);
}

#[test]
fn delete_drops_the_document_and_its_source_path() {
    let delete = request(AuthoringCommand::Delete {
        document_id: "presentation/reference-cues.json".to_owned(),
        document_kind: ProjectContentDocumentKind::PresentationCatalog,
    });
    let edit = apply_authoring(&state(), &delete, 0, &appearance_documents(None)).expect("accepted");
    assert_eq!(edit.documents, vec![key(ProjectContentDocumentKind::EntityDefinition, "entities/reference-trigger.json")]);
    assert_eq!(edit.source_paths.len(), 1);
    assert_eq!(edit.source_paths[0].source_path, "content/entities/reference-trigger.json");
}

#[test]
fn entity_appearance_updates_resolve_against_the_set() {
    let clear_clip = request(AuthoringCommand::UpdateEntityAppearance {
        document_id: "entities/reference-trigger.json".to_owned(),
        projection_id: "reference.trigger.appearance".to_owned(),
        update: AppearanceUpdate::InitialClip { initial_clip_id: None },
    });
    let edit = apply_authoring(&state(), &clear_clip, 0, &appearance_documents(bound(Some("walk")))).expect("accepted");
    assert_eq!(edit.documents, state().documents);
    let appearance = edit.appearance.expect("appearance edit");
    assert_eq!((appearance.entity, appearance.capability), (0, 1));
    assert_eq!(appearance.change, AppearanceChange::SetInitialClip { initial_clip_id: None });

    let audio_resource = request(AuthoringCommand::UpdateEntityAppearance {
        document_id: "entities/reference-trigger.json".to_owned(),
        projection_id: "reference.trigger.appearance".to_owned(),
        update: AppearanceUpdate::Resource { resource_id: "reference.confirm.audio".to_owned() },
    });
    let rejection = apply_authoring(&state(), &audio_resource, 0, &appearance_documents(bound(None))).expect_err("audio");
    assert_eq!(rejection, AuthoringRejection::Appearance(AppearanceProblem::ResourceNotAnimatedMesh));
    assert_eq!(rejection.code(), AuthoringCode::InvalidField);
}

#[test]
fn rebinding_keeps_a_clip_the_mesh_has_and_else_takes_its_default() {
    let docs = appearance_documents(bound(Some("walk")));
    let update = AppearanceUpdate::Resource { resource_id: "reference.character.mesh".to_owned() };
    let edit = resolve_appearance_update(
        &docs.catalogs,
        &docs.entities,
        &"entities/reference-trigger.json".to_owned(),
        &"reference.trigger.appearance".to_owned(),
        &update,
    )
    .expect("accepted");
    assert_eq!(
        edit.change,
        AppearanceChange::Bind {
            resource_id: "reference.character.mesh".to_owned(),
            initial_clip_id: Some("walk".to_owned()),
            keep_model_scale: true,
        }
    );

    let docs = appearance_documents(bound(Some("run")));
    let edit = resolve_appearance_update(
        &docs.catalogs,
        &docs.entities,
        &"entities/reference-trigger.json".to_owned(),
        &"reference.trigger.appearance".to_owned(),
        &update,
    )
    .expect("accepted");
    assert_eq!(
        edit.change,
        AppearanceChange::Bind {
            resource_id: "reference.character.mesh".to_owned(),
            initial_clip_id: Some("idle".to_owned()),
            keep_model_scale: true,
        }
    );

    let docs = appearance_documents(None);
    let edit = resolve_appearance_update(
        &docs.catalogs,
        &docs.entities,
        &"entities/reference-trigger.json".to_owned(),
        &"reference.trigger.appearance".to_owned(),
        &update,
    )
    .expect("accepted");
    assert_eq!(
        edit.change,
        AppearanceChange::Bind {
            resource_id: "reference.character.mesh".to_owned(),
            initial_clip_id: Some("idle".to_owned()),
            keep_model_scale: false,
        }
    );
}

#[test]
fn appearance_edits_need_the_definition_projection_and_a_binding() {
    let docs = appearance_documents(None);
    let resolve = |document_id: &str, projection_id: &str, update: AppearanceUpdate| {
        resolve_appearance_update(
            &docs.catalogs,
            &docs.entities,
            &document_id.to_owned(),
            &projection_id.to_owned(),
            &update,
        )
    };
    let clip = || AppearanceUpdate::InitialClip { initial_clip_id: Some("idle".to_owned()) };
    assert_eq!(
        resolve("entities/other.json", "reference.trigger.appearance", clip()),
        Err(AppearanceProblem::UnknownEntityDefinition)
    );
    assert_eq!(
        resolve("entities/reference-trigger.json", "other.projection", clip()),
        Err(AppearanceProblem::UnknownProjection)
    );
    assert_eq!(
        resolve("entities/reference-trigger.json", "reference.trigger.appearance", clip()),
        Err(AppearanceProblem::ClipWithoutBinding)
    );
    assert_eq!(
        resolve(
            "entities/reference-trigger.json",
            "reference.trigger.appearance",
            AppearanceUpdate::ModelScale { axis: 3, value_in_range: true }
        ),
        Err(AppearanceProblem::ModelScaleOutOfRange)
    );
    assert_eq!(
        resolve(
            "entities/reference-trigger.json",
            "reference.trigger.appearance",
            AppearanceUpdate::ModelScale { axis: 1, value_in_range: true }
        ),
        Err(AppearanceProblem::ScaleWithoutBinding)
    );
    // The resource is checked before the definition.
    assert_eq!(
        resolve(
            "entities/other.json",
            "reference.trigger.appearance",
            AppearanceUpdate::Resource { resource_id: "missing".to_owned() }
        ),
        Err(AppearanceProblem::ResourceNotAnimatedMesh)
    );
    let docs = appearance_documents(bound(None));
    let edit = resolve_appearance_update(
        &docs.catalogs,
        &docs.entities,
        &"entities/reference-trigger.json".to_owned(),
        &"reference.trigger.appearance".to_owned(),
        &AppearanceUpdate::ModelScale { axis: 2, value_in_range: true },
    )
    .expect("accepted");
    assert_eq!(edit.change, AppearanceChange::SetModelScale { axis: 2 });
}

fn source(kind: ProjectContentDocumentKind, id: &str, path: &str) -> DocumentSource {
    DocumentSource { kind, document_id: id.to_owned(), source_path: path.to_owned() }
}

#[test]
fn source_paths_map_each_document_once() {
    let sources = vec![
        source(ProjectContentDocumentKind::EntityDefinition, "entities/a.json", "content/a.json"),
        source(ProjectContentDocumentKind::PresentationCatalog, "presentation/p.json", "content/p.json"),
        source(ProjectContentDocumentKind::EntityDefinition, "entities/a.json", "content/a2.json"),
    ];
    let map = source_path_map(&sources).expect("valid sources");
    assert_eq!(map.len(), 2);
    assert_eq!(map[0].source_path, "content/p.json");
    assert_eq!(map[1].key, key(ProjectContentDocumentKind::EntityDefinition, "entities/a.json"));
    assert_eq!(map[1].source_path, "content/a2.json");
}

#[test]
fn invalid_and_duplicate_source_paths_are_reported_in_order() {
    let sources = vec![
        source(ProjectContentDocumentKind::EntityDefinition, "entities/a.json", "content/a.json"),
        source(ProjectContentDocumentKind::AssetCatalog, "assets/c.json", "content/../c.json"),
        source(ProjectContentDocumentKind::PrefabRegistry, "prefabs/r.json", "content/a.json"),
        source(ProjectContentDocumentKind::InputCatalog, "input/i.json", "content/./i.json"),
    ];
    assert_eq!(
        source_path_map(&sources),
        Err(vec![
            SourcePathProblem::InvalidPath { index: 1 },
            SourcePathProblem::DuplicatePath { index: 2 },
            SourcePathProblem::InvalidPath { index: 3 },
        ])
    );
}

#[test]
fn well_formedness_of_a_set_can_be_checked_before_authoring() {
    assert!(state_is_well_formed(&state()));
    let mut repeated = state();
    repeated.documents.push(repeated.documents[0].clone());
    assert!(!state_is_well_formed(&repeated));
    let mut shared = state();
    let path = shared.source_paths[0].source_path.clone();
    shared.source_paths[1].source_path = path;
    assert!(!state_is_well_formed(&shared));
}
