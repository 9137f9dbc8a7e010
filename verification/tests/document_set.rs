use asha_services::authoring::{DocumentKey, ProjectContentDocumentKind, SourcePathEntry};
use asha_services::content::{document_set_hash, CanonicalFileKey};
use asha_services::document_set::{
    stage_encode, EncodeRefusal,
    assign_source_paths, document_key_problems, sort_document_keys, PathAssignmentProblem,
};

fn key(kind: ProjectContentDocumentKind, id: &str) -> DocumentKey {
    DocumentKey { kind, document_id: id.to_owned() }
}

fn entry(kind: ProjectContentDocumentKind, id: &str, path: &str) -> SourcePathEntry {
    SourcePathEntry { key: key(kind, id), source_path: path.to_owned() }
}

#[test]
fn documents_sort_by_kind_then_id() {
    let sorted = sort_document_keys(vec![
        key(ProjectContentDocumentKind::InputCatalog, "input/a"),
        key(ProjectContentDocumentKind::EntityDefinition, "entities/b"),
        key(ProjectContentDocumentKind::EntityDefinition, "entities/a"),
        key(ProjectContentDocumentKind::AssetCatalog, "assets"),
    ]);
    assert_eq!(
        sorted,
        vec![
            key(ProjectContentDocumentKind::EntityDefinition, "entities/a"),
            key(ProjectContentDocumentKind::EntityDefinition, "entities/b"),
            key(ProjectContentDocumentKind::AssetCatalog, "assets"),
            key(ProjectContentDocumentKind::InputCatalog, "input/a"),
        ]
    );
}

#[test]
fn blank_and_repeated_ids_are_reported_in_canonical_order() {
    let (sorted, problems) = document_key_problems(vec![
        key(ProjectContentDocumentKind::AssetCatalog, "assets"),
        key(ProjectContentDocumentKind::EntityDefinition, "  "),
        key(ProjectContentDocumentKind::AssetCatalog, "assets"),
        key(ProjectContentDocumentKind::EntityDefinition, "entities/a"),
        key(ProjectContentDocumentKind::PrefabRegistry, "assets"),
    ]);
    assert_eq!(sorted.len(), 5);
    assert_eq!(problems, vec!["  ".to_owned(), "assets".to_owned()]);
}

#[test]
fn distinct_ids_have_no_problems() {
    let (_, problems) = document_key_problems(vec![
        key(ProjectContentDocumentKind::AssetCatalog, "assets"),
        key(ProjectContentDocumentKind::PrefabRegistry, "assets"),
    ]);
    assert!(problems.is_empty());
}

#[test]
fn every_file_gets_its_retained_path() {
    let files = vec![
        key(ProjectContentDocumentKind::EntityDefinition, "e"),
        key(ProjectContentDocumentKind::AssetCatalog, "a"),
    ];
    let sources = vec![
        entry(ProjectContentDocumentKind::AssetCatalog, "a", "assets.json"),
        entry(ProjectContentDocumentKind::EntityDefinition, "e", "entities/e.json"),
    ];
    assert_eq!(
        assign_source_paths(&files, &sources),
        Ok(vec!["entities/e.json".to_owned(), "assets.json".to_owned()])
    );
}

#[test]
fn missing_and_shared_paths_are_reported() {
    let files = vec![
        key(ProjectContentDocumentKind::EntityDefinition, "e"),
        key(ProjectContentDocumentKind::EntityDefinition, "f"),
        key(ProjectContentDocumentKind::EntityDefinition, "g"),
        key(ProjectContentDocumentKind::AssetCatalog, "a"),
    ];
    let sources = vec![
        entry(ProjectContentDocumentKind::EntityDefinition, "e", "shared.json"),
        entry(ProjectContentDocumentKind::EntityDefinition, "f", "shared.json"),
        entry(ProjectContentDocumentKind::EntityDefinition, "g", "shared.json"),
    ];
    assert_eq!(
        assign_source_paths(&files, &sources),
        Err(vec![
            PathAssignmentProblem::PathTaken { index: 1, owner: 0 },
            PathAssignmentProblem::PathTaken { index: 2, owner: 1 },
            PathAssignmentProblem::MissingPath { index: 3 },
        ])
    );
}

#[test]
fn encoding_refuses_stage_by_stage_and_hashes_only_a_clean_set() {
    let docs = vec![
        key(ProjectContentDocumentKind::AssetCatalog, "a"),
        key(ProjectContentDocumentKind::EntityDefinition, "e"),
    ];
    let files = vec![
        key(ProjectContentDocumentKind::EntityDefinition, "e"),
        key(ProjectContentDocumentKind::AssetCatalog, "a"),
    ];
    let hashes = vec!["fnv1a64:0000000000000001".to_owned(), "fnv1a64:0000000000000002".to_owned()];

    let repeated = vec![
        key(ProjectContentDocumentKind::AssetCatalog, "a"),
        key(ProjectContentDocumentKind::AssetCatalog, "a"),
    ];
    assert_eq!(
        stage_encode(repeated, 3, &files, &hashes, None),
        Err(EncodeRefusal::DocumentKeys { ids: vec!["a".to_owned()] })
    );
    assert_eq!(stage_encode(docs.clone(), 1, &files, &hashes, None), Err(EncodeRefusal::Validation));

    let partial = vec![entry(ProjectContentDocumentKind::AssetCatalog, "a", "assets.json")];
    assert_eq!(
        stage_encode(docs.clone(), 0, &files, &hashes, Some(&partial)),
        Err(EncodeRefusal::SourcePaths { problems: vec![PathAssignmentProblem::MissingPath { index: 0 }] })
    );

    let sources = vec![
        entry(ProjectContentDocumentKind::AssetCatalog, "a", "assets.json"),
        entry(ProjectContentDocumentKind::EntityDefinition, "e", "entities/e.json"),
    ];
    let encoded = stage_encode(docs, 0, &files, &hashes, Some(&sources)).expect("clean set");
    assert_eq!(encoded.documents[0], key(ProjectContentDocumentKind::EntityDefinition, "e"));
    let expected = document_set_hash(&[
        CanonicalFileKey {
            source_path: Some("entities/e.json".to_owned()),
            document_id: "e".to_owned(),
            content_hash: hashes[0].clone(),
        },
        CanonicalFileKey {
            source_path: Some("assets.json".to_owned()),
            document_id: "a".to_owned(),
            content_hash: hashes[1].clone(),
        },
    ]);
    assert_eq!(encoded.set_hash, expected);
}
