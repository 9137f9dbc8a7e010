use asha_services::gameplay_content::SceneInstanceTarget;
use asha_services::scene_index::{
    index_scenes, transform_chain_supported, FlatScene, PrefabRegistryFacts, SceneEntityReference,
    SceneIndexCode, SceneIndexDiagnostic, SceneNodeFacts, SceneNodeKind,
};

fn marker(id: u64, marker_id: &str) -> SceneNodeFacts {
    SceneNodeFacts {
        id,
        parent: None,
        transform_supported: true,
        kind: SceneNodeKind::Marker { marker_id: marker_id.to_owned() },
    }
}

fn definition_instance(id: u64, parent: Option<u64>, instance_id: &str, spawn: Option<&str>) -> SceneNodeFacts {
    SceneNodeFacts {
        id,
        parent,
        transform_supported: true,
        kind: SceneNodeKind::EntityInstance {
            instance_id: instance_id.to_owned(),
            spawn_marker_id: spawn.map(|s| s.to_owned()),
            reference: SceneEntityReference::EntityDefinition { stable_id: "actor/door".to_owned() },
        },
    }
}

fn prefab_instance(id: u64, instance_id: &str, prefab_id: u64, variant: Option<&str>) -> SceneNodeFacts {
    SceneNodeFacts {
        id,
        parent: None,
        transform_supported: true,
        kind: SceneNodeKind::EntityInstance {
            instance_id: instance_id.to_owned(),
            spawn_marker_id: None,
            reference: SceneEntityReference::Prefab { prefab_id, variant_id: variant.map(|v| v.to_owned()) },
        },
    }
}

fn group(id: u64, parent: Option<u64>, supported: bool) -> SceneNodeFacts {
    SceneNodeFacts { id, parent, transform_supported: supported, kind: SceneNodeKind::Other }
}

fn registry() -> PrefabRegistryFacts {
    PrefabRegistryFacts { base_prefabs: vec![7], variants: vec![(7, "red".to_owned())] }
}

#[test]
fn well_formed_scenes_index_every_instance_in_order() {
    let scenes = vec![
        FlatScene {
            id: 1,
            nodes: vec![
                marker(10, "spawn/a"),
                definition_instance(11, None, "door-1", Some("spawn/a")),
                prefab_instance(12, "crate-1", 7, Some("red")),
            ],
        },
        FlatScene { id: 2, nodes: vec![prefab_instance(20, "crate-2", 7, None)] },
    ];
    let (diagnostics, records) = index_scenes(&scenes, &registry());
    assert!(diagnostics.is_empty());
    assert_eq!(records.len(), 3);
    assert_eq!(records[0].scene_instance_id, "door-1");
    assert_eq!(records[0].scene_id, 1);
    assert_eq!(
        records[0].target,
        SceneInstanceTarget::EntityDefinition { stable_id: "actor/door".to_owned(), transform_ok: true }
    );
    assert_eq!(records[1].target, SceneInstanceTarget::Prefab { prefab_id: 7 });
    assert_eq!(records[2].scene_instance_id, "crate-2");
    assert_eq!(records[2].scene_id, 2);
}

#[test]
fn blank_and_duplicate_marker_ids_are_invalid_documents() {
    let scenes = vec![FlatScene { id: 1, nodes: vec![marker(1, " "), marker(2, "m"), marker(3, "m")] }];
    let (diagnostics, records) = index_scenes(&scenes, &registry());
    assert_eq!(
        diagnostics,
        vec![
            SceneIndexDiagnostic::InvalidMarkerId { scene: 0, node: 0 },
            SceneIndexDiagnostic::InvalidMarkerId { scene: 0, node: 2 },
        ]
    );
    assert_eq!(diagnostics[0].code(), SceneIndexCode::InvalidDocument);
    assert!(records.is_empty());
}

#[test]
fn a_marker_id_may_repeat_in_another_scene() {
    let scenes = vec![
        FlatScene { id: 1, nodes: vec![marker(1, "m")] },
        FlatScene { id: 2, nodes: vec![marker(1, "m")] },
    ];
    let (diagnostics, _) = index_scenes(&scenes, &registry());
    assert!(diagnostics.is_empty());
}

#[test]
fn instance_id_taken_in_an_earlier_scene_keeps_the_instance_out() {
    let scenes = vec![
        FlatScene { id: 1, nodes: vec![definition_instance(1, None, "door-1", None)] },
        FlatScene {
            id: 2,
            nodes: vec![definition_instance(1, None, "door-1", Some("nowhere")), definition_instance(2, None, "", None)],
        },
    ];
    let (diagnostics, records) = index_scenes(&scenes, &registry());
    // A taken or blank id is reported alone; the unknown spawn marker of the
    // taken instance is not checked.
    assert_eq!(
        diagnostics,
        vec![
            SceneIndexDiagnostic::InvalidInstanceId { scene: 1, node: 0 },
            SceneIndexDiagnostic::InvalidInstanceId { scene: 1, node: 1 },
        ]
    );
    assert_eq!(records.len(), 1);
    assert_eq!(records[0].scene_id, 1);
}

#[test]
fn unknown_spawn_marker_base_prefab_and_variant_are_unknown_references() {
    let scenes = vec![FlatScene {
        id: 1,
        nodes: vec![
            marker(1, "spawn/a"),
            definition_instance(2, None, "door-1", Some("spawn/b")),
            prefab_instance(3, "crate-1", 8, Some("red")),
            prefab_instance(4, "crate-2", 7, Some("blue")),
        ],
    }];
    let (diagnostics, records) = index_scenes(&scenes, &registry());
    assert_eq!(
        diagnostics,
        vec![
            SceneIndexDiagnostic::UnknownSpawnMarker { scene: 0, node: 1 },
            SceneIndexDiagnostic::UnknownBasePrefab { scene: 0, node: 2 },
            SceneIndexDiagnostic::UnknownVariant { scene: 0, node: 2 },
            SceneIndexDiagnostic::UnknownVariant { scene: 0, node: 3 },
        ]
    );
    assert!(diagnostics.iter().all(|d| d.code() == SceneIndexCode::UnknownReference));
    // Unknown references do not keep an instance out of the index.
    assert_eq!(records.len(), 3);
}

#[test]
fn spawn_marker_declared_later_in_the_scene_is_known() {
    let scenes = vec![FlatScene {
        id: 1,
        nodes: vec![definition_instance(1, None, "door-1", Some("spawn/a")), marker(2, "spawn/a")],
    }];
    let (diagnostics, _) = index_scenes(&scenes, &registry());
    assert!(diagnostics.is_empty());
}

#[test]
fn transform_chain_follows_parents_to_the_root() {
    let nodes = vec![group(1, None, true), group(2, Some(1), true), definition_instance(3, Some(2), "door-1", None)];
    assert!(transform_chain_supported(&nodes, 2));
    let nodes = vec![group(1, None, false), group(2, Some(1), true), definition_instance(3, Some(2), "door-1", None)];
    assert!(!transform_chain_supported(&nodes, 2));
}

#[test]
fn transform_chain_with_a_cycle_or_a_missing_parent_is_unsupported() {
    let nodes = vec![group(1, Some(3), true), group(2, Some(1), true), definition_instance(3, Some(2), "door-1", None)];
    assert!(!transform_chain_supported(&nodes, 2));
    let nodes = vec![definition_instance(3, Some(9), "door-1", None)];
    assert!(transform_chain_supported(&nodes, 0));
}

#[test]
fn indexed_definition_instance_records_its_transform_chain() {
    let scenes = vec![FlatScene {
        id: 4,
        nodes: vec![group(1, None, false), definition_instance(2, Some(1), "door-1", None)],
    }];
    let (_, records) = index_scenes(&scenes, &registry());
    assert_eq!(
        records[0].target,
        SceneInstanceTarget::EntityDefinition { stable_id: "actor/door".to_owned(), transform_ok: false }
    );
}
