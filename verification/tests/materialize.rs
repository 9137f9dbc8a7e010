use asha_services::materialize::{artifact_set_preimage, candidate_preimage};
use asha_services::environment::{EnvironmentRequest, MarkerTarget, SceneNodeFacts, StoredRecipe};
use asha_services::materialize::{stage_materialization, MaterializationRefusal};
use asha_services::levelgen::TUNNEL_GENERATOR_ID;
use asha_services::materialize::{
    generated_provenance_uri, generation_limit_problems, place_generated_volume, GenerationCounts, GenerationLimit,
    KeptNode, PlacementNode, PlacementNodeKind, MAX_GENERATED_MARKERS,
};
use asha_services::provenance::parse_stored_generated_recipe;

fn marker(source: &str, id: &str, node: u64) -> MarkerTarget {
    MarkerTarget { source_marker_id: source.to_owned(), marker_id: id.to_owned(), node_id: node }
}

fn request() -> EnvironmentRequest {
    EnvironmentRequest {
        provider_id: TUNNEL_GENERATOR_ID.to_owned(),
        preset_id: "tiny-enclosed".to_owned(),
        seed: 17,
        max_voxels: 1_000_000,
        max_sparse_runs: 65_536,
        max_markers: 128,
        scene_path: "scenes/main.scene.json".to_owned(),
        asset_id: "voxel:tunnel".to_owned(),
        asset_path: "assets/tunnel.voxel.json".to_owned(),
        voxel_node_id: 10,
        voxel_parent_id: None,
        marker_targets: vec![marker("player_start", "spawn", 11), marker("exit_hint", "exit", 12)],
        asset_id_is_voxel_volume: true,
        transform_valid: true,
        replacement_asset: None,
    }
}

fn recipe(seed: u64) -> Option<StoredRecipe> {
    Some(StoredRecipe { provider_id: TUNNEL_GENERATOR_ID.to_owned(), preset_id: "tiny-enclosed".to_owned(), seed })
}

#[test]
fn generation_limits_take_the_smaller_of_request_and_ceiling() {
    let mut r = request();
    r.max_voxels = 10;
    let counts = GenerationCounts { solid_voxels: 11, sparse_runs: 65_537, markers: MAX_GENERATED_MARKERS };
    assert_eq!(generation_limit_problems(counts, &r), vec![GenerationLimit::Voxels, GenerationLimit::SparseRuns]);
    r.max_markers = u64::MAX;
    let counts = GenerationCounts { solid_voxels: 10, sparse_runs: 1, markers: MAX_GENERATED_MARKERS + 1 };
    assert_eq!(generation_limit_problems(counts, &r), vec![GenerationLimit::Markers]);
    let counts = GenerationCounts { solid_voxels: 10, sparse_runs: 65_536, markers: 2 };
    assert!(generation_limit_problems(counts, &r).is_empty());
}

#[test]
fn placement_replaces_targets_and_discharges_the_recipe_binding() {
    let nodes = vec![
        PlacementNode { id: 1, kind: PlacementNodeKind::Bootstrap { generator: recipe(17) } },
        PlacementNode { id: 10, kind: PlacementNodeKind::VoxelVolume },
        PlacementNode { id: 11, kind: PlacementNodeKind::Marker },
        PlacementNode { id: 2, kind: PlacementNodeKind::Bootstrap { generator: recipe(18) } },
        PlacementNode { id: 3, kind: PlacementNodeKind::Other },
    ];
    let deps = vec!["voxel:tunnel".to_owned(), "catalog:base".to_owned()];
    let edit = place_generated_volume(&nodes, &deps, &request()).expect("placed");
    assert_eq!(
        edit.kept,
        vec![
            KeptNode { index: 0, clear_generator: true },
            KeptNode { index: 3, clear_generator: false },
            KeptNode { index: 4, clear_generator: false },
        ]
    );
    assert_eq!(edit.dependencies, vec!["catalog:base".to_owned(), "voxel:tunnel".to_owned()]);
}

#[test]
fn placement_refuses_a_target_node_of_another_kind() {
    let nodes = vec![
        PlacementNode { id: 3, kind: PlacementNodeKind::Other },
        PlacementNode { id: 12, kind: PlacementNodeKind::VoxelVolume },
        PlacementNode { id: 10, kind: PlacementNodeKind::Marker },
    ];
    assert_eq!(place_generated_volume(&nodes, &Vec::new(), &request()), Err(12));
}

#[test]
fn generated_provenance_uri_reads_back_as_a_stored_recipe() {
    let uri = generated_provenance_uri(TUNNEL_GENERATOR_ID, "tiny-enclosed", 1, 17, "fnv1a64:00000000000000ab");
    assert_eq!(
        uri,
        format!("asha-generator://{TUNNEL_GENERATOR_ID}/tiny-enclosed/v1?seed=17&configHash=fnv1a64:00000000000000ab")
    );
    assert!(parse_stored_generated_recipe(true, &uri, "fnv1a64:00000000000000cd"));
}

#[test]
fn candidate_identity_texts_list_their_parts() {
    assert_eq!(
        artifact_set_preimage("scenes/a.json", "fnv1a64:01", "assets/t.json", "fnv1a64:02"),
        "environment-artifacts-v1|scenes/a.json|fnv1a64:01|assets/t.json|fnv1a64:02"
    );
    assert_eq!(
        candidate_preimage("fnv1a64:03", "asha.tunnel", "tiny-enclosed", 42, "fnv1a64:04", "fnv1a64:05"),
        "environment-candidate-v1|fnv1a64:03|asha.tunnel|tiny-enclosed|42|fnv1a64:04|fnv1a64:05"
    );
}

#[test]
fn rejects_unknown_recipe_and_bounded_requests_atomically() {
    let scene = vec![SceneNodeFacts {
        id: 2,
        voxel_asset_id: None,
        generator: recipe(17),
    }];
    let counts = GenerationCounts { solid_voxels: 400, sparse_runs: 60, markers: 2 };
    let mut unknown = request();
    unknown.provider_id = "unknown.provider".to_owned();
    assert!(matches!(
        stage_materialization(&unknown, &scene, counts, &Vec::new(), &Vec::new()),
        Err(MaterializationRefusal::Request { .. })
    ));

    let mut bounded = request();
    bounded.max_voxels = 1;
    match stage_materialization(&bounded, &scene, counts, &Vec::new(), &Vec::new()) {
        Err(MaterializationRefusal::Limits { exceeded }) => {
            assert!(exceeded.contains(&GenerationLimit::Voxels));
        }
        other => panic!("expected a limit refusal, got {other:?}"),
    }

    let empty = GenerationCounts { solid_voxels: 0, sparse_runs: 0, markers: 2 };
    assert_eq!(
        stage_materialization(&request(), &scene, empty, &Vec::new(), &Vec::new()),
        Err(MaterializationRefusal::EmptyVolume)
    );
    let placed = stage_materialization(&request(), &scene, counts, &Vec::new(), &Vec::new())
        .expect("placement");
    assert_eq!(placed.dependencies, vec!["voxel:tunnel".to_owned()]);
}
