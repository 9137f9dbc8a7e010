use asha_services::environment::{
    recipe_problem, validate_environment_request, EnvironmentDiagnosticCode, EnvironmentProblem,
    EnvironmentRequest, MarkerTarget, ProvenanceRecord, ReplacementAsset, SceneNodeFacts,
    StoredRecipe,
};
use asha_services::levelgen::TUNNEL_GENERATOR_ID;

fn marker(source: &str, id: &str, node: u64) -> MarkerTarget {
    MarkerTarget {
        source_marker_id: source.to_owned(),
        marker_id: id.to_owned(),
        node_id: node,
    }
}

fn request() -> EnvironmentRequest {
    EnvironmentRequest {
        provider_id: TUNNEL_GENERATOR_ID.to_owned(),
        preset_id: "tiny-enclosed".to_owned(),
        seed: 17,
        max_voxels: 1_000_000,
        max_sparse_runs: 65_536,
        max_markers: 128,
        scene_path: "scenes/main.scene.json".to_owned(),
        asset_id: "voxel:tunnel".to_owned(),
        asset_path: "assets/tunnel.voxel.json".to_owned(),
        voxel_node_id: 10,
        voxel_parent_id: None,
        marker_targets: vec![marker("player_start", "spawn", 11), marker("exit_hint", "exit", 12)],
        asset_id_is_voxel_volume: true,
        transform_valid: true,
        replacement_asset: None,
    }
}

fn scene_with_recipe(seed: u64) -> Vec<SceneNodeFacts> {
    vec![
        SceneNodeFacts { id: 1, voxel_asset_id: None, generator: None },
        SceneNodeFacts {
            id: 2,
            voxel_asset_id: None,
            generator: Some(StoredRecipe {
                provider_id: TUNNEL_GENERATOR_ID.to_owned(),
                preset_id: "tiny-enclosed".to_owned(),
                seed,
            }),
        },
    ]
}

#[test]
fn a_request_matching_the_stored_recipe_passes() {
    assert!(validate_environment_request(&request(), &scene_with_recipe(17)).is_empty());
}

#[test]
fn unknown_recipe_and_bounded_requests_report_every_problem() {
    let mut r = request();
    r.provider_id = "other".to_owned();
    r.max_markers = 0;
    r.asset_path = r.scene_path.clone();
    r.voxel_parent_id = Some(99);
    r.marker_targets = vec![marker("player_start", "spawn", 10), marker("boss", "spawn", 12), marker("exit_hint", "e", 13)];
    let problems = validate_environment_request(&r, &scene_with_recipe(18));
    assert_eq!(
        problems,
        vec![
            EnvironmentProblem::UnknownProvider,
            EnvironmentProblem::ZeroLimit,
            EnvironmentProblem::TargetPaths,
            EnvironmentProblem::TargetParent,
            EnvironmentProblem::StoredRecipeMismatch,
            EnvironmentProblem::MarkerIdsNotUnique,
            EnvironmentProblem::UnknownMarker { index: 1 },
            EnvironmentProblem::MarkerCount,
        ]
    );
    assert_eq!(problems[0].code(), EnvironmentDiagnosticCode::UnknownProvider);
    assert_eq!(problems[4].code(), EnvironmentDiagnosticCode::RecipeMismatch);
    assert_eq!(problems[4].path(), "scene.bootstrap.generator");
    assert_eq!(problems[6].path(), "target.markerTargets.sourceMarkerId");
}

#[test]
fn unknown_preset_asset_id_and_transform_are_reported() {
    let mut r = request();
    r.preset_id = "huge".to_owned();
    r.asset_id_is_voxel_volume = false;
    r.transform_valid = false;
    assert_eq!(
        validate_environment_request(&r, &scene_with_recipe(17)),
        vec![
            EnvironmentProblem::UnknownPreset,
            EnvironmentProblem::TargetAssetId,
            EnvironmentProblem::TargetTransform,
            // The stored recipe names another preset.
            EnvironmentProblem::StoredRecipeMismatch,
        ]
    );
}

fn replacement_scene() -> Vec<SceneNodeFacts> {
    vec![SceneNodeFacts {
        id: 10,
        voxel_asset_id: Some("voxel:tunnel".to_owned()),
        generator: None,
    }]
}

fn generated(uri: &str) -> ProvenanceRecord {
    ProvenanceRecord {
        is_generated: true,
        uri: uri.to_owned(),
        content_hash: "fnv1a64:0123456789abcdef".to_owned(),
    }
}

const RECIPE: &str = "asha-generator://asha.tunnel.enclosed.v1/tiny-enclosed/v1?seed=17&configHash=fnv1a64:00";

#[test]
fn generator_free_replacement_requires_matching_loaded_asset_provenance() {
    let mut r = request();
    assert_eq!(recipe_problem(&r, &replacement_scene()), Some(EnvironmentProblem::ReplacementMissing));
    r.replacement_asset = Some(ReplacementAsset {
        asset_id: "voxel:tunnel".to_owned(),
        valid: true,
        provenance: vec![generated(RECIPE)],
    });
    assert_eq!(recipe_problem(&r, &replacement_scene()), None);
    assert_eq!(recipe_problem(&r, &[]), Some(EnvironmentProblem::ReplacementTarget));

    let mut wrong = r.clone();
    wrong.replacement_asset.as_mut().unwrap().asset_id = "voxel:other".to_owned();
    assert_eq!(
        recipe_problem(&wrong, &replacement_scene()),
        Some(EnvironmentProblem::ReplacementAssetInvalid)
    );
    let mut twice = r.clone();
    twice.replacement_asset.as_mut().unwrap().provenance.push(generated(RECIPE));
    assert_eq!(
        recipe_problem(&twice, &replacement_scene()),
        Some(EnvironmentProblem::ReplacementProvenanceAmbiguous)
    );
    let mut malformed = r.clone();
    malformed.replacement_asset.as_mut().unwrap().provenance = vec![generated("asha-generator://p/q/v0?seed=1&configHash=fnv1a64:0")];
    assert_eq!(
        recipe_problem(&malformed, &replacement_scene()),
        Some(EnvironmentProblem::ReplacementProvenanceMalformed)
    );
}
