use asha_services::policy_view::{
    project_world_view, AssetRefFacts, AssetStatusEntry, EntityFacts, EntityLifecycle, EntitySourceFacts,
    PolicyAssetStatus, PolicyEntityLifecycle, PolicyEntitySource,
};

fn entity(id: u64, source: EntitySourceFacts) -> EntityFacts {
    EntityFacts {
        id,
        lifecycle: EntityLifecycle::Active,
        source,
        labels: Vec::new(),
        has_transform: false,
        asset_binding: None,
    }
}

fn mesh(id: &str) -> AssetRefFacts {
    AssetRefFacts { id: id.to_owned(), kind_prefix: "mesh".to_owned() }
}

/// A scene-sourced spatial entity, a runtime logical entity, an imported
/// asset-bound entity, a diagnostic-tooling entity (redacted), and a
/// tombstoned entity (redacted), in store order.
fn sample_store() -> Vec<EntityFacts> {
    let mut scene = entity(1, EntitySourceFacts::SceneBootstrap { node: 10 });
    scene.has_transform = true;
    scene.labels = vec![7];
    let mut tombstoned = entity(5, EntitySourceFacts::RuntimeCreated);
    tombstoned.lifecycle = EntityLifecycle::Tombstoned;
    vec![
        entity(3, EntitySourceFacts::Imported { asset: mesh("mesh/crate") }),
        tombstoned,
        scene,
        entity(4, EntitySourceFacts::DiagnosticTooling),
        entity(2, EntitySourceFacts::RuntimeCreated),
    ]
}

#[test]
fn projection_is_deterministic() {
    let store = sample_store();
    let statuses = Vec::new();
    assert_eq!(project_world_view(42, &store, &statuses), project_world_view(42, &store, &statuses));
}

#[test]
fn redacts_tombstoned_and_diagnostic_entities() {
    let view = project_world_view(1, &sample_store(), &Vec::new());
    let ids: Vec<u64> = view.entities.iter().map(|e| e.id).collect();
    assert_eq!(ids, vec![1, 2, 3]);
}

#[test]
fn carries_spatial_flag_source_and_labels() {
    let view = project_world_view(1, &sample_store(), &Vec::new());
    let e1 = &view.entities[0];
    assert_eq!(e1.id, 1);
    assert_eq!(e1.source, PolicyEntitySource::SceneNode { node: 10 });
    assert!(e1.spatial);
    assert_eq!(e1.labels, vec![7]);
    assert_eq!(e1.lifecycle, PolicyEntityLifecycle::Active);
    let e2 = &view.entities[1];
    assert_eq!(e2.source, PolicyEntitySource::Runtime);
    assert!(!e2.spatial);
    assert_eq!(view.entities[2].source, PolicyEntitySource::Imported { asset: "mesh/crate".to_owned() });
}

#[test]
fn classifies_asset_status_and_counts() {
    let statuses = vec![AssetStatusEntry { asset_id: "mesh/crate".to_owned(), status: PolicyAssetStatus::Stale }];
    let view = project_world_view(9, &sample_store(), &statuses);
    assert_eq!(view.assets.len(), 1);
    assert_eq!(view.assets[0].id, "mesh/crate");
    assert_eq!(view.assets[0].kind, "mesh");
    assert_eq!(view.assets[0].status, PolicyAssetStatus::Stale);
    assert_eq!(view.summary.tick, 9);
    assert_eq!(view.summary.active_entities, 3);
    assert_eq!(view.summary.spatial_entities, 1);
    assert_eq!(view.summary.asset_count, 1);
    assert_eq!(view.summary.missing_assets, 0);
}

#[test]
fn unmapped_referenced_asset_is_missing() {
    let view = project_world_view(1, &sample_store(), &Vec::new());
    assert_eq!(view.assets[0].status, PolicyAssetStatus::Missing);
    assert_eq!(view.summary.missing_assets, 1);
}

#[test]
fn binding_wins_over_import_and_assets_are_listed_once_in_id_order() {
    let mut bound = entity(8, EntitySourceFacts::Imported { asset: mesh("mesh/zeta") });
    bound.asset_binding = Some(AssetRefFacts { id: "audio/alpha".to_owned(), kind_prefix: "audio".to_owned() });
    let mut disabled = entity(6, EntitySourceFacts::PolicyProposed);
    disabled.lifecycle = EntityLifecycle::Disabled;
    disabled.asset_binding = Some(mesh("mesh/zeta"));
    let store = vec![bound, disabled, entity(7, EntitySourceFacts::Imported { asset: mesh("mesh/zeta") })];
    let view = project_world_view(3, &store, &Vec::new());
    let ids: Vec<&str> = view.assets.iter().map(|a| a.id.as_str()).collect();
    assert_eq!(ids, vec!["audio/alpha", "mesh/zeta"]);
    assert_eq!(view.entities[0].lifecycle, PolicyEntityLifecycle::Disabled);
    assert_eq!(view.entities[0].source, PolicyEntitySource::Policy);
    assert_eq!(view.summary.active_entities, 2);
    assert_eq!(view.summary.missing_assets, 2);
}
