use asha_services::fabric_codec::stable_identity;
use asha_services::fabric_registry::{
    ordered_module_ids, canonicalize_diagnostics, RegistryDiagnostic,
    overlapping_namespaces, provider_diagnostics, GameplayLinkedProvider, ProviderDiagnostic,
};

fn provider(module_id: &str, provider_id: &str) -> GameplayLinkedProvider {
    GameplayLinkedProvider {
        provider_id: provider_id.to_owned(),
        module_id: module_id.to_owned(),
        version: "1.0.0".to_owned(),
        contract_hash: stable_identity(&["contract", module_id]),
        artifact_hash: stable_identity(&["artifact", module_id]),
        sdk_hash: stable_identity(&["sdk", module_id]),
        source_hash: stable_identity(&["source", module_id]),
    }
}

#[test]
fn valid_providers_have_no_diagnostics() {
    let providers = [
        provider("combat-core", "combat.provider"),
        provider("feedback", "feedback.provider"),
    ];
    assert!(providers[0].identity_is_valid());
    assert!(provider_diagnostics(&providers).is_empty());
}

#[test]
fn invalid_and_duplicate_providers_are_reported_in_order() {
    let mut bad = provider("combat-core", "combat.provider");
    bad.sdk_hash = "sha256:name-v1".to_owned();
    assert!(bad.identity_is_valid());
    bad.contract_hash = "sha256:name-v1".to_owned();
    assert!(!bad.identity_is_valid());
    let mut spaced = provider("feedback", "feedback.provider");
    spaced.version = "1.0 beta".to_owned();
    let providers = [
        provider("combat-core", "combat.provider"),
        bad,
        spaced,
        provider("other", "combat.provider"),
    ];
    assert_eq!(
        provider_diagnostics(&providers),
        vec![
            ProviderDiagnostic::InvalidIdentity { index: 1 },
            ProviderDiagnostic::DuplicateProvider { index: 1 },
            ProviderDiagnostic::InvalidIdentity { index: 2 },
            ProviderDiagnostic::DuplicateProvider { index: 3 },
        ]
    );
}

#[test]
fn provider_must_match_its_module() {
    let p = provider("combat-core", "combat.provider");
    let s = |v: &str| v.to_owned();
    assert!(p.matches_module(
        &s("combat-core"),
        &s("1.0.0"),
        &p.contract_hash,
        &p.artifact_hash,
        &p.sdk_hash,
        &p.source_hash
    ));
    assert!(!p.matches_module(
        &s("combat-core"),
        &s("2.0.0"),
        &p.contract_hash,
        &p.artifact_hash,
        &p.sdk_hash,
        &p.source_hash
    ));
}

#[test]
fn overlapping_namespaces_are_paired() {
    let namespaces = ["game.combat", "game.feedback", "game.combat.fx", "game.combatant", "game"];
    assert_eq!(
        overlapping_namespaces(&namespaces),
        vec![(0, 2), (0, 4), (1, 4), (2, 4), (3, 4)]
    );
    assert!(overlapping_namespaces(&["game.combat", "game.feedback"]).is_empty());
}

use asha_services::fabric_registry::{
    contract_identity_problems, module_order, provider_link_diagnostics, resolve_ordering_edges,
    ModuleProviderRef, ProviderLinkDiagnostic,
};

#[test]
fn module_order_takes_the_lowest_ready_module_first() {
    // 0 must follow 2; 1 is free; 3 must follow 1 and 0.
    let edges = [(2usize, 0usize), (1, 3), (0, 3)];
    assert_eq!(module_order(4, &edges), Some(vec![1, 2, 0, 3]));
    assert_eq!(module_order(3, &[]), Some(vec![0, 1, 2]));
    assert_eq!(module_order(0, &[]), Some(vec![]));
    // Repeated edges change nothing.
    assert_eq!(module_order(2, &[(1, 0), (1, 0)]), Some(vec![1, 0]));
}

#[test]
fn ordering_cycle_rejects_registry_construction() {
    assert_eq!(module_order(3, &[(0, 1), (1, 2), (2, 0)]), None);
    assert_eq!(module_order(2, &[(1, 1)]), None);
}

#[test]
fn ordering_edges_resolve_against_module_ids() {
    let ids = vec!["combat".to_owned(), "feedback".to_owned()];
    let edges = vec![
        ("combat".to_owned(), "feedback".to_owned()),
        ("combat".to_owned(), "missing".to_owned()),
        ("feedback".to_owned(), "combat".to_owned()),
    ];
    let (known, unknown) = resolve_ordering_edges(&ids, &edges);
    assert_eq!(known, vec![(0, 1), (1, 0)]);
    assert_eq!(unknown, vec![1]);
    assert_eq!(module_order(2, &known), None);
    assert_eq!(module_order(2, &known[..1]), Some(vec![0, 1]));
}

fn module_ref(module_id: &str, provider_id: &str) -> ModuleProviderRef {
    let p = provider(module_id, provider_id);
    ModuleProviderRef {
        module_id: p.module_id,
        provider_id: p.provider_id,
        version: p.version,
        contract_hash: p.contract_hash,
        artifact_hash: p.artifact_hash,
        sdk_hash: p.sdk_hash,
        source_hash: p.source_hash,
    }
}

#[test]
fn provider_links_must_exist_and_match() {
    let modules = [
        module_ref("combat-core", "combat.provider"),
        module_ref("feedback", "feedback.provider"),
        module_ref("loot", "loot.provider"),
    ];
    let mut stale = provider("feedback", "feedback.provider");
    stale.source_hash = stable_identity(&["source", "old"]);
    let providers = [
        provider("combat-core", "combat.provider"),
        provider("feedback", "feedback.provider"),
        stale,
    ];
    // The provider registered last under an id is the one that counts.
    assert_eq!(
        provider_link_diagnostics(&modules, &providers),
        vec![
            ProviderLinkDiagnostic::ProviderManifestMismatch { index: 1 },
            ProviderLinkDiagnostic::MissingProvider { index: 2 },
        ]
    );
}

#[test]
fn contract_identity_needs_namespace_name_version_and_hash() {
    assert_eq!(
        contract_identity_problems("game.combat", "damage-applied", 1, "fnv1a64:0123456789abcdef"),
        (false, false)
    );
    assert_eq!(
        contract_identity_problems("Game", "damage-applied", 1, "fnv1a64:0123456789abcdef"),
        (true, false)
    );
    assert_eq!(
        contract_identity_problems("game.combat", "damage_applied", 0, "sha256:event-v1"),
        (true, true)
    );
}

use asha_services::fabric_registry::{
    exact_owner_verdict, module_diagnostics, ModuleDiagnostic, ModuleIdentity, OwnerVerdict,
};

fn module_identity(module_id: &str, namespace: &str) -> ModuleIdentity {
    ModuleIdentity {
        module_id: module_id.to_owned(),
        provider_id: format!("{module_id}.provider"),
        namespace: namespace.to_owned(),
        version: "1.0.0".to_owned(),
        sdk_hash: stable_identity(&["sdk", module_id]),
        contract_hash: stable_identity(&["contract", module_id]),
        artifact_hash: stable_identity(&["artifact", module_id]),
        source_hash: stable_identity(&["source", module_id]),
        budget: [8, 64, 32, 64, 65_536],
    }
}

#[test]
fn module_manifests_are_checked_in_order() {
    let good = module_identity("combat-core", "game.combat");
    let mut placeholder = module_identity("feedback", "game.feedback");
    placeholder.sdk_hash = "sha256:name-v1".to_owned();
    let mut messy = module_identity("Loot", "game..loot");
    messy.version = String::new();
    messy.budget[3] = 0;
    let twice = module_identity("combat-core", "game.combat2");
    assert!(module_diagnostics(&[good.clone()]).is_empty());
    assert_eq!(
        module_diagnostics(&[good, placeholder, messy, twice]),
        vec![
            ModuleDiagnostic::InvalidHashes { index: 1 },
            ModuleDiagnostic::InvalidModuleId { index: 2 },
            ModuleDiagnostic::InvalidProviderId { index: 2 },
            ModuleDiagnostic::InvalidNamespace { index: 2 },
            ModuleDiagnostic::InvalidVersion { index: 2 },
            ModuleDiagnostic::InvalidBudget { index: 2 },
            ModuleDiagnostic::DuplicateModule { index: 3 },
        ]
    );
}

#[test]
fn owners_must_be_exactly_one_matching_registration() {
    assert_eq!(exact_owner_verdict(&[]), OwnerVerdict::Missing);
    assert_eq!(exact_owner_verdict(&[true, true]), OwnerVerdict::Multiple);
    assert_eq!(exact_owner_verdict(&[false]), OwnerVerdict::Mismatch);
    assert_eq!(exact_owner_verdict(&[true]), OwnerVerdict::Exact);
}

#[test]
fn modules_run_in_id_order_after_their_predecessors() {
    let ids = vec!["game.c".to_owned(), "game.a".to_owned(), "game.b".to_owned()];
    let edges = vec![
        ("game.c".to_owned(), "game.a".to_owned()),
        ("game.missing".to_owned(), "game.b".to_owned()),
    ];
    let (sorted, order) = ordered_module_ids(ids, &edges);
    assert_eq!(sorted, vec!["game.a".to_owned(), "game.b".to_owned(), "game.c".to_owned()]);
    let (_, names) = order.expect("no cycle");
    assert_eq!(names, vec!["game.b".to_owned(), "game.c".to_owned(), "game.a".to_owned()]);

    let cyclic = vec![
        ("game.a".to_owned(), "game.b".to_owned()),
        ("game.b".to_owned(), "game.a".to_owned()),
    ];
    let (_, order) = ordered_module_ids(vec!["game.a".to_owned(), "game.b".to_owned()], &cyclic);
    assert!(order.is_none());
}

#[test]
fn diagnostics_sort_by_path_then_code_then_message() {
    let d = |path: &str, code_rank: u32, message: &str| RegistryDiagnostic {
        path: path.to_owned(),
        code_rank,
        message: message.to_owned(),
    };
    let sorted = canonicalize_diagnostics(vec![
        d("modules[1]", 0, "b"),
        d("modules[0]", 3, "a"),
        d("modules[1]", 0, "a"),
        d("modules[0]", 1, "z"),
    ]);
    assert_eq!(
        sorted,
        vec![d("modules[0]", 1, "z"), d("modules[0]", 3, "a"), d("modules[1]", 0, "a"), d("modules[1]", 0, "b")]
    );
}
