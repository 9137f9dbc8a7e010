use asha_services::read_views::{
    validate_read_view_providers, GameplayContractRef, GameplayReadViewProviderRegistration,
    GameplayReadViewRequirement, ReadViewDiagnostic, ReadViewDiagnosticCode,
};

const HASH: &str = "fnv1a64:0123456789abcdef";

fn contract(name: &str) -> GameplayContractRef {
    GameplayContractRef {
        namespace: "asha.combat".to_owned(),
        name: name.to_owned(),
        version: 1,
        schema_hash: HASH.to_owned(),
    }
}

fn registration(name: &str, provider: &str) -> GameplayReadViewProviderRegistration {
    GameplayReadViewProviderRegistration {
        view: contract(name),
        view_key: format!("asha.combat/{name}@1"),
        provider_id: provider.to_owned(),
        kind: 1,
        fields: vec!["entity".to_owned(), "health".to_owned()],
        selector_capabilities: vec![1, 2],
        max_items: 64,
        ordering: "entity".to_owned(),
    }
}

fn requirement(name: &str, provider: &str) -> GameplayReadViewRequirement {
    GameplayReadViewRequirement {
        view: contract(name),
        view_key: format!("asha.combat/{name}@1"),
        provider_id: provider.to_owned(),
        kind: 1,
        fields: vec!["health".to_owned()],
        selector_capabilities: vec![2],
        max_items: 32,
    }
}

#[test]
fn a_matching_provider_passes() {
    let regs = vec![registration("health-view", "asha.combat.health")];
    let reqs = vec![requirement("health-view", "asha.combat.health")];
    assert!(validate_read_view_providers(&regs, &reqs).is_empty());
}

#[test]
fn registration_problems_are_reported_per_registration() {
    let mut bad = registration("Health", "Not Stable");
    bad.view.version = 0;
    bad.fields = vec!["a".to_owned(), "a".to_owned()];
    bad.ordering = " ".to_owned();
    let diagnostics = validate_read_view_providers(&[bad], &[]);
    assert_eq!(
        diagnostics,
        vec![
            ReadViewDiagnostic::RegistrationContractName { registration: 0 },
            ReadViewDiagnostic::RegistrationContractVersion { registration: 0 },
            ReadViewDiagnostic::InvalidProviderId { registration: 0 },
            ReadViewDiagnostic::DuplicateProviderMetadata { registration: 0 },
            ReadViewDiagnostic::InvalidProviderBounds { registration: 0 },
        ]
    );
    assert_eq!(diagnostics[0].code(), ReadViewDiagnosticCode::InvalidNamespace);
    assert_eq!(diagnostics[3].code(), ReadViewDiagnosticCode::ReadViewProviderMismatch);
}

#[test]
fn a_shared_key_is_reported_once_and_blocks_its_requirements() {
    let regs = vec![
        registration("health-view", "asha.combat.a"),
        registration("health-view", "asha.combat.b"),
        registration("ammo-view", "asha.combat.a"),
        registration("health-view", "asha.combat.c"),
    ];
    let reqs = vec![requirement("health-view", "asha.combat.a"), requirement("armor-view", "asha.combat.a")];
    let diagnostics = validate_read_view_providers(&regs, &reqs);
    assert_eq!(
        diagnostics,
        vec![
            ReadViewDiagnostic::MultipleProvidersForKey { registration: 0 },
            ReadViewDiagnostic::MultipleProviders { requirement: 0 },
            ReadViewDiagnostic::MissingProvider { requirement: 1 },
        ]
    );
    assert_eq!(diagnostics[1].code(), ReadViewDiagnosticCode::MultipleReadViewProviders);
    assert_eq!(diagnostics[2].code(), ReadViewDiagnosticCode::MissingReadViewProvider);
}

#[test]
fn a_requirement_is_checked_against_its_provider() {
    let regs = vec![registration("health-view", "asha.combat.health")];
    let mut req = requirement("health-view", "asha.combat.other");
    req.kind = 2;
    req.fields = vec!["health".to_owned(), "armor".to_owned(), "shield".to_owned()];
    req.selector_capabilities = vec![3, 1];
    req.max_items = 65;
    let diagnostics = validate_read_view_providers(&regs, &[req]);
    assert_eq!(
        diagnostics,
        vec![
            ReadViewDiagnostic::ProviderMismatch { requirement: 0 },
            ReadViewDiagnostic::KindMismatch { requirement: 0 },
            ReadViewDiagnostic::MissingField { requirement: 0, field: 1 },
            ReadViewDiagnostic::MissingField { requirement: 0, field: 2 },
            ReadViewDiagnostic::MissingSelector { requirement: 0, selector: 0 },
            ReadViewDiagnostic::InvalidBudget { requirement: 0 },
        ]
    );
    let codes: Vec<ReadViewDiagnosticCode> = diagnostics.iter().map(|d| d.code()).collect();
    assert!(codes.contains(&ReadViewDiagnosticCode::ReadViewKindMismatch));
    assert!(codes.contains(&ReadViewDiagnosticCode::MissingReadViewField));
    assert!(codes.contains(&ReadViewDiagnosticCode::MissingReadViewSelector));
    assert!(codes.contains(&ReadViewDiagnosticCode::InvalidBudget));
}

#[test]
fn a_different_schema_hash_is_a_provider_mismatch() {
    let regs = vec![registration("health-view", "asha.combat.health")];
    let mut req = requirement("health-view", "asha.combat.health");
    req.view.schema_hash = "fnv1a64:fedcba9876543210".to_owned();
    assert_eq!(
        validate_read_view_providers(&regs, &[req]),
        vec![ReadViewDiagnostic::ProviderMismatch { requirement: 0 }]
    );
}
