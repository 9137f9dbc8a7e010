use asha_services::module_declarations::{
    collect_events, validate_module_declarations, DeclarationDiagnostic, DeclarationDiagnosticCode,
    GameplayEventSubscription, GameplayInvocationDeclaration, GameplayInvocationRead,
    GameplayModuleDeclarations, IndexedEvent,
};
use asha_services::owners::{
    validate_proposal_owners, validate_state_owners, GameplayModuleOwnership, GameplayOwnedDeclaration,
    GameplayOwnerRef, GameplayOwnerRegistration, OwnedSite, OwnershipDiagnostic, OwnershipDiagnosticCode,
};
use asha_services::read_views::{
    gameplay_contract, validate_read_view_providers, GameplayContractRef,
    GameplayReadViewProviderRegistration, GameplayReadViewRequirement, ReadViewDiagnosticCode,
};

const ENTITY_CAPABILITY: u32 = 1;
const RELATIONSHIP: u32 = 2;
const EVENT_TARGET: u32 = 1;
const LIFECYCLE_CAPABILITY: u32 = 2;

fn contract(namespace: &str, name: &str, _legacy_hash: &str) -> GameplayContractRef {
    let descriptor = format!("fixture:{namespace}.{name};canonical-json-v1");
    gameplay_contract(namespace.to_owned(), name.to_owned(), 1, &descriptor)
}

fn key_of(c: &GameplayContractRef) -> String {
    format!("{}.{}.v{}@{}", c.namespace, c.name, c.version, c.schema_hash)
}

fn event_contract() -> GameplayContractRef {
    contract("game.combat", "damage-applied", "sha256:event-v1")
}

fn published(c: GameplayContractRef) -> IndexedEvent {
    IndexedEvent { key: key_of(&c), event: c }
}

fn empty_module(namespace: &str) -> GameplayModuleDeclarations {
    GameplayModuleDeclarations {
        namespace: namespace.to_owned(),
        published_events: Vec::new(),
        invocations: Vec::new(),
        read_views: Vec::new(),
        subscriptions: Vec::new(),
        owned_schemas: Vec::new(),
    }
}

fn valid_pair() -> (GameplayModuleDeclarations, GameplayModuleDeclarations) {
    let mut combat = empty_module("game.combat");
    combat.published_events.push(published(event_contract()));
    let mut feedback = empty_module("game.presentation-feedback");
    feedback.invocations.push(GameplayInvocationDeclaration {
        invocation_id: "observe-damage".to_owned(),
        observe: true,
        input_contract: event_contract(),
        output_contract: contract("game.presentation-feedback", "damage-cue", "sha256:cue-v1"),
        max_outputs: 4,
        max_payload_bytes: 4_096,
        read_requirements: Vec::new(),
    });
    feedback.subscriptions.push(GameplayEventSubscription {
        subscription_id: "feedback.observe-damage".to_owned(),
        event: event_contract(),
        event_key: key_of(&event_contract()),
        invocation_id: "observe-damage".to_owned(),
        max_deliveries_per_root: 16,
    });
    (combat, feedback)
}

fn declaration_codes(modules: &[GameplayModuleDeclarations]) -> Vec<DeclarationDiagnosticCode> {
    let mut all = collect_events(modules);
    all.extend(validate_module_declarations(modules));
    all.iter().map(|d| d.code()).collect()
}

#[test]
fn valid_pair_has_no_declaration_problems() {
    let (combat, feedback) = valid_pair();
    assert!(declaration_codes(&[combat, feedback]).is_empty());
}

#[test]
fn duplicate_event_kind_and_schema_conflict_reject_registry_construction() {
    let (combat, mut feedback) = valid_pair();
    let mut conflicting = event_contract();
    conflicting.schema_hash = "sha256:different-schema".to_owned();
    feedback.published_events.push(IndexedEvent { key: key_of(&event_contract()), event: conflicting });
    let codes = declaration_codes(&[combat, feedback]);
    assert!(codes.contains(&DeclarationDiagnosticCode::SchemaHashMismatch));
}

#[test]
fn foreign_namespace_and_missing_invocation_reject_registry_construction() {
    let (combat, mut feedback) = valid_pair();
    feedback.published_events.push(published(contract("game.combat", "foreign-cue", "sha256:foreign-v1")));
    feedback.subscriptions[0].invocation_id = "not-registered".to_owned();
    let codes = declaration_codes(&[combat, feedback]);
    assert!(codes.contains(&DeclarationDiagnosticCode::ForeignNamespaceWrite));
    assert!(codes.contains(&DeclarationDiagnosticCode::MissingInvocation));
}

#[test]
fn subscription_input_schema_must_match_the_published_event() {
    let (combat, mut feedback) = valid_pair();
    feedback.invocations[0].input_contract =
        contract("game.presentation-feedback", "different-input", "sha256:different-input");
    let codes = declaration_codes(&[combat, feedback]);
    assert!(codes.contains(&DeclarationDiagnosticCode::InvalidSubscriptionInvocation));
}

#[test]
fn invocation_read_requirements_reject_duplicate_ids_and_module_undeclared_views() {
    let (combat, mut feedback) = valid_pair();
    let view = contract("game.presentation-feedback", "target-view", "sha256:target-view");
    feedback.read_views.push(view.clone());
    feedback.invocations[0].read_requirements = vec![
        GameplayInvocationRead { request_id: "target".to_owned(), view: view.clone() },
        GameplayInvocationRead {
            request_id: "target".to_owned(),
            view: contract("game.presentation-feedback", "private-view", "sha256:private-view"),
        },
    ];
    let codes = declaration_codes(&[combat, feedback]);
    assert!(codes.contains(&DeclarationDiagnosticCode::DuplicateInvocationRead));
    assert!(codes.contains(&DeclarationDiagnosticCode::MissingInvocationReadView));
}

#[test]
fn a_non_observe_invocation_cannot_take_a_subscription() {
    let (combat, mut feedback) = valid_pair();
    feedback.invocations[0].observe = false;
    let diagnostics = validate_module_declarations(&[combat, feedback]);
    assert_eq!(diagnostics, vec![DeclarationDiagnostic::SubscriptionNotObserve { module: 1, subscription: 0 }]);
}

fn read_requirement(view: &GameplayContractRef) -> GameplayReadViewRequirement {
    GameplayReadViewRequirement {
        view: view.clone(),
        view_key: key_of(view),
        provider_id: "provider.feedback".to_owned(),
        kind: ENTITY_CAPABILITY,
        fields: vec!["lifecycle".to_owned()],
        selector_capabilities: vec![EVENT_TARGET, LIFECYCLE_CAPABILITY],
        max_items: 1,
    }
}

fn read_codes(
    requirement: &GameplayReadViewRequirement,
    registration: Option<GameplayReadViewProviderRegistration>,
) -> Vec<ReadViewDiagnosticCode> {
    let registrations: Vec<GameplayReadViewProviderRegistration> = registration.into_iter().collect();
    validate_read_view_providers(&registrations, &[requirement.clone()]).iter().map(|d| d.code()).collect()
}

#[test]
fn needs_validation_distinguishes_provider_kind_selector_and_field_gaps() {
    let view = contract("game.presentation-feedback", "target-view", "sha256:target-view");
    let requirement = read_requirement(&view);
    assert!(read_codes(&requirement, None).contains(&ReadViewDiagnosticCode::MissingReadViewProvider));

    let provider = GameplayReadViewProviderRegistration {
        view: view.clone(),
        view_key: key_of(&view),
        provider_id: "provider.feedback".to_owned(),
        kind: ENTITY_CAPABILITY,
        fields: vec!["lifecycle".to_owned()],
        selector_capabilities: vec![EVENT_TARGET, LIFECYCLE_CAPABILITY],
        max_items: 1,
        ordering: "singleValue".to_owned(),
    };
    assert!(read_codes(&requirement, Some(provider.clone())).is_empty());

    let mut wrong_provider = provider.clone();
    wrong_provider.provider_id = "provider.another".to_owned();
    assert!(read_codes(&requirement, Some(wrong_provider)).contains(&ReadViewDiagnosticCode::ReadViewProviderMismatch));

    let mut wrong_kind = provider.clone();
    wrong_kind.kind = RELATIONSHIP;
    assert!(read_codes(&requirement, Some(wrong_kind)).contains(&ReadViewDiagnosticCode::ReadViewKindMismatch));

    let mut missing_selector = provider.clone();
    missing_selector.selector_capabilities.clear();
    assert!(read_codes(&requirement, Some(missing_selector)).contains(&ReadViewDiagnosticCode::MissingReadViewSelector));

    let mut missing_field = provider;
    missing_field.fields.clear();
    assert!(read_codes(&requirement, Some(missing_field)).contains(&ReadViewDiagnosticCode::MissingReadViewField));
}

fn owner() -> GameplayOwnerRef {
    GameplayOwnerRef { owner_id: "authority.combat".to_owned(), provider_id: "provider.combat".to_owned() }
}

#[test]
fn missing_codec_and_owner_cardinality_reject_registry_construction() {
    let proposal = contract("game.combat", "damage-proposal", "sha256:proposal-v1");
    let declaration = GameplayOwnedDeclaration { contract: proposal.clone(), key: key_of(&proposal), owner: owner() };
    let combat = GameplayModuleOwnership {
        proposal_kinds: vec![declaration.clone()],
        state_schemas: Vec::new(),
        fact_schemas: Vec::new(),
    };
    let feedback = GameplayModuleOwnership { proposal_kinds: Vec::new(), state_schemas: Vec::new(), fact_schemas: Vec::new() };
    let modules = vec![combat, feedback];

    let missing = validate_proposal_owners(&modules, &[]);
    assert!(missing.iter().any(|d| d.code() == OwnershipDiagnosticCode::MissingProposalOwner));

    let registration = GameplayOwnerRegistration { contract: proposal.clone(), key: key_of(&proposal), owner: owner() };
    assert!(validate_proposal_owners(&modules, &[registration.clone()]).is_empty());

    let duplicate = validate_proposal_owners(&modules, &[registration.clone(), registration]);
    assert!(duplicate.iter().any(|d| d.code() == OwnershipDiagnosticCode::MultipleProposalOwners));
    assert_eq!(
        duplicate,
        vec![OwnershipDiagnostic::MultipleOwners { module: 0, site: OwnedSite::Proposal { index: 0 } }]
    );
}

#[test]
fn state_and_fact_owners_must_match_their_declarations() {
    let state = contract("game.combat.state", "health", "sha256:health");
    let fact = contract("game.combat.state", "damage-fact", "sha256:fact");
    let module = GameplayModuleOwnership {
        proposal_kinds: Vec::new(),
        state_schemas: vec![GameplayOwnedDeclaration { contract: state.clone(), key: key_of(&state), owner: owner() }],
        fact_schemas: vec![GameplayOwnedDeclaration { contract: fact.clone(), key: key_of(&fact), owner: owner() }],
    };
    let mut other = owner();
    other.owner_id = "authority.other".to_owned();
    let registrations = vec![GameplayOwnerRegistration { contract: state.clone(), key: key_of(&state), owner: other }];
    let diagnostics = validate_state_owners(&[module], &registrations);
    assert_eq!(
        diagnostics,
        vec![
            OwnershipDiagnostic::OwnerMismatch { module: 0, site: OwnedSite::State { index: 0 } },
            OwnershipDiagnostic::MissingOwner { module: 0, site: OwnedSite::Fact { index: 0 } },
        ]
    );
    assert_eq!(diagnostics[0].code(), OwnershipDiagnosticCode::StateOwnerMismatch);
    assert_eq!(diagnostics[1].code(), OwnershipDiagnosticCode::MissingStateOwner);
}

#[test]
fn proposal_contracts_are_checked_before_their_owners() {
    let mut proposal = contract("game.combat", "damage-proposal", "sha256:proposal-v1");
    proposal.version = 0;
    let module = GameplayModuleOwnership {
        proposal_kinds: vec![GameplayOwnedDeclaration { contract: proposal.clone(), key: key_of(&proposal), owner: owner() }],
        state_schemas: Vec::new(),
        fact_schemas: Vec::new(),
    };
    let diagnostics = validate_proposal_owners(&[module], &[]);
    let codes: Vec<OwnershipDiagnosticCode> = diagnostics.iter().map(|d| d.code()).collect();
    assert_eq!(codes, vec![OwnershipDiagnosticCode::InvalidIdentifier, OwnershipDiagnosticCode::MissingProposalOwner]);
}
