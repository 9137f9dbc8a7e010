use asha_services::module_declarations::{
    collect_events, validate_module_declarations, ContractSite, DeclarationDiagnostic,
    DeclarationDiagnosticCode, GameplayEventSubscription, GameplayInvocationDeclaration,
    GameplayInvocationRead, GameplayModuleDeclarations, IndexedEvent,
};
use asha_services::read_views::GameplayContractRef;

fn contract(namespace: &str, name: &str) -> GameplayContractRef {
    GameplayContractRef {
        namespace: namespace.to_owned(),
        name: name.to_owned(),
        version: 1,
        schema_hash: "fnv1a64:0123456789abcdef".to_owned(),
    }
}

fn fired() -> GameplayContractRef {
    contract("asha.combat", "fired")
}

fn module() -> GameplayModuleDeclarations {
    GameplayModuleDeclarations {
        namespace: "asha.combat".to_owned(),
        published_events: vec![IndexedEvent { key: "asha.combat/fired@1".to_owned(), event: fired() }],
        invocations: vec![GameplayInvocationDeclaration {
            invocation_id: "on-fired".to_owned(),
            observe: true,
            input_contract: fired(),
            output_contract: contract("asha.combat", "result"),
            max_outputs: 4,
            max_payload_bytes: 1024,
            read_requirements: vec![GameplayInvocationRead {
                request_id: "health".to_owned(),
                view: contract("asha.combat", "health-view"),
            }],
        }],
        read_views: vec![contract("asha.combat", "health-view")],
        subscriptions: vec![GameplayEventSubscription {
            subscription_id: "sub-fired".to_owned(),
            event: fired(),
            event_key: "asha.combat/fired@1".to_owned(),
            invocation_id: "on-fired".to_owned(),
            max_deliveries_per_root: 8,
        }],
        owned_schemas: vec![contract("asha.combat.state", "health")],
    }
}

#[test]
fn a_consistent_module_has_no_declaration_problems() {
    let modules = vec![module()];
    assert!(collect_events(&modules).is_empty());
    assert!(validate_module_declarations(&modules).is_empty());
}

#[test]
fn repeated_events_are_duplicates_or_schema_mismatches() {
    let mut second = module();
    second.namespace = "asha.other".to_owned();
    let mut changed = fired();
    changed.schema_hash = "fnv1a64:fedcba9876543210".to_owned();
    second.published_events = vec![
        IndexedEvent { key: "asha.combat/fired@1".to_owned(), event: fired() },
        IndexedEvent { key: "asha.combat/fired@1".to_owned(), event: changed },
    ];
    let diagnostics = collect_events(&[module(), second]);
    assert_eq!(
        diagnostics,
        vec![
            DeclarationDiagnostic::ForeignEvent { module: 1, event: 0 },
            DeclarationDiagnostic::DuplicateEventKind { module: 1, event: 0 },
            DeclarationDiagnostic::ForeignEvent { module: 1, event: 1 },
            DeclarationDiagnostic::EventSchemaHashMismatch { module: 1, event: 1 },
        ]
    );
    assert_eq!(diagnostics[0].code(), DeclarationDiagnosticCode::ForeignNamespaceWrite);
    assert_eq!(diagnostics[3].code(), DeclarationDiagnosticCode::SchemaHashMismatch);
}

#[test]
fn invocation_and_read_problems_are_reported_in_order() {
    let mut m = module();
    let mut second = m.invocations[0].clone();
    second.input_contract.version = 0;
    second.max_outputs = 0;
    second.read_requirements = vec![
        GameplayInvocationRead { request_id: "a".to_owned(), view: contract("asha.combat", "health-view") },
        GameplayInvocationRead { request_id: "a".to_owned(), view: contract("asha.combat", "ammo-view") },
        GameplayInvocationRead { request_id: " ".to_owned(), view: contract("Bad Space", "health-view") },
    ];
    m.invocations.push(second);
    let diagnostics = validate_module_declarations(&[m]);
    assert_eq!(
        diagnostics,
        vec![
            DeclarationDiagnostic::DuplicateInvocation { module: 0, invocation: 1 },
            DeclarationDiagnostic::ContractVersion { module: 0, site: ContractSite::InvocationInput { invocation: 1 } },
            DeclarationDiagnostic::InvocationBudget { module: 0, invocation: 1 },
            DeclarationDiagnostic::DuplicateInvocationRead { module: 0, invocation: 1, read: 1 },
            DeclarationDiagnostic::MissingInvocationReadView { module: 0, invocation: 1, read: 1 },
            DeclarationDiagnostic::ContractName { module: 0, site: ContractSite::InvocationRead { invocation: 1, read: 2 } },
            DeclarationDiagnostic::DuplicateInvocationRead { module: 0, invocation: 1, read: 2 },
            DeclarationDiagnostic::MissingInvocationReadView { module: 0, invocation: 1, read: 2 },
            DeclarationDiagnostic::SubscriptionInputMismatch { module: 0, subscription: 0 },
        ]
    );
    assert_eq!(diagnostics[1].code(), DeclarationDiagnosticCode::InvalidIdentifier);
    assert_eq!(diagnostics[5].code(), DeclarationDiagnosticCode::InvalidNamespace);
}

#[test]
fn subscriptions_are_checked_against_events_and_invocations() {
    let mut first = module();
    let mut unknown = first.subscriptions[0].clone();
    unknown.subscription_id = "sub-unknown".to_owned();
    unknown.event_key = "asha.combat/missing@1".to_owned();
    unknown.invocation_id = "nowhere".to_owned();
    unknown.max_deliveries_per_root = 0;
    first.subscriptions.push(unknown);
    let mut second = module();
    second.namespace = "asha.loot".to_owned();
    second.published_events = Vec::new();
    second.owned_schemas = vec![contract("asha.combat.state", "ammo")];
    let mut other = fired();
    other.version = 2;
    second.subscriptions[0].event = other.clone();
    second.invocations[0].input_contract = other;
    second.subscriptions[0].max_deliveries_per_root = 0;
    let diagnostics = validate_module_declarations(&[first, second]);
    assert_eq!(
        diagnostics,
        vec![
            DeclarationDiagnostic::UnknownSubscription { module: 0, subscription: 1 },
            DeclarationDiagnostic::MissingInvocation { module: 0, subscription: 1 },
            DeclarationDiagnostic::DuplicateSubscription { module: 1, subscription: 0 },
            DeclarationDiagnostic::SubscriptionSchemaMismatch { module: 1, subscription: 0 },
            DeclarationDiagnostic::SubscriptionBudget { module: 1, subscription: 0 },
            DeclarationDiagnostic::ForeignSchema { module: 1, schema: 0 },
        ]
    );
    let codes: Vec<DeclarationDiagnosticCode> = diagnostics.iter().map(|d| d.code()).collect();
    assert_eq!(
        codes,
        vec![
            DeclarationDiagnosticCode::UnknownSubscription,
            DeclarationDiagnosticCode::MissingInvocation,
            DeclarationDiagnosticCode::DuplicateSubscription,
            DeclarationDiagnosticCode::SchemaHashMismatch,
            DeclarationDiagnosticCode::InvalidBudget,
            DeclarationDiagnosticCode::ForeignNamespaceWrite,
        ]
    );
}
