use asha_services::topology::{
    registry_digests, sort_strings, topology_dump, ContractText, TopologyBudget, TopologyEvent, TopologyFacts,
    TopologyInvocation, TopologyModule, TopologyOrdering, TopologyOwned, TopologyRead, TopologyReadView,
    TopologySubscription, TopologyViewProvider,
};

fn contract(key: &str, hash: &str) -> ContractText {
    ContractText { key: key.to_owned(), schema_hash: hash.to_owned() }
}

fn module(id: &str) -> TopologyModule {
    TopologyModule {
        module_id: id.to_owned(),
        namespace: format!("game.{id}"),
        version: "1.0.0".to_owned(),
        provider_id: format!("provider.{id}"),
        sdk_hash: "fnv1a64:0000000000000001".to_owned(),
        contract_hash: "fnv1a64:0000000000000002".to_owned(),
        artifact_hash: "fnv1a64:0000000000000003".to_owned(),
        source_hash: "fnv1a64:0000000000000004".to_owned(),
        budget: TopologyBudget {
            max_waves: 8,
            max_events_per_root: 16,
            max_proposals_per_root: 4,
            max_invocations_per_root: 32,
            max_payload_bytes_per_root: 4096,
        },
        deterministic_requirements: vec!["no-clock".to_owned(), "fixed-order".to_owned()],
        published_events: Vec::new(),
        invocations: Vec::new(),
        subscriptions: Vec::new(),
        read_views: Vec::new(),
        state_schemas: Vec::new(),
        fact_schemas: Vec::new(),
        proposal_kinds: Vec::new(),
        ordering: Vec::new(),
    }
}

fn facts(modules: Vec<TopologyModule>) -> TopologyFacts {
    TopologyFacts {
        modules,
        events: vec![TopologyEvent {
            key: "game.combat.hit.v1".to_owned(),
            publisher: "combat".to_owned(),
            schema_hash: "fnv1a64:00000000000000aa".to_owned(),
            codec_id: "codec.hit".to_owned(),
        }],
        proposal_owners: Vec::new(),
        view_providers: Vec::new(),
        state_owners: Vec::new(),
    }
}

#[test]
fn dump_lists_sorted_lines_each_followed_by_a_newline() {
    let dump = topology_dump(&facts(vec![module("combat")]), true);
    assert_eq!(
        dump,
        "budget module=combat waves=8 events=16 proposals=4 invocations=32 payloadBytes=4096\n\
         determinism module=combat requirements=fixed-order,no-clock\n\
         event game.combat.hit.v1 publisher=combat schema=fnv1a64:00000000000000aa codec=codec.hit\n\
         module combat namespace=game.combat version=1.0.0 provider=provider.combat sdk=fnv1a64:0000000000000001 contract=fnv1a64:0000000000000002 artifact=fnv1a64:0000000000000003 source=fnv1a64:0000000000000004\n"
    );
}

#[test]
fn semantic_dump_leaves_out_artifact_and_source_hashes() {
    let dump = topology_dump(&facts(vec![module("combat")]), false);
    assert!(dump.contains(
        "module combat namespace=game.combat version=1.0.0 provider=provider.combat sdk=fnv1a64:0000000000000001 contract=fnv1a64:0000000000000002\n"
    ));
    assert!(!dump.contains("artifact="));
    let (digest, semantic) = registry_digests(&facts(vec![module("combat")]));
    assert_ne!(digest, semantic);
    assert!(digest.starts_with("fnv1a64:") && digest.len() == 24);
}

#[test]
fn empty_registry_dumps_a_single_newline() {
    let empty = TopologyFacts {
        modules: Vec::new(),
        events: Vec::new(),
        proposal_owners: Vec::new(),
        view_providers: Vec::new(),
        state_owners: Vec::new(),
    };
    assert_eq!(topology_dump(&empty, true), "\n");
}

#[test]
fn typed_modules_produce_order_independent_topology() {
    let mut combat = module("combat");
    combat.ordering.push(TopologyOrdering { before_module: "combat".to_owned(), after_module: "feedback".to_owned() });
    let mut feedback = module("feedback");
    feedback.ordering.push(TopologyOrdering { before_module: "combat".to_owned(), after_module: "feedback".to_owned() });
    let one = topology_dump(&facts(vec![combat.clone(), feedback.clone()]), true);
    let other = topology_dump(&facts(vec![feedback, combat]), true);
    assert_eq!(one, other);
    // The shared ordering edge is listed once.
    assert_eq!(one.matches("order combat -> feedback\n").count(), 1);
}

#[test]
fn registry_digest_binds_invocation_read_topology() {
    let invocation = |reads: Vec<TopologyRead>| TopologyInvocation {
        invocation_id: "feedback.on-hit".to_owned(),
        family: "observe".to_owned(),
        input: contract("game.combat.hit.v1", "fnv1a64:00000000000000aa"),
        output: contract("game.feedback.cue.v1", "fnv1a64:00000000000000bb"),
        reads,
        max_outputs: 1,
        max_payload_bytes: 256,
    };
    let mut baseline = module("feedback");
    baseline.invocations.push(invocation(Vec::new()));
    let mut changed = module("feedback");
    changed.invocations.push(invocation(vec![
        TopologyRead {
            request_id: "target-lifecycle".to_owned(),
            view: contract("game.presentation-feedback.target-view.v1", "fnv1a64:00000000000000cc"),
        },
        TopologyRead {
            request_id: "source".to_owned(),
            view: contract("game.presentation-feedback.source-view.v1", "fnv1a64:00000000000000dd"),
        },
    ]));
    let (base_digest, _) = registry_digests(&facts(vec![baseline]));
    let (changed_digest, _) = registry_digests(&facts(vec![changed.clone()]));
    assert_ne!(base_digest, changed_digest);
    let dump = topology_dump(&facts(vec![changed]), true);
    assert!(dump.contains(
        "reads=source=game.presentation-feedback.source-view.v1@fnv1a64:00000000000000dd,target-lifecycle=game.presentation-feedback.target-view.v1@fnv1a64:00000000000000cc maxOutputs=1 maxPayloadBytes=256\n"
    ));
}

#[test]
fn subscriptions_views_and_owners_have_their_own_lines() {
    let mut feedback = module("feedback");
    feedback.subscriptions.push(TopologySubscription {
        subscription_id: "on-hit".to_owned(),
        event_key: "game.combat.hit.v1".to_owned(),
        invocation_id: "feedback.on-hit".to_owned(),
        max_deliveries_per_root: 2,
        source: Some(7),
        target: None,
        scope: None,
        required_tags: vec!["b".to_owned(), "a".to_owned()],
    });
    let view = TopologyReadView {
        view_key: "game.view.v1".to_owned(),
        provider_id: "provider.feedback".to_owned(),
        kind: "entityCapability".to_owned(),
        max_items: 1,
        fields: vec!["lifecycle".to_owned(), "health".to_owned()],
        selectors: vec!["lifecycleCapability".to_owned(), "eventTarget".to_owned()],
    };
    feedback.read_views.push(view.clone());
    feedback.state_schemas.push(TopologyOwned {
        contract: contract("game.feedback.state.v1", "fnv1a64:00000000000000ee"),
        owner_id: "owner.feedback".to_owned(),
        provider_id: "provider.feedback".to_owned(),
    });
    let mut f = facts(vec![feedback]);
    f.view_providers.push(TopologyViewProvider { view, ordering: "singleValue".to_owned() });
    f.state_owners.push(TopologyOwned {
        contract: contract("game.feedback.state.v1", "fnv1a64:00000000000000ee"),
        owner_id: "owner.feedback".to_owned(),
        provider_id: "provider.feedback".to_owned(),
    });
    let dump = topology_dump(&f, true);
    assert!(dump.contains(
        "subscription on-hit module=feedback event=game.combat.hit.v1 invocation=feedback.on-hit maxDeliveries=2 source=7 target=- scope=- tags=a,b\n"
    ));
    assert!(dump.contains(
        "viewRequirement module=feedback view=game.view.v1 provider=provider.feedback kind=entityCapability maxItems=1 fields=health,lifecycle selectors=eventTarget,lifecycleCapability\n"
    ));
    assert!(dump.contains(
        "view game.view.v1 provider=provider.feedback kind=entityCapability maxItems=1 ordering=singleValue fields=health,lifecycle selectors=eventTarget,lifecycleCapability\n"
    ));
    assert!(dump.contains("stateDeclaration module=feedback schema=game.feedback.state.v1 owner=owner.feedback provider=provider.feedback\n"));
    assert!(dump.contains("state game.feedback.state.v1 owner=owner.feedback provider=provider.feedback\n"));
}

#[test]
fn strings_sort_by_bytes() {
    let sorted = sort_strings(vec!["b".to_owned(), "B".to_owned(), "ab".to_owned(), "a".to_owned(), "é".to_owned()]);
    assert_eq!(sorted, vec!["B", "a", "ab", "b", "é"]);
}
