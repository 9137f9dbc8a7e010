use asha_services::readout::{registry_readout, sort_edges, TopologyEdge};
use asha_services::topology::{
    registry_digests, topology_dump, ContractText, TopologyBudget, TopologyFacts, TopologyModule, TopologyOrdering,
    TopologyOwned, TopologyPublished, TopologyReadView, TopologySubscription, TopologyViewProvider,
};

fn module(id: &str) -> TopologyModule {
    TopologyModule {
        module_id: id.to_owned(),
        namespace: format!("game.{id}"),
        version: "1.0.0".to_owned(),
        provider_id: format!("provider.{id}"),
        sdk_hash: "fnv1a64:0000000000000001".to_owned(),
        contract_hash: "fnv1a64:0000000000000002".to_owned(),
        artifact_hash: "fnv1a64:0000000000000003".to_owned(),
        source_hash: "fnv1a64:0000000000000004".to_owned(),
        budget: TopologyBudget {
            max_waves: 8,
            max_events_per_root: 16,
            max_proposals_per_root: 4,
            max_invocations_per_root: 32,
            max_payload_bytes_per_root: 4096,
        },
        deterministic_requirements: Vec::new(),
        published_events: Vec::new(),
        invocations: Vec::new(),
        subscriptions: Vec::new(),
        read_views: Vec::new(),
        state_schemas: Vec::new(),
        fact_schemas: Vec::new(),
        proposal_kinds: Vec::new(),
        ordering: Vec::new(),
    }
}

fn owned(key: &str, owner: &str) -> TopologyOwned {
    TopologyOwned {
        contract: ContractText { key: key.to_owned(), schema_hash: "fnv1a64:00000000000000ee".to_owned() },
        owner_id: owner.to_owned(),
        provider_id: format!("provider.{owner}"),
    }
}

fn facts() -> TopologyFacts {
    let mut combat = module("combat");
    combat.published_events.push(TopologyPublished { event_key: "game.combat.hit.v1".to_owned(), codec_id: "codec.hit".to_owned() });
    combat.ordering.push(TopologyOrdering { before_module: "combat".to_owned(), after_module: "feedback".to_owned() });
    let mut feedback = module("feedback");
    feedback.subscriptions.push(TopologySubscription {
        subscription_id: "z-on-hit".to_owned(),
        event_key: "game.combat.hit.v1".to_owned(),
        invocation_id: "feedback.on-hit".to_owned(),
        max_deliveries_per_root: 1,
        source: None,
        target: None,
        scope: None,
        required_tags: Vec::new(),
    });
    feedback.subscriptions.push(TopologySubscription {
        subscription_id: "a-on-miss".to_owned(),
        event_key: "game.combat.miss.v1".to_owned(),
        invocation_id: "feedback.on-miss".to_owned(),
        max_deliveries_per_root: 1,
        source: None,
        target: None,
        scope: None,
        required_tags: Vec::new(),
    });
    feedback.ordering.push(TopologyOrdering { before_module: "combat".to_owned(), after_module: "feedback".to_owned() });
    let view = TopologyReadView {
        view_key: "game.view.v1".to_owned(),
        provider_id: "provider.feedback".to_owned(),
        kind: "entityCapability".to_owned(),
        max_items: 1,
        fields: vec!["lifecycle".to_owned()],
        selectors: Vec::new(),
    };
    feedback.read_views.push(view.clone());
    TopologyFacts {
        modules: vec![feedback, combat],
        events: Vec::new(),
        proposal_owners: vec![owned("game.combat.damage.v1", "owner.combat")],
        view_providers: vec![TopologyViewProvider { view, ordering: "singleValue".to_owned() }],
        state_owners: vec![owned("game.feedback.state.v1", "owner.feedback")],
    }
}

fn edge(kind: &str, from: &str, to: &str, contract: Option<&str>) -> TopologyEdge {
    TopologyEdge { kind: kind.to_owned(), from: from.to_owned(), to: to.to_owned(), contract: contract.map(|c| c.to_owned()) }
}

#[test]
fn readout_lists_ids_owners_and_canonical_edges() {
    let f = facts();
    let readout = registry_readout(&f);
    assert_eq!(readout.module_ids, vec!["combat", "feedback"]);
    assert_eq!(readout.subscription_ids, vec!["a-on-miss", "z-on-hit"]);
    assert_eq!(readout.proposal_owners, vec!["game.combat.damage.v1=owner.combat"]);
    assert_eq!(readout.read_view_providers, vec!["game.view.v1=provider.feedback"]);
    assert_eq!(readout.state_owners, vec!["game.feedback.state.v1=owner.feedback"]);
    assert_eq!(readout.ordering.len(), 1);
    assert_eq!(readout.ordering[0].before_module, "combat");
    assert_eq!(
        readout.topology,
        vec![
            edge("order", "combat", "feedback", None),
            edge("proposalOwner", "game.combat.damage.v1", "owner.combat", Some("provider.owner.combat")),
            edge("publishes", "combat", "game.combat.hit.v1", Some("codec.hit")),
            edge("reads", "feedback", "game.view.v1", Some("provider.feedback")),
            edge("stateOwner", "game.feedback.state.v1", "owner.feedback", Some("provider.owner.feedback")),
            edge("subscription", "feedback", "game.combat.hit.v1", Some("feedback.on-hit")),
            edge("subscription", "feedback", "game.combat.miss.v1", Some("feedback.on-miss")),
            edge("viewProvider", "game.view.v1", "provider.feedback", None),
        ]
    );
}

#[test]
fn readout_digests_match_the_dumps() {
    let f = facts();
    let readout = registry_readout(&f);
    let (digest, semantic) = registry_digests(&f);
    assert_eq!(readout.registry_digest, digest);
    assert_eq!(readout.artifact_provenance_digest, digest);
    assert_eq!(readout.semantic_compatibility_digest, semantic);
    assert_eq!(readout.topology_dump, topology_dump(&f, true));
}

#[test]
fn edges_order_by_kind_then_endpoints_then_contract() {
    let sorted = sort_edges(vec![
        edge("reads", "b", "x", Some("p")),
        edge("reads", "a", "x", Some("p")),
        edge("reads", "a", "x", None),
        edge("order", "z", "z", None),
    ]);
    assert_eq!(
        sorted,
        vec![
            edge("order", "z", "z", None),
            edge("reads", "a", "x", None),
            edge("reads", "a", "x", Some("p")),
            edge("reads", "b", "x", Some("p")),
        ]
    );
}
