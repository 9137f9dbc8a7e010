//! Checks of what gameplay modules declare: the events they publish, their
//! invocations and the reads those make, their event subscriptions, and the
//! state and fact schemas they own.
//!
//! Modules come in module-id order. A contract's key is the string by which
//! published events are indexed; it is carried beside the contract.

use vstd::prelude::*;
use vstd::string::StringSliceAdditionalSpecFns;
use crate::ids::{is_blank, is_blank_text, namespace_owns, owns_bytes};
use crate::fabric_registry::utf8;
use crate::read_views::{contract_name_bad, contract_version_bad, same_contract, GameplayContractRef};

verus! {

/// A read that an invocation makes.
#[derive(Debug, Clone, PartialEq, Eq)]
pub struct GameplayInvocationRead {
    pub request_id: String,
    pub view: GameplayContractRef,
}

/// An invocation a module declares; `observe` tells whether it belongs to
/// the Observe family.
#[derive(Debug, Clone, PartialEq, Eq)]
pub struct GameplayInvocationDeclaration {
    pub invocation_id: String,
    pub observe: bool,
    pub input_contract: GameplayContractRef,
    pub output_contract: GameplayContractRef,
    pub max_outputs: u32,
    pub max_payload_bytes: u32,
    pub read_requirements: Vec<GameplayInvocationRead>,
}

/// An event subscription a module declares.
#[derive(Debug, Clone, PartialEq, Eq)]
pub struct GameplayEventSubscription {
    pub subscription_id: String,
    pub event: GameplayContractRef,
    pub event_key: String,
    pub invocation_id: String,
    pub max_deliveries_per_root: u32,
}

/// What one module manifest declares.
#[derive(Debug, Clone, PartialEq, Eq)]
pub struct GameplayModuleDeclarations {
    pub namespace: String,
    pub published_events: Vec<IndexedEvent>,
    pub invocations: Vec<GameplayInvocationDeclaration>,
    pub read_views: Vec<GameplayContractRef>,
    pub subscriptions: Vec<GameplayEventSubscription>,
    pub owned_schemas: Vec<GameplayContractRef>,
}

/// A published event and its key.
#[derive(Debug, Clone, PartialEq, Eq)]
pub struct IndexedEvent {
    pub key: String,
    pub event: GameplayContractRef,
}

/// The registry diagnostic codes that declaration checks raise.
#[derive(Debug, Clone, Copy, PartialEq, Eq, Structural)]
pub enum DeclarationDiagnosticCode {
    InvalidNamespace,
    InvalidIdentifier,
    InvalidBudget,
    ForeignNamespaceWrite,
    DuplicateEventKind,
    SchemaHashMismatch,
    DuplicateInvocation,
    DuplicateInvocationRead,
    MissingInvocationReadView,
    DuplicateSubscription,
    UnknownSubscription,
    MissingInvocation,
    InvalidSubscriptionInvocation,
}

/// Where a contract stands in a module's declarations.
#[derive(Debug, Clone, Copy, PartialEq, Eq, Structural)]
pub enum ContractSite {
    PublishedEvent { event: usize },
    InvocationInput { invocation: usize },
    InvocationOutput { invocation: usize },
    InvocationRead { invocation: usize, read: usize },
    OwnedSchema { schema: usize },
}

/// One declaration problem of module `module`.
#[derive(Debug, Clone, Copy, PartialEq, Eq, Structural)]
pub enum DeclarationDiagnostic {
    ContractName { module: usize, site: ContractSite },
    ContractVersion { module: usize, site: ContractSite },
    ForeignEvent { module: usize, event: usize },
    DuplicateEventKind { module: usize, event: usize },
    EventSchemaHashMismatch { module: usize, event: usize },
    DuplicateInvocation { module: usize, invocation: usize },
    InvocationBudget { module: usize, invocation: usize },
    DuplicateInvocationRead { module: usize, invocation: usize, read: usize },
    MissingInvocationReadView { module: usize, invocation: usize, read: usize },
    DuplicateSubscription { module: usize, subscription: usize },
    UnknownSubscription { module: usize, subscription: usize },
    SubscriptionSchemaMismatch { module: usize, subscription: usize },
    MissingInvocation { module: usize, subscription: usize },
    SubscriptionNotObserve { module: usize, subscription: usize },
    SubscriptionInputMismatch { module: usize, subscription: usize },
    SubscriptionBudget { module: usize, subscription: usize },
    ForeignSchema { module: usize, schema: usize },
}

pub open spec fn declaration_code(d: DeclarationDiagnostic) -> DeclarationDiagnosticCode {
    match d {
        DeclarationDiagnostic::ContractName { .. } => DeclarationDiagnosticCode::InvalidNamespace,
        DeclarationDiagnostic::ContractVersion { .. } => DeclarationDiagnosticCode::InvalidIdentifier,
        DeclarationDiagnostic::ForeignEvent { .. } => DeclarationDiagnosticCode::ForeignNamespaceWrite,
        DeclarationDiagnostic::ForeignSchema { .. } => DeclarationDiagnosticCode::ForeignNamespaceWrite,
        DeclarationDiagnostic::DuplicateEventKind { .. } => DeclarationDiagnosticCode::DuplicateEventKind,
        DeclarationDiagnostic::EventSchemaHashMismatch { .. } => DeclarationDiagnosticCode::SchemaHashMismatch,
        DeclarationDiagnostic::SubscriptionSchemaMismatch { .. } => DeclarationDiagnosticCode::SchemaHashMismatch,
        DeclarationDiagnostic::DuplicateInvocation { .. } => DeclarationDiagnosticCode::DuplicateInvocation,
        DeclarationDiagnostic::InvocationBudget { .. } => DeclarationDiagnosticCode::InvalidBudget,
        DeclarationDiagnostic::SubscriptionBudget { .. } => DeclarationDiagnosticCode::InvalidBudget,
        DeclarationDiagnostic::DuplicateInvocationRead { .. } => DeclarationDiagnosticCode::DuplicateInvocationRead,
        DeclarationDiagnostic::MissingInvocationReadView { .. } => DeclarationDiagnosticCode::MissingInvocationReadView,
        DeclarationDiagnostic::DuplicateSubscription { .. } => DeclarationDiagnosticCode::DuplicateSubscription,
        DeclarationDiagnostic::UnknownSubscription { .. } => DeclarationDiagnosticCode::UnknownSubscription,
        DeclarationDiagnostic::MissingInvocation { .. } => DeclarationDiagnosticCode::MissingInvocation,
        DeclarationDiagnostic::SubscriptionNotObserve { .. } => DeclarationDiagnosticCode::InvalidSubscriptionInvocation,
        DeclarationDiagnostic::SubscriptionInputMismatch { .. } => DeclarationDiagnosticCode::InvalidSubscriptionInvocation,
    }
}

impl DeclarationDiagnostic {
    /// The registry diagnostic code of this problem.
    pub fn code(self) -> (r: DeclarationDiagnosticCode)
        ensures
            r == declaration_code(self),
    {
        match self {
            DeclarationDiagnostic::ContractName { .. } => DeclarationDiagnosticCode::InvalidNamespace,
            DeclarationDiagnostic::ContractVersion { .. } => DeclarationDiagnosticCode::InvalidIdentifier,
            DeclarationDiagnostic::ForeignEvent { .. } => DeclarationDiagnosticCode::ForeignNamespaceWrite,
            DeclarationDiagnostic::ForeignSchema { .. } => DeclarationDiagnosticCode::ForeignNamespaceWrite,
            DeclarationDiagnostic::DuplicateEventKind { .. } => DeclarationDiagnosticCode::DuplicateEventKind,
            DeclarationDiagnostic::EventSchemaHashMismatch { .. } => DeclarationDiagnosticCode::SchemaHashMismatch,
            DeclarationDiagnostic::SubscriptionSchemaMismatch { .. } => DeclarationDiagnosticCode::SchemaHashMismatch,
            DeclarationDiagnostic::DuplicateInvocation { .. } => DeclarationDiagnosticCode::DuplicateInvocation,
            DeclarationDiagnostic::InvocationBudget { .. } => DeclarationDiagnosticCode::InvalidBudget,
            DeclarationDiagnostic::SubscriptionBudget { .. } => DeclarationDiagnosticCode::InvalidBudget,
            DeclarationDiagnostic::DuplicateInvocationRead { .. } => DeclarationDiagnosticCode::DuplicateInvocationRead,
            DeclarationDiagnostic::MissingInvocationReadView { .. } => DeclarationDiagnosticCode::MissingInvocationReadView,
            DeclarationDiagnostic::DuplicateSubscription { .. } => DeclarationDiagnosticCode::DuplicateSubscription,
            DeclarationDiagnostic::UnknownSubscription { .. } => DeclarationDiagnosticCode::UnknownSubscription,
            DeclarationDiagnostic::MissingInvocation { .. } => DeclarationDiagnosticCode::MissingInvocation,
            DeclarationDiagnostic::SubscriptionNotObserve { .. } => DeclarationDiagnosticCode::InvalidSubscriptionInvocation,
            DeclarationDiagnostic::SubscriptionInputMismatch { .. } => DeclarationDiagnosticCode::InvalidSubscriptionInvocation,
        }
    }
}

pub open spec fn flag(b: bool, d: DeclarationDiagnostic) -> Seq<DeclarationDiagnostic> {
    if b {
        seq![d]
    } else {
        Seq::empty()
    }
}

/// The identity problems of a contract at `site` of module `mi`.
#[verifier::opaque]
pub open spec fn contract_diagnostics(c: GameplayContractRef, mi: int, site: ContractSite) -> Seq<DeclarationDiagnostic> {
    flag(contract_name_bad(c), DeclarationDiagnostic::ContractName { module: mi as usize, site })
        + flag(contract_version_bad(c), DeclarationDiagnostic::ContractVersion { module: mi as usize, site })
}

/// `owner` owns the namespace `candidate`.
pub open spec fn owns(owner: String, candidate: String) -> bool {
    owns_bytes(utf8(owner), utf8(candidate))
}

fn push_if(out: &mut Vec<DeclarationDiagnostic>, cond: bool, d: DeclarationDiagnostic)
    ensures
        final(out)@ == old(out)@ + flag(cond, d),
{
    if cond {
        out.push(d);
    }
    assert(out@ =~= old(out)@ + flag(cond, d));
}

fn push_contract(out: &mut Vec<DeclarationDiagnostic>, c: &GameplayContractRef, mi: usize, site: ContractSite)
    ensures
        final(out)@ == old(out)@ + contract_diagnostics(*c, mi as int, site),
{
    reveal(contract_diagnostics);
    let (bad_name, bad_version) = crate::fabric_registry::contract_identity_problems(
        c.namespace.as_str(),
        c.name.as_str(),
        c.version,
        c.schema_hash.as_str(),
    );
    push_if(out, bad_name, DeclarationDiagnostic::ContractName { module: mi, site });
    push_if(out, bad_version, DeclarationDiagnostic::ContractVersion { module: mi, site });
    assert(out@ =~= old(out)@ + contract_diagnostics(*c, mi as int, site));
}

fn same_contract_exec(a: &GameplayContractRef, b: &GameplayContractRef) -> (r: bool)
    ensures
        r == same_contract(*a, *b),
{
    a.namespace == b.namespace && a.name == b.name && a.version == b.version && a.schema_hash == b.schema_hash
}

fn owns_exec(owner: &String, candidate: &String) -> (r: bool)
    ensures
        r == owns(*owner, *candidate),
{
    namespace_owns(owner.as_str(), candidate.as_str())
}

// Published events, addressed as (module, event) in module order.

pub open spec fn event_valid(ms: Seq<GameplayModuleDeclarations>, j: int, t: int) -> bool {
    0 <= j < ms.len() && 0 <= t < ms[j].published_events@.len()
}

/// Position `(j, t)` comes before `(mi, e)`.
pub open spec fn before(j: int, t: int, mi: int, e: int) -> bool {
    j < mi || (j == mi && t < e)
}

pub open spec fn event_key(ms: Seq<GameplayModuleDeclarations>, j: int, t: int) -> Seq<char> {
    ms[j].published_events@[t].key@
}

/// Some event before `(mi, e)` has key `k`.
pub open spec fn some_event_before(ms: Seq<GameplayModuleDeclarations>, mi: int, e: int, k: Seq<char>) -> bool {
    exists|j: int, t: int| #![trigger event_key(ms, j, t)] event_valid(ms, j, t) && before(j, t, mi, e) && event_key(ms, j, t) == k
}

/// `(j, t)` is the last event before `(mi, e)` with key `k`.
pub open spec fn is_last_event_before(ms: Seq<GameplayModuleDeclarations>, mi: int, e: int, k: Seq<char>, j: int, t: int) -> bool {
    &&& event_valid(ms, j, t)
    &&& before(j, t, mi, e)
    &&& event_key(ms, j, t) == k
    &&& forall|j2: int, t2: int| #![trigger event_key(ms, j2, t2)]
        event_valid(ms, j2, t2) && before(j2, t2, mi, e) && before(j, t, j2, t2) ==> event_key(ms, j2, t2) != k
}

/// The last event before `(mi, e)` with key `k`.
pub open spec fn last_event_before(ms: Seq<GameplayModuleDeclarations>, mi: int, e: int, k: Seq<char>) -> (int, int) {
    choose|j: int, t: int| is_last_event_before(ms, mi, e, k, j, t)
}

pub open spec fn event_contract(ms: Seq<GameplayModuleDeclarations>, p: (int, int)) -> GameplayContractRef {
    ms[p.0].published_events@[p.1].event
}

proof fn lemma_last_event_unique(ms: Seq<GameplayModuleDeclarations>, mi: int, e: int, k: Seq<char>, j: int, t: int)
    requires
        is_last_event_before(ms, mi, e, k, j, t),
    ensures
        last_event_before(ms, mi, e, k) == (j, t),
{
    let c = last_event_before(ms, mi, e, k);
    assert(is_last_event_before(ms, mi, e, k, c.0, c.1));
    if before(c.0, c.1, j, t) {
        assert(event_key(ms, j, t) == k);
    } else if before(j, t, c.0, c.1) {
        assert(event_key(ms, c.0, c.1) == k);
    }
}

/// Find the last event before `(mi, e)` with key `k`.
fn find_last_event(ms: &[GameplayModuleDeclarations], mi: usize, e: usize, k: &String) -> (r: Option<(usize, usize)>)
    requires
        mi <= ms@.len(),
    ensures
        r is None <==> !some_event_before(ms@, mi as int, e as int, k@),
        r matches Some(p) ==> is_last_event_before(ms@, mi as int, e as int, k@, p.0 as int, p.1 as int),
{
    let mut found: Option<(usize, usize)> = None;
    let mut j: usize = 0;
    while j < ms.len() && j <= mi
        invariant
            mi <= ms@.len(),
            j <= ms@.len(),
            j <= mi + 1,
            found is None ==> forall|j2: int, t2: int| #![trigger event_key(ms@, j2, t2)]
                event_valid(ms@, j2, t2) && before(j2, t2, mi as int, e as int) && j2 < j ==> event_key(ms@, j2, t2) != k@,
            found matches Some(p) ==> {
                &&& event_valid(ms@, p.0 as int, p.1 as int)
                &&& before(p.0 as int, p.1 as int, mi as int, e as int)
                &&& p.0 < j
                &&& event_key(ms@, p.0 as int, p.1 as int) == k@
                &&& forall|j2: int, t2: int| #![trigger event_key(ms@, j2, t2)]
                    event_valid(ms@, j2, t2) && before(j2, t2, mi as int, e as int) && j2 < j
                        && before(p.0 as int, p.1 as int, j2, t2) ==> event_key(ms@, j2, t2) != k@
            },
        decreases ms@.len() - j,
    {
        let evs = &ms[j].published_events;
        let mut t: usize = 0;
        while t < evs.len() && (j < mi || t < e)
            invariant
                evs == &ms@[j as int].published_events,
                j < ms@.len(),
                j <= mi,
                mi <= ms@.len(),
                t <= evs@.len(),
                j == mi ==> t <= e || t == 0,
                found is None ==> forall|j2: int, t2: int| #![trigger event_key(ms@, j2, t2)]
                    event_valid(ms@, j2, t2) && before(j2, t2, mi as int, e as int) && before(j2, t2, j as int, t as int)
                        ==> event_key(ms@, j2, t2) != k@,
                found matches Some(p) ==> {
                    &&& event_valid(ms@, p.0 as int, p.1 as int)
                    &&& before(p.0 as int, p.1 as int, mi as int, e as int)
                    &&& before(p.0 as int, p.1 as int, j as int, t as int)
                    &&& event_key(ms@, p.0 as int, p.1 as int) == k@
                    &&& forall|j2: int, t2: int| #![trigger event_key(ms@, j2, t2)]
                        event_valid(ms@, j2, t2) && before(j2, t2, mi as int, e as int) && before(j2, t2, j as int, t as int)
                            && before(p.0 as int, p.1 as int, j2, t2) ==> event_key(ms@, j2, t2) != k@
                },
            decreases evs@.len() - t,
        {
            if evs[t].key == *k {
                found = Some((j, t));
            }
            t = t + 1;
        }
        proof {
            assert forall|j2: int, t2: int| #![trigger event_key(ms@, j2, t2)]
                event_valid(ms@, j2, t2) && before(j2, t2, mi as int, e as int) && j2 < j + 1
                    implies before(j2, t2, j as int, t as int) by {
                if j2 == j {
                    assert(t2 < evs@.len());
                    if j < mi {
                    } else {
                        assert(t2 < e);
                    }
                }
            }
        }
        j = j + 1;
    }
    proof {
        assert forall|j2: int, t2: int| #![trigger event_key(ms@, j2, t2)]
            event_valid(ms@, j2, t2) && before(j2, t2, mi as int, e as int) implies j2 < j by {}
    }
    found
}

/// The problems of event `e` of module `mi`: its contract, its namespace,
/// and a key that an earlier event already published (the same schema hash
/// as the last such event, or another).
pub open spec fn event_diagnostics(ms: Seq<GameplayModuleDeclarations>, mi: int, e: int) -> Seq<DeclarationDiagnostic> {
    let m = ms[mi];
    let ev = m.published_events@[e];
    let x = mi as usize;
    let y = e as usize;
    contract_diagnostics(ev.event, mi, ContractSite::PublishedEvent { event: y })
        + flag(!owns(m.namespace, ev.event.namespace), DeclarationDiagnostic::ForeignEvent { module: x, event: y })
        + if some_event_before(ms, mi, e, ev.key@) {
        if event_contract(ms, last_event_before(ms, mi, e, ev.key@)).schema_hash@ == ev.event.schema_hash@ {
            seq![DeclarationDiagnostic::DuplicateEventKind { module: x, event: y }]
        } else {
            seq![DeclarationDiagnostic::EventSchemaHashMismatch { module: x, event: y }]
        }
    } else {
        Seq::empty()
    }
}

pub open spec fn module_events_upto(ms: Seq<GameplayModuleDeclarations>, mi: int, n: int) -> Seq<DeclarationDiagnostic>
    decreases n,
{
    if n <= 0 {
        Seq::empty()
    } else {
        module_events_upto(ms, mi, n - 1) + event_diagnostics(ms, mi, n - 1)
    }
}

pub open spec fn events_upto(ms: Seq<GameplayModuleDeclarations>, n: int) -> Seq<DeclarationDiagnostic>
    decreases n,
{
    if n <= 0 {
        Seq::empty()
    } else {
        events_upto(ms, n - 1) + module_events_upto(ms, n - 1, ms[n - 1].published_events@.len() as int)
    }
}

fn event_diagnostics_exec(ms: &[GameplayModuleDeclarations], mi: usize, e: usize, out: &mut Vec<DeclarationDiagnostic>)
    requires
        mi < ms@.len(),
        e < ms@[mi as int].published_events@.len(),
    ensures
        final(out)@ == old(out)@ + event_diagnostics(ms@, mi as int, e as int),
{
    let m = &ms[mi];
    let ev = &m.published_events[e];
    push_contract(out, &ev.event, mi, ContractSite::PublishedEvent { event: e });
    push_if(out, !owns_exec(&m.namespace, &ev.event.namespace), DeclarationDiagnostic::ForeignEvent { module: mi, event: e });
    let ghost mid = out@;
    match find_last_event(ms, mi, e, &ev.key) {
        None => {},
        Some(p) => {
            proof {
                lemma_last_event_unique(ms@, mi as int, e as int, ev.key@, p.0 as int, p.1 as int);
            }
            let prior = &ms[p.0].published_events[p.1].event;
            if prior.schema_hash == ev.event.schema_hash {
                out.push(DeclarationDiagnostic::DuplicateEventKind { module: mi, event: e });
            } else {
                out.push(DeclarationDiagnostic::EventSchemaHashMismatch { module: mi, event: e });
            }
        },
    }
    assert(out@ =~= old(out)@ + event_diagnostics(ms@, mi as int, e as int));
}

/// Check the events that modules publish, in module order: each event's
/// contract and namespace, and each key published more than once (as a
/// duplicate when the schema hash agrees with the last earlier event of that
/// key, as a schema mismatch when not).
pub fn collect_events(modules: &[GameplayModuleDeclarations]) -> (out: Vec<DeclarationDiagnostic>)
    ensures
        out@ == events_upto(modules@, modules@.len() as int),
{
    let mut out: Vec<DeclarationDiagnostic> = Vec::new();
    let mut mi: usize = 0;
    while mi < modules.len()
        invariant
            mi <= modules@.len(),
            out@ == events_upto(modules@, mi as int),
        decreases modules@.len() - mi,
    {
        let ghost start = out@;
        let mut e: usize = 0;
        while e < modules[mi].published_events.len()
            invariant
                mi < modules@.len(),
                e <= modules@[mi as int].published_events@.len(),
                out@ == start + module_events_upto(modules@, mi as int, e as int),
            decreases modules@[mi as int].published_events@.len() - e,
        {
            event_diagnostics_exec(modules, mi, e, &mut out);
            assert(out@ =~= start + module_events_upto(modules@, mi as int, e + 1));
            e = e + 1;
        }
        assert(out@ =~= events_upto(modules@, mi + 1));
        mi = mi + 1;
    }
    out
}

// Invocations and their reads.

/// An earlier invocation of module `m` has the id of invocation `v`.
pub open spec fn invocation_seen(m: GameplayModuleDeclarations, v: int) -> bool {
    exists|t: int| 0 <= t < v && (#[trigger] m.invocations@[t]).invocation_id@ == m.invocations@[v].invocation_id@
}

/// An earlier read of invocation `inv` has the request id of read `r`.
pub open spec fn read_seen(inv: GameplayInvocationDeclaration, r: int) -> bool {
    exists|t: int| 0 <= t < r && (#[trigger] inv.read_requirements@[t]).request_id@ == inv.read_requirements@[r].request_id@
}

/// Module `m` declares the read view `c`.
pub open spec fn view_declared(m: GameplayModuleDeclarations, c: GameplayContractRef) -> bool {
    exists|u: int| 0 <= u < m.read_views@.len() && same_contract(#[trigger] m.read_views@[u], c)
}

pub open spec fn read_diagnostics(m: GameplayModuleDeclarations, mi: int, v: int, r: int) -> Seq<DeclarationDiagnostic> {
    let inv = m.invocations@[v];
    let rd = inv.read_requirements@[r];
    let (x, y, z) = (mi as usize, v as usize, r as usize);
    contract_diagnostics(rd.view, mi, ContractSite::InvocationRead { invocation: y, read: z })
        + flag(
        is_blank_text(rd.request_id@) || read_seen(inv, r),
        DeclarationDiagnostic::DuplicateInvocationRead { module: x, invocation: y, read: z },
    )
        + flag(!view_declared(m, rd.view), DeclarationDiagnostic::MissingInvocationReadView { module: x, invocation: y, read: z })
}

pub open spec fn reads_upto(m: GameplayModuleDeclarations, mi: int, v: int, n: int) -> Seq<DeclarationDiagnostic>
    decreases n,
{
    if n <= 0 {
        Seq::empty()
    } else {
        reads_upto(m, mi, v, n - 1) + read_diagnostics(m, mi, v, n - 1)
    }
}

/// The problems of invocation `v` of module `mi`: a repeated id, its input
/// and output contracts, its budgets, then its reads.
pub open spec fn invocation_diagnostics(m: GameplayModuleDeclarations, mi: int, v: int) -> Seq<DeclarationDiagnostic> {
    let inv = m.invocations@[v];
    let (x, y) = (mi as usize, v as usize);
    flag(invocation_seen(m, v), DeclarationDiagnostic::DuplicateInvocation { module: x, invocation: y })
        + contract_diagnostics(inv.input_contract, mi, ContractSite::InvocationInput { invocation: y })
        + contract_diagnostics(inv.output_contract, mi, ContractSite::InvocationOutput { invocation: y })
        + flag(inv.max_outputs == 0 || inv.max_payload_bytes == 0, DeclarationDiagnostic::InvocationBudget { module: x, invocation: y })
        + reads_upto(m, mi, v, inv.read_requirements@.len() as int)
}

pub open spec fn invocations_upto(m: GameplayModuleDeclarations, mi: int, n: int) -> Seq<DeclarationDiagnostic>
    decreases n,
{
    if n <= 0 {
        Seq::empty()
    } else {
        invocations_upto(m, mi, n - 1) + invocation_diagnostics(m, mi, n - 1)
    }
}

fn invocation_seen_exec(m: &GameplayModuleDeclarations, v: usize) -> (r: bool)
    requires
        v < m.invocations@.len(),
    ensures
        r == invocation_seen(*m, v as int),
{
    let mut t: usize = 0;
    while t < v
        invariant
            v < m.invocations@.len(),
            t <= v,
            forall|a: int| 0 <= a < t ==> (#[trigger] m.invocations@[a]).invocation_id@ != m.invocations@[v as int].invocation_id@,
        decreases v - t,
    {
        if m.invocations[t].invocation_id == m.invocations[v].invocation_id {
            assert(m.invocations@[t as int].invocation_id@ == m.invocations@[v as int].invocation_id@);
            return true;
        }
        t = t + 1;
    }
    false
}

fn read_seen_exec(inv: &GameplayInvocationDeclaration, r: usize) -> (res: bool)
    requires
        r < inv.read_requirements@.len(),
    ensures
        res == read_seen(*inv, r as int),
{
    let mut t: usize = 0;
    while t < r
        invariant
            r < inv.read_requirements@.len(),
            t <= r,
            forall|a: int| 0 <= a < t ==> (#[trigger] inv.read_requirements@[a]).request_id@ != inv.read_requirements@[r as int].request_id@,
        decreases r - t,
    {
        if inv.read_requirements[t].request_id == inv.read_requirements[r].request_id {
            assert(inv.read_requirements@[t as int].request_id@ == inv.read_requirements@[r as int].request_id@);
            return true;
        }
        t = t + 1;
    }
    false
}

fn view_declared_exec(m: &GameplayModuleDeclarations, c: &GameplayContractRef) -> (r: bool)
    ensures
        r == view_declared(*m, *c),
{
    let mut u: usize = 0;
    while u < m.read_views.len()
        invariant
            u <= m.read_views@.len(),
            forall|a: int| 0 <= a < u ==> !same_contract(#[trigger] m.read_views@[a], *c),
        decreases m.read_views@.len() - u,
    {
        if same_contract_exec(&m.read_views[u], c) {
            return true;
        }
        u = u + 1;
    }
    false
}

fn read_diagnostics_exec(m: &GameplayModuleDeclarations, mi: usize, v: usize, r: usize, out: &mut Vec<DeclarationDiagnostic>)
    requires
        v < m.invocations@.len(),
        r < m.invocations@[v as int].read_requirements@.len(),
    ensures
        final(out)@ == old(out)@ + read_diagnostics(*m, mi as int, v as int, r as int),
{
    let inv = &m.invocations[v];
    let rd = &inv.read_requirements[r];
    push_contract(out, &rd.view, mi, ContractSite::InvocationRead { invocation: v, read: r });
    let dup = is_blank(rd.request_id.as_str()) || read_seen_exec(inv, r);
    push_if(out, dup, DeclarationDiagnostic::DuplicateInvocationRead { module: mi, invocation: v, read: r });
    push_if(
        out,
        !view_declared_exec(m, &rd.view),
        DeclarationDiagnostic::MissingInvocationReadView { module: mi, invocation: v, read: r },
    );
    assert(out@ =~= old(out)@ + read_diagnostics(*m, mi as int, v as int, r as int));
}

fn invocation_diagnostics_exec(m: &GameplayModuleDeclarations, mi: usize, v: usize, out: &mut Vec<DeclarationDiagnostic>)
    requires
        v < m.invocations@.len(),
    ensures
        final(out)@ == old(out)@ + invocation_diagnostics(*m, mi as int, v as int),
{
    let inv = &m.invocations[v];
    let ghost s0 = out@;
    push_if(out, invocation_seen_exec(m, v), DeclarationDiagnostic::DuplicateInvocation { module: mi, invocation: v });
    push_contract(out, &inv.input_contract, mi, ContractSite::InvocationInput { invocation: v });
    push_contract(out, &inv.output_contract, mi, ContractSite::InvocationOutput { invocation: v });
    push_if(
        out,
        inv.max_outputs == 0 || inv.max_payload_bytes == 0,
        DeclarationDiagnostic::InvocationBudget { module: mi, invocation: v },
    );
    let ghost head = out@;
    let mut r: usize = 0;
    while r < inv.read_requirements.len()
        invariant
            v < m.invocations@.len(),
            inv == &m.invocations@[v as int],
            r <= inv.read_requirements@.len(),
            out@ == head + reads_upto(*m, mi as int, v as int, r as int),
        decreases inv.read_requirements@.len() - r,
    {
        read_diagnostics_exec(m, mi, v, r, out);
        assert(out@ =~= head + reads_upto(*m, mi as int, v as int, r + 1));
        r = r + 1;
    }
    assert(out@ =~= s0 + invocation_diagnostics(*m, mi as int, v as int));
}

// Subscriptions and owned schemas.

pub open spec fn sub_valid(ms: Seq<GameplayModuleDeclarations>, j: int, t: int) -> bool {
    0 <= j < ms.len() && 0 <= t < ms[j].subscriptions@.len()
}

pub open spec fn sub_id(ms: Seq<GameplayModuleDeclarations>, j: int, t: int) -> Seq<char> {
    ms[j].subscriptions@[t].subscription_id@
}

/// A subscription before subscription `s` of module `mi`, in this module or
/// an earlier one, has its id.
pub open spec fn subscription_seen(ms: Seq<GameplayModuleDeclarations>, mi: int, s: int) -> bool {
    exists|j: int, t: int| #![trigger sub_id(ms, j, t)] sub_valid(ms, j, t) && before(j, t, mi, s) && sub_id(ms, j, t) == sub_id(ms, mi, s)
}

/// `v` is the last invocation of `m` with id `id`.
pub open spec fn is_last_invocation(m: GameplayModuleDeclarations, id: Seq<char>, v: int) -> bool {
    &&& 0 <= v < m.invocations@.len()
    &&& m.invocations@[v].invocation_id@ == id
    &&& forall|t: int| v < t < m.invocations@.len() ==> (#[trigger] m.invocations@[t]).invocation_id@ != id
}

pub open spec fn has_invocation(m: GameplayModuleDeclarations, id: Seq<char>) -> bool {
    exists|v: int| 0 <= v < m.invocations@.len() && (#[trigger] m.invocations@[v]).invocation_id@ == id
}

/// The invocation that an id names in `m`: the last declared with it.
pub open spec fn named_invocation(m: GameplayModuleDeclarations, id: Seq<char>) -> GameplayInvocationDeclaration {
    m.invocations@[choose|v: int| is_last_invocation(m, id, v)]
}

/// The event that subscription `s` of module `mi` names: no module
/// publishes it, or the contract last published under its key differs.
pub open spec fn subscription_event_check(ms: Seq<GameplayModuleDeclarations>, mi: int, s: int) -> Seq<DeclarationDiagnostic> {
    let sub = ms[mi].subscriptions@[s];
    let key = sub.event_key@;
    let (x, y) = (mi as usize, s as usize);
    if !some_event_before(ms, ms.len() as int, 0, key) {
        seq![DeclarationDiagnostic::UnknownSubscription { module: x, subscription: y }]
    } else if !same_contract(event_contract(ms, last_event_before(ms, ms.len() as int, 0, key)), sub.event) {
        seq![DeclarationDiagnostic::SubscriptionSchemaMismatch { module: x, subscription: y }]
    } else {
        Seq::empty()
    }
}

/// The invocation that subscription `s` of module `mi` feeds: missing, or
/// not Observe, or fed another contract; then the delivery budget (not
/// checked when the invocation is missing).
pub open spec fn subscription_invocation_check(m: GameplayModuleDeclarations, mi: int, s: int) -> Seq<DeclarationDiagnostic> {
    let sub = m.subscriptions@[s];
    let (x, y) = (mi as usize, s as usize);
    if !has_invocation(m, sub.invocation_id@) {
        seq![DeclarationDiagnostic::MissingInvocation { module: x, subscription: y }]
    } else {
        let inv = named_invocation(m, sub.invocation_id@);
        flag(!inv.observe, DeclarationDiagnostic::SubscriptionNotObserve { module: x, subscription: y })
            + flag(!same_contract(inv.input_contract, sub.event), DeclarationDiagnostic::SubscriptionInputMismatch { module: x, subscription: y })
            + flag(sub.max_deliveries_per_root == 0, DeclarationDiagnostic::SubscriptionBudget { module: x, subscription: y })
    }
}

/// The problems of subscription `s` of module `mi`: a repeated id, then
/// the event it names, then the invocation it feeds.
pub open spec fn subscription_diagnostics(ms: Seq<GameplayModuleDeclarations>, mi: int, s: int) -> Seq<DeclarationDiagnostic> {
    flag(subscription_seen(ms, mi, s), DeclarationDiagnostic::DuplicateSubscription { module: mi as usize, subscription: s as usize })
        + subscription_event_check(ms, mi, s)
        + subscription_invocation_check(ms[mi], mi, s)
}

pub open spec fn subscriptions_upto(ms: Seq<GameplayModuleDeclarations>, mi: int, n: int) -> Seq<DeclarationDiagnostic>
    decreases n,
{
    if n <= 0 {
        Seq::empty()
    } else {
        subscriptions_upto(ms, mi, n - 1) + subscription_diagnostics(ms, mi, n - 1)
    }
}

pub open spec fn owned_diagnostics(m: GameplayModuleDeclarations, mi: int, o: int) -> Seq<DeclarationDiagnostic> {
    let c = m.owned_schemas@[o];
    contract_diagnostics(c, mi, ContractSite::OwnedSchema { schema: o as usize })
        + flag(!owns(m.namespace, c.namespace), DeclarationDiagnostic::ForeignSchema { module: mi as usize, schema: o as usize })
}

pub open spec fn owned_upto(m: GameplayModuleDeclarations, mi: int, n: int) -> Seq<DeclarationDiagnostic>
    decreases n,
{
    if n <= 0 {
        Seq::empty()
    } else {
        owned_upto(m, mi, n - 1) + owned_diagnostics(m, mi, n - 1)
    }
}

/// The declaration problems of module `mi`: its invocations, its
/// subscriptions, then the schemas it owns.
pub open spec fn module_diagnostics(ms: Seq<GameplayModuleDeclarations>, mi: int) -> Seq<DeclarationDiagnostic> {
    let m = ms[mi];
    invocations_upto(m, mi, m.invocations@.len() as int)
        + subscriptions_upto(ms, mi, m.subscriptions@.len() as int)
        + owned_upto(m, mi, m.owned_schemas@.len() as int)
}

pub open spec fn declarations_upto(ms: Seq<GameplayModuleDeclarations>, n: int) -> Seq<DeclarationDiagnostic>
    decreases n,
{
    if n <= 0 {
        Seq::empty()
    } else {
        declarations_upto(ms, n - 1) + module_diagnostics(ms, n - 1)
    }
}

fn subscription_seen_exec(ms: &[GameplayModuleDeclarations], mi: usize, s: usize) -> (r: bool)
    requires
        sub_valid(ms@, mi as int, s as int),
    ensures
        r == subscription_seen(ms@, mi as int, s as int),
{
    let id = &ms[mi].subscriptions[s].subscription_id;
    let mut j: usize = 0;
    while j <= mi
        invariant
            sub_valid(ms@, mi as int, s as int),
            id@ == sub_id(ms@, mi as int, s as int),
            j <= mi + 1,
            forall|j2: int, t2: int| #![trigger sub_id(ms@, j2, t2)]
                sub_valid(ms@, j2, t2) && before(j2, t2, mi as int, s as int) && j2 < j ==> sub_id(ms@, j2, t2) != id@,
        decreases mi + 1 - j,
    {
        let subs = &ms[j].subscriptions;
        let limit = if j < mi { subs.len() } else { s };
        let mut t: usize = 0;
        while t < limit
            invariant
                subs == &ms@[j as int].subscriptions,
                j <= mi,
                sub_valid(ms@, mi as int, s as int),
                id@ == sub_id(ms@, mi as int, s as int),
                limit <= subs@.len(),
                limit == (if j < mi { subs@.len() } else { s as nat }),
                t <= limit,
                forall|j2: int, t2: int| #![trigger sub_id(ms@, j2, t2)]
                    sub_valid(ms@, j2, t2) && before(j2, t2, mi as int, s as int) && (j2 < j || (j2 == j && t2 < t))
                        ==> sub_id(ms@, j2, t2) != id@,
            decreases limit - t,
        {
            if subs[t].subscription_id == *id {
                assert(sub_id(ms@, j as int, t as int) == id@);
                return true;
            }
            t = t + 1;
        }
        j = j + 1;
    }
    false
}

fn find_last_invocation(m: &GameplayModuleDeclarations, id: &String) -> (r: Option<usize>)
    ensures
        r is None <==> !has_invocation(*m, id@),
        r matches Some(v) ==> is_last_invocation(*m, id@, v as int),
{
    let mut found: Option<usize> = None;
    let mut v: usize = 0;
    while v < m.invocations.len()
        invariant
            v <= m.invocations@.len(),
            found is None ==> forall|t: int| 0 <= t < v ==> (#[trigger] m.invocations@[t]).invocation_id@ != id@,
            found matches Some(w) ==> w < v && m.invocations@[w as int].invocation_id@ == id@
                && forall|t: int| w < t < v ==> (#[trigger] m.invocations@[t]).invocation_id@ != id@,
        decreases m.invocations@.len() - v,
    {
        if m.invocations[v].invocation_id == *id {
            found = Some(v);
        }
        v = v + 1;
    }
    found
}

proof fn lemma_last_invocation_unique(m: GameplayModuleDeclarations, id: Seq<char>, v: int)
    requires
        is_last_invocation(m, id, v),
    ensures
        named_invocation(m, id) == m.invocations@[v],
{
    let c = choose|w: int| is_last_invocation(m, id, w);
    assert(is_last_invocation(m, id, c));
    if c < v {
        assert(m.invocations@[v].invocation_id@ == id);
    }
    if v < c {
        assert(m.invocations@[c].invocation_id@ == id);
    }
}

fn subscription_event_exec(ms: &[GameplayModuleDeclarations], mi: usize, s: usize, out: &mut Vec<DeclarationDiagnostic>)
    requires
        sub_valid(ms@, mi as int, s as int),
    ensures
        final(out)@ == old(out)@ + subscription_event_check(ms@, mi as int, s as int),
{
    let sub = &ms[mi].subscriptions[s];
    match find_last_event(ms, ms.len(), 0, &sub.event_key) {
        None => {
            out.push(DeclarationDiagnostic::UnknownSubscription { module: mi, subscription: s });
        },
        Some(p) => {
            proof {
                lemma_last_event_unique(ms@, ms@.len() as int, 0, sub.event_key@, p.0 as int, p.1 as int);
            }
            if !same_contract_exec(&ms[p.0].published_events[p.1].event, &sub.event) {
                out.push(DeclarationDiagnostic::SubscriptionSchemaMismatch { module: mi, subscription: s });
            }
        },
    }
    assert(out@ =~= old(out)@ + subscription_event_check(ms@, mi as int, s as int));
}

fn subscription_invocation_exec(m: &GameplayModuleDeclarations, mi: usize, s: usize, out: &mut Vec<DeclarationDiagnostic>)
    requires
        s < m.subscriptions@.len(),
    ensures
        final(out)@ == old(out)@ + subscription_invocation_check(*m, mi as int, s as int),
{
    let sub = &m.subscriptions[s];
    match find_last_invocation(m, &sub.invocation_id) {
        None => {
            out.push(DeclarationDiagnostic::MissingInvocation { module: mi, subscription: s });
        },
        Some(v) => {
            proof {
                lemma_last_invocation_unique(*m, sub.invocation_id@, v as int);
            }
            let inv = &m.invocations[v];
            push_if(out, !inv.observe, DeclarationDiagnostic::SubscriptionNotObserve { module: mi, subscription: s });
            push_if(
                out,
                !same_contract_exec(&inv.input_contract, &sub.event),
                DeclarationDiagnostic::SubscriptionInputMismatch { module: mi, subscription: s },
            );
            push_if(
                out,
                sub.max_deliveries_per_root == 0,
                DeclarationDiagnostic::SubscriptionBudget { module: mi, subscription: s },
            );
        },
    }
    assert(out@ =~= old(out)@ + subscription_invocation_check(*m, mi as int, s as int));
}

fn subscription_diagnostics_exec(ms: &[GameplayModuleDeclarations], mi: usize, s: usize, out: &mut Vec<DeclarationDiagnostic>)
    requires
        sub_valid(ms@, mi as int, s as int),
    ensures
        final(out)@ == old(out)@ + subscription_diagnostics(ms@, mi as int, s as int),
{
    let ghost s0 = out@;
    push_if(out, subscription_seen_exec(ms, mi, s), DeclarationDiagnostic::DuplicateSubscription { module: mi, subscription: s });
    subscription_event_exec(ms, mi, s, out);
    subscription_invocation_exec(&ms[mi], mi, s, out);
    assert(out@ =~= s0 + subscription_diagnostics(ms@, mi as int, s as int));
}

fn owned_diagnostics_exec(m: &GameplayModuleDeclarations, mi: usize, o: usize, out: &mut Vec<DeclarationDiagnostic>)
    requires
        o < m.owned_schemas@.len(),
    ensures
        final(out)@ == old(out)@ + owned_diagnostics(*m, mi as int, o as int),
{
    let c = &m.owned_schemas[o];
    push_contract(out, c, mi, ContractSite::OwnedSchema { schema: o });
    push_if(out, !owns_exec(&m.namespace, &c.namespace), DeclarationDiagnostic::ForeignSchema { module: mi, schema: o });
    assert(out@ =~= old(out)@ + owned_diagnostics(*m, mi as int, o as int));
}

fn module_diagnostics_exec(ms: &[GameplayModuleDeclarations], mi: usize, out: &mut Vec<DeclarationDiagnostic>)
    requires
        mi < ms@.len(),
    ensures
        final(out)@ == old(out)@ + module_diagnostics(ms@, mi as int),
{
    let m = &ms[mi];
    let ghost s0 = out@;
    let mut v: usize = 0;
    while v < m.invocations.len()
        invariant
            mi < ms@.len(),
            m == &ms@[mi as int],
            v <= m.invocations@.len(),
            out@ == s0 + invocations_upto(*m, mi as int, v as int),
        decreases m.invocations@.len() - v,
    {
        invocation_diagnostics_exec(m, mi, v, out);
        assert(out@ =~= s0 + invocations_upto(*m, mi as int, v + 1));
        v = v + 1;
    }
    let ghost s1 = out@;
    let mut s: usize = 0;
    while s < m.subscriptions.len()
        invariant
            mi < ms@.len(),
            m == &ms@[mi as int],
            s <= m.subscriptions@.len(),
            out@ == s1 + subscriptions_upto(ms@, mi as int, s as int),
        decreases m.subscriptions@.len() - s,
    {
        subscription_diagnostics_exec(ms, mi, s, out);
        assert(out@ =~= s1 + subscriptions_upto(ms@, mi as int, s + 1));
        s = s + 1;
    }
    let ghost s2 = out@;
    let mut o: usize = 0;
    while o < m.owned_schemas.len()
        invariant
            mi < ms@.len(),
            m == &ms@[mi as int],
            o <= m.owned_schemas@.len(),
            out@ == s2 + owned_upto(*m, mi as int, o as int),
        decreases m.owned_schemas@.len() - o,
    {
        owned_diagnostics_exec(m, mi, o, out);
        assert(out@ =~= s2 + owned_upto(*m, mi as int, o + 1));
        o = o + 1;
    }
    assert(out@ =~= s0 + module_diagnostics(ms@, mi as int));
}

/// Check what each module declares, in module order: its invocations (a
/// repeated id, input and output contracts, budgets, and each read: its
/// contract, a blank or repeated request id, a view the module does not
/// declare), its subscriptions (a subscription id repeated across modules,
/// the event it names against the published events, the invocation it
/// feeds, its delivery budget), then the schemas it owns (their contracts,
/// and a namespace the module does not own).
pub fn validate_module_declarations(modules: &[GameplayModuleDeclarations]) -> (out: Vec<DeclarationDiagnostic>)
    ensures
        out@ == declarations_upto(modules@, modules@.len() as int),
{
    let mut out: Vec<DeclarationDiagnostic> = Vec::new();
    let mut mi: usize = 0;
    while mi < modules.len()
        invariant
            mi <= modules@.len(),
            out@ == declarations_upto(modules@, mi as int),
        decreases modules@.len() - mi,
    {
        module_diagnostics_exec(modules, mi, &mut out);
        mi = mi + 1;
    }
    out
}

} // verus!
