//! Exact ownership of proposals and of state and fact schemas: every
//! declaration must be backed by exactly one owner registration under its
//! contract's key, naming the declared contract and owner.
//!
//! A contract's key is the string by which registrations are indexed; it is
//! carried beside the contract.

use vstd::prelude::*;
use crate::fabric_registry::{contract_identity_problems, exact_owner_verdict, OwnerVerdict};
use crate::read_views::{contract_name_bad, contract_version_bad, same_contract, GameplayContractRef};

verus! {

/// The authority that owns a contract, and its provider.
#[derive(Debug, Clone, PartialEq, Eq)]
pub struct GameplayOwnerRef {
    pub owner_id: String,
    pub provider_id: String,
}

/// An owner registered for a contract.
#[derive(Debug, Clone, PartialEq, Eq)]
pub struct GameplayOwnerRegistration {
    pub contract: GameplayContractRef,
    pub key: String,
    pub owner: GameplayOwnerRef,
}

/// A contract that a module declares together with its expected owner.
#[derive(Debug, Clone, PartialEq, Eq)]
pub struct GameplayOwnedDeclaration {
    pub contract: GameplayContractRef,
    pub key: String,
    pub owner: GameplayOwnerRef,
}

/// The proposals, state schemas and fact schemas of one module.
#[derive(Debug, Clone, PartialEq, Eq)]
pub struct GameplayModuleOwnership {
    pub proposal_kinds: Vec<GameplayOwnedDeclaration>,
    pub state_schemas: Vec<GameplayOwnedDeclaration>,
    pub fact_schemas: Vec<GameplayOwnedDeclaration>,
}

/// Where a declaration stands in a module.
#[derive(Debug, Clone, Copy, PartialEq, Eq, Structural)]
pub enum OwnedSite {
    Proposal { index: usize },
    State { index: usize },
    Fact { index: usize },
}

/// The registry diagnostic codes that ownership checks raise.
#[derive(Debug, Clone, Copy, PartialEq, Eq, Structural)]
pub enum OwnershipDiagnosticCode {
    InvalidNamespace,
    InvalidIdentifier,
    MissingProposalOwner,
    MultipleProposalOwners,
    ProposalOwnerMismatch,
    MissingStateOwner,
    MultipleStateOwners,
    StateOwnerMismatch,
}

/// One ownership problem of a declaration of module `module`.
#[derive(Debug, Clone, Copy, PartialEq, Eq, Structural)]
pub enum OwnershipDiagnostic {
    ContractName { module: usize, site: OwnedSite },
    ContractVersion { module: usize, site: OwnedSite },
    MissingOwner { module: usize, site: OwnedSite },
    MultipleOwners { module: usize, site: OwnedSite },
    OwnerMismatch { module: usize, site: OwnedSite },
}

pub open spec fn site_is_proposal(site: OwnedSite) -> bool {
    site is Proposal
}

pub open spec fn ownership_code(d: OwnershipDiagnostic) -> OwnershipDiagnosticCode {
    match d {
        OwnershipDiagnostic::ContractName { .. } => OwnershipDiagnosticCode::InvalidNamespace,
        OwnershipDiagnostic::ContractVersion { .. } => OwnershipDiagnosticCode::InvalidIdentifier,
        OwnershipDiagnostic::MissingOwner { site, .. } => if site_is_proposal(site) {
            OwnershipDiagnosticCode::MissingProposalOwner
        } else {
            OwnershipDiagnosticCode::MissingStateOwner
        },
        OwnershipDiagnostic::MultipleOwners { site, .. } => if site_is_proposal(site) {
            OwnershipDiagnosticCode::MultipleProposalOwners
        } else {
            OwnershipDiagnosticCode::MultipleStateOwners
        },
        OwnershipDiagnostic::OwnerMismatch { site, .. } => if site_is_proposal(site) {
            OwnershipDiagnosticCode::ProposalOwnerMismatch
        } else {
            OwnershipDiagnosticCode::StateOwnerMismatch
        },
    }
}

impl OwnershipDiagnostic {
    /// The registry diagnostic code of this problem.
    pub fn code(self) -> (r: OwnershipDiagnosticCode)
        ensures
            r == ownership_code(self),
    {
        match self {
            OwnershipDiagnostic::ContractName { .. } => OwnershipDiagnosticCode::InvalidNamespace,
            OwnershipDiagnostic::ContractVersion { .. } => OwnershipDiagnosticCode::InvalidIdentifier,
            OwnershipDiagnostic::MissingOwner { site, .. } => match site {
                OwnedSite::Proposal { .. } => OwnershipDiagnosticCode::MissingProposalOwner,
                _ => OwnershipDiagnosticCode::MissingStateOwner,
            },
            OwnershipDiagnostic::MultipleOwners { site, .. } => match site {
                OwnedSite::Proposal { .. } => OwnershipDiagnosticCode::MultipleProposalOwners,
                _ => OwnershipDiagnosticCode::MultipleStateOwners,
            },
            OwnershipDiagnostic::OwnerMismatch { site, .. } => match site {
                OwnedSite::Proposal { .. } => OwnershipDiagnosticCode::ProposalOwnerMismatch,
                _ => OwnershipDiagnosticCode::StateOwnerMismatch,
            },
        }
    }
}

pub open spec fn same_owner(a: GameplayOwnerRef, b: GameplayOwnerRef) -> bool {
    a.owner_id@ == b.owner_id@ && a.provider_id@ == b.provider_id@
}

/// How many of the first `n` registrations have key `key`.
pub open spec fn owner_key_count(rs: Seq<GameplayOwnerRegistration>, key: Seq<char>, n: int) -> nat
    decreases n,
{
    if n <= 0 {
        0
    } else {
        owner_key_count(rs, key, n - 1) + if rs[n - 1].key@ == key {
            1nat
        } else {
            0nat
        }
    }
}

/// The first registration with key `key`.
pub open spec fn first_owner(rs: Seq<GameplayOwnerRegistration>, key: Seq<char>) -> int {
    choose|p: int| 0 <= p < rs.len() && rs[p].key@ == key && forall|t: int| 0 <= t < p ==> (#[trigger] rs[t]).key@ != key
}

/// The registration backs declaration `d` exactly.
pub open spec fn backs(r: GameplayOwnerRegistration, d: GameplayOwnedDeclaration) -> bool {
    same_contract(r.contract, d.contract) && same_owner(r.owner, d.owner)
}

/// The owner problem of declaration `d` at `site` of module `mi`: no
/// registration under its key, more than one, or a single one that names
/// another contract or owner.
pub open spec fn exact_owner_check(
    rs: Seq<GameplayOwnerRegistration>,
    d: GameplayOwnedDeclaration,
    mi: int,
    site: OwnedSite,
) -> Seq<OwnershipDiagnostic> {
    let c = owner_key_count(rs, d.key@, rs.len() as int);
    let x = mi as usize;
    if c == 0 {
        seq![OwnershipDiagnostic::MissingOwner { module: x, site }]
    } else if c != 1 {
        seq![OwnershipDiagnostic::MultipleOwners { module: x, site }]
    } else if !backs(rs[first_owner(rs, d.key@)], d) {
        seq![OwnershipDiagnostic::OwnerMismatch { module: x, site }]
    } else {
        Seq::empty()
    }
}

pub open spec fn flag(b: bool, d: OwnershipDiagnostic) -> Seq<OwnershipDiagnostic> {
    if b {
        seq![d]
    } else {
        Seq::empty()
    }
}

/// The problems of proposal `i` of module `mi`: its contract, then its owner.
pub open spec fn proposal_diagnostics(rs: Seq<GameplayOwnerRegistration>, m: GameplayModuleOwnership, mi: int, i: int) -> Seq<OwnershipDiagnostic> {
    let d = m.proposal_kinds@[i];
    let site = OwnedSite::Proposal { index: i as usize };
    flag(contract_name_bad(d.contract), OwnershipDiagnostic::ContractName { module: mi as usize, site })
        + flag(contract_version_bad(d.contract), OwnershipDiagnostic::ContractVersion { module: mi as usize, site })
        + exact_owner_check(rs, d, mi, site)
}

pub open spec fn proposals_upto(rs: Seq<GameplayOwnerRegistration>, ms: Seq<GameplayModuleOwnership>, mi: int, n: int) -> Seq<OwnershipDiagnostic>
    decreases n,
{
    if n <= 0 {
        Seq::empty()
    } else {
        proposals_upto(rs, ms, mi, n - 1) + proposal_diagnostics(rs, ms[mi], mi, n - 1)
    }
}

pub open spec fn proposal_modules_upto(rs: Seq<GameplayOwnerRegistration>, ms: Seq<GameplayModuleOwnership>, n: int) -> Seq<OwnershipDiagnostic>
    decreases n,
{
    if n <= 0 {
        Seq::empty()
    } else {
        proposal_modules_upto(rs, ms, n - 1) + proposals_upto(rs, ms, n - 1, ms[n - 1].proposal_kinds@.len() as int)
    }
}

pub open spec fn states_upto(rs: Seq<GameplayOwnerRegistration>, m: GameplayModuleOwnership, mi: int, n: int) -> Seq<OwnershipDiagnostic>
    decreases n,
{
    if n <= 0 {
        Seq::empty()
    } else {
        states_upto(rs, m, mi, n - 1) + exact_owner_check(rs, m.state_schemas@[n - 1], mi, OwnedSite::State { index: (n - 1) as usize })
    }
}

pub open spec fn facts_upto(rs: Seq<GameplayOwnerRegistration>, m: GameplayModuleOwnership, mi: int, n: int) -> Seq<OwnershipDiagnostic>
    decreases n,
{
    if n <= 0 {
        Seq::empty()
    } else {
        facts_upto(rs, m, mi, n - 1) + exact_owner_check(rs, m.fact_schemas@[n - 1], mi, OwnedSite::Fact { index: (n - 1) as usize })
    }
}

pub open spec fn state_modules_upto(rs: Seq<GameplayOwnerRegistration>, ms: Seq<GameplayModuleOwnership>, n: int) -> Seq<OwnershipDiagnostic>
    decreases n,
{
    if n <= 0 {
        Seq::empty()
    } else {
        let m = ms[n - 1];
        state_modules_upto(rs, ms, n - 1) + states_upto(rs, m, n - 1, m.state_schemas@.len() as int)
            + facts_upto(rs, m, n - 1, m.fact_schemas@.len() as int)
    }
}

fn push_if(out: &mut Vec<OwnershipDiagnostic>, cond: bool, d: OwnershipDiagnostic)
    ensures
        final(out)@ == old(out)@ + flag(cond, d),
{
    if cond {
        out.push(d);
    }
    assert(out@ =~= old(out)@ + flag(cond, d));
}

fn same_contract_exec(a: &GameplayContractRef, b: &GameplayContractRef) -> (r: bool)
    ensures
        r == same_contract(*a, *b),
{
    a.namespace == b.namespace && a.name == b.name && a.version == b.version && a.schema_hash == b.schema_hash
}

/// For each registration under `key`, whether it backs `d`; and the first
/// registration under `key`.
fn registrations_under(rs: &[GameplayOwnerRegistration], d: &GameplayOwnedDeclaration) -> (r: (Vec<bool>, usize))
    ensures
        r.0@.len() == owner_key_count(rs@, d.key@, rs@.len() as int),
        r.0@.len() > 0 ==> r.1 < rs@.len() && rs@[r.1 as int].key@ == d.key@
            && (forall|t: int| 0 <= t < r.1 ==> (#[trigger] rs@[t]).key@ != d.key@)
            && r.0@[0] == backs(rs@[r.1 as int], *d),
{
    let mut matches: Vec<bool> = Vec::new();
    let mut first: usize = 0;
    let mut i: usize = 0;
    while i < rs.len()
        invariant
            i <= rs@.len(),
            matches@.len() == owner_key_count(rs@, d.key@, i as int),
            matches@.len() <= i,
            matches@.len() > 0 ==> first < i && rs@[first as int].key@ == d.key@
                && (forall|t: int| 0 <= t < first ==> (#[trigger] rs@[t]).key@ != d.key@)
                && matches@[0] == backs(rs@[first as int], *d),
            matches@.len() == 0 ==> forall|t: int| 0 <= t < i ==> (#[trigger] rs@[t]).key@ != d.key@,
        decreases rs@.len() - i,
    {
        let r = &rs[i];
        if r.key == d.key {
            if matches.len() == 0 {
                first = i;
            }
            let b = same_contract_exec(&r.contract, &d.contract) && r.owner.owner_id == d.owner.owner_id
                && r.owner.provider_id == d.owner.provider_id;
            matches.push(b);
        }
        i = i + 1;
    }
    (matches, first)
}

proof fn lemma_first_owner(rs: Seq<GameplayOwnerRegistration>, key: Seq<char>, p: int)
    requires
        0 <= p < rs.len(),
        rs[p].key@ == key,
        forall|t: int| 0 <= t < p ==> (#[trigger] rs[t]).key@ != key,
    ensures
        first_owner(rs, key) == p,
{
    let c = first_owner(rs, key);
    assert(0 <= c < rs.len() && rs[c].key@ == key && forall|t: int| 0 <= t < c ==> (#[trigger] rs[t]).key@ != key);
    if c < p {
        assert(rs[c].key@ != key);
    }
    if p < c {
        assert(rs[p].key@ != key);
    }
}

/// Judge the owner registrations of declaration `d` at `site` of module `mi`.
fn validate_exact_owner(
    rs: &[GameplayOwnerRegistration],
    d: &GameplayOwnedDeclaration,
    mi: usize,
    site: OwnedSite,
    out: &mut Vec<OwnershipDiagnostic>,
)
    ensures
        final(out)@ == old(out)@ + exact_owner_check(rs@, *d, mi as int, site),
{
    let (matches, first) = registrations_under(rs, d);
    proof {
        if matches@.len() > 0 {
            lemma_first_owner(rs@, d.key@, first as int);
        }
    }
    match exact_owner_verdict(matches.as_slice()) {
        OwnerVerdict::Exact => {},
        OwnerVerdict::Missing => out.push(OwnershipDiagnostic::MissingOwner { module: mi, site }),
        OwnerVerdict::Multiple => out.push(OwnershipDiagnostic::MultipleOwners { module: mi, site }),
        OwnerVerdict::Mismatch => out.push(OwnershipDiagnostic::OwnerMismatch { module: mi, site }),
    }
    assert(out@ =~= old(out)@ + exact_owner_check(rs@, *d, mi as int, site));
}

fn proposal_diagnostics_exec(
    rs: &[GameplayOwnerRegistration],
    m: &GameplayModuleOwnership,
    mi: usize,
    i: usize,
    out: &mut Vec<OwnershipDiagnostic>,
)
    requires
        i < m.proposal_kinds@.len(),
    ensures
        final(out)@ == old(out)@ + proposal_diagnostics(rs@, *m, mi as int, i as int),
{
    let d = &m.proposal_kinds[i];
    let site = OwnedSite::Proposal { index: i };
    let (bad_name, bad_version) = contract_identity_problems(
        d.contract.namespace.as_str(),
        d.contract.name.as_str(),
        d.contract.version,
        d.contract.schema_hash.as_str(),
    );
    push_if(out, bad_name, OwnershipDiagnostic::ContractName { module: mi, site });
    push_if(out, bad_version, OwnershipDiagnostic::ContractVersion { module: mi, site });
    validate_exact_owner(rs, d, mi, site, out);
    assert(out@ =~= old(out)@ + proposal_diagnostics(rs@, *m, mi as int, i as int));
}

/// Check each proposal that a module declares, in module order: its
/// contract, then that exactly one registration under its key owns it, for
/// the declared contract and owner.
pub fn validate_proposal_owners(
    modules: &[GameplayModuleOwnership],
    registrations: &[GameplayOwnerRegistration],
) -> (out: Vec<OwnershipDiagnostic>)
    ensures
        out@ == proposal_modules_upto(registrations@, modules@, modules@.len() as int),
{
    let mut out: Vec<OwnershipDiagnostic> = Vec::new();
    let mut mi: usize = 0;
    while mi < modules.len()
        invariant
            mi <= modules@.len(),
            out@ == proposal_modules_upto(registrations@, modules@, mi as int),
        decreases modules@.len() - mi,
    {
        let ghost start = out@;
        let m = &modules[mi];
        let mut i: usize = 0;
        while i < m.proposal_kinds.len()
            invariant
                mi < modules@.len(),
                m == &modules@[mi as int],
                i <= m.proposal_kinds@.len(),
                out@ == start + proposals_upto(registrations@, modules@, mi as int, i as int),
            decreases m.proposal_kinds@.len() - i,
        {
            proposal_diagnostics_exec(registrations, m, mi, i, &mut out);
            assert(out@ =~= start + proposals_upto(registrations@, modules@, mi as int, i + 1));
            i = i + 1;
        }
        assert(out@ =~= proposal_modules_upto(registrations@, modules@, mi + 1));
        mi = mi + 1;
    }
    out
}

/// Check each state schema and then each fact schema that a module
/// declares, in module order: exactly one registration under its key owns
/// it, for the declared contract and owner.
pub fn validate_state_owners(
    modules: &[GameplayModuleOwnership],
    registrations: &[GameplayOwnerRegistration],
) -> (out: Vec<OwnershipDiagnostic>)
    ensures
        out@ == state_modules_upto(registrations@, modules@, modules@.len() as int),
{
    let mut out: Vec<OwnershipDiagnostic> = Vec::new();
    let mut mi: usize = 0;
    while mi < modules.len()
        invariant
            mi <= modules@.len(),
            out@ == state_modules_upto(registrations@, modules@, mi as int),
        decreases modules@.len() - mi,
    {
        let ghost start = out@;
        let m = &modules[mi];
        let mut i: usize = 0;
        while i < m.state_schemas.len()
            invariant
                mi < modules@.len(),
                m == &modules@[mi as int],
                i <= m.state_schemas@.len(),
                out@ == start + states_upto(registrations@, *m, mi as int, i as int),
            decreases m.state_schemas@.len() - i,
        {
            validate_exact_owner(registrations, &m.state_schemas[i], mi, OwnedSite::State { index: i }, &mut out);
            assert(out@ =~= start + states_upto(registrations@, *m, mi as int, i + 1));
            i = i + 1;
        }
        let ghost mid = out@;
        let mut j: usize = 0;
        while j < m.fact_schemas.len()
            invariant
                mi < modules@.len(),
                m == &modules@[mi as int],
                j <= m.fact_schemas@.len(),
                out@ == mid + facts_upto(registrations@, *m, mi as int, j as int),
            decreases m.fact_schemas@.len() - j,
        {
            validate_exact_owner(registrations, &m.fact_schemas[j], mi, OwnedSite::Fact { index: j }, &mut out);
            assert(out@ =~= mid + facts_upto(registrations@, *m, mi as int, j + 1));
            j = j + 1;
        }
        assert(out@ =~= state_modules_upto(registrations@, modules@, mi + 1));
        mi = mi + 1;
    }
    out
}

} // verus!
