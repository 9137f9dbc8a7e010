//! Checks of the read-view providers of the gameplay fabric: each provider
//! registration on its own, one provider per read view, and each read view
//! that a module requires against the provider that supplies it.
//!
//! A contract's key is the string by which registrations are indexed; it is
//! carried beside the contract.

use vstd::prelude::*;
use crate::ids::{is_blank, is_blank_text, is_hash_bytes, is_kebab, is_namespace_bytes, is_stable_id};
use crate::fabric_registry::{contract_identity_problems, utf8};
use crate::fabric_codec::{gameplay_schema_hash, identity_text, schema_domain};
use vstd::string::StringSliceAdditionalSpecFns;

verus! {

/// A gameplay contract reference.
#[derive(Debug, Clone, PartialEq, Eq)]
pub struct GameplayContractRef {
    pub namespace: String,
    pub name: String,
    pub version: u32,
    pub schema_hash: String,
}

/// A contract reference whose schema hash is the schema identity of its
/// committed descriptor.
pub fn gameplay_contract(namespace: String, name: String, version: u32, schema_descriptor: &str) -> (c: GameplayContractRef)
    ensures
        c.namespace@ == namespace@,
        c.name@ == name@,
        c.version == version,
        c.schema_hash@ == identity_text(seq![schema_domain(), schema_descriptor.spec_bytes()]),
        is_hash_bytes(vstd::utf8::encode_utf8(c.schema_hash@)),
{
    GameplayContractRef { namespace, name, version, schema_hash: gameplay_schema_hash(schema_descriptor) }
}

/// Two contract references are the same contract.
pub open spec fn same_contract(a: GameplayContractRef, b: GameplayContractRef) -> bool {
    &&& a.namespace@ == b.namespace@
    &&& a.name@ == b.name@
    &&& a.version == b.version
    &&& a.schema_hash@ == b.schema_hash@
}

/// The contract's namespace or name is malformed.
pub open spec fn contract_name_bad(c: GameplayContractRef) -> bool {
    !(is_namespace_bytes(utf8(c.namespace)) && is_kebab(utf8(c.name)))
}

/// The contract's version is zero or its schema hash is malformed.
pub open spec fn contract_version_bad(c: GameplayContractRef) -> bool {
    c.version == 0 || !is_hash_bytes(utf8(c.schema_hash))
}

/// A provider's registration of a read view.
#[derive(Debug, Clone, PartialEq, Eq)]
pub struct GameplayReadViewProviderRegistration {
    pub view: GameplayContractRef,
    pub view_key: String,
    pub provider_id: String,
    pub kind: u32,
    pub fields: Vec<String>,
    pub selector_capabilities: Vec<u32>,
    pub max_items: u32,
    pub ordering: String,
}

/// A read view that a module requires.
#[derive(Debug, Clone, PartialEq, Eq)]
pub struct GameplayReadViewRequirement {
    pub view: GameplayContractRef,
    pub view_key: String,
    pub provider_id: String,
    pub kind: u32,
    pub fields: Vec<String>,
    pub selector_capabilities: Vec<u32>,
    pub max_items: u32,
}

/// The registry diagnostic codes that read-view checks raise.
#[derive(Debug, Clone, Copy, PartialEq, Eq, Structural)]
pub enum ReadViewDiagnosticCode {
    InvalidNamespace,
    InvalidIdentifier,
    InvalidBudget,
    ReadViewProviderMismatch,
    MultipleReadViewProviders,
    MissingReadViewProvider,
    ReadViewKindMismatch,
    MissingReadViewField,
    MissingReadViewSelector,
}

/// One read-view problem: registration problems carry the registration's
/// index, requirement problems the requirement's index.
#[derive(Debug, Clone, Copy, PartialEq, Eq, Structural)]
pub enum ReadViewDiagnostic {
    RegistrationContractName { registration: usize },
    RegistrationContractVersion { registration: usize },
    InvalidProviderId { registration: usize },
    DuplicateProviderMetadata { registration: usize },
    InvalidProviderBounds { registration: usize },
    MultipleProvidersForKey { registration: usize },
    RequirementContractName { requirement: usize },
    RequirementContractVersion { requirement: usize },
    MissingProvider { requirement: usize },
    MultipleProviders { requirement: usize },
    ProviderMismatch { requirement: usize },
    KindMismatch { requirement: usize },
    MissingField { requirement: usize, field: usize },
    MissingSelector { requirement: usize, selector: usize },
    InvalidBudget { requirement: usize },
}

pub open spec fn read_view_code(d: ReadViewDiagnostic) -> ReadViewDiagnosticCode {
    match d {
        ReadViewDiagnostic::RegistrationContractName { .. } => ReadViewDiagnosticCode::InvalidNamespace,
        ReadViewDiagnostic::RequirementContractName { .. } => ReadViewDiagnosticCode::InvalidNamespace,
        ReadViewDiagnostic::RegistrationContractVersion { .. } => ReadViewDiagnosticCode::InvalidIdentifier,
        ReadViewDiagnostic::RequirementContractVersion { .. } => ReadViewDiagnosticCode::InvalidIdentifier,
        ReadViewDiagnostic::InvalidProviderId { .. } => ReadViewDiagnosticCode::InvalidIdentifier,
        ReadViewDiagnostic::DuplicateProviderMetadata { .. } => ReadViewDiagnosticCode::ReadViewProviderMismatch,
        ReadViewDiagnostic::ProviderMismatch { .. } => ReadViewDiagnosticCode::ReadViewProviderMismatch,
        ReadViewDiagnostic::InvalidProviderBounds { .. } => ReadViewDiagnosticCode::InvalidBudget,
        ReadViewDiagnostic::InvalidBudget { .. } => ReadViewDiagnosticCode::InvalidBudget,
        ReadViewDiagnostic::MultipleProvidersForKey { .. } => ReadViewDiagnosticCode::MultipleReadViewProviders,
        ReadViewDiagnostic::MultipleProviders { .. } => ReadViewDiagnosticCode::MultipleReadViewProviders,
        ReadViewDiagnostic::MissingProvider { .. } => ReadViewDiagnosticCode::MissingReadViewProvider,
        ReadViewDiagnostic::KindMismatch { .. } => ReadViewDiagnosticCode::ReadViewKindMismatch,
        ReadViewDiagnostic::MissingField { .. } => ReadViewDiagnosticCode::MissingReadViewField,
        ReadViewDiagnostic::MissingSelector { .. } => ReadViewDiagnosticCode::MissingReadViewSelector,
    }
}

impl ReadViewDiagnostic {
    /// The registry diagnostic code of this problem.
    pub fn code(self) -> (r: ReadViewDiagnosticCode)
        ensures
            r == read_view_code(self),
    {
        match self {
            ReadViewDiagnostic::RegistrationContractName { .. } => ReadViewDiagnosticCode::InvalidNamespace,
            ReadViewDiagnostic::RequirementContractName { .. } => ReadViewDiagnosticCode::InvalidNamespace,
            ReadViewDiagnostic::RegistrationContractVersion { .. } => ReadViewDiagnosticCode::InvalidIdentifier,
            ReadViewDiagnostic::RequirementContractVersion { .. } => ReadViewDiagnosticCode::InvalidIdentifier,
            ReadViewDiagnostic::InvalidProviderId { .. } => ReadViewDiagnosticCode::InvalidIdentifier,
            ReadViewDiagnostic::DuplicateProviderMetadata { .. } => ReadViewDiagnosticCode::ReadViewProviderMismatch,
            ReadViewDiagnostic::ProviderMismatch { .. } => ReadViewDiagnosticCode::ReadViewProviderMismatch,
            ReadViewDiagnostic::InvalidProviderBounds { .. } => ReadViewDiagnosticCode::InvalidBudget,
            ReadViewDiagnostic::InvalidBudget { .. } => ReadViewDiagnosticCode::InvalidBudget,
            ReadViewDiagnostic::MultipleProvidersForKey { .. } => ReadViewDiagnosticCode::MultipleReadViewProviders,
            ReadViewDiagnostic::MultipleProviders { .. } => ReadViewDiagnosticCode::MultipleReadViewProviders,
            ReadViewDiagnostic::MissingProvider { .. } => ReadViewDiagnosticCode::MissingReadViewProvider,
            ReadViewDiagnostic::KindMismatch { .. } => ReadViewDiagnosticCode::ReadViewKindMismatch,
            ReadViewDiagnostic::MissingField { .. } => ReadViewDiagnosticCode::MissingReadViewField,
            ReadViewDiagnostic::MissingSelector { .. } => ReadViewDiagnosticCode::MissingReadViewSelector,
        }
    }
}

pub open spec fn flag(b: bool, d: ReadViewDiagnostic) -> Seq<ReadViewDiagnostic> {
    if b {
        seq![d]
    } else {
        Seq::empty()
    }
}

/// Some text occurs twice in `s`.
pub open spec fn texts_repeat(s: Seq<String>) -> bool {
    exists|i: int, j: int| 0 <= i < j < s.len() && (#[trigger] s[i])@ == (#[trigger] s[j])@
}

/// Some number occurs twice in `s`.
pub open spec fn numbers_repeat(s: Seq<u32>) -> bool {
    exists|i: int, j: int| 0 <= i < j < s.len() && #[trigger] s[i] == #[trigger] s[j]
}

/// `s` holds the text `t`.
pub open spec fn has_text(s: Seq<String>, t: Seq<char>) -> bool {
    exists|u: int| 0 <= u < s.len() && (#[trigger] s[u])@ == t
}

/// The problems of registration `r` on its own, in check order.
pub open spec fn registration_diagnostics(g: GameplayReadViewProviderRegistration, r: int) -> Seq<ReadViewDiagnostic> {
    let x = r as usize;
    flag(contract_name_bad(g.view), ReadViewDiagnostic::RegistrationContractName { registration: x })
        + flag(contract_version_bad(g.view), ReadViewDiagnostic::RegistrationContractVersion { registration: x })
        + flag(!is_namespace_bytes(utf8(g.provider_id)), ReadViewDiagnostic::InvalidProviderId { registration: x })
        + flag(
        texts_repeat(g.fields@) || numbers_repeat(g.selector_capabilities@),
        ReadViewDiagnostic::DuplicateProviderMetadata { registration: x },
    )
        + flag(g.max_items == 0 || is_blank_text(g.ordering@), ReadViewDiagnostic::InvalidProviderBounds { registration: x })
}

/// How many of the first `n` registrations have key `key`.
pub open spec fn key_count(gs: Seq<GameplayReadViewProviderRegistration>, key: Seq<char>, n: int) -> nat
    decreases n,
{
    if n <= 0 {
        0
    } else {
        key_count(gs, key, n - 1) + if gs[n - 1].view_key@ == key {
            1nat
        } else {
            0nat
        }
    }
}

/// Registration `r` is the first with its key.
pub open spec fn first_with_key(gs: Seq<GameplayReadViewProviderRegistration>, r: int) -> bool {
    forall|t: int| 0 <= t < r ==> (#[trigger] gs[t]).view_key@ != gs[r].view_key@
}

/// One problem per key that more than one registration supplies, at the
/// first registration with that key.
pub open spec fn key_diagnostic(gs: Seq<GameplayReadViewProviderRegistration>, r: int) -> Seq<ReadViewDiagnostic> {
    flag(
        first_with_key(gs, r) && key_count(gs, gs[r].view_key@, gs.len() as int) != 1,
        ReadViewDiagnostic::MultipleProvidersForKey { registration: r as usize },
    )
}

/// The first registration with key `key`.
pub open spec fn provider_for(gs: Seq<GameplayReadViewProviderRegistration>, key: Seq<char>) -> int {
    choose|p: int| 0 <= p < gs.len() && gs[p].view_key@ == key && forall|t: int| 0 <= t < p ==> (#[trigger] gs[t]).view_key@ != key
}

pub open spec fn missing_fields(q: GameplayReadViewRequirement, g: GameplayReadViewProviderRegistration, qi: int, n: int) -> Seq<ReadViewDiagnostic>
    decreases n,
{
    if n <= 0 {
        Seq::empty()
    } else {
        missing_fields(q, g, qi, n - 1) + flag(
            !has_text(g.fields@, q.fields@[n - 1]@),
            ReadViewDiagnostic::MissingField { requirement: qi as usize, field: (n - 1) as usize },
        )
    }
}

pub open spec fn missing_selectors(q: GameplayReadViewRequirement, g: GameplayReadViewProviderRegistration, qi: int, n: int) -> Seq<ReadViewDiagnostic>
    decreases n,
{
    if n <= 0 {
        Seq::empty()
    } else {
        missing_selectors(q, g, qi, n - 1) + flag(
            !g.selector_capabilities@.contains(q.selector_capabilities@[n - 1]),
            ReadViewDiagnostic::MissingSelector { requirement: qi as usize, selector: (n - 1) as usize },
        )
    }
}

/// The problems of requirement `qi` against its single provider `g`.
pub open spec fn provider_checks(q: GameplayReadViewRequirement, g: GameplayReadViewProviderRegistration, qi: int) -> Seq<ReadViewDiagnostic> {
    let x = qi as usize;
    flag(
        !same_contract(g.view, q.view) || g.provider_id@ != q.provider_id@,
        ReadViewDiagnostic::ProviderMismatch { requirement: x },
    )
        + flag(g.kind != q.kind, ReadViewDiagnostic::KindMismatch { requirement: x })
        + missing_fields(q, g, qi, q.fields@.len() as int)
        + missing_selectors(q, g, qi, q.selector_capabilities@.len() as int)
        + flag(
        q.max_items == 0 || g.max_items == 0 || q.max_items > g.max_items || is_blank_text(g.ordering@),
        ReadViewDiagnostic::InvalidBudget { requirement: x },
    )
}

/// The problems of requirement `qi`, in check order.
pub open spec fn requirement_diagnostics(
    gs: Seq<GameplayReadViewProviderRegistration>,
    q: GameplayReadViewRequirement,
    qi: int,
) -> Seq<ReadViewDiagnostic> {
    let x = qi as usize;
    let count = key_count(gs, q.view_key@, gs.len() as int);
    flag(contract_name_bad(q.view), ReadViewDiagnostic::RequirementContractName { requirement: x })
        + flag(contract_version_bad(q.view), ReadViewDiagnostic::RequirementContractVersion { requirement: x })
        + if count == 0 {
        seq![ReadViewDiagnostic::MissingProvider { requirement: x }]
    } else if count != 1 {
        seq![ReadViewDiagnostic::MultipleProviders { requirement: x }]
    } else {
        provider_checks(q, gs[provider_for(gs, q.view_key@)], qi)
    }
}

pub open spec fn registrations_upto(gs: Seq<GameplayReadViewProviderRegistration>, n: int) -> Seq<ReadViewDiagnostic>
    decreases n,
{
    if n <= 0 {
        Seq::empty()
    } else {
        registrations_upto(gs, n - 1) + registration_diagnostics(gs[n - 1], n - 1)
    }
}

pub open spec fn keys_upto(gs: Seq<GameplayReadViewProviderRegistration>, n: int) -> Seq<ReadViewDiagnostic>
    decreases n,
{
    if n <= 0 {
        Seq::empty()
    } else {
        keys_upto(gs, n - 1) + key_diagnostic(gs, n - 1)
    }
}

pub open spec fn requirements_upto(
    gs: Seq<GameplayReadViewProviderRegistration>,
    qs: Seq<GameplayReadViewRequirement>,
    n: int,
) -> Seq<ReadViewDiagnostic>
    decreases n,
{
    if n <= 0 {
        Seq::empty()
    } else {
        requirements_upto(gs, qs, n - 1) + requirement_diagnostics(gs, qs[n - 1], n - 1)
    }
}

/// Every read-view problem: the registrations one by one, then each key
/// supplied more than once, then the requirements one by one.
pub open spec fn read_view_diagnostics(
    gs: Seq<GameplayReadViewProviderRegistration>,
    qs: Seq<GameplayReadViewRequirement>,
) -> Seq<ReadViewDiagnostic> {
    registrations_upto(gs, gs.len() as int) + keys_upto(gs, gs.len() as int) + requirements_upto(gs, qs, qs.len() as int)
}

fn push_if(out: &mut Vec<ReadViewDiagnostic>, cond: bool, d: ReadViewDiagnostic)
    ensures
        final(out)@ == old(out)@ + flag(cond, d),
{
    if cond {
        out.push(d);
    }
    assert(out@ =~= old(out)@ + flag(cond, d));
}

fn texts_repeat_exec(s: &Vec<String>) -> (r: bool)
    ensures
        r == texts_repeat(s@),
{
    let mut j: usize = 0;
    while j < s.len()
        invariant
            j <= s@.len(),
            forall|a: int, b: int| 0 <= a < b < j ==> (#[trigger] s@[a])@ != (#[trigger] s@[b])@,
        decreases s@.len() - j,
    {
        let mut i: usize = 0;
        while i < j
            invariant
                i <= j < s@.len(),
                forall|a: int| 0 <= a < i ==> (#[trigger] s@[a])@ != s@[j as int]@,
            decreases j - i,
        {
            if s[i] == s[j] {
                assert(s@[i as int]@ == s@[j as int]@);
                return true;
            }
            i = i + 1;
        }
        j = j + 1;
    }
    false
}

fn numbers_repeat_exec(s: &Vec<u32>) -> (r: bool)
    ensures
        r == numbers_repeat(s@),
{
    let mut j: usize = 0;
    while j < s.len()
        invariant
            j <= s@.len(),
            forall|a: int, b: int| 0 <= a < b < j ==> #[trigger] s@[a] != #[trigger] s@[b],
        decreases s@.len() - j,
    {
        let mut i: usize = 0;
        while i < j
            invariant
                i <= j < s@.len(),
                forall|a: int| 0 <= a < i ==> #[trigger] s@[a] != s@[j as int],
            decreases j - i,
        {
            if s[i] == s[j] {
                assert(s@[i as int] == s@[j as int]);
                return true;
            }
            i = i + 1;
        }
        j = j + 1;
    }
    false
}

fn has_text_exec(s: &Vec<String>, t: &String) -> (r: bool)
    ensures
        r == has_text(s@, t@),
{
    let mut u: usize = 0;
    while u < s.len()
        invariant
            u <= s@.len(),
            forall|a: int| 0 <= a < u ==> (#[trigger] s@[a])@ != t@,
        decreases s@.len() - u,
    {
        if s[u] == *t {
            assert(s@[u as int]@ == t@);
            return true;
        }
        u = u + 1;
    }
    false
}

fn has_number_exec(s: &Vec<u32>, x: u32) -> (r: bool)
    ensures
        r == s@.contains(x),
{
    let mut u: usize = 0;
    while u < s.len()
        invariant
            u <= s@.len(),
            forall|a: int| 0 <= a < u ==> s@[a] != x,
        decreases s@.len() - u,
    {
        if s[u] == x {
            assert(s@[u as int] == x);
            return true;
        }
        u = u + 1;
    }
    false
}

fn contract_flags(c: &GameplayContractRef) -> (r: (bool, bool))
    ensures
        r.0 == contract_name_bad(*c),
        r.1 == contract_version_bad(*c),
{
    contract_identity_problems(c.namespace.as_str(), c.name.as_str(), c.version, c.schema_hash.as_str())
}

fn same_contract_exec(a: &GameplayContractRef, b: &GameplayContractRef) -> (r: bool)
    ensures
        r == same_contract(*a, *b),
{
    a.namespace == b.namespace && a.name == b.name && a.version == b.version && a.schema_hash == b.schema_hash
}

fn registration_diagnostics_exec(g: &GameplayReadViewProviderRegistration, r: usize) -> (out: Vec<ReadViewDiagnostic>)
    ensures
        out@ == registration_diagnostics(*g, r as int),
{
    let mut out: Vec<ReadViewDiagnostic> = Vec::new();
    let (bad_name, bad_version) = contract_flags(&g.view);
    push_if(&mut out, bad_name, ReadViewDiagnostic::RegistrationContractName { registration: r });
    push_if(&mut out, bad_version, ReadViewDiagnostic::RegistrationContractVersion { registration: r });
    push_if(&mut out, !is_stable_id(g.provider_id.as_str()), ReadViewDiagnostic::InvalidProviderId { registration: r });
    let dup = texts_repeat_exec(&g.fields) || numbers_repeat_exec(&g.selector_capabilities);
    push_if(&mut out, dup, ReadViewDiagnostic::DuplicateProviderMetadata { registration: r });
    push_if(
        &mut out,
        g.max_items == 0 || is_blank(g.ordering.as_str()),
        ReadViewDiagnostic::InvalidProviderBounds { registration: r },
    );
    assert(out@ =~= registration_diagnostics(*g, r as int));
    out
}

/// How many registrations have key `key`, and the first that has it.
fn key_lookup(gs: &[GameplayReadViewProviderRegistration], key: &String) -> (r: (usize, usize))
    ensures
        r.0 == key_count(gs@, key@, gs@.len() as int),
        r.0 > 0 ==> r.1 < gs@.len() && gs@[r.1 as int].view_key@ == key@
            && forall|t: int| 0 <= t < r.1 ==> (#[trigger] gs@[t]).view_key@ != key@,
        r.0 == 0 ==> forall|t: int| 0 <= t < gs@.len() ==> (#[trigger] gs@[t]).view_key@ != key@,
{
    let mut count: usize = 0;
    let mut first: usize = 0;
    let mut i: usize = 0;
    while i < gs.len()
        invariant
            i <= gs@.len(),
            count == key_count(gs@, key@, i as int),
            count <= i,
            count > 0 ==> first < i && gs@[first as int].view_key@ == key@
                && forall|t: int| 0 <= t < first ==> (#[trigger] gs@[t]).view_key@ != key@,
            count == 0 ==> forall|t: int| 0 <= t < i ==> (#[trigger] gs@[t]).view_key@ != key@,
        decreases gs@.len() - i,
    {
        if gs[i].view_key == *key {
            if count == 0 {
                first = i;
            }
            count = count + 1;
        }
        i = i + 1;
    }
    (count, first)
}

proof fn lemma_first_is_provider(gs: Seq<GameplayReadViewProviderRegistration>, key: Seq<char>, p: int)
    requires
        0 <= p < gs.len(),
        gs[p].view_key@ == key,
        forall|t: int| 0 <= t < p ==> (#[trigger] gs[t]).view_key@ != key,
    ensures
        provider_for(gs, key) == p,
{
    let c = provider_for(gs, key);
    assert(0 <= c < gs.len() && gs[c].view_key@ == key && forall|t: int| 0 <= t < c ==> (#[trigger] gs[t]).view_key@ != key);
    if c < p {
        assert(gs[c].view_key@ != key);
    }
    if p < c {
        assert(gs[p].view_key@ != key);
    }
}

fn missing_fields_exec(
    q: &GameplayReadViewRequirement,
    g: &GameplayReadViewProviderRegistration,
    qi: usize,
    out: &mut Vec<ReadViewDiagnostic>,
)
    ensures
        final(out)@ == old(out)@ + missing_fields(*q, *g, qi as int, q.fields@.len() as int),
{
    let ghost start = out@;
    let mut t: usize = 0;
    while t < q.fields.len()
        invariant
            t <= q.fields@.len(),
            out@ == start + missing_fields(*q, *g, qi as int, t as int),
        decreases q.fields@.len() - t,
    {
        let present = has_text_exec(&g.fields, &q.fields[t]);
        push_if(out, !present, ReadViewDiagnostic::MissingField { requirement: qi, field: t });
        assert(out@ =~= start + missing_fields(*q, *g, qi as int, t + 1));
        t = t + 1;
    }
}

fn missing_selectors_exec(
    q: &GameplayReadViewRequirement,
    g: &GameplayReadViewProviderRegistration,
    qi: usize,
    out: &mut Vec<ReadViewDiagnostic>,
)
    ensures
        final(out)@ == old(out)@ + missing_selectors(*q, *g, qi as int, q.selector_capabilities@.len() as int),
{
    let ghost start = out@;
    let mut t: usize = 0;
    while t < q.selector_capabilities.len()
        invariant
            t <= q.selector_capabilities@.len(),
            out@ == start + missing_selectors(*q, *g, qi as int, t as int),
        decreases q.selector_capabilities@.len() - t,
    {
        let present = has_number_exec(&g.selector_capabilities, q.selector_capabilities[t]);
        push_if(out, !present, ReadViewDiagnostic::MissingSelector { requirement: qi, selector: t });
        assert(out@ =~= start + missing_selectors(*q, *g, qi as int, t + 1));
        t = t + 1;
    }
}

fn provider_checks_exec(
    q: &GameplayReadViewRequirement,
    g: &GameplayReadViewProviderRegistration,
    qi: usize,
) -> (out: Vec<ReadViewDiagnostic>)
    ensures
        out@ == provider_checks(*q, *g, qi as int),
{
    let mut out: Vec<ReadViewDiagnostic> = Vec::new();
    let mismatch = !same_contract_exec(&g.view, &q.view) || g.provider_id != q.provider_id;
    push_if(&mut out, mismatch, ReadViewDiagnostic::ProviderMismatch { requirement: qi });
    push_if(&mut out, g.kind != q.kind, ReadViewDiagnostic::KindMismatch { requirement: qi });
    missing_fields_exec(q, g, qi, &mut out);
    missing_selectors_exec(q, g, qi, &mut out);
    let bounds = q.max_items == 0 || g.max_items == 0 || q.max_items > g.max_items || is_blank(g.ordering.as_str());
    push_if(&mut out, bounds, ReadViewDiagnostic::InvalidBudget { requirement: qi });
    assert(out@ =~= provider_checks(*q, *g, qi as int));
    out
}

fn requirement_diagnostics_exec(
    gs: &[GameplayReadViewProviderRegistration],
    q: &GameplayReadViewRequirement,
    qi: usize,
) -> (out: Vec<ReadViewDiagnostic>)
    ensures
        out@ == requirement_diagnostics(gs@, *q, qi as int),
{
    let mut out: Vec<ReadViewDiagnostic> = Vec::new();
    let (bad_name, bad_version) = contract_flags(&q.view);
    push_if(&mut out, bad_name, ReadViewDiagnostic::RequirementContractName { requirement: qi });
    push_if(&mut out, bad_version, ReadViewDiagnostic::RequirementContractVersion { requirement: qi });
    let ghost head = out@;
    let (count, first) = key_lookup(gs, &q.view_key);
    if count == 0 {
        out.push(ReadViewDiagnostic::MissingProvider { requirement: qi });
    } else if count != 1 {
        out.push(ReadViewDiagnostic::MultipleProviders { requirement: qi });
    } else {
        proof {
            lemma_first_is_provider(gs@, q.view_key@, first as int);
        }
        let mut more = provider_checks_exec(q, &gs[first], qi);
        out.append(&mut more);
    }
    assert(out@ =~= requirement_diagnostics(gs@, *q, qi as int));
    out
}

/// Check the read-view providers and the read views that modules require:
/// each registration's contract, provider id, metadata and bounds; then each
/// key that more than one registration supplies, at the first registration
/// with that key (registrations arrive ordered by key, so this is key order);
/// then each requirement's contract and, when exactly one registration
/// supplies its key, that provider's contract, id, kind, fields, selectors
/// and bounds.
pub fn validate_read_view_providers(
    registrations: &[GameplayReadViewProviderRegistration],
    requirements: &[GameplayReadViewRequirement],
) -> (out: Vec<ReadViewDiagnostic>)
    ensures
        out@ == read_view_diagnostics(registrations@, requirements@),
{
    let mut out: Vec<ReadViewDiagnostic> = Vec::new();
    let mut r: usize = 0;
    while r < registrations.len()
        invariant
            r <= registrations@.len(),
            out@ == registrations_upto(registrations@, r as int),
        decreases registrations@.len() - r,
    {
        let mut d = registration_diagnostics_exec(&registrations[r], r);
        out.append(&mut d);
        r = r + 1;
    }
    let ghost after_regs = out@;
    let mut k: usize = 0;
    while k < registrations.len()
        invariant
            k <= registrations@.len(),
            after_regs == registrations_upto(registrations@, registrations@.len() as int),
            out@ == after_regs + keys_upto(registrations@, k as int),
        decreases registrations@.len() - k,
    {
        let ghost before = out@;
        let (count, first) = key_lookup(registrations, &registrations[k].view_key);
        proof {
            if count == 0 {
                assert(registrations@[k as int].view_key@ != registrations@[k as int].view_key@);
            }
        }
        let is_first = first == k;
        proof {
            if is_first {
                assert(first_with_key(registrations@, k as int));
            } else {
                if first < k {
                    assert(registrations@[first as int].view_key@ == registrations@[k as int].view_key@);
                    assert(!first_with_key(registrations@, k as int));
                } else {
                    assert(registrations@[k as int].view_key@ != registrations@[k as int].view_key@);
                }
            }
        }
        push_if(&mut out, is_first && count != 1, ReadViewDiagnostic::MultipleProvidersForKey { registration: k });
        assert(out@ =~= after_regs + keys_upto(registrations@, k + 1));
        k = k + 1;
    }
    let ghost after_keys = out@;
    let mut qi: usize = 0;
    while qi < requirements.len()
        invariant
            qi <= requirements@.len(),
            after_keys == registrations_upto(registrations@, registrations@.len() as int)
                + keys_upto(registrations@, registrations@.len() as int),
            out@ == after_keys + requirements_upto(registrations@, requirements@, qi as int),
        decreases requirements@.len() - qi,
    {
        let mut d = requirement_diagnostics_exec(registrations, &requirements[qi], qi);
        out.append(&mut d);
        assert(out@ =~= after_keys + requirements_upto(registrations@, requirements@, qi + 1));
        qi = qi + 1;
    }
    out
}

} // verus!
