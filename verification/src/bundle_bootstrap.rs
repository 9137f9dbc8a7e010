//! Preflight of a ProjectBundle batch of stored entity definitions, and the
//! records of a batch bound to runtime entities that already exist.
//!
//! The runtime entity store is represented by the ids it has allocated and by
//! the hash it reports; the batch itself is checked here.

use vstd::prelude::*;
use crate::ids::{is_blank, is_blank_text};
use crate::entity_definition::{
    definition_problems, validate_entity_definition, CapabilityFacts, DefinitionProblem,
    DefinitionVerdict, EntityDefinitionFacts,
};

verus! {

/// The class of a batch-bootstrap diagnostic.
#[derive(Debug, Clone, Copy, PartialEq, Eq, Structural)]
pub enum ProjectBundleEntityDefinitionBootstrapDiagnosticCode {
    MissingProjectBundle,
    EmptyDefinitions,
    DefinitionInvalid,
    SourceProjectBundleMismatch,
    DuplicateDefinitionStableId,
    DuplicateRuntimeEntity,
    RuntimeEntityAlreadyExists,
    RuntimeEntityMissing,
}

/// One stored definition selected for a runtime entity id.
#[derive(Debug, Clone, PartialEq, Eq)]
pub struct ProjectBundleEntityDefinitionBootstrapEntry {
    pub entity: u64,
    pub definition: EntityDefinitionFacts,
}

/// A ProjectBundle-shaped batch of definitions.
#[derive(Debug, Clone, PartialEq, Eq)]
pub struct ProjectBundleEntityDefinitionBootstrapRequest {
    pub project_bundle: String,
    pub entries: Vec<ProjectBundleEntityDefinitionBootstrapEntry>,
}

/// Whether the batch allocates its runtime entities or binds existing ones.
#[derive(Debug, Clone, Copy, PartialEq, Eq, Structural)]
pub enum ProjectBundleBootstrapTarget {
    Create,
    Existing,
}

/// One batch problem; entry problems carry the entry's index.
#[derive(Debug, Clone, Copy, PartialEq, Eq, Structural)]
pub enum BootstrapIssue {
    MissingProjectBundle,
    EmptyDefinitions,
    DefinitionInvalid { index: usize },
    SourceProjectBundleMismatch { index: usize },
    DuplicateDefinitionStableId { index: usize },
    DuplicateRuntimeEntity { index: usize },
    RuntimeEntityAlreadyExists { index: usize },
    RuntimeEntityMissing { index: usize },
}

pub open spec fn issue_code(i: BootstrapIssue) -> ProjectBundleEntityDefinitionBootstrapDiagnosticCode {
    match i {
        BootstrapIssue::MissingProjectBundle => ProjectBundleEntityDefinitionBootstrapDiagnosticCode::MissingProjectBundle,
        BootstrapIssue::EmptyDefinitions => ProjectBundleEntityDefinitionBootstrapDiagnosticCode::EmptyDefinitions,
        BootstrapIssue::DefinitionInvalid { .. } => ProjectBundleEntityDefinitionBootstrapDiagnosticCode::DefinitionInvalid,
        BootstrapIssue::SourceProjectBundleMismatch { .. } => ProjectBundleEntityDefinitionBootstrapDiagnosticCode::SourceProjectBundleMismatch,
        BootstrapIssue::DuplicateDefinitionStableId { .. } => ProjectBundleEntityDefinitionBootstrapDiagnosticCode::DuplicateDefinitionStableId,
        BootstrapIssue::DuplicateRuntimeEntity { .. } => ProjectBundleEntityDefinitionBootstrapDiagnosticCode::DuplicateRuntimeEntity,
        BootstrapIssue::RuntimeEntityAlreadyExists { .. } => ProjectBundleEntityDefinitionBootstrapDiagnosticCode::RuntimeEntityAlreadyExists,
        BootstrapIssue::RuntimeEntityMissing { .. } => ProjectBundleEntityDefinitionBootstrapDiagnosticCode::RuntimeEntityMissing,
    }
}

impl BootstrapIssue {
    /// The diagnostic code of this problem.
    pub fn code(self) -> (r: ProjectBundleEntityDefinitionBootstrapDiagnosticCode)
        ensures
            r == issue_code(self),
    {
        match self {
            BootstrapIssue::MissingProjectBundle => ProjectBundleEntityDefinitionBootstrapDiagnosticCode::MissingProjectBundle,
            BootstrapIssue::EmptyDefinitions => ProjectBundleEntityDefinitionBootstrapDiagnosticCode::EmptyDefinitions,
            BootstrapIssue::DefinitionInvalid { .. } => ProjectBundleEntityDefinitionBootstrapDiagnosticCode::DefinitionInvalid,
            BootstrapIssue::SourceProjectBundleMismatch { .. } => ProjectBundleEntityDefinitionBootstrapDiagnosticCode::SourceProjectBundleMismatch,
            BootstrapIssue::DuplicateDefinitionStableId { .. } => ProjectBundleEntityDefinitionBootstrapDiagnosticCode::DuplicateDefinitionStableId,
            BootstrapIssue::DuplicateRuntimeEntity { .. } => ProjectBundleEntityDefinitionBootstrapDiagnosticCode::DuplicateRuntimeEntity,
            BootstrapIssue::RuntimeEntityAlreadyExists { .. } => ProjectBundleEntityDefinitionBootstrapDiagnosticCode::RuntimeEntityAlreadyExists,
            BootstrapIssue::RuntimeEntityMissing { .. } => ProjectBundleEntityDefinitionBootstrapDiagnosticCode::RuntimeEntityMissing,
        }
    }
}

/// A batch diagnostic: the problem, and for an invalid definition the
/// problems that its own validation reported.
#[derive(Debug, Clone, PartialEq, Eq)]
pub struct ProjectBundleEntityDefinitionBootstrapDiagnostic {
    pub issue: BootstrapIssue,
    pub definition_diagnostics: Vec<DefinitionProblem>,
}

pub open spec fn issue_flag(b: bool, p: BootstrapIssue) -> Seq<BootstrapIssue> {
    if b {
        seq![p]
    } else {
        Seq::empty()
    }
}

/// The stable id of entry `i` is non-blank and names an earlier entry too.
pub open spec fn stable_id_repeats(es: Seq<ProjectBundleEntityDefinitionBootstrapEntry>, i: int) -> bool {
    &&& !is_blank_text(es[i].definition.stable_id@)
    &&& exists|j: int| 0 <= j < i && (#[trigger] es[j]).definition.stable_id@ == es[i].definition.stable_id@
}

/// The runtime entity of entry `i` is the entity of an earlier entry.
pub open spec fn entity_repeats(es: Seq<ProjectBundleEntityDefinitionBootstrapEntry>, i: int) -> bool {
    exists|j: int| 0 <= j < i && (#[trigger] es[j]).entity == es[i].entity
}

/// The problems of entry `i`, in check order.
pub open spec fn entry_issues(
    req: ProjectBundleEntityDefinitionBootstrapRequest,
    allocated: Seq<u64>,
    target: ProjectBundleBootstrapTarget,
    i: int,
) -> Seq<BootstrapIssue> {
    let es = req.entries@;
    let e = es[i];
    let x = i as usize;
    issue_flag(definition_problems(e.definition).len() > 0, BootstrapIssue::DefinitionInvalid { index: x })
        + issue_flag(e.definition.project_bundle@ != req.project_bundle@, BootstrapIssue::SourceProjectBundleMismatch { index: x })
        + issue_flag(stable_id_repeats(es, i), BootstrapIssue::DuplicateDefinitionStableId { index: x })
        + issue_flag(entity_repeats(es, i), BootstrapIssue::DuplicateRuntimeEntity { index: x })
        + issue_flag(target == ProjectBundleBootstrapTarget::Create && allocated.contains(e.entity), BootstrapIssue::RuntimeEntityAlreadyExists { index: x })
        + issue_flag(target == ProjectBundleBootstrapTarget::Existing && !allocated.contains(e.entity), BootstrapIssue::RuntimeEntityMissing { index: x })
}

/// The problems of the first `n` entries, in order.
pub open spec fn entries_issues_upto(
    req: ProjectBundleEntityDefinitionBootstrapRequest,
    allocated: Seq<u64>,
    target: ProjectBundleBootstrapTarget,
    n: int,
) -> Seq<BootstrapIssue>
    decreases n,
{
    if n <= 0 {
        Seq::empty()
    } else {
        entries_issues_upto(req, allocated, target, n - 1) + entry_issues(req, allocated, target, n - 1)
    }
}

/// Every problem of a batch, in report order.
pub open spec fn bootstrap_issues(
    req: ProjectBundleEntityDefinitionBootstrapRequest,
    allocated: Seq<u64>,
    target: ProjectBundleBootstrapTarget,
) -> Seq<BootstrapIssue> {
    issue_flag(is_blank_text(req.project_bundle@), BootstrapIssue::MissingProjectBundle)
        + issue_flag(req.entries@.len() == 0, BootstrapIssue::EmptyDefinitions)
        + entries_issues_upto(req, allocated, target, req.entries@.len() as int)
}

/// The nested definition problems that a batch diagnostic carries.
pub open spec fn nested_problems(
    req: ProjectBundleEntityDefinitionBootstrapRequest,
    issue: BootstrapIssue,
) -> Seq<DefinitionProblem> {
    match issue {
        BootstrapIssue::DefinitionInvalid { index } => definition_problems(req.entries@[index as int].definition),
        _ => Seq::empty(),
    }
}

/// The diagnostics `out` report exactly `issues`, each with its nested
/// definition problems.
#[verifier::opaque]
pub open spec fn reports(
    out: Seq<ProjectBundleEntityDefinitionBootstrapDiagnostic>,
    req: ProjectBundleEntityDefinitionBootstrapRequest,
    issues: Seq<BootstrapIssue>,
) -> bool {
    &&& out.len() == issues.len()
    &&& forall|k: int| 0 <= k < out.len() ==> (#[trigger] out[k]).issue == issues[k]
    &&& forall|k: int| 0 <= k < out.len() ==> (#[trigger] out[k]).definition_diagnostics@ == nested_problems(req, issues[k])
}

fn plain(issue: BootstrapIssue) -> (d: ProjectBundleEntityDefinitionBootstrapDiagnostic)
    ensures
        d.issue == issue,
        d.definition_diagnostics@ == Seq::<DefinitionProblem>::empty(),
{
    ProjectBundleEntityDefinitionBootstrapDiagnostic { issue, definition_diagnostics: Vec::new() }
}

fn push_issue(
    out: &mut Vec<ProjectBundleEntityDefinitionBootstrapDiagnostic>,
    cond: bool,
    issue: BootstrapIssue,
    Ghost(req): Ghost<ProjectBundleEntityDefinitionBootstrapRequest>,
    Ghost(issues): Ghost<Seq<BootstrapIssue>>,
)
    requires
        reports(old(out)@, req, issues),
        !(issue is DefinitionInvalid),
    ensures
        reports(final(out)@, req, issues + issue_flag(cond, issue)),
{
    reveal(reports);
    if cond {
        out.push(plain(issue));
    }
    let ghost target = issues + issue_flag(cond, issue);
    assert forall|k: int| 0 <= k < out@.len() implies (#[trigger] out@[k]).issue == target[k]
        && out@[k].definition_diagnostics@ == nested_problems(req, target[k]) by {
        if k < old(out)@.len() {
            assert(out@[k] == old(out)@[k]);
        }
    }
}

fn allocated_contains(allocated: &[u64], e: u64) -> (r: bool)
    ensures
        r == allocated@.contains(e),
{
    let mut k: usize = 0;
    while k < allocated.len()
        invariant
            k <= allocated@.len(),
            forall|t: int| 0 <= t < k ==> allocated@[t] != e,
        decreases allocated@.len() - k,
    {
        if allocated[k] == e {
            assert(allocated@[k as int] == e);
            return true;
        }
        k = k + 1;
    }
    false
}

fn stable_id_repeats_exec(es: &Vec<ProjectBundleEntityDefinitionBootstrapEntry>, i: usize) -> (r: bool)
    requires
        i < es@.len(),
    ensures
        r == stable_id_repeats(es@, i as int),
{
    if is_blank(es[i].definition.stable_id.as_str()) {
        return false;
    }
    let mut j: usize = 0;
    while j < i
        invariant
            j <= i < es@.len(),
            !is_blank_text(es@[i as int].definition.stable_id@),
            forall|t: int| 0 <= t < j ==> (#[trigger] es@[t]).definition.stable_id@ != es@[i as int].definition.stable_id@,
        decreases i - j,
    {
        if es[j].definition.stable_id == es[i].definition.stable_id {
            assert(es@[j as int].definition.stable_id@ == es@[i as int].definition.stable_id@);
            return true;
        }
        j = j + 1;
    }
    false
}

fn entity_repeats_exec(es: &Vec<ProjectBundleEntityDefinitionBootstrapEntry>, i: usize) -> (r: bool)
    requires
        i < es@.len(),
    ensures
        r == entity_repeats(es@, i as int),
{
    let mut j: usize = 0;
    while j < i
        invariant
            j <= i < es@.len(),
            forall|t: int| 0 <= t < j ==> (#[trigger] es@[t]).entity != es@[i as int].entity,
        decreases i - j,
    {
        if es[j].entity == es[i].entity {
            assert(es@[j as int].entity == es@[i as int].entity);
            return true;
        }
        j = j + 1;
    }
    false
}

fn push_definition_verdict(
    out: &mut Vec<ProjectBundleEntityDefinitionBootstrapDiagnostic>,
    entry: &ProjectBundleEntityDefinitionBootstrapEntry,
    i: usize,
    Ghost(req): Ghost<ProjectBundleEntityDefinitionBootstrapRequest>,
    Ghost(before): Ghost<Seq<BootstrapIssue>>,
)
    requires
        i < req.entries@.len(),
        req.entries@[i as int] == *entry,
        reports(old(out)@, req, before),
    ensures
        reports(
            final(out)@,
            req,
            before + issue_flag(
                definition_problems(entry.definition).len() > 0,
                BootstrapIssue::DefinitionInvalid { index: i },
            ),
        ),
{
    reveal(reports);
    match validate_entity_definition(&entry.definition) {
        DefinitionVerdict::Valid => {},
        DefinitionVerdict::Invalid { problems } => {
            out.push(ProjectBundleEntityDefinitionBootstrapDiagnostic {
                issue: BootstrapIssue::DefinitionInvalid { index: i },
                definition_diagnostics: problems,
            });
        },
    }
    let ghost s_a = before + issue_flag(
        definition_problems(entry.definition).len() > 0,
        BootstrapIssue::DefinitionInvalid { index: i },
    );
    assert forall|k: int| 0 <= k < out@.len() implies (#[trigger] out@[k]).issue == s_a[k]
        && out@[k].definition_diagnostics@ == nested_problems(req, s_a[k]) by {
        if k < old(out)@.len() {
            assert(out@[k] == old(out)@[k]);
        }
    }
}

/// Push the problems of entry `i` of the batch.
#[verifier::spinoff_prover]
#[verifier::rlimit(40)]
fn push_entry_issues(
    out: &mut Vec<ProjectBundleEntityDefinitionBootstrapDiagnostic>,
    allocated: &[u64],
    request: &ProjectBundleEntityDefinitionBootstrapRequest,
    target: ProjectBundleBootstrapTarget,
    i: usize,
    Ghost(before): Ghost<Seq<BootstrapIssue>>,
)
    requires
        i < request.entries@.len(),
        reports(old(out)@, *request, before),
    ensures
        reports(final(out)@, *request, before + entry_issues(*request, allocated@, target, i as int)),
{
    let ghost req = *request;
    let es = &request.entries;
    let entry = &es[i];
    push_definition_verdict(out, entry, i, Ghost(req), Ghost(before));
    let ghost s_a = before + issue_flag(
        definition_problems(entry.definition).len() > 0,
        BootstrapIssue::DefinitionInvalid { index: i },
    );
    push_issue(
        out,
        entry.definition.project_bundle != request.project_bundle,
        BootstrapIssue::SourceProjectBundleMismatch { index: i },
        Ghost(req),
        Ghost(s_a),
    );
    let ghost s_b = s_a + issue_flag(
        entry.definition.project_bundle@ != req.project_bundle@,
        BootstrapIssue::SourceProjectBundleMismatch { index: i },
    );
    push_issue(
        out,
        stable_id_repeats_exec(es, i),
        BootstrapIssue::DuplicateDefinitionStableId { index: i },
        Ghost(req),
        Ghost(s_b),
    );
    let ghost s_c = s_b + issue_flag(
        stable_id_repeats(es@, i as int),
        BootstrapIssue::DuplicateDefinitionStableId { index: i },
    );
    push_issue(
        out,
        entity_repeats_exec(es, i),
        BootstrapIssue::DuplicateRuntimeEntity { index: i },
        Ghost(req),
        Ghost(s_c),
    );
    let ghost s_d = s_c + issue_flag(entity_repeats(es@, i as int), BootstrapIssue::DuplicateRuntimeEntity { index: i });
    let present = allocated_contains(allocated, entry.entity);
    let create = match target {
        ProjectBundleBootstrapTarget::Create => true,
        ProjectBundleBootstrapTarget::Existing => false,
    };
    push_issue(out, create && present, BootstrapIssue::RuntimeEntityAlreadyExists { index: i }, Ghost(req), Ghost(s_d));
    let ghost s_e = s_d + issue_flag(
        target == ProjectBundleBootstrapTarget::Create && allocated@.contains(entry.entity),
        BootstrapIssue::RuntimeEntityAlreadyExists { index: i },
    );
    push_issue(out, !create && !present, BootstrapIssue::RuntimeEntityMissing { index: i }, Ghost(req), Ghost(s_e));
    assert(s_e + issue_flag(
        target == ProjectBundleBootstrapTarget::Existing && !allocated@.contains(entry.entity),
        BootstrapIssue::RuntimeEntityMissing { index: i },
    ) =~= before + entry_issues(req, allocated@, target, i as int));
}

/// Preflight a batch against the ids the runtime store has allocated: the
/// ProjectBundle id, a non-empty batch, then for each entry its definition,
/// its source bundle, a repeated stable id, a repeated runtime entity, and
/// whether its entity exists as the target needs.
pub fn validate_project_bundle_bootstrap_request(
    allocated: &[u64],
    request: &ProjectBundleEntityDefinitionBootstrapRequest,
    target: ProjectBundleBootstrapTarget,
) -> (out: Vec<ProjectBundleEntityDefinitionBootstrapDiagnostic>)
    ensures
        reports(out@, *request, bootstrap_issues(*request, allocated@, target)),
{
    let ghost req = *request;
    let mut out: Vec<ProjectBundleEntityDefinitionBootstrapDiagnostic> = Vec::new();
    proof {
        reveal(reports);
    }
    push_issue(&mut out, is_blank(request.project_bundle.as_str()), BootstrapIssue::MissingProjectBundle, Ghost(req), Ghost(Seq::empty()));
    let ghost s1 = issue_flag(is_blank_text(req.project_bundle@), BootstrapIssue::MissingProjectBundle);
    assert(Seq::<BootstrapIssue>::empty() + s1 =~= s1);
    push_issue(&mut out, request.entries.len() == 0, BootstrapIssue::EmptyDefinitions, Ghost(req), Ghost(s1));
    let ghost head = s1 + issue_flag(req.entries@.len() == 0, BootstrapIssue::EmptyDefinitions);
    let mut i: usize = 0;
    assert(head + entries_issues_upto(req, allocated@, target, 0) =~= head);
    while i < request.entries.len()
        invariant
            req == *request,
            i <= request.entries@.len(),
            reports(out@, req, head + entries_issues_upto(req, allocated@, target, i as int)),
        decreases request.entries@.len() - i,
    {
        let ghost before = head + entries_issues_upto(req, allocated@, target, i as int);
        push_entry_issues(&mut out, allocated, request, target, i, Ghost(before));
        assert(before + entry_issues(req, allocated@, target, i as int)
            =~= head + entries_issues_upto(req, allocated@, target, i + 1));
        i = i + 1;
    }
    out
}

/// A capability that a stored definition attaches to a runtime entity.
#[derive(Debug, Clone, Copy, PartialEq, Eq, Structural)]
pub enum AppliedCapability {
    Transform,
    Render,
    Collision,
    Bounds,
}

pub open spec fn applied_label(c: AppliedCapability) -> Seq<char> {
    match c {
        AppliedCapability::Transform => "transform"@,
        AppliedCapability::Render => "render"@,
        AppliedCapability::Collision => "collision"@,
        AppliedCapability::Bounds => "bounds"@,
    }
}

impl AppliedCapability {
    /// The capability kind as stored definitions name it.
    pub fn label(self) -> (r: &'static str)
        ensures
            r@ == applied_label(self),
    {
        match self {
            AppliedCapability::Transform => "transform",
            AppliedCapability::Render => "render",
            AppliedCapability::Collision => "collision",
            AppliedCapability::Bounds => "bounds",
        }
    }
}

/// The readout of one definition bound to its runtime entity.
#[derive(Debug, Clone, PartialEq, Eq)]
pub struct EntityDefinitionBootstrapRecord {
    pub stable_id: String,
    pub display_name: String,
    pub entity: u64,
    pub project_bundle: String,
    pub relative_path: String,
    pub applied_capabilities: Vec<AppliedCapability>,
    pub entity_hash: u64,
    pub replay_unit_label: &'static str,
}

/// The readout of a whole batch.
#[derive(Debug, Clone, PartialEq, Eq)]
pub struct ProjectBundleEntityDefinitionBootstrapRecord {
    pub project_bundle: String,
    pub records: Vec<EntityDefinitionBootstrapRecord>,
    pub entity_hash: u64,
    pub replay_unit_label: &'static str,
}

/// The base capabilities of a definition that an existing runtime entity
/// already carries: its transform, collision and bounds, in declared order.
pub open spec fn bound_kind(c: CapabilityFacts) -> Seq<AppliedCapability> {
    match c {
        CapabilityFacts::Transform { .. } => seq![AppliedCapability::Transform],
        CapabilityFacts::Collision => seq![AppliedCapability::Collision],
        CapabilityFacts::Bounds { .. } => seq![AppliedCapability::Bounds],
        _ => Seq::empty(),
    }
}

pub open spec fn bound_kinds(cs: Seq<CapabilityFacts>, n: int) -> Seq<AppliedCapability>
    decreases n,
{
    if n <= 0 {
        Seq::empty()
    } else {
        bound_kinds(cs, n - 1) + bound_kind(cs[n - 1])
    }
}

/// `r` reads out entry `e` bound under the store hash `h`.
pub open spec fn binding_record(r: EntityDefinitionBootstrapRecord, e: ProjectBundleEntityDefinitionBootstrapEntry, h: u64) -> bool {
    &&& r.stable_id@ == e.definition.stable_id@
    &&& r.display_name@ == e.definition.display_name@
    &&& r.entity == e.entity
    &&& r.project_bundle@ == e.definition.project_bundle@
    &&& r.relative_path@ == e.definition.relative_path@
    &&& r.applied_capabilities@ == bound_kinds(e.definition.capabilities@, e.definition.capabilities@.len() as int)
    &&& r.entity_hash == h
    &&& r.replay_unit_label@ == "entity_definition.canonical_binding"@
}

fn bound_capabilities(cs: &Vec<CapabilityFacts>) -> (out: Vec<AppliedCapability>)
    ensures
        out@ == bound_kinds(cs@, cs@.len() as int),
{
    let mut out: Vec<AppliedCapability> = Vec::new();
    let mut i: usize = 0;
    while i < cs.len()
        invariant
            i <= cs@.len(),
            out@ == bound_kinds(cs@, i as int),
        decreases cs@.len() - i,
    {
        let ghost before = out@;
        match &cs[i] {
            CapabilityFacts::Transform { .. } => out.push(AppliedCapability::Transform),
            CapabilityFacts::Collision => out.push(AppliedCapability::Collision),
            CapabilityFacts::Bounds { .. } => out.push(AppliedCapability::Bounds),
            _ => {},
        }
        assert(out@ =~= before + bound_kind(cs@[i as int]));
        i = i + 1;
    }
    out
}

fn bind_entry(e: &ProjectBundleEntityDefinitionBootstrapEntry, entity_hash: u64) -> (r: EntityDefinitionBootstrapRecord)
    ensures
        binding_record(r, *e, entity_hash),
{
    let label = "entity_definition.canonical_binding";
    proof {
        reveal_strlit("entity_definition.canonical_binding");
    }
    EntityDefinitionBootstrapRecord {
        stable_id: e.definition.stable_id.clone(),
        display_name: e.definition.display_name.clone(),
        entity: e.entity,
        project_bundle: e.definition.project_bundle.clone(),
        relative_path: e.definition.relative_path.clone(),
        applied_capabilities: bound_capabilities(&e.definition.capabilities),
        entity_hash,
        replay_unit_label: label,
    }
}

/// Bind a batch of stored definitions to runtime entities that canonical
/// scene admission already created, given the ids the store has allocated
/// and the hash it reports. The batch is preflighted for existing entities;
/// nothing is allocated and no capability is applied again.
pub fn bind_project_bundle_entity_definitions(
    allocated: &[u64],
    entity_hash: u64,
    request: &ProjectBundleEntityDefinitionBootstrapRequest,
) -> (r: Result<ProjectBundleEntityDefinitionBootstrapRecord, Vec<ProjectBundleEntityDefinitionBootstrapDiagnostic>>)
    ensures
        r is Err <==> bootstrap_issues(*request, allocated@, ProjectBundleBootstrapTarget::Existing).len() > 0,
        r matches Err(d) ==> reports(d@, *request, bootstrap_issues(*request, allocated@, ProjectBundleBootstrapTarget::Existing)),
        r matches Ok(rec) ==> {
            &&& rec.project_bundle@ == request.project_bundle@
            &&& rec.entity_hash == entity_hash
            &&& rec.replay_unit_label@ == "project_bundle.entity_definitions.canonical_binding"@
            &&& rec.records@.len() == request.entries@.len()
            &&& forall|k: int| 0 <= k < rec.records@.len() ==> binding_record(#[trigger] rec.records@[k], request.entries@[k], entity_hash)
        },
{
    let diagnostics = validate_project_bundle_bootstrap_request(allocated, request, ProjectBundleBootstrapTarget::Existing);
    proof {
        reveal(reports);
    }
    if diagnostics.len() > 0 {
        return Err(diagnostics);
    }
    let mut records: Vec<EntityDefinitionBootstrapRecord> = Vec::new();
    let mut i: usize = 0;
    while i < request.entries.len()
        invariant
            i <= request.entries@.len(),
            records@.len() == i,
            forall|k: int| 0 <= k < i ==> binding_record(#[trigger] records@[k], request.entries@[k], entity_hash),
        decreases request.entries@.len() - i,
    {
        let rec = bind_entry(&request.entries[i], entity_hash);
        records.push(rec);
        i = i + 1;
    }
    let label = "project_bundle.entity_definitions.canonical_binding";
    proof {
        reveal_strlit("project_bundle.entity_definitions.canonical_binding");
    }
    Ok(ProjectBundleEntityDefinitionBootstrapRecord {
        project_bundle: request.project_bundle.clone(),
        records,
        entity_hash,
        replay_unit_label: label,
    })
}

} // verus!
