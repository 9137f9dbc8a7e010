//! The audit record of a policy tick: each proposed command paired with the
//! outcome authority returned for it, in proposal order, and its stable
//! text rendering.
//!
//! Translations are floating-point values and notes are rendered with
//! `Debug`; the record carries both as the text its caller rendered.

use vstd::prelude::*;
use crate::text::{dec_digits, push_dec};
use crate::entity_authoring::{LifecycleError, TransformError};

verus! {

/// A proposed command, as the record shows it.
#[derive(Debug, Clone, PartialEq, Eq)]
pub enum PolicyCommandRecord {
    /// The translation's three components, each as displayed.
    RequestSetTransform { entity: u64, translation: [String; 3] },
    RequestAddLabel { entity: u64, label: u64 },
    RequestDisable { entity: u64 },
    /// The note, as `Debug` renders it (quoted and escaped).
    NoopMarker { note_debug: String },
}

/// The event of an accepted command.
#[derive(Debug, Clone, PartialEq, Eq)]
pub enum PolicyEventRecord {
    TransformSet { entity: u64 },
    LabelAdded { entity: u64, label: u64 },
    Disabled { entity: u64 },
    NoopRecorded { note_debug: String },
}

/// What authority answered: the event, or the rejection's label.
#[derive(Debug, Clone, PartialEq, Eq)]
pub enum PolicyOutcomeRecord {
    Accepted { event: PolicyEventRecord },
    Rejected { label: String },
}

#[derive(Debug, Clone, PartialEq, Eq)]
pub struct PolicyProposalRecord {
    pub command: PolicyCommandRecord,
    pub outcome: PolicyOutcomeRecord,
}

/// The ordered record of one tick's proposals and their outcomes.
#[derive(Debug, Clone, PartialEq, Eq)]
pub struct PolicyTickRecord {
    pub tick: u64,
    pub proposals: Vec<PolicyProposalRecord>,
}

pub open spec fn is_accepted(p: PolicyProposalRecord) -> bool {
    p.outcome is Accepted
}

/// How many of the first `n` proposals were accepted.
pub open spec fn accepted_upto(ps: Seq<PolicyProposalRecord>, n: int) -> nat
    decreases n,
{
    if n <= 0 {
        0
    } else {
        accepted_upto(ps, n - 1) + if is_accepted(ps[n - 1]) { 1nat } else { 0nat }
    }
}

proof fn lemma_accepted_bound(ps: Seq<PolicyProposalRecord>, n: int)
    requires
        0 <= n <= ps.len(),
    ensures
        accepted_upto(ps, n) <= n,
    decreases n,
{
    if n > 0 {
        lemma_accepted_bound(ps, n - 1);
    }
}

pub open spec fn command_text(c: PolicyCommandRecord) -> Seq<char> {
    match c {
        PolicyCommandRecord::RequestSetTransform { entity, translation } =>
            "requestSetTransform entity="@ + dec_digits(entity as nat) + " translation=["@ + translation@[0]@ + ", "@
                + translation@[1]@ + ", "@ + translation@[2]@ + "]"@,
        PolicyCommandRecord::RequestAddLabel { entity, label } =>
            "requestAddLabel entity="@ + dec_digits(entity as nat) + " label="@ + dec_digits(label as nat),
        PolicyCommandRecord::RequestDisable { entity } => "requestDisable entity="@ + dec_digits(entity as nat),
        PolicyCommandRecord::NoopMarker { note_debug } => "noopMarker note="@ + note_debug@,
    }
}

pub open spec fn event_text(e: PolicyEventRecord) -> Seq<char> {
    match e {
        PolicyEventRecord::TransformSet { entity } => "transformSet entity="@ + dec_digits(entity as nat),
        PolicyEventRecord::LabelAdded { entity, label } =>
            "labelAdded entity="@ + dec_digits(entity as nat) + " label="@ + dec_digits(label as nat),
        PolicyEventRecord::Disabled { entity } => "disabled entity="@ + dec_digits(entity as nat),
        PolicyEventRecord::NoopRecorded { note_debug } => "noopRecorded note="@ + note_debug@,
    }
}

pub open spec fn outcome_text(o: PolicyOutcomeRecord) -> Seq<char> {
    match o {
        PolicyOutcomeRecord::Accepted { event } => "accepted "@ + event_text(event),
        PolicyOutcomeRecord::Rejected { label } => "rejected "@ + label@,
    }
}

/// The line of proposal `i`.
pub open spec fn proposal_line(i: nat, p: PolicyProposalRecord) -> Seq<char> {
    "  ["@ + dec_digits(i) + "] "@ + command_text(p.command) + " -> "@ + outcome_text(p.outcome) + "\n"@
}

/// The lines of the first `n` proposals.
pub open spec fn proposal_lines(ps: Seq<PolicyProposalRecord>, n: int) -> Seq<char>
    decreases n,
{
    if n <= 0 {
        Seq::empty()
    } else {
        proposal_lines(ps, n - 1) + proposal_line((n - 1) as nat, ps[n - 1])
    }
}

/// The whole record: a header with the tick and the counts, then one line
/// per proposal.
pub open spec fn tick_record_text(r: PolicyTickRecord) -> Seq<char> {
    let n = r.proposals@.len() as int;
    let a = accepted_upto(r.proposals@, n);
    "policy-tick "@ + dec_digits(r.tick as nat) + " accepted="@ + dec_digits(a) + " rejected="@
        + dec_digits((n - a) as nat) + "\n"@ + proposal_lines(r.proposals@, n)
}

impl PolicyTickRecord {
    /// How many proposals were accepted.
    pub fn accepted_count(&self) -> (r: usize)
        ensures
            r == accepted_upto(self.proposals@, self.proposals@.len() as int),
    {
        let mut count: usize = 0;
        let mut i: usize = 0;
        while i < self.proposals.len()
            invariant
                i <= self.proposals@.len(),
                count == accepted_upto(self.proposals@, i as int),
            decreases self.proposals@.len() - i,
        {
            proof {
                lemma_accepted_bound(self.proposals@, i as int);
            }
            if matches!(self.proposals[i].outcome, PolicyOutcomeRecord::Accepted { .. }) {
                count = count + 1;
            }
            i = i + 1;
        }
        count
    }

    /// How many proposals were rejected.
    pub fn rejected_count(&self) -> (r: usize)
        ensures
            r == self.proposals@.len() - accepted_upto(self.proposals@, self.proposals@.len() as int),
    {
        proof {
            lemma_accepted_bound(self.proposals@, self.proposals@.len() as int);
        }
        self.proposals.len() - self.accepted_count()
    }
}

fn push_command(out: &mut String, c: &PolicyCommandRecord)
    ensures
        final(out)@ == old(out)@ + command_text(*c),
{
    let ghost start = out@;
    match c {
        PolicyCommandRecord::RequestSetTransform { entity, translation } => {
            out.append("requestSetTransform entity=");
            push_dec(out, *entity);
            out.append(" translation=[");
            out.append(translation[0].as_str());
            out.append(", ");
            out.append(translation[1].as_str());
            out.append(", ");
            out.append(translation[2].as_str());
            out.append("]");
        },
        PolicyCommandRecord::RequestAddLabel { entity, label } => {
            out.append("requestAddLabel entity=");
            push_dec(out, *entity);
            out.append(" label=");
            push_dec(out, *label);
        },
        PolicyCommandRecord::RequestDisable { entity } => {
            out.append("requestDisable entity=");
            push_dec(out, *entity);
        },
        PolicyCommandRecord::NoopMarker { note_debug } => {
            out.append("noopMarker note=");
            out.append(note_debug.as_str());
        },
    }
    assert(out@ =~= start + command_text(*c));
}

fn push_outcome(out: &mut String, o: &PolicyOutcomeRecord)
    ensures
        final(out)@ == old(out)@ + outcome_text(*o),
{
    let ghost start = out@;
    match o {
        PolicyOutcomeRecord::Accepted { event } => {
            out.append("accepted ");
            match event {
                PolicyEventRecord::TransformSet { entity } => {
                    out.append("transformSet entity=");
                    push_dec(out, *entity);
                },
                PolicyEventRecord::LabelAdded { entity, label } => {
                    out.append("labelAdded entity=");
                    push_dec(out, *entity);
                    out.append(" label=");
                    push_dec(out, *label);
                },
                PolicyEventRecord::Disabled { entity } => {
                    out.append("disabled entity=");
                    push_dec(out, *entity);
                },
                PolicyEventRecord::NoopRecorded { note_debug } => {
                    out.append("noopRecorded note=");
                    out.append(note_debug.as_str());
                },
            }
        },
        PolicyOutcomeRecord::Rejected { label } => {
            out.append("rejected ");
            out.append(label.as_str());
        },
    }
    assert(out@ =~= start + outcome_text(*o));
}

/// Render a tick record as stable text: the header, then one line per
/// proposal with its index, command and outcome.
pub fn render_tick_record(record: &PolicyTickRecord) -> (s: String)
    ensures
        s@ == tick_record_text(*record),
{
    let accepted = record.accepted_count();
    let rejected = record.rejected_count();
    let mut out = String::new();
    out.append("policy-tick ");
    push_dec(&mut out, record.tick);
    out.append(" accepted=");
    push_dec(&mut out, accepted as u64);
    out.append(" rejected=");
    push_dec(&mut out, rejected as u64);
    out.append("\n");
    let ghost header = out@;
    let ps = &record.proposals;
    let mut i: usize = 0;
    assert(out@ =~= header + proposal_lines(ps@, 0));
    while i < ps.len()
        invariant
            i <= ps@.len(),
            out@ == header + proposal_lines(ps@, i as int),
        decreases ps@.len() - i,
    {
        let ghost before = out@;
        out.append("  [");
        push_dec(&mut out, i as u64);
        out.append("] ");
        push_command(&mut out, &ps[i].command);
        out.append(" -> ");
        push_outcome(&mut out, &ps[i].outcome);
        out.append("\n");
        assert(out@ =~= before + proposal_line(i as nat, ps@[i as int]));
        assert(out@ =~= header + proposal_lines(ps@, i + 1));
        i = i + 1;
    }
    assert(out@ =~= tick_record_text(*record));
    out
}

// ---------------------------------------------------------------------------
// Validating a proposal.

/// Why authority refused a policy's proposal.
#[derive(Debug, Clone, Copy, PartialEq, Eq, Structural)]
pub enum PolicyWorldRejection {
    UnknownEntity,
    EntityDisabled,
    NotSpatial,
    Immovable,
    InvalidTransform,
    LabelAlreadyPresent,
    AlreadyDisabled,
}

pub open spec fn rejection_label_text(r: PolicyWorldRejection) -> Seq<char> {
    match r {
        PolicyWorldRejection::UnknownEntity => "unknownEntity"@,
        PolicyWorldRejection::EntityDisabled => "entityDisabled"@,
        PolicyWorldRejection::NotSpatial => "notSpatial"@,
        PolicyWorldRejection::Immovable => "immovable"@,
        PolicyWorldRejection::InvalidTransform => "invalidTransform"@,
        PolicyWorldRejection::LabelAlreadyPresent => "labelAlreadyPresent"@,
        PolicyWorldRejection::AlreadyDisabled => "alreadyDisabled"@,
    }
}

impl PolicyWorldRejection {
    /// The rejection's label in records.
    pub fn label(self) -> (r: &'static str)
        ensures
            r@ == rejection_label_text(self),
    {
        match self {
            PolicyWorldRejection::UnknownEntity => "unknownEntity",
            PolicyWorldRejection::EntityDisabled => "entityDisabled",
            PolicyWorldRejection::NotSpatial => "notSpatial",
            PolicyWorldRejection::Immovable => "immovable",
            PolicyWorldRejection::InvalidTransform => "invalidTransform",
            PolicyWorldRejection::LabelAlreadyPresent => "labelAlreadyPresent",
            PolicyWorldRejection::AlreadyDisabled => "alreadyDisabled",
        }
    }
}

/// How the store's refusal of a transform reads to a policy: an unknown or
/// tombstoned entity is unknown, a non-transformable one is not spatial.
pub open spec fn transform_rejection(e: TransformError) -> PolicyWorldRejection {
    match e {
        TransformError::UnknownEntity | TransformError::Tombstoned => PolicyWorldRejection::UnknownEntity,
        TransformError::Disabled => PolicyWorldRejection::EntityDisabled,
        TransformError::NotTransformEligible => PolicyWorldRejection::NotSpatial,
        TransformError::Immovable => PolicyWorldRejection::Immovable,
        TransformError::NonFinite => PolicyWorldRejection::InvalidTransform,
    }
}

/// How the store's refusal of a disable or a label reads to a policy: an
/// illegal transition is a disable of an already disabled entity.
pub open spec fn lifecycle_rejection(e: LifecycleError) -> PolicyWorldRejection {
    match e {
        LifecycleError::UnknownEntity | LifecycleError::Tombstoned | LifecycleError::IdRetired
        | LifecycleError::LabelAbsent => PolicyWorldRejection::UnknownEntity,
        LifecycleError::LabelAlreadyPresent => PolicyWorldRejection::LabelAlreadyPresent,
        LifecycleError::InvalidTransition | LifecycleError::AlreadyExists => PolicyWorldRejection::AlreadyDisabled,
    }
}

/// What the store answered for a proposal's operation.
#[derive(Debug, Clone, Copy, PartialEq, Eq, Structural)]
pub enum PolicyStoreAnswer {
    Applied,
    TransformRefused { error: TransformError },
    LifecycleRefused { error: LifecycleError },
}

/// The store answer fits the command: a transform request gets a transform
/// answer, a label or disable request a lifecycle answer.
pub open spec fn answer_fits(c: PolicyCommandRecord, a: PolicyStoreAnswer) -> bool {
    match c {
        PolicyCommandRecord::RequestSetTransform { .. } => !(a is LifecycleRefused),
        PolicyCommandRecord::RequestAddLabel { .. } | PolicyCommandRecord::RequestDisable { .. } => !(a is TransformRefused),
        PolicyCommandRecord::NoopMarker { .. } => true,
    }
}

/// The outcome of a proposal. A transform with a zero scale axis is refused
/// before the store is asked (`scale_nonzero` false); a no-op marker is
/// always accepted and touches nothing.
pub open spec fn policy_outcome_of(c: PolicyCommandRecord, scale_nonzero: bool, a: PolicyStoreAnswer) -> (PolicyEventRecord, Option<PolicyWorldRejection>) {
    match c {
        PolicyCommandRecord::RequestSetTransform { entity, .. } =>
            if !scale_nonzero {
                (PolicyEventRecord::TransformSet { entity }, Some(PolicyWorldRejection::InvalidTransform))
            } else {
                match a {
                    PolicyStoreAnswer::TransformRefused { error } => (PolicyEventRecord::TransformSet { entity }, Some(transform_rejection(error))),
                    _ => (PolicyEventRecord::TransformSet { entity }, None),
                }
            },
        PolicyCommandRecord::RequestAddLabel { entity, label } => match a {
            PolicyStoreAnswer::LifecycleRefused { error } => (PolicyEventRecord::LabelAdded { entity, label }, Some(lifecycle_rejection(error))),
            _ => (PolicyEventRecord::LabelAdded { entity, label }, None),
        },
        PolicyCommandRecord::RequestDisable { entity } => match a {
            PolicyStoreAnswer::LifecycleRefused { error } => (PolicyEventRecord::Disabled { entity }, Some(lifecycle_rejection(error))),
            _ => (PolicyEventRecord::Disabled { entity }, None),
        },
        PolicyCommandRecord::NoopMarker { note_debug } => (PolicyEventRecord::NoopRecorded { note_debug }, None),
    }
}

/// Classify a proposal: `Accepted` with the event it reports, or `Rejected`
/// with the reason. The store is asked only for a transform with non-zero
/// scale, a label or a disable; the caller passes its answer.
pub fn policy_outcome(c: &PolicyCommandRecord, scale_nonzero: bool, a: PolicyStoreAnswer) -> (r: (PolicyOutcomeRecord, Option<PolicyWorldRejection>))
    requires
        answer_fits(*c, a),
    ensures
        ({
            let (event, rejection) = policy_outcome_of(*c, scale_nonzero, a);
            &&& r.1 == rejection
            &&& rejection is None ==> r.0 == (PolicyOutcomeRecord::Accepted { event })
            &&& rejection matches Some(x) ==> (r.0 matches PolicyOutcomeRecord::Rejected { label } && label@ == rejection_label_text(x))
        }),
        !(c is NoopMarker) && (a is TransformRefused || a is LifecycleRefused) ==> r.0 is Rejected && r.1 is Some,
        a is TransformRefused && scale_nonzero && c is RequestSetTransform ==> r.1 == Some(transform_rejection(a->TransformRefused_error)),
{
    let (event, rejection): (PolicyEventRecord, Option<PolicyWorldRejection>) = match c {
        PolicyCommandRecord::RequestSetTransform { entity, .. } => {
            let event = PolicyEventRecord::TransformSet { entity: *entity };
            if !scale_nonzero {
                (event, Some(PolicyWorldRejection::InvalidTransform))
            } else {
                match a {
                    PolicyStoreAnswer::TransformRefused { error } => (event, Some(transform_rejection_exec(error))),
                    _ => (event, None),
                }
            }
        },
        PolicyCommandRecord::RequestAddLabel { entity, label } => {
            let event = PolicyEventRecord::LabelAdded { entity: *entity, label: *label };
            match a {
                PolicyStoreAnswer::LifecycleRefused { error } => (event, Some(lifecycle_rejection_exec(error))),
                _ => (event, None),
            }
        },
        PolicyCommandRecord::RequestDisable { entity } => {
            let event = PolicyEventRecord::Disabled { entity: *entity };
            match a {
                PolicyStoreAnswer::LifecycleRefused { error } => (event, Some(lifecycle_rejection_exec(error))),
                _ => (event, None),
            }
        },
        PolicyCommandRecord::NoopMarker { note_debug } =>
            (PolicyEventRecord::NoopRecorded { note_debug: note_debug.clone() }, None),
    };
    match rejection {
        Some(x) => {
            let mut label = String::new();
            label.append(x.label());
            (PolicyOutcomeRecord::Rejected { label }, Some(x))
        },
        None => (PolicyOutcomeRecord::Accepted { event }, None),
    }
}

fn transform_rejection_exec(e: TransformError) -> (r: PolicyWorldRejection)
    ensures
        r == transform_rejection(e),
{
    match e {
        TransformError::UnknownEntity | TransformError::Tombstoned => PolicyWorldRejection::UnknownEntity,
        TransformError::Disabled => PolicyWorldRejection::EntityDisabled,
        TransformError::NotTransformEligible => PolicyWorldRejection::NotSpatial,
        TransformError::Immovable => PolicyWorldRejection::Immovable,
        TransformError::NonFinite => PolicyWorldRejection::InvalidTransform,
    }
}

fn lifecycle_rejection_exec(e: LifecycleError) -> (r: PolicyWorldRejection)
    ensures
        r == lifecycle_rejection(e),
{
    match e {
        LifecycleError::UnknownEntity | LifecycleError::Tombstoned | LifecycleError::IdRetired
        | LifecycleError::LabelAbsent => PolicyWorldRejection::UnknownEntity,
        LifecycleError::LabelAlreadyPresent => PolicyWorldRejection::LabelAlreadyPresent,
        LifecycleError::InvalidTransition | LifecycleError::AlreadyExists => PolicyWorldRejection::AlreadyDisabled,
    }
}

/// A proposal the store refuses is rejected, never accepted: a refused
/// transform with the reason its error maps to, a refused label or disable
/// likewise. A zero-scale transform is rejected as invalid whatever the store
/// would say, and a proposal the store applies is accepted.
pub proof fn law_refusals_are_rejections(c: PolicyCommandRecord, scale_nonzero: bool, a: PolicyStoreAnswer)
    requires
        answer_fits(c, a),
    ensures
        c is RequestSetTransform && !scale_nonzero ==> policy_outcome_of(c, scale_nonzero, a).1 == Some(
            PolicyWorldRejection::InvalidTransform,
        ),
        c is RequestSetTransform && scale_nonzero ==> (a matches PolicyStoreAnswer::TransformRefused { error } ==> policy_outcome_of(c, scale_nonzero, a).1 == Some(
            transform_rejection(error),
        )),
        (c is RequestAddLabel || c is RequestDisable) ==> (a matches PolicyStoreAnswer::LifecycleRefused { error } ==> policy_outcome_of(c, scale_nonzero, a).1 == Some(
            lifecycle_rejection(error),
        )),
        a is Applied && !(c is RequestSetTransform && !scale_nonzero) ==> policy_outcome_of(c, scale_nonzero, a).1 is None,
        c is NoopMarker ==> policy_outcome_of(c, scale_nonzero, a).1 is None,
{
}

/// How each store refusal reads to a policy: a refusal naming an entity that
/// is gone or never existed is `unknownEntity`; the others keep their
/// meaning (a disabled entity, a non-spatial one, an immovable one, a
/// non-finite transform, a repeated label, a repeated disable).
pub proof fn law_rejection_reasons()
    ensures
        transform_rejection(TransformError::UnknownEntity) == PolicyWorldRejection::UnknownEntity,
        transform_rejection(TransformError::Tombstoned) == PolicyWorldRejection::UnknownEntity,
        transform_rejection(TransformError::Disabled) == PolicyWorldRejection::EntityDisabled,
        transform_rejection(TransformError::NotTransformEligible) == PolicyWorldRejection::NotSpatial,
        transform_rejection(TransformError::Immovable) == PolicyWorldRejection::Immovable,
        transform_rejection(TransformError::NonFinite) == PolicyWorldRejection::InvalidTransform,
        lifecycle_rejection(LifecycleError::UnknownEntity) == PolicyWorldRejection::UnknownEntity,
        lifecycle_rejection(LifecycleError::Tombstoned) == PolicyWorldRejection::UnknownEntity,
        lifecycle_rejection(LifecycleError::LabelAlreadyPresent) == PolicyWorldRejection::LabelAlreadyPresent,
        lifecycle_rejection(LifecycleError::InvalidTransition) == PolicyWorldRejection::AlreadyDisabled,
{
}

} // verus!
