//! Validation of authored behaviors: state machines, transition sequences
//! of steps with their operations and conditions, and whether the steps'
//! dependencies can all be resolved.
//!
//! What the project's scene index knows (which scene instances are
//! entity-definition instances of the entry scene) and the published
//! vocabulary of the authored-program catalog come in as arguments.

use vstd::prelude::*;
use vstd::string::StringSliceAdditionalSpecFns;
use crate::ids::{
    is_authored_id, is_authored_id_bytes, is_blank, is_blank_text, is_source_module_bytes, is_source_path_bytes,
    valid_authored_source_module, valid_authored_source_path,
};
use crate::fabric_registry::utf8;

verus! {

/// A value an authored argument carries. Floating-point values arrive as
/// whether every component is finite.
#[derive(Debug, Clone, PartialEq, Eq)]
pub enum AuthoredValue {
    SceneEntity { scene_instance_id: String },
    PrefabPart { scene_instance_id: String, role: String },
    StateMachine { machine_id: String },
    State { machine_id: String, state_id: String },
    Text { value: String },
    Boolean { value: bool },
    Integer { value: i64 },
    Number { finite: bool },
    Vector3 { finite: bool },
}

/// A named argument of a verb, predicate or signal.
#[derive(Debug, Clone, PartialEq, Eq)]
pub struct AuthoredArgument {
    pub name: String,
    pub value: AuthoredValue,
}

/// An operation of a step: a versioned verb and its arguments.
#[derive(Debug, Clone, PartialEq, Eq)]
pub struct AuthoredOperation {
    pub verb_id: String,
    pub verb_version: u32,
    pub arguments: Vec<AuthoredArgument>,
}

/// A step of an authored behavior: it runs after the steps it names, after
/// a delay, and performs its operations.
#[derive(Debug, Clone, PartialEq, Eq)]
pub struct AuthoredStep {
    pub step_id: String,
    pub after_step_ids: Vec<String>,
    pub delay_ticks: u64,
    pub operations: Vec<AuthoredOperation>,
}

/// Some step outside `group` has the id `id`.
pub open spec fn provided_outside(steps: Seq<AuthoredStep>, group: Set<int>, id: Seq<char>) -> bool {
    exists|t: int| 0 <= t < steps.len() && !group.contains(t) && (#[trigger] steps[t]).step_id@ == id
}

/// Step `s` waits on an id that no step outside `group` provides.
pub open spec fn waits(steps: Seq<AuthoredStep>, group: Set<int>, s: int) -> bool {
    exists|k: int|
        0 <= k < steps[s].after_step_ids@.len()
            && !provided_outside(steps, group, (#[trigger] steps[s].after_step_ids@[k])@)
}

/// A nonempty group of steps each of which waits on an id that no step
/// outside the group provides: none of them can ever run.
pub open spec fn stuck_group(steps: Seq<AuthoredStep>, group: Set<int>) -> bool {
    &&& exists|s: int| group.contains(s)
    &&& forall|s: int| #[trigger] group.contains(s) ==> 0 <= s < steps.len() && waits(steps, group, s)
}

/// Every step can be resolved: no group of steps is stuck.
pub open spec fn dependencies_resolve(steps: Seq<AuthoredStep>) -> bool {
    !exists|g: Set<int>| stuck_group(steps, g)
}

/// `texts` holds the text `id`.
pub open spec fn in_texts(texts: Seq<String>, id: Seq<char>) -> bool {
    exists|u: int| 0 <= u < texts.len() && (#[trigger] texts[u])@ == id
}

/// Some step in `gone` has the id `id`.
pub open spec fn id_of_gone(steps: Seq<AuthoredStep>, gone: Set<int>, id: Seq<char>) -> bool {
    exists|t: int| 0 <= t < steps.len() && gone.contains(t) && (#[trigger] steps[t]).step_id@ == id
}

/// Every dependency of step `s` is in `texts`.
pub open spec fn ready_with(steps: Seq<AuthoredStep>, texts: Seq<String>, s: int) -> bool {
    forall|k: int| 0 <= k < steps[s].after_step_ids@.len() ==> in_texts(texts, (#[trigger] steps[s].after_step_ids@[k])@)
}

fn texts_contain(texts: &Vec<String>, id: &String) -> (r: bool)
    ensures
        r == in_texts(texts@, id@),
{
    let mut u: usize = 0;
    while u < texts.len()
        invariant
            u <= texts@.len(),
            forall|a: int| 0 <= a < u ==> (#[trigger] texts@[a])@ != id@,
        decreases texts@.len() - u,
    {
        if texts[u] == *id {
            assert(texts@[u as int]@ == id@);
            return true;
        }
        u = u + 1;
    }
    false
}

fn step_ready(steps: &[AuthoredStep], resolved: &Vec<String>, s: usize) -> (r: bool)
    requires
        s < steps@.len(),
    ensures
        r == ready_with(steps@, resolved@, s as int),
{
    let deps = &steps[s].after_step_ids;
    let mut k: usize = 0;
    while k < deps.len()
        invariant
            s < steps@.len(),
            deps == &steps@[s as int].after_step_ids,
            k <= deps@.len(),
            forall|a: int| 0 <= a < k ==> in_texts(resolved@, (#[trigger] steps@[s as int].after_step_ids@[a])@),
        decreases deps@.len() - k,
    {
        if !texts_contain(resolved, &deps[k]) {
            return false;
        }
        k = k + 1;
    }
    true
}

/// Removing step `x`, which is ready, keeps every stuck group clear of the
/// removed steps.
proof fn lemma_ready_not_stuck(steps: Seq<AuthoredStep>, resolved: Seq<String>, gone: Set<int>, x: int)
    requires
        0 <= x < steps.len(),
        ready_with(steps, resolved, x),
        forall|id: Seq<char>| #[trigger] in_texts(resolved, id) ==> id_of_gone(steps, gone, id),
        forall|g: Set<int>, s: int| stuck_group(steps, g) && #[trigger] g.contains(s) ==> !gone.contains(s),
    ensures
        forall|g: Set<int>| stuck_group(steps, g) ==> !(#[trigger] g.contains(x)),
{
    assert forall|g: Set<int>| stuck_group(steps, g) implies !(#[trigger] g.contains(x)) by {
        if g.contains(x) {
            assert(waits(steps, g, x));
            let k = choose|k: int|
                0 <= k < steps[x].after_step_ids@.len()
                    && !provided_outside(steps, g, (#[trigger] steps[x].after_step_ids@[k])@);
            let d = steps[x].after_step_ids@[k]@;
            assert(in_texts(resolved, d));
            assert(id_of_gone(steps, gone, d));
            let t = choose|t: int| 0 <= t < steps.len() && gone.contains(t) && (#[trigger] steps[t]).step_id@ == d;
            assert(!g.contains(t));
            assert(provided_outside(steps, g, d));
        }
    }
}

/// Resolve the steps' dependencies in passes, as the sequence runs them:
/// each pass takes, in order, every remaining step whose dependencies have
/// all been taken; the steps resolve when every step is taken, and not when
/// a pass takes none.
pub fn step_dependencies_resolve(steps: &[AuthoredStep]) -> (r: bool)
    ensures
        r == dependencies_resolve(steps@),
{
    let n = steps.len();
    let mut remaining: Vec<usize> = Vec::new();
    let mut i: usize = 0;
    while i < n
        invariant
            n == steps@.len(),
            i <= n,
            remaining@.len() == i,
            forall|q: int| 0 <= q < i ==> remaining@[q] == q,
        decreases n - i,
    {
        remaining.push(i);
        i = i + 1;
    }
    let mut resolved: Vec<String> = Vec::new();
    let ghost mut gone: Set<int> = Set::empty();
    proof {
        assert forall|id: Seq<char>| #[trigger] in_texts(resolved@, id) == id_of_gone(steps@, gone, id) by {}
        assert(remaining@.no_duplicates());
        assert forall|t: int| 0 <= t < n implies #[trigger] remaining@.contains(t as usize) by {
            assert(remaining@[t] == t);
        }
    }
    while remaining.len() > 0
        invariant
            n == steps@.len(),
            forall|q: int| 0 <= q < remaining@.len() ==> remaining@[q] < n,
            remaining@.no_duplicates(),
            forall|t: int| 0 <= t < n ==> (gone.contains(t) <==> !remaining@.contains(t as usize)),
            forall|t: int| gone.contains(t) ==> 0 <= t < n,
            forall|id: Seq<char>| #[trigger] in_texts(resolved@, id) == id_of_gone(steps@, gone, id),
            forall|g: Set<int>, s: int| stuck_group(steps@, g) && #[trigger] g.contains(s) ==> !gone.contains(s),
        decreases remaining@.len(),
    {
        let before = remaining.len();
        let ghost start_gone = gone;
        let mut next: Vec<usize> = Vec::new();
        let ghost mut removed: nat = 0;
        let mut p: usize = 0;
        while p < remaining.len()
            invariant
                n == steps@.len(),
                before == remaining@.len(),
                p <= remaining@.len(),
                forall|q: int| 0 <= q < remaining@.len() ==> remaining@[q] < n,
                remaining@.no_duplicates(),
                next@.no_duplicates(),
                forall|q: int| 0 <= q < next@.len() ==> exists|w: int| 0 <= w < p && remaining@[w] == #[trigger] next@[q],
                forall|t: int| 0 <= t < n ==> (gone.contains(t) <==> !(next@.contains(t as usize)
                    || exists|q: int| p <= q < remaining@.len() && remaining@[q] == t)),
                forall|t: int| gone.contains(t) ==> 0 <= t < n,
                forall|id: Seq<char>| #[trigger] in_texts(resolved@, id) == id_of_gone(steps@, gone, id),
                forall|g: Set<int>, s: int| stuck_group(steps@, g) && #[trigger] g.contains(s) ==> !gone.contains(s),
                next@.len() + removed == p,
                removed == 0 ==> gone == start_gone,
                removed == 0 ==> forall|q: int| 0 <= q < next@.len() ==> !ready_with(steps@, resolved@, #[trigger] next@[q] as int),
            decreases remaining@.len() - p,
        {
            let x = remaining[p];
            if step_ready(steps, &resolved, x) {
                proof {
                    lemma_ready_not_stuck(steps@, resolved@, gone, x as int);
                }
                let ghost old_resolved = resolved@;
                let ghost old_gone = gone;
                resolved.push(steps[x].step_id.clone());
                proof {
                    gone = gone.insert(x as int);
                    removed = removed + 1;
                    assert forall|id: Seq<char>| #[trigger] in_texts(resolved@, id) == id_of_gone(steps@, gone, id) by {
                        if in_texts(resolved@, id) {
                            let u = choose|u: int| 0 <= u < resolved@.len() && (#[trigger] resolved@[u])@ == id;
                            if u < old_resolved.len() {
                                assert(old_resolved[u] == resolved@[u]);
                                assert(in_texts(old_resolved, id));
                                let t = choose|t: int| 0 <= t < steps@.len() && old_gone.contains(t) && (#[trigger] steps@[t]).step_id@ == id;
                                assert(gone.contains(t));
                            } else {
                                assert(steps@[x as int].step_id@ == id);
                            }
                        }
                        if id_of_gone(steps@, gone, id) {
                            let t = choose|t: int| 0 <= t < steps@.len() && gone.contains(t) && (#[trigger] steps@[t]).step_id@ == id;
                            if t == x as int {
                                assert(resolved@[old_resolved.len() as int]@ == id);
                            } else {
                                assert(id_of_gone(steps@, old_gone, id));
                                assert(in_texts(old_resolved, id));
                                let u = choose|u: int| 0 <= u < old_resolved.len() && (#[trigger] old_resolved[u])@ == id;
                                assert(resolved@[u] == old_resolved[u]);
                            }
                        }
                    }
                    assert forall|t: int| 0 <= t < n implies (gone.contains(t) <==> !(next@.contains(t as usize)
                        || exists|q: int| p + 1 <= q < remaining@.len() && remaining@[q] == t)) by {
                        if t == x as int {
                            if next@.contains(t as usize) {
                                let q = choose|q: int| 0 <= q < next@.len() && next@[q] == t as usize;
                                let w = choose|w: int| 0 <= w < p && remaining@[w] == #[trigger] next@[q];
                                assert(remaining@[w] == remaining@[p as int]);
                            }
                            if exists|q: int| p + 1 <= q < remaining@.len() && remaining@[q] == t {
                                let q = choose|q: int| p + 1 <= q < remaining@.len() && remaining@[q] == t;
                                assert(remaining@[q] == remaining@[p as int]);
                            }
                        } else {
                            if exists|q: int| p <= q < remaining@.len() && remaining@[q] == t {
                                let q = choose|q: int| p <= q < remaining@.len() && remaining@[q] == t;
                                assert(q != p);
                            }
                        }
                    }
                }
            } else {
                proof {
                    if next@.contains(x) {
                        let q = choose|q: int| 0 <= q < next@.len() && next@[q] == x;
                        let w = choose|w: int| 0 <= w < p && remaining@[w] == #[trigger] next@[q];
                        assert(remaining@[w] == remaining@[p as int]);
                    }
                }
                let ghost old_next = next@;
                next.push(x);
                proof {
                    assert forall|q: int| 0 <= q < next@.len() implies exists|w: int| 0 <= w < p + 1 && remaining@[w] == #[trigger] next@[q] by {
                        if q < old_next.len() {
                            assert(next@[q] == old_next[q]);
                            let w = choose|w: int| 0 <= w < p && remaining@[w] == #[trigger] old_next[q];
                        } else {
                            assert(remaining@[p as int] == next@[q]);
                        }
                    }
                    assert forall|t: int| 0 <= t < n implies (gone.contains(t) <==> !(next@.contains(t as usize)
                        || exists|q: int| p + 1 <= q < remaining@.len() && remaining@[q] == t)) by {
                        if t == x as int {
                            assert(next@[old_next.len() as int] == x);
                        } else {
                            if old_next.contains(t as usize) {
                                let q = choose|q: int| 0 <= q < old_next.len() && old_next[q] == t as usize;
                                assert(next@[q] == old_next[q]);
                            }
                            if next@.contains(t as usize) {
                                let q = choose|q: int| 0 <= q < next@.len() && next@[q] == t as usize;
                                if q < old_next.len() {
                                    assert(old_next[q] == next@[q]);
                                }
                            }
                            if exists|q: int| p <= q < remaining@.len() && remaining@[q] == t {
                                let q = choose|q: int| p <= q < remaining@.len() && remaining@[q] == t;
                                assert(q != p);
                            }
                        }
                    }
                    if removed == 0 {
                        assert forall|q: int| 0 <= q < next@.len() implies !ready_with(steps@, resolved@, #[trigger] next@[q] as int) by {
                            if q < old_next.len() {
                                assert(next@[q] == old_next[q]);
                            }
                        }
                    }
                }
            }
            p = p + 1;
        }
        if next.len() == before {
            proof {
                let group = Set::new(|t: int| 0 <= t < n && !gone.contains(t));
                assert(next@.len() > 0);
                assert(group.contains(next@[0] as int));
                assert forall|s: int| #[trigger] group.contains(s) implies 0 <= s < steps@.len() && waits(steps@, group, s) by {
                    assert(next@.contains(s as usize));
                    let q = choose|q: int| 0 <= q < next@.len() && next@[q] == s as usize;
                    assert(!ready_with(steps@, resolved@, next@[q] as int));
                    let k = choose|k: int| 0 <= k < steps@[s].after_step_ids@.len()
                        && !in_texts(resolved@, (#[trigger] steps@[s].after_step_ids@[k])@);
                    let d = steps@[s].after_step_ids@[k]@;
                    if provided_outside(steps@, group, d) {
                        let t = choose|t: int| 0 <= t < steps@.len() && !group.contains(t) && (#[trigger] steps@[t]).step_id@ == d;
                        assert(id_of_gone(steps@, gone, d));
                    }
                }
                assert(stuck_group(steps@, group));
            }
            return false;
        }
        proof {
            assert forall|t: int| 0 <= t < n implies (gone.contains(t) <==> !next@.contains(t as usize)) by {}
        }
        remaining = next;
    }
    proof {
        assert forall|g: Set<int>| !stuck_group(steps@, g) by {
            if stuck_group(steps@, g) {
                let s = choose|s: int| g.contains(s);
                assert(0 <= s < n);
                assert(!gone.contains(s));
                assert(remaining@.contains(s as usize));
            }
        }
    }
    true
}

// ---------------------------------------------------------------------------
// The published vocabulary, state machines and diagnostics.

/// The published authored-program vocabulary: its version, its budgets, and
/// the semantic ids of its verbs and of its state predicate.
#[derive(Debug, Clone, PartialEq, Eq)]
pub struct AuthoredVocabulary {
    pub version: u32,
    pub max_machines: u64,
    pub max_behaviors: u64,
    pub max_states_per_machine: u64,
    pub max_transitions_per_machine: u64,
    pub max_steps_per_behavior: u64,
    pub max_operations_per_step: u64,
    pub max_arguments: u64,
    pub max_delay_ticks: u64,
    pub verb_transition_state: String,
    pub verb_set_relative_translation: String,
    pub verb_set_capability_active: String,
    pub predicate_state_is: String,
}

/// A transition of a state machine.
#[derive(Debug, Clone, PartialEq, Eq)]
pub struct AuthoredTransition {
    pub transition_id: String,
    pub from_state_id: String,
    pub to_state_id: String,
}

/// An authored state machine on a scene instance.
#[derive(Debug, Clone, PartialEq, Eq)]
pub struct AuthoredStateMachine {
    pub machine_id: String,
    pub target_scene_instance_id: String,
    pub state_ids: Vec<String>,
    pub initial_state_id: String,
    pub transitions: Vec<AuthoredTransition>,
}

/// A condition of a behavior: a versioned predicate and its arguments.
#[derive(Debug, Clone, PartialEq, Eq)]
pub struct AuthoredCondition {
    pub predicate_id: String,
    pub predicate_version: u32,
    pub arguments: Vec<AuthoredArgument>,
}

/// The transition sequence of a behavior and its conditions.
#[derive(Debug, Clone, PartialEq, Eq)]
pub struct AuthoredSequence {
    pub steps: Vec<AuthoredStep>,
    pub conditions: Vec<AuthoredCondition>,
}

/// The project-content diagnostic codes that behavior checks raise.
#[derive(Debug, Clone, Copy, PartialEq, Eq, Structural)]
pub enum BehaviorDiagnosticCode {
    InvalidField,
    InvalidDocument,
    UnknownReference,
}

/// One problem of an authored state machine (by its index) or of the
/// sequence of a behavior (steps, operations and conditions by index).
#[derive(Debug, Clone, Copy, PartialEq, Eq, Structural)]
pub enum BehaviorDiagnostic {
    MachineTargetNotInEntryScene { machine: usize },
    MachineBudget { machine: usize },
    InvalidStateId { machine: usize, state: usize },
    DuplicateStateId { machine: usize, state: usize },
    UnknownInitialState { machine: usize },
    InvalidTransitionId { machine: usize, transition: usize },
    InvalidTransition { machine: usize, transition: usize },
    UnresolvedTransition { machine: usize, transition: usize },
    StepBudget,
    InvalidStepId { step: usize },
    DuplicateStepId { step: usize },
    InvalidStepShape { step: usize },
    DelayedRootStep { step: usize },
    InvalidOperationShape { step: usize, operation: usize },
    UnpublishedOperation { step: usize, operation: usize },
    StepDependencyCycle,
    InvalidCondition { condition: usize },
    NoImmediateRootStep,
}

pub open spec fn behavior_code(d: BehaviorDiagnostic) -> BehaviorDiagnosticCode {
    match d {
        BehaviorDiagnostic::MachineTargetNotInEntryScene { .. } => BehaviorDiagnosticCode::UnknownReference,
        BehaviorDiagnostic::UnknownInitialState { .. } => BehaviorDiagnosticCode::UnknownReference,
        BehaviorDiagnostic::UnresolvedTransition { .. } => BehaviorDiagnosticCode::UnknownReference,
        BehaviorDiagnostic::UnpublishedOperation { .. } => BehaviorDiagnosticCode::UnknownReference,
        BehaviorDiagnostic::InvalidCondition { .. } => BehaviorDiagnosticCode::UnknownReference,
        BehaviorDiagnostic::InvalidStateId { .. } => BehaviorDiagnosticCode::InvalidField,
        BehaviorDiagnostic::InvalidTransitionId { .. } => BehaviorDiagnosticCode::InvalidField,
        BehaviorDiagnostic::InvalidStepId { .. } => BehaviorDiagnosticCode::InvalidField,
        BehaviorDiagnostic::InvalidOperationShape { .. } => BehaviorDiagnosticCode::InvalidField,
        _ => BehaviorDiagnosticCode::InvalidDocument,
    }
}

impl BehaviorDiagnostic {
    /// The project-content diagnostic code of this problem.
    pub fn code(self) -> (r: BehaviorDiagnosticCode)
        ensures
            r == behavior_code(self),
    {
        match self {
            BehaviorDiagnostic::MachineTargetNotInEntryScene { .. } => BehaviorDiagnosticCode::UnknownReference,
            BehaviorDiagnostic::UnknownInitialState { .. } => BehaviorDiagnosticCode::UnknownReference,
            BehaviorDiagnostic::UnresolvedTransition { .. } => BehaviorDiagnosticCode::UnknownReference,
            BehaviorDiagnostic::UnpublishedOperation { .. } => BehaviorDiagnosticCode::UnknownReference,
            BehaviorDiagnostic::InvalidCondition { .. } => BehaviorDiagnosticCode::UnknownReference,
            BehaviorDiagnostic::InvalidStateId { .. } => BehaviorDiagnosticCode::InvalidField,
            BehaviorDiagnostic::InvalidTransitionId { .. } => BehaviorDiagnosticCode::InvalidField,
            BehaviorDiagnostic::InvalidStepId { .. } => BehaviorDiagnosticCode::InvalidField,
            BehaviorDiagnostic::InvalidOperationShape { .. } => BehaviorDiagnosticCode::InvalidField,
            _ => BehaviorDiagnosticCode::InvalidDocument,
        }
    }
}

pub open spec fn flag(b: bool, d: BehaviorDiagnostic) -> Seq<BehaviorDiagnostic> {
    if b {
        seq![d]
    } else {
        Seq::empty()
    }
}

fn push_if(out: &mut Vec<BehaviorDiagnostic>, cond: bool, d: BehaviorDiagnostic)
    ensures
        final(out)@ == old(out)@ + flag(cond, d),
{
    if cond {
        out.push(d);
    }
    assert(out@ =~= old(out)@ + flag(cond, d));
}

/// An authored id: 1 to 96 ASCII letters, digits, `.`, `-` or `_`.
pub open spec fn authored_id_ok(s: String) -> bool {
    is_authored_id_bytes(utf8(s))
}

/// A text earlier than position `k` of `s` equals `s[k]`.
pub open spec fn text_seen_before(s: Seq<String>, k: int) -> bool {
    exists|t: int| 0 <= t < k && (#[trigger] s[t])@ == s[k]@
}

fn text_seen_before_exec(s: &Vec<String>, k: usize) -> (r: bool)
    requires
        k < s@.len(),
    ensures
        r == text_seen_before(s@, k as int),
{
    let mut t: usize = 0;
    while t < k
        invariant
            k < s@.len(),
            t <= k,
            forall|a: int| 0 <= a < t ==> (#[trigger] s@[a])@ != s@[k as int]@,
        decreases k - t,
    {
        if s[t] == s[k] {
            assert(s@[t as int]@ == s@[k as int]@);
            return true;
        }
        t = t + 1;
    }
    false
}

pub open spec fn transition_seen_before(ts: Seq<AuthoredTransition>, k: int) -> bool {
    exists|t: int| 0 <= t < k && (#[trigger] ts[t]).transition_id@ == ts[k].transition_id@
}

/// The problems of state machine `mi`, in check order: its target, its
/// budget, each state id, its initial state, then each transition.
pub open spec fn machine_diagnostics(m: AuthoredStateMachine, mi: int, v: AuthoredVocabulary, entry_entities: Seq<String>) -> Seq<BehaviorDiagnostic> {
    let x = mi as usize;
    flag(!in_texts(entry_entities, m.target_scene_instance_id@), BehaviorDiagnostic::MachineTargetNotInEntryScene { machine: x })
        + flag(
        m.state_ids@.len() == 0 || m.state_ids@.len() > v.max_states_per_machine || m.transitions@.len() == 0
            || m.transitions@.len() > v.max_transitions_per_machine,
        BehaviorDiagnostic::MachineBudget { machine: x },
    )
        + states_upto(m, mi, m.state_ids@.len() as int)
        + flag(!in_texts(m.state_ids@, m.initial_state_id@), BehaviorDiagnostic::UnknownInitialState { machine: x })
        + transitions_upto(m, mi, m.transitions@.len() as int)
}

pub open spec fn states_upto(m: AuthoredStateMachine, mi: int, n: int) -> Seq<BehaviorDiagnostic>
    decreases n,
{
    if n <= 0 {
        Seq::empty()
    } else {
        let k = n - 1;
        states_upto(m, mi, k) + flag(!authored_id_ok(m.state_ids@[k]), BehaviorDiagnostic::InvalidStateId { machine: mi as usize, state: k as usize })
            + flag(text_seen_before(m.state_ids@, k), BehaviorDiagnostic::DuplicateStateId { machine: mi as usize, state: k as usize })
    }
}

pub open spec fn transitions_upto(m: AuthoredStateMachine, mi: int, n: int) -> Seq<BehaviorDiagnostic>
    decreases n,
{
    if n <= 0 {
        Seq::empty()
    } else {
        let k = n - 1;
        let t = m.transitions@[k];
        let (x, y) = (mi as usize, k as usize);
        transitions_upto(m, mi, k)
            + flag(!authored_id_ok(t.transition_id), BehaviorDiagnostic::InvalidTransitionId { machine: x, transition: y })
            + flag(
            transition_seen_before(m.transitions@, k) || t.from_state_id@ == t.to_state_id@,
            BehaviorDiagnostic::InvalidTransition { machine: x, transition: y },
        )
            + flag(
            !in_texts(m.state_ids@, t.from_state_id@) || !in_texts(m.state_ids@, t.to_state_id@),
            BehaviorDiagnostic::UnresolvedTransition { machine: x, transition: y },
        )
    }
}

fn transition_seen_before_exec(ts: &Vec<AuthoredTransition>, k: usize) -> (r: bool)
    requires
        k < ts@.len(),
    ensures
        r == transition_seen_before(ts@, k as int),
{
    let mut t: usize = 0;
    while t < k
        invariant
            k < ts@.len(),
            t <= k,
            forall|a: int| 0 <= a < t ==> (#[trigger] ts@[a]).transition_id@ != ts@[k as int].transition_id@,
        decreases k - t,
    {
        if ts[t].transition_id == ts[k].transition_id {
            assert(ts@[t as int].transition_id@ == ts@[k as int].transition_id@);
            return true;
        }
        t = t + 1;
    }
    false
}

/// Validate state machine `mi` of a package against the vocabulary's
/// budgets and the scene instances that are entity-definition instances of
/// the entry scene.
pub fn validate_authored_machine(
    m: &AuthoredStateMachine,
    mi: usize,
    v: &AuthoredVocabulary,
    entry_entities: &Vec<String>,
) -> (out: Vec<BehaviorDiagnostic>)
    ensures
        out@ == machine_diagnostics(*m, mi as int, *v, entry_entities@),
{
    let mut out: Vec<BehaviorDiagnostic> = Vec::new();
    push_if(
        &mut out,
        !texts_contain(entry_entities, &m.target_scene_instance_id),
        BehaviorDiagnostic::MachineTargetNotInEntryScene { machine: mi },
    );
    let states = m.state_ids.len() as u64;
    let transitions = m.transitions.len() as u64;
    push_if(
        &mut out,
        states == 0 || states > v.max_states_per_machine || transitions == 0 || transitions > v.max_transitions_per_machine,
        BehaviorDiagnostic::MachineBudget { machine: mi },
    );
    let ghost head = out@;
    let mut k: usize = 0;
    while k < m.state_ids.len()
        invariant
            k <= m.state_ids@.len(),
            out@ == head + states_upto(*m, mi as int, k as int),
        decreases m.state_ids@.len() - k,
    {
        let ghost before = out@;
        push_if(&mut out, !is_authored_id(m.state_ids[k].as_str()), BehaviorDiagnostic::InvalidStateId { machine: mi, state: k });
        push_if(&mut out, text_seen_before_exec(&m.state_ids, k), BehaviorDiagnostic::DuplicateStateId { machine: mi, state: k });
        assert(out@ =~= head + states_upto(*m, mi as int, k + 1));
        k = k + 1;
    }
    push_if(
        &mut out,
        !texts_contain(&m.state_ids, &m.initial_state_id),
        BehaviorDiagnostic::UnknownInitialState { machine: mi },
    );
    let ghost mid = out@;
    let mut k: usize = 0;
    while k < m.transitions.len()
        invariant
            k <= m.transitions@.len(),
            out@ == mid + transitions_upto(*m, mi as int, k as int),
        decreases m.transitions@.len() - k,
    {
        let t = &m.transitions[k];
        push_if(&mut out, !is_authored_id(t.transition_id.as_str()), BehaviorDiagnostic::InvalidTransitionId { machine: mi, transition: k });
        push_if(
            &mut out,
            transition_seen_before_exec(&m.transitions, k) || t.from_state_id == t.to_state_id,
            BehaviorDiagnostic::InvalidTransition { machine: mi, transition: k },
        );
        push_if(
            &mut out,
            !texts_contain(&m.state_ids, &t.from_state_id) || !texts_contain(&m.state_ids, &t.to_state_id),
            BehaviorDiagnostic::UnresolvedTransition { machine: mi, transition: k },
        );
        assert(out@ =~= mid + transitions_upto(*m, mi as int, k + 1));
        k = k + 1;
    }
    assert(out@ =~= machine_diagnostics(*m, mi as int, *v, entry_entities@));
    out
}

// ---------------------------------------------------------------------------
// Arguments, operations and the transition sequence.

/// No two arguments share a name.
pub open spec fn args_unique(args: Seq<AuthoredArgument>) -> bool {
    forall|i: int, j: int| 0 <= i < j < args.len() ==> (#[trigger] args[i]).name@ != (#[trigger] args[j]).name@
}

/// `p` is the first argument named `name`.
pub open spec fn is_first_named(args: Seq<AuthoredArgument>, name: Seq<char>, p: int) -> bool {
    &&& 0 <= p < args.len()
    &&& args[p].name@ == name
    &&& forall|t: int| 0 <= t < p ==> (#[trigger] args[t]).name@ != name
}

/// The value of the first argument named `name`, if any.
pub open spec fn argument_named(args: Seq<AuthoredArgument>, name: Seq<char>) -> Option<AuthoredValue> {
    if exists|p: int| 0 <= p < args.len() && (#[trigger] args[p]).name@ == name {
        Some(args[choose|p: int| is_first_named(args, name, p)].value)
    } else {
        None
    }
}

/// `v` is the last machine with id `id`.
pub open spec fn is_last_machine(ms: Seq<AuthoredStateMachine>, id: Seq<char>, v: int) -> bool {
    &&& 0 <= v < ms.len()
    &&& ms[v].machine_id@ == id
    &&& forall|t: int| v < t < ms.len() ==> (#[trigger] ms[t]).machine_id@ != id
}

pub open spec fn has_machine(ms: Seq<AuthoredStateMachine>, id: Seq<char>) -> bool {
    exists|v: int| 0 <= v < ms.len() && (#[trigger] ms[v]).machine_id@ == id
}

/// The machine an id names: the last declared with it.
pub open spec fn named_machine(ms: Seq<AuthoredStateMachine>, id: Seq<char>) -> AuthoredStateMachine {
    ms[choose|v: int| is_last_machine(ms, id, v)]
}

pub open spec fn machine_has_transition(m: AuthoredStateMachine, id: Seq<char>) -> bool {
    exists|t: int| 0 <= t < m.transitions@.len() && (#[trigger] m.transitions@[t]).transition_id@ == id
}

/// Machine `machine_id` exists and has the state `state_id`.
pub open spec fn state_exists(ms: Seq<AuthoredStateMachine>, machine_id: Seq<char>, state_id: Seq<char>) -> bool {
    has_machine(ms, machine_id) && in_texts(named_machine(ms, machine_id).state_ids@, state_id)
}

/// The value is an entity-definition instance of the entry scene.
pub open spec fn entry_entity_value(a: Option<AuthoredValue>, entry_entities: Seq<String>) -> bool {
    match a {
        Some(AuthoredValue::SceneEntity { scene_instance_id }) => in_texts(entry_entities, scene_instance_id@),
        _ => false,
    }
}

/// The operation's verb is published and its typed arguments resolve.
pub open spec fn operation_valid(
    op: AuthoredOperation,
    v: AuthoredVocabulary,
    ms: Seq<AuthoredStateMachine>,
    entry_entities: Seq<String>,
) -> bool {
    let args = op.arguments@;
    if op.verb_id@ == v.verb_transition_state@ {
        &&& args.len() == 2
        &&& match argument_named(args, "machine"@) {
            Some(AuthoredValue::StateMachine { machine_id }) => {
                &&& has_machine(ms, machine_id@)
                &&& match argument_named(args, "transition"@) {
                    Some(AuthoredValue::Text { value }) => machine_has_transition(named_machine(ms, machine_id@), value@),
                    _ => false,
                }
            },
            _ => false,
        }
    } else if op.verb_id@ == v.verb_set_relative_translation@ {
        &&& args.len() == 2
        &&& entry_entity_value(argument_named(args, "entity"@), entry_entities)
        &&& argument_named(args, "value"@) == Some(AuthoredValue::Vector3 { finite: true })
    } else if op.verb_id@ == v.verb_set_capability_active@ {
        &&& args.len() == 3
        &&& entry_entity_value(argument_named(args, "entity"@), entry_entities)
        &&& match argument_named(args, "capability"@) {
            Some(AuthoredValue::Text { value }) => value@ == "collision"@,
            _ => false,
        }
        &&& match argument_named(args, "active"@) {
            Some(AuthoredValue::Boolean { .. }) => true,
            _ => false,
        }
    } else {
        false
    }
}

/// The problem of operation `o` of step `k`: an unsupported version or
/// unbounded or repeated arguments; otherwise a verb or arguments that the
/// catalog does not publish.
pub open spec fn operation_diagnostics(
    op: AuthoredOperation,
    k: int,
    o: int,
    v: AuthoredVocabulary,
    ms: Seq<AuthoredStateMachine>,
    entry_entities: Seq<String>,
) -> Seq<BehaviorDiagnostic> {
    if op.verb_version != v.version || op.arguments@.len() > v.max_arguments || !args_unique(op.arguments@) {
        seq![BehaviorDiagnostic::InvalidOperationShape { step: k as usize, operation: o as usize }]
    } else {
        flag(!operation_valid(op, v, ms, entry_entities), BehaviorDiagnostic::UnpublishedOperation { step: k as usize, operation: o as usize })
    }
}

fn args_unique_exec(args: &Vec<AuthoredArgument>) -> (r: bool)
    ensures
        r == args_unique(args@),
{
    let mut j: usize = 0;
    while j < args.len()
        invariant
            j <= args@.len(),
            forall|a: int, b: int| 0 <= a < b < j ==> (#[trigger] args@[a]).name@ != (#[trigger] args@[b]).name@,
        decreases args@.len() - j,
    {
        let mut i: usize = 0;
        while i < j
            invariant
                i <= j < args@.len(),
                forall|a: int, b: int| 0 <= a < b < j ==> (#[trigger] args@[a]).name@ != (#[trigger] args@[b]).name@,
                forall|a: int| 0 <= a < i ==> (#[trigger] args@[a]).name@ != args@[j as int].name@,
            decreases j - i,
        {
            if args[i].name == args[j].name {
                assert(args@[i as int].name@ == args@[j as int].name@);
                return false;
            }
            i = i + 1;
        }
        j = j + 1;
    }
    true
}

fn find_argument<'a>(args: &'a Vec<AuthoredArgument>, name: &str) -> (r: Option<&'a AuthoredValue>)
    ensures
        r is None <==> argument_named(args@, name@) is None,
        r matches Some(value) ==> argument_named(args@, name@) == Some(*value),
{
    let key = name.to_owned();
    let mut p: usize = 0;
    while p < args.len()
        invariant
            key@ == name@,
            p <= args@.len(),
            forall|t: int| 0 <= t < p ==> (#[trigger] args@[t]).name@ != name@,
        decreases args@.len() - p,
    {
        if args[p].name == key {
            proof {
                let c = choose|q: int| is_first_named(args@, name@, q);
                assert(is_first_named(args@, name@, p as int));
                assert(is_first_named(args@, name@, c));
                if c < p {
                    assert(args@[c].name@ != name@);
                }
                if p < c {
                    assert(args@[p as int].name@ != name@);
                }
            }
            return Some(&args[p].value);
        }
        p = p + 1;
    }
    None
}

fn find_last_machine(ms: &[AuthoredStateMachine], id: &String) -> (r: Option<usize>)
    ensures
        r is None <==> !has_machine(ms@, id@),
        r matches Some(v) ==> is_last_machine(ms@, id@, v as int) && named_machine(ms@, id@) == ms@[v as int],
{
    let mut found: Option<usize> = None;
    let mut v: usize = 0;
    while v < ms.len()
        invariant
            v <= ms@.len(),
            found is None ==> forall|t: int| 0 <= t < v ==> (#[trigger] ms@[t]).machine_id@ != id@,
            found matches Some(w) ==> w < v && ms@[w as int].machine_id@ == id@
                && forall|t: int| w < t < v ==> (#[trigger] ms@[t]).machine_id@ != id@,
        decreases ms@.len() - v,
    {
        if ms[v].machine_id == *id {
            found = Some(v);
        }
        v = v + 1;
    }
    proof {
        if let Some(w) = found {
            let c = choose|u: int| is_last_machine(ms@, id@, u);
            assert(is_last_machine(ms@, id@, w as int));
            assert(is_last_machine(ms@, id@, c));
            if c < w {
                assert(ms@[w as int].machine_id@ == id@);
            }
            if w < c {
                assert(ms@[c].machine_id@ == id@);
            }
        }
    }
    found
}

fn machine_has_transition_exec(m: &AuthoredStateMachine, id: &String) -> (r: bool)
    ensures
        r == machine_has_transition(*m, id@),
{
    let mut t: usize = 0;
    while t < m.transitions.len()
        invariant
            t <= m.transitions@.len(),
            forall|a: int| 0 <= a < t ==> (#[trigger] m.transitions@[a]).transition_id@ != id@,
        decreases m.transitions@.len() - t,
    {
        if m.transitions[t].transition_id == *id {
            assert(m.transitions@[t as int].transition_id@ == id@);
            return true;
        }
        t = t + 1;
    }
    false
}

fn entry_entity_exec(a: Option<&AuthoredValue>, entry_entities: &Vec<String>) -> (r: bool)
    ensures
        r == entry_entity_value(
            match a {
                Some(x) => Some(*x),
                None => None,
            },
            entry_entities@,
        ),
{
    match a {
        Some(AuthoredValue::SceneEntity { scene_instance_id }) => texts_contain(entry_entities, scene_instance_id),
        _ => false,
    }
}

fn operation_valid_exec(
    op: &AuthoredOperation,
    v: &AuthoredVocabulary,
    ms: &[AuthoredStateMachine],
    entry_entities: &Vec<String>,
) -> (r: bool)
    ensures
        r == operation_valid(*op, *v, ms@, entry_entities@),
{
    let args = &op.arguments;
    if op.verb_id == v.verb_transition_state {
        if args.len() != 2 {
            return false;
        }
        match find_argument(args, "machine") {
            Some(AuthoredValue::StateMachine { machine_id }) => {
                match find_last_machine(ms, machine_id) {
                    None => false,
                    Some(w) => match find_argument(args, "transition") {
                        Some(AuthoredValue::Text { value }) => machine_has_transition_exec(&ms[w], value),
                        _ => false,
                    },
                }
            },
            _ => false,
        }
    } else if op.verb_id == v.verb_set_relative_translation {
        if args.len() != 2 {
            return false;
        }
        let entity = find_argument(args, "entity");
        if !entry_entity_exec(entity, entry_entities) {
            return false;
        }
        match find_argument(args, "value") {
            Some(AuthoredValue::Vector3 { finite }) => *finite,
            _ => false,
        }
    } else if op.verb_id == v.verb_set_capability_active {
        if args.len() != 3 {
            return false;
        }
        let entity = find_argument(args, "entity");
        if !entry_entity_exec(entity, entry_entities) {
            return false;
        }
        let collision = "collision".to_owned();
        let capability_ok = match find_argument(args, "capability") {
            Some(AuthoredValue::Text { value }) => *value == collision,
            _ => false,
        };
        let active_ok = match find_argument(args, "active") {
            Some(AuthoredValue::Boolean { .. }) => true,
            _ => false,
        };
        capability_ok && active_ok
    } else {
        false
    }
}

fn operation_diagnostics_exec(
    op: &AuthoredOperation,
    k: usize,
    o: usize,
    v: &AuthoredVocabulary,
    ms: &[AuthoredStateMachine],
    entry_entities: &Vec<String>,
    out: &mut Vec<BehaviorDiagnostic>,
)
    ensures
        final(out)@ == old(out)@ + operation_diagnostics(*op, k as int, o as int, *v, ms@, entry_entities@),
{
    let count = op.arguments.len() as u64;
    if op.verb_version != v.version || count > v.max_arguments || !args_unique_exec(&op.arguments) {
        out.push(BehaviorDiagnostic::InvalidOperationShape { step: k, operation: o });
    } else {
        push_if(out, !operation_valid_exec(op, v, ms, entry_entities), BehaviorDiagnostic::UnpublishedOperation { step: k, operation: o });
    }
}

pub open spec fn step_seen_before(steps: Seq<AuthoredStep>, k: int) -> bool {
    exists|t: int| 0 <= t < k && (#[trigger] steps[t]).step_id@ == steps[k].step_id@
}

pub open spec fn operations_upto(
    step: AuthoredStep,
    k: int,
    v: AuthoredVocabulary,
    ms: Seq<AuthoredStateMachine>,
    entry_entities: Seq<String>,
    n: int,
) -> Seq<BehaviorDiagnostic>
    decreases n,
{
    if n <= 0 {
        Seq::empty()
    } else {
        operations_upto(step, k, v, ms, entry_entities, n - 1)
            + operation_diagnostics(step.operations@[n - 1], k, n - 1, v, ms, entry_entities)
    }
}

/// The problems of step `k`, in check order: its id, a repeated id, its
/// shape (at most one predecessor, a bounded delay, a bounded nonempty list
/// of operations), a delayed root, then its operations.
pub open spec fn step_diagnostics(
    steps: Seq<AuthoredStep>,
    k: int,
    v: AuthoredVocabulary,
    ms: Seq<AuthoredStateMachine>,
    entry_entities: Seq<String>,
) -> Seq<BehaviorDiagnostic> {
    let step = steps[k];
    let x = k as usize;
    flag(!authored_id_ok(step.step_id), BehaviorDiagnostic::InvalidStepId { step: x })
        + flag(step_seen_before(steps, k), BehaviorDiagnostic::DuplicateStepId { step: x })
        + flag(
        step.after_step_ids@.len() > 1 || step.delay_ticks > v.max_delay_ticks || step.operations@.len() == 0
            || step.operations@.len() > v.max_operations_per_step,
        BehaviorDiagnostic::InvalidStepShape { step: x },
    )
        + flag(step.after_step_ids@.len() == 0 && step.delay_ticks != 0, BehaviorDiagnostic::DelayedRootStep { step: x })
        + operations_upto(step, k, v, ms, entry_entities, step.operations@.len() as int)
}

pub open spec fn steps_upto(
    steps: Seq<AuthoredStep>,
    v: AuthoredVocabulary,
    ms: Seq<AuthoredStateMachine>,
    entry_entities: Seq<String>,
    n: int,
) -> Seq<BehaviorDiagnostic>
    decreases n,
{
    if n <= 0 {
        Seq::empty()
    } else {
        steps_upto(steps, v, ms, entry_entities, n - 1) + step_diagnostics(steps, n - 1, v, ms, entry_entities)
    }
}

/// The condition uses the published state predicate with one argument
/// `state` naming a state of a machine of the package.
pub open spec fn condition_valid(c: AuthoredCondition, v: AuthoredVocabulary, ms: Seq<AuthoredStateMachine>) -> bool {
    &&& c.predicate_version == v.version
    &&& c.predicate_id@ == v.predicate_state_is@
    &&& c.arguments@.len() == 1
    &&& args_unique(c.arguments@)
    &&& match argument_named(c.arguments@, "state"@) {
        Some(AuthoredValue::State { machine_id, state_id }) => state_exists(ms, machine_id@, state_id@),
        _ => false,
    }
}

pub open spec fn conditions_upto(
    cs: Seq<AuthoredCondition>,
    v: AuthoredVocabulary,
    ms: Seq<AuthoredStateMachine>,
    n: int,
) -> Seq<BehaviorDiagnostic>
    decreases n,
{
    if n <= 0 {
        Seq::empty()
    } else {
        conditions_upto(cs, v, ms, n - 1) + flag(!condition_valid(cs[n - 1], v, ms), BehaviorDiagnostic::InvalidCondition { condition: (n - 1) as usize })
    }
}

/// Some step runs at once: no predecessor and no delay.
pub open spec fn has_immediate_root(steps: Seq<AuthoredStep>) -> bool {
    exists|k: int| 0 <= k < steps.len() && (#[trigger] steps[k]).delay_ticks == 0 && steps[k].after_step_ids@.len() == 0
}

/// The problems of a behavior's transition sequence: an empty or oversized
/// sequence alone; otherwise each step, unresolvable step dependencies,
/// each condition, and the lack of an immediate root step.
pub open spec fn sequence_diagnostics(
    b: AuthoredSequence,
    v: AuthoredVocabulary,
    ms: Seq<AuthoredStateMachine>,
    entry_entities: Seq<String>,
) -> Seq<BehaviorDiagnostic> {
    let steps = b.steps@;
    if steps.len() == 0 || steps.len() > v.max_steps_per_behavior {
        seq![BehaviorDiagnostic::StepBudget]
    } else {
        steps_upto(steps, v, ms, entry_entities, steps.len() as int)
            + flag(!dependencies_resolve(steps), BehaviorDiagnostic::StepDependencyCycle)
            + conditions_upto(b.conditions@, v, ms, b.conditions@.len() as int)
            + flag(!has_immediate_root(steps), BehaviorDiagnostic::NoImmediateRootStep)
    }
}

fn step_seen_before_exec(steps: &Vec<AuthoredStep>, k: usize) -> (r: bool)
    requires
        k < steps@.len(),
    ensures
        r == step_seen_before(steps@, k as int),
{
    let mut t: usize = 0;
    while t < k
        invariant
            k < steps@.len(),
            t <= k,
            forall|a: int| 0 <= a < t ==> (#[trigger] steps@[a]).step_id@ != steps@[k as int].step_id@,
        decreases k - t,
    {
        if steps[t].step_id == steps[k].step_id {
            assert(steps@[t as int].step_id@ == steps@[k as int].step_id@);
            return true;
        }
        t = t + 1;
    }
    false
}

fn step_diagnostics_exec(
    steps: &Vec<AuthoredStep>,
    k: usize,
    v: &AuthoredVocabulary,
    ms: &[AuthoredStateMachine],
    entry_entities: &Vec<String>,
    out: &mut Vec<BehaviorDiagnostic>,
)
    requires
        k < steps@.len(),
    ensures
        final(out)@ == old(out)@ + step_diagnostics(steps@, k as int, *v, ms@, entry_entities@),
{
    let step = &steps[k];
    let ghost s0 = out@;
    push_if(out, !is_authored_id(step.step_id.as_str()), BehaviorDiagnostic::InvalidStepId { step: k });
    push_if(out, step_seen_before_exec(steps, k), BehaviorDiagnostic::DuplicateStepId { step: k });
    let ops = step.operations.len() as u64;
    push_if(
        out,
        step.after_step_ids.len() > 1 || step.delay_ticks > v.max_delay_ticks || ops == 0 || ops > v.max_operations_per_step,
        BehaviorDiagnostic::InvalidStepShape { step: k },
    );
    push_if(out, step.after_step_ids.len() == 0 && step.delay_ticks != 0, BehaviorDiagnostic::DelayedRootStep { step: k });
    let ghost head = out@;
    let mut o: usize = 0;
    while o < step.operations.len()
        invariant
            k < steps@.len(),
            step == &steps@[k as int],
            o <= step.operations@.len(),
            out@ == head + operations_upto(*step, k as int, *v, ms@, entry_entities@, o as int),
        decreases step.operations@.len() - o,
    {
        operation_diagnostics_exec(&step.operations[o], k, o, v, ms, entry_entities, out);
        assert(out@ =~= head + operations_upto(*step, k as int, *v, ms@, entry_entities@, o + 1));
        o = o + 1;
    }
    assert(out@ =~= s0 + step_diagnostics(steps@, k as int, *v, ms@, entry_entities@));
}

fn condition_valid_exec(c: &AuthoredCondition, v: &AuthoredVocabulary, ms: &[AuthoredStateMachine]) -> (r: bool)
    ensures
        r == condition_valid(*c, *v, ms@),
{
    if c.predicate_version != v.version || c.predicate_id != v.predicate_state_is || c.arguments.len() != 1
        || !args_unique_exec(&c.arguments) {
        return false;
    }
    match find_argument(&c.arguments, "state") {
        Some(AuthoredValue::State { machine_id, state_id }) => match find_last_machine(ms, machine_id) {
            None => false,
            Some(w) => texts_contain(&ms[w].state_ids, state_id),
        },
        _ => false,
    }
}

fn has_immediate_root_exec(steps: &Vec<AuthoredStep>) -> (r: bool)
    ensures
        r == has_immediate_root(steps@),
{
    let mut k: usize = 0;
    while k < steps.len()
        invariant
            k <= steps@.len(),
            forall|a: int| 0 <= a < k ==> !((#[trigger] steps@[a]).delay_ticks == 0 && steps@[a].after_step_ids@.len() == 0),
        decreases steps@.len() - k,
    {
        if steps[k].delay_ticks == 0 && steps[k].after_step_ids.len() == 0 {
            assert(steps@[k as int].delay_ticks == 0);
            return true;
        }
        k = k + 1;
    }
    false
}

/// Validate a behavior's transition sequence against the vocabulary, the
/// package's state machines and the entry scene's entity instances.
pub fn validate_authored_sequence(
    b: &AuthoredSequence,
    v: &AuthoredVocabulary,
    machines: &[AuthoredStateMachine],
    entry_entities: &Vec<String>,
) -> (out: Vec<BehaviorDiagnostic>)
    ensures
        out@ == sequence_diagnostics(*b, *v, machines@, entry_entities@),
{
    let mut out: Vec<BehaviorDiagnostic> = Vec::new();
    let steps = &b.steps;
    let count = steps.len() as u64;
    if count == 0 || count > v.max_steps_per_behavior {
        out.push(BehaviorDiagnostic::StepBudget);
        return out;
    }
    let mut k: usize = 0;
    while k < steps.len()
        invariant
            steps == &b.steps,
            k <= steps@.len(),
            out@ == steps_upto(steps@, *v, machines@, entry_entities@, k as int),
        decreases steps@.len() - k,
    {
        step_diagnostics_exec(steps, k, v, machines, entry_entities, &mut out);
        k = k + 1;
    }
    push_if(&mut out, !step_dependencies_resolve(steps.as_slice()), BehaviorDiagnostic::StepDependencyCycle);
    let ghost head = out@;
    let mut c: usize = 0;
    while c < b.conditions.len()
        invariant
            c <= b.conditions@.len(),
            out@ == head + conditions_upto(b.conditions@, *v, machines@, c as int),
        decreases b.conditions@.len() - c,
    {
        push_if(&mut out, !condition_valid_exec(&b.conditions[c], v, machines), BehaviorDiagnostic::InvalidCondition { condition: c });
        assert(out@ =~= head + conditions_upto(b.conditions@, *v, machines@, c + 1));
        c = c + 1;
    }
    push_if(&mut out, !has_immediate_root_exec(steps), BehaviorDiagnostic::NoImmediateRootStep);
    assert(out@ =~= sequence_diagnostics(*b, *v, machines@, entry_entities@));
    out
}

// ---------------------------------------------------------------------------
// Signals and packages.

/// A prefab instance of the entry scene and the part roles of its prefab.
#[derive(Debug, Clone, PartialEq, Eq)]
pub struct EntryPrefabInstance {
    pub scene_instance_id: String,
    pub roles: Vec<String>,
}

/// What the scene index knows of the entry scene: its entity-definition
/// instances and its prefab instances.
#[derive(Debug, Clone, PartialEq, Eq)]
pub struct EntrySceneFacts {
    pub entity_instances: Vec<String>,
    pub prefab_instances: Vec<EntryPrefabInstance>,
}

/// The signal that starts a behavior.
#[derive(Debug, Clone, PartialEq, Eq)]
pub struct AuthoredSignal {
    pub semantic_id: String,
    pub version: u32,
    pub arguments: Vec<AuthoredArgument>,
}

/// What the statically composed gameplay registry says of a signal: it
/// resolves to no published event, the event rejects the arguments, or
/// both are admitted.
#[derive(Debug, Clone, Copy, PartialEq, Eq, Structural)]
pub enum SignalAdmission {
    Unresolved,
    ArgumentsRejected,
    Admitted,
}

/// The provenance of a behavior package.
#[derive(Debug, Clone, PartialEq, Eq)]
pub struct AuthoredProvenance {
    pub sdk_id: String,
    pub sdk_version: u32,
    pub vocabulary_hash: String,
    pub source_module: String,
    pub source_path: String,
    pub source_hash: String,
}

/// An authored behavior: its id, its signal and the registry's admission of
/// the signal, and its transition sequence.
#[derive(Debug, Clone, PartialEq, Eq)]
pub struct AuthoredBehavior {
    pub behavior_id: String,
    pub signal: AuthoredSignal,
    pub admission: SignalAdmission,
    pub sequence: AuthoredSequence,
}

/// An authored-behavior package.
#[derive(Debug, Clone, PartialEq, Eq)]
pub struct AuthoredBehaviorPackage {
    pub schema_version: u32,
    pub package_id: String,
    pub provenance: AuthoredProvenance,
    pub state_machines: Vec<AuthoredStateMachine>,
    pub behaviors: Vec<AuthoredBehavior>,
}

/// What a package must declare to match the current vocabulary: the schema
/// version, the SDK id, the vocabulary hash, and the budgets and ids of the
/// vocabulary itself.
#[derive(Debug, Clone, PartialEq, Eq)]
pub struct AuthoredPackageRules {
    pub schema_version: u32,
    pub sdk_id: String,
    pub vocabulary_hash: String,
    pub vocabulary: AuthoredVocabulary,
}

/// One problem of a package.
#[derive(Debug, Clone, Copy, PartialEq, Eq, Structural)]
pub enum PackageDiagnostic {
    UnsupportedSchemaVersion,
    InvalidPackageId,
    DuplicatePackageId,
    InvalidProvenance,
    PackageBudget,
    InvalidMachineId { machine: usize },
    DuplicateMachineId { machine: usize },
    Machine { problem: BehaviorDiagnostic },
    InvalidBehaviorId { behavior: usize },
    DuplicateBehaviorId { behavior: usize },
    InvalidSignalShape { behavior: usize },
    UnresolvedSignal { behavior: usize },
    RejectedSignalArguments { behavior: usize },
    InvalidArgumentName { behavior: usize, argument: usize },
    InvalidArgumentValue { behavior: usize, argument: usize },
    Sequence { behavior: usize, problem: BehaviorDiagnostic },
}

pub open spec fn package_code(d: PackageDiagnostic) -> BehaviorDiagnosticCode {
    match d {
        PackageDiagnostic::UnsupportedSchemaVersion => BehaviorDiagnosticCode::InvalidField,
        PackageDiagnostic::InvalidPackageId => BehaviorDiagnosticCode::InvalidField,
        PackageDiagnostic::InvalidProvenance => BehaviorDiagnosticCode::InvalidField,
        PackageDiagnostic::InvalidMachineId { .. } => BehaviorDiagnosticCode::InvalidField,
        PackageDiagnostic::InvalidBehaviorId { .. } => BehaviorDiagnosticCode::InvalidField,
        PackageDiagnostic::InvalidSignalShape { .. } => BehaviorDiagnosticCode::InvalidField,
        PackageDiagnostic::RejectedSignalArguments { .. } => BehaviorDiagnosticCode::InvalidField,
        PackageDiagnostic::InvalidArgumentName { .. } => BehaviorDiagnosticCode::InvalidField,
        PackageDiagnostic::UnresolvedSignal { .. } => BehaviorDiagnosticCode::UnknownReference,
        PackageDiagnostic::InvalidArgumentValue { .. } => BehaviorDiagnosticCode::UnknownReference,
        PackageDiagnostic::Machine { problem } => behavior_code(problem),
        PackageDiagnostic::Sequence { problem, .. } => behavior_code(problem),
        _ => BehaviorDiagnosticCode::InvalidDocument,
    }
}

impl PackageDiagnostic {
    /// The project-content diagnostic code of this problem.
    pub fn code(self) -> (r: BehaviorDiagnosticCode)
        ensures
            r == package_code(self),
    {
        match self {
            PackageDiagnostic::UnsupportedSchemaVersion => BehaviorDiagnosticCode::InvalidField,
            PackageDiagnostic::InvalidPackageId => BehaviorDiagnosticCode::InvalidField,
            PackageDiagnostic::InvalidProvenance => BehaviorDiagnosticCode::InvalidField,
            PackageDiagnostic::InvalidMachineId { .. } => BehaviorDiagnosticCode::InvalidField,
            PackageDiagnostic::InvalidBehaviorId { .. } => BehaviorDiagnosticCode::InvalidField,
            PackageDiagnostic::InvalidSignalShape { .. } => BehaviorDiagnosticCode::InvalidField,
            PackageDiagnostic::RejectedSignalArguments { .. } => BehaviorDiagnosticCode::InvalidField,
            PackageDiagnostic::InvalidArgumentName { .. } => BehaviorDiagnosticCode::InvalidField,
            PackageDiagnostic::UnresolvedSignal { .. } => BehaviorDiagnosticCode::UnknownReference,
            PackageDiagnostic::InvalidArgumentValue { .. } => BehaviorDiagnosticCode::UnknownReference,
            PackageDiagnostic::Machine { problem } => problem.code(),
            PackageDiagnostic::Sequence { problem, .. } => problem.code(),
            _ => BehaviorDiagnosticCode::InvalidDocument,
        }
    }
}

pub open spec fn pflag(b: bool, d: PackageDiagnostic) -> Seq<PackageDiagnostic> {
    if b {
        seq![d]
    } else {
        Seq::empty()
    }
}

fn ppush_if(out: &mut Vec<PackageDiagnostic>, cond: bool, d: PackageDiagnostic)
    ensures
        final(out)@ == old(out)@ + pflag(cond, d),
{
    if cond {
        out.push(d);
    }
    assert(out@ =~= old(out)@ + pflag(cond, d));
}

/// The prefab part `role` of the entry-scene prefab instance `id`.
pub open spec fn entry_prefab_part(scene: EntrySceneFacts, id: Seq<char>, role: Seq<char>) -> bool {
    exists|p: int|
        0 <= p < scene.prefab_instances@.len() && (#[trigger] scene.prefab_instances@[p]).scene_instance_id@ == id
            && (forall|t: int| 0 <= t < p ==> (#[trigger] scene.prefab_instances@[t]).scene_instance_id@ != id)
            && in_texts(scene.prefab_instances@[p].roles@, role)
}

/// A signal argument value is a bounded text, a boolean, an integer, a
/// finite number or vector, or an entity or prefab part of the entry scene.
pub open spec fn signal_value_ok(value: AuthoredValue, scene: EntrySceneFacts) -> bool {
    match value {
        AuthoredValue::SceneEntity { scene_instance_id } => in_texts(scene.entity_instances@, scene_instance_id@),
        AuthoredValue::PrefabPart { scene_instance_id, role } => entry_prefab_part(scene, scene_instance_id@, role@),
        AuthoredValue::StateMachine { .. } => false,
        AuthoredValue::State { .. } => false,
        AuthoredValue::Text { value } => utf8(value).len() <= 1024,
        AuthoredValue::Boolean { .. } => true,
        AuthoredValue::Integer { .. } => true,
        AuthoredValue::Number { finite } => finite,
        AuthoredValue::Vector3 { finite } => finite,
    }
}

pub open spec fn signal_arguments_upto(args: Seq<AuthoredArgument>, bi: int, scene: EntrySceneFacts, n: int) -> Seq<PackageDiagnostic>
    decreases n,
{
    if n <= 0 {
        Seq::empty()
    } else {
        let k = n - 1;
        let (x, y) = (bi as usize, k as usize);
        signal_arguments_upto(args, bi, scene, k)
            + pflag(!authored_id_ok(args[k].name), PackageDiagnostic::InvalidArgumentName { behavior: x, argument: y })
            + pflag(!signal_value_ok(args[k].value, scene), PackageDiagnostic::InvalidArgumentValue { behavior: x, argument: y })
    }
}

/// The problems of the signal of behavior `bi`: unbounded or repeated
/// arguments alone; otherwise a signal the registry does not resolve, or
/// whose arguments it rejects, alone; otherwise each argument's name and
/// value.
pub open spec fn signal_diagnostics(b: AuthoredBehavior, bi: int, v: AuthoredVocabulary, scene: EntrySceneFacts) -> Seq<PackageDiagnostic> {
    let args = b.signal.arguments@;
    let x = bi as usize;
    if args.len() > v.max_arguments || !args_unique(args) {
        seq![PackageDiagnostic::InvalidSignalShape { behavior: x }]
    } else if b.admission == SignalAdmission::Unresolved {
        seq![PackageDiagnostic::UnresolvedSignal { behavior: x }]
    } else if b.admission == SignalAdmission::ArgumentsRejected {
        seq![PackageDiagnostic::RejectedSignalArguments { behavior: x }]
    } else {
        signal_arguments_upto(args, bi, scene, args.len() as int)
    }
}

pub open spec fn as_machine_problems(ds: Seq<BehaviorDiagnostic>) -> Seq<PackageDiagnostic> {
    ds.map_values(|d: BehaviorDiagnostic| PackageDiagnostic::Machine { problem: d })
}

pub open spec fn as_sequence_problems(ds: Seq<BehaviorDiagnostic>, bi: int) -> Seq<PackageDiagnostic> {
    ds.map_values(|d: BehaviorDiagnostic| PackageDiagnostic::Sequence { behavior: bi as usize, problem: d })
}

pub open spec fn machine_seen_before(ms: Seq<AuthoredStateMachine>, k: int) -> bool {
    exists|t: int| 0 <= t < k && (#[trigger] ms[t]).machine_id@ == ms[k].machine_id@
}

pub open spec fn behavior_seen_before(bs: Seq<AuthoredBehavior>, k: int) -> bool {
    exists|t: int| 0 <= t < k && (#[trigger] bs[t]).behavior_id@ == bs[k].behavior_id@
}

pub open spec fn machines_upto(pk: AuthoredBehaviorPackage, v: AuthoredVocabulary, scene: EntrySceneFacts, n: int) -> Seq<PackageDiagnostic>
    decreases n,
{
    if n <= 0 {
        Seq::empty()
    } else {
        let k = n - 1;
        let ms = pk.state_machines@;
        machines_upto(pk, v, scene, k)
            + pflag(!authored_id_ok(ms[k].machine_id), PackageDiagnostic::InvalidMachineId { machine: k as usize })
            + pflag(machine_seen_before(ms, k), PackageDiagnostic::DuplicateMachineId { machine: k as usize })
            + as_machine_problems(machine_diagnostics(ms[k], k, v, scene.entity_instances@))
    }
}

pub open spec fn behaviors_upto(pk: AuthoredBehaviorPackage, v: AuthoredVocabulary, scene: EntrySceneFacts, n: int) -> Seq<PackageDiagnostic>
    decreases n,
{
    if n <= 0 {
        Seq::empty()
    } else {
        let k = n - 1;
        let bs = pk.behaviors@;
        behaviors_upto(pk, v, scene, k)
            + pflag(!authored_id_ok(bs[k].behavior_id), PackageDiagnostic::InvalidBehaviorId { behavior: k as usize })
            + pflag(behavior_seen_before(bs, k), PackageDiagnostic::DuplicateBehaviorId { behavior: k as usize })
            + signal_diagnostics(bs[k], k, v, scene)
            + as_sequence_problems(sequence_diagnostics(bs[k].sequence, v, pk.state_machines@, scene.entity_instances@), k)
    }
}

/// The package's provenance names the current SDK, vocabulary version and
/// hash, a stable source module and path, and a nonblank source hash.
pub open spec fn provenance_ok(p: AuthoredProvenance, rules: AuthoredPackageRules) -> bool {
    &&& p.sdk_id@ == rules.sdk_id@
    &&& p.sdk_version == rules.vocabulary.version
    &&& p.vocabulary_hash@ == rules.vocabulary_hash@
    &&& is_source_module_bytes(utf8(p.source_module))
    &&& is_source_path_bytes(utf8(p.source_path))
    &&& !is_blank_text(p.source_hash@)
}

/// The problems of a package whose id `seen` says is repeated or not: its
/// schema version, id, repetition, provenance, budget, then its machines and
/// its behaviors.
pub open spec fn package_diagnostics(
    pk: AuthoredBehaviorPackage,
    seen: bool,
    rules: AuthoredPackageRules,
    scene: EntrySceneFacts,
) -> Seq<PackageDiagnostic> {
    let v = rules.vocabulary;
    let machines = pk.state_machines@.len();
    let behaviors = pk.behaviors@.len();
    pflag(pk.schema_version != rules.schema_version, PackageDiagnostic::UnsupportedSchemaVersion)
        + pflag(!authored_id_ok(pk.package_id), PackageDiagnostic::InvalidPackageId)
        + pflag(seen, PackageDiagnostic::DuplicatePackageId)
        + pflag(!provenance_ok(pk.provenance, rules), PackageDiagnostic::InvalidProvenance)
        + pflag(
        machines == 0 || machines > v.max_machines || behaviors == 0 || behaviors > v.max_behaviors,
        PackageDiagnostic::PackageBudget,
    )
        + machines_upto(pk, v, scene, machines as int)
        + behaviors_upto(pk, v, scene, behaviors as int)
}

/// A package's report: its problems, and whether their messages carry the
/// package's source module and path (when both are well formed).
#[derive(Debug, Clone, PartialEq, Eq)]
pub struct PackageReport {
    pub problems: Vec<PackageDiagnostic>,
    pub source_prefixed: bool,
}

fn entry_prefab_part_exec(scene: &EntrySceneFacts, id: &String, role: &String) -> (r: bool)
    ensures
        r == entry_prefab_part(*scene, id@, role@),
{
    let ps = &scene.prefab_instances;
    let mut p: usize = 0;
    while p < ps.len()
        invariant
            ps == &scene.prefab_instances,
            p <= ps@.len(),
            forall|t: int| 0 <= t < p ==> (#[trigger] ps@[t]).scene_instance_id@ != id@,
        decreases ps@.len() - p,
    {
        if ps[p].scene_instance_id == *id {
            let r = texts_contain(&ps[p].roles, role);
            proof {
                if !r {
                    assert forall|q: int|
                        !(0 <= q < ps@.len() && (#[trigger] ps@[q]).scene_instance_id@ == id@
                            && (forall|t: int| 0 <= t < q ==> (#[trigger] ps@[t]).scene_instance_id@ != id@)
                            && in_texts(ps@[q].roles@, role@)) by {
                        if 0 <= q < ps@.len() && ps@[q].scene_instance_id@ == id@
                            && (forall|t: int| 0 <= t < q ==> (#[trigger] ps@[t]).scene_instance_id@ != id@) {
                            if q > p {
                                assert(ps@[p as int].scene_instance_id@ == id@);
                            }
                        }
                    }
                }
            }
            return r;
        }
        p = p + 1;
    }
    false
}

fn signal_value_ok_exec(value: &AuthoredValue, scene: &EntrySceneFacts) -> (r: bool)
    ensures
        r == signal_value_ok(*value, *scene),
{
    match value {
        AuthoredValue::SceneEntity { scene_instance_id } => texts_contain(&scene.entity_instances, scene_instance_id),
        AuthoredValue::PrefabPart { scene_instance_id, role } => entry_prefab_part_exec(scene, scene_instance_id, role),
        AuthoredValue::StateMachine { .. } => false,
        AuthoredValue::State { .. } => false,
        AuthoredValue::Text { value } => value.as_str().as_bytes().len() <= 1024,
        AuthoredValue::Boolean { .. } => true,
        AuthoredValue::Integer { .. } => true,
        AuthoredValue::Number { finite } => *finite,
        AuthoredValue::Vector3 { finite } => *finite,
    }
}

/// Validate the signal of behavior `bi` of a package, given the registry's
/// admission of it.
pub fn validate_authored_signal(
    b: &AuthoredBehavior,
    bi: usize,
    v: &AuthoredVocabulary,
    scene: &EntrySceneFacts,
) -> (out: Vec<PackageDiagnostic>)
    ensures
        out@ == signal_diagnostics(*b, bi as int, *v, *scene),
{
    let mut out: Vec<PackageDiagnostic> = Vec::new();
    let args = &b.signal.arguments;
    let count = args.len() as u64;
    if count > v.max_arguments || !args_unique_exec(args) {
        out.push(PackageDiagnostic::InvalidSignalShape { behavior: bi });
        return out;
    }
    match b.admission {
        SignalAdmission::Unresolved => {
            out.push(PackageDiagnostic::UnresolvedSignal { behavior: bi });
            return out;
        },
        SignalAdmission::ArgumentsRejected => {
            out.push(PackageDiagnostic::RejectedSignalArguments { behavior: bi });
            return out;
        },
        SignalAdmission::Admitted => {},
    }
    let mut k: usize = 0;
    while k < args.len()
        invariant
            args == &b.signal.arguments,
            k <= args@.len(),
            out@ == signal_arguments_upto(args@, bi as int, *scene, k as int),
        decreases args@.len() - k,
    {
        ppush_if(&mut out, !is_authored_id(args[k].name.as_str()), PackageDiagnostic::InvalidArgumentName { behavior: bi, argument: k });
        ppush_if(&mut out, !signal_value_ok_exec(&args[k].value, scene), PackageDiagnostic::InvalidArgumentValue { behavior: bi, argument: k });
        k = k + 1;
    }
    out
}

fn push_machine_problems(out: &mut Vec<PackageDiagnostic>, ds: Vec<BehaviorDiagnostic>)
    ensures
        final(out)@ == old(out)@ + as_machine_problems(ds@),
{
    let mut k: usize = 0;
    while k < ds.len()
        invariant
            k <= ds@.len(),
            out@ == old(out)@ + as_machine_problems(ds@.take(k as int)),
        decreases ds@.len() - k,
    {
        out.push(PackageDiagnostic::Machine { problem: ds[k] });
        assert(ds@.take(k + 1) =~= ds@.take(k as int).push(ds@[k as int]));
        assert(as_machine_problems(ds@.take(k + 1)) =~= as_machine_problems(ds@.take(k as int)).push(
            PackageDiagnostic::Machine { problem: ds@[k as int] },
        ));
        k = k + 1;
    }
    assert(ds@.take(ds@.len() as int) =~= ds@);
}

fn push_sequence_problems(out: &mut Vec<PackageDiagnostic>, ds: Vec<BehaviorDiagnostic>, bi: usize)
    ensures
        final(out)@ == old(out)@ + as_sequence_problems(ds@, bi as int),
{
    let mut k: usize = 0;
    while k < ds.len()
        invariant
            k <= ds@.len(),
            out@ == old(out)@ + as_sequence_problems(ds@.take(k as int), bi as int),
        decreases ds@.len() - k,
    {
        out.push(PackageDiagnostic::Sequence { behavior: bi, problem: ds[k] });
        assert(ds@.take(k + 1) =~= ds@.take(k as int).push(ds@[k as int]));
        assert(as_sequence_problems(ds@.take(k + 1), bi as int) =~= as_sequence_problems(ds@.take(k as int), bi as int).push(
            PackageDiagnostic::Sequence { behavior: bi, problem: ds@[k as int] },
        ));
        k = k + 1;
    }
    assert(ds@.take(ds@.len() as int) =~= ds@);
}

fn machine_seen_before_exec(ms: &Vec<AuthoredStateMachine>, k: usize) -> (r: bool)
    requires
        k < ms@.len(),
    ensures
        r == machine_seen_before(ms@, k as int),
{
    let mut t: usize = 0;
    while t < k
        invariant
            k < ms@.len(),
            t <= k,
            forall|a: int| 0 <= a < t ==> (#[trigger] ms@[a]).machine_id@ != ms@[k as int].machine_id@,
        decreases k - t,
    {
        if ms[t].machine_id == ms[k].machine_id {
            assert(ms@[t as int].machine_id@ == ms@[k as int].machine_id@);
            return true;
        }
        t = t + 1;
    }
    false
}

fn behavior_seen_before_exec(bs: &Vec<AuthoredBehavior>, k: usize) -> (r: bool)
    requires
        k < bs@.len(),
    ensures
        r == behavior_seen_before(bs@, k as int),
{
    let mut t: usize = 0;
    while t < k
        invariant
            k < bs@.len(),
            t <= k,
            forall|a: int| 0 <= a < t ==> (#[trigger] bs@[a]).behavior_id@ != bs@[k as int].behavior_id@,
        decreases k - t,
    {
        if bs[t].behavior_id == bs[k].behavior_id {
            assert(bs@[t as int].behavior_id@ == bs@[k as int].behavior_id@);
            return true;
        }
        t = t + 1;
    }
    false
}

/// Validate one behavior package, given whether an earlier package already
/// used its id.
pub fn validate_authored_package(
    pk: &AuthoredBehaviorPackage,
    seen: bool,
    rules: &AuthoredPackageRules,
    scene: &EntrySceneFacts,
) -> (r: PackageReport)
    ensures
        r.problems@ == package_diagnostics(*pk, seen, *rules, *scene),
        r.source_prefixed == (is_source_module_bytes(utf8(pk.provenance.source_module))
            && is_source_path_bytes(utf8(pk.provenance.source_path))),
{
    let v = &rules.vocabulary;
    let mut out: Vec<PackageDiagnostic> = Vec::new();
    ppush_if(&mut out, pk.schema_version != rules.schema_version, PackageDiagnostic::UnsupportedSchemaVersion);
    ppush_if(&mut out, !is_authored_id(pk.package_id.as_str()), PackageDiagnostic::InvalidPackageId);
    ppush_if(&mut out, seen, PackageDiagnostic::DuplicatePackageId);
    let p = &pk.provenance;
    let module_ok = valid_authored_source_module(p.source_module.as_str());
    let path_ok = valid_authored_source_path(p.source_path.as_str());
    let provenance = p.sdk_id == rules.sdk_id && p.sdk_version == v.version && p.vocabulary_hash == rules.vocabulary_hash
        && module_ok && path_ok && !is_blank(p.source_hash.as_str());
    ppush_if(&mut out, !provenance, PackageDiagnostic::InvalidProvenance);
    let machines = pk.state_machines.len() as u64;
    let behaviors = pk.behaviors.len() as u64;
    ppush_if(
        &mut out,
        machines == 0 || machines > v.max_machines || behaviors == 0 || behaviors > v.max_behaviors,
        PackageDiagnostic::PackageBudget,
    );
    let ghost head = out@;
    let ms = &pk.state_machines;
    let mut k: usize = 0;
    while k < ms.len()
        invariant
            ms == &pk.state_machines,
            v == &rules.vocabulary,
            k <= ms@.len(),
            out@ == head + machines_upto(*pk, *v, *scene, k as int),
        decreases ms@.len() - k,
    {
        ppush_if(&mut out, !is_authored_id(ms[k].machine_id.as_str()), PackageDiagnostic::InvalidMachineId { machine: k });
        ppush_if(&mut out, machine_seen_before_exec(ms, k), PackageDiagnostic::DuplicateMachineId { machine: k });
        let ds = validate_authored_machine(&ms[k], k, v, &scene.entity_instances);
        push_machine_problems(&mut out, ds);
        assert(out@ =~= head + machines_upto(*pk, *v, *scene, k + 1));
        k = k + 1;
    }
    let ghost mid = out@;
    let bs = &pk.behaviors;
    let mut k: usize = 0;
    while k < bs.len()
        invariant
            bs == &pk.behaviors,
            ms == &pk.state_machines,
            v == &rules.vocabulary,
            k <= bs@.len(),
            out@ == mid + behaviors_upto(*pk, *v, *scene, k as int),
        decreases bs@.len() - k,
    {
        let b = &bs[k];
        ppush_if(&mut out, !is_authored_id(b.behavior_id.as_str()), PackageDiagnostic::InvalidBehaviorId { behavior: k });
        ppush_if(&mut out, behavior_seen_before_exec(bs, k), PackageDiagnostic::DuplicateBehaviorId { behavior: k });
        let mut signal = validate_authored_signal(b, k, v, scene);
        out.append(&mut signal);
        let ds = validate_authored_sequence(&b.sequence, v, ms.as_slice(), &scene.entity_instances);
        push_sequence_problems(&mut out, ds, k);
        assert(out@ =~= mid + behaviors_upto(*pk, *v, *scene, k + 1));
        k = k + 1;
    }
    assert(out@ =~= package_diagnostics(*pk, seen, *rules, *scene));
    PackageReport { problems: out, source_prefixed: module_ok && path_ok }
}

/// Some package before `k` has the id of package `k`.
pub open spec fn package_seen_before(pks: Seq<AuthoredBehaviorPackage>, k: int) -> bool {
    exists|t: int| 0 <= t < k && (#[trigger] pks[t]).package_id@ == pks[k].package_id@
}

/// Validate the project's behavior packages in document order; a package id
/// must be unique across the project.
pub fn validate_authored_behaviors(
    packages: &Vec<AuthoredBehaviorPackage>,
    rules: &AuthoredPackageRules,
    scene: &EntrySceneFacts,
) -> (out: Vec<PackageReport>)
    ensures
        out@.len() == packages@.len(),
        forall|k: int| 0 <= k < packages@.len() ==> (#[trigger] out@[k]).problems@
            == package_diagnostics(packages@[k], package_seen_before(packages@, k), *rules, *scene),
        forall|k: int| 0 <= k < packages@.len() ==> (#[trigger] out@[k]).source_prefixed
            == (is_source_module_bytes(utf8(packages@[k].provenance.source_module))
                && is_source_path_bytes(utf8(packages@[k].provenance.source_path))),
{
    let mut out: Vec<PackageReport> = Vec::new();
    let mut k: usize = 0;
    while k < packages.len()
        invariant
            k <= packages@.len(),
            out@.len() == k,
            forall|j: int| 0 <= j < k ==> (#[trigger] out@[j]).problems@
                == package_diagnostics(packages@[j], package_seen_before(packages@, j), *rules, *scene),
            forall|j: int| 0 <= j < k ==> (#[trigger] out@[j]).source_prefixed
                == (is_source_module_bytes(utf8(packages@[j].provenance.source_module))
                    && is_source_path_bytes(utf8(packages@[j].provenance.source_path))),
        decreases packages@.len() - k,
    {
        let mut seen = false;
        let mut t: usize = 0;
        while t < k
            invariant
                k < packages@.len(),
                t <= k,
                seen == exists|a: int| 0 <= a < t && (#[trigger] packages@[a]).package_id@ == packages@[k as int].package_id@,
            decreases k - t,
        {
            if packages[t].package_id == packages[k].package_id {
                seen = true;
            }
            t = t + 1;
        }
        let report = validate_authored_package(&packages[k], seen, rules, scene);
        out.push(report);
        k = k + 1;
    }
    out
}

} // verus!
