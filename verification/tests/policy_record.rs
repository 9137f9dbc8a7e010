use asha_services::policy_record::{
    render_tick_record, PolicyCommandRecord, PolicyEventRecord, PolicyOutcomeRecord,
    PolicyProposalRecord, PolicyTickRecord,
};

fn accepted(command: PolicyCommandRecord, event: PolicyEventRecord) -> PolicyProposalRecord {
    PolicyProposalRecord { command, outcome: PolicyOutcomeRecord::Accepted { event } }
}

fn rejected(command: PolicyCommandRecord, label: &str) -> PolicyProposalRecord {
    PolicyProposalRecord {
        command,
        outcome: PolicyOutcomeRecord::Rejected { label: label.to_owned() },
    }
}

fn mixed_record() -> PolicyTickRecord {
    let t = |x: f32| format!("{x}");
    PolicyTickRecord {
        tick: 1,
        proposals: vec![
            accepted(
                PolicyCommandRecord::RequestSetTransform {
                    entity: 1,
                    translation: [t(2.0), t(0.0), t(0.0)],
                },
                PolicyEventRecord::TransformSet { entity: 1 },
            ),
            rejected(
                PolicyCommandRecord::RequestSetTransform {
                    entity: 2,
                    translation: [t(0.0), t(0.0), t(0.0)],
                },
                "notSpatial",
            ),
            accepted(
                PolicyCommandRecord::RequestAddLabel { entity: 2, label: 5 },
                PolicyEventRecord::LabelAdded { entity: 2, label: 5 },
            ),
            rejected(PolicyCommandRecord::RequestDisable { entity: 99 }, "unknownEntity"),
            accepted(
                PolicyCommandRecord::NoopMarker { note_debug: format!("{:?}", "tick-done") },
                PolicyEventRecord::NoopRecorded { note_debug: format!("{:?}", "tick-done") },
            ),
        ],
    }
}

#[test]
fn records_proposed_accepted_and_rejected_in_order() {
    let record = mixed_record();
    assert_eq!(record.proposals.len(), 5);
    assert_eq!(record.accepted_count(), 3);
    assert_eq!(record.rejected_count(), 2);
}

#[test]
fn render_is_deterministic_and_stable() {
    let a = render_tick_record(&mixed_record());
    let b = render_tick_record(&mixed_record());
    assert_eq!(a, b);
    assert!(a.starts_with("policy-tick 1 accepted=3 rejected=2\n"));
    assert!(a.contains("rejected notSpatial"));
    assert!(a.contains("rejected unknownEntity"));
}

#[test]
fn each_proposal_renders_one_indexed_line() {
    let text = render_tick_record(&mixed_record());
    assert_eq!(
        text,
        "policy-tick 1 accepted=3 rejected=2\n\
         \x20 [0] requestSetTransform entity=1 translation=[2, 0, 0] -> accepted transformSet entity=1\n\
         \x20 [1] requestSetTransform entity=2 translation=[0, 0, 0] -> rejected notSpatial\n\
         \x20 [2] requestAddLabel entity=2 label=5 -> accepted labelAdded entity=2 label=5\n\
         \x20 [3] requestDisable entity=99 -> rejected unknownEntity\n\
         \x20 [4] noopMarker note=\"tick-done\" -> accepted noopRecorded note=\"tick-done\"\n"
    );
}

#[test]
fn an_empty_tick_renders_only_its_header() {
    let record = PolicyTickRecord { tick: 7, proposals: Vec::new() };
    assert_eq!(render_tick_record(&record), "policy-tick 7 accepted=0 rejected=0\n");
}

use asha_services::entity_authoring::{LifecycleError, TransformError};
use asha_services::policy_record::{policy_outcome, PolicyStoreAnswer, PolicyWorldRejection};

#[test]
fn proposals_are_classified_like_authority_answers() {
    let set = PolicyCommandRecord::RequestSetTransform {
        entity: 2,
        translation: ["0".to_owned(), "0".to_owned(), "0".to_owned()],
    };
    let (outcome, rejection) = policy_outcome(
        &set,
        true,
        PolicyStoreAnswer::TransformRefused { error: TransformError::NotTransformEligible },
    );
    assert_eq!(rejection, Some(PolicyWorldRejection::NotSpatial));
    assert_eq!(outcome, PolicyOutcomeRecord::Rejected { label: "notSpatial".to_owned() });

    let (outcome, rejection) = policy_outcome(&set, false, PolicyStoreAnswer::Applied);
    assert_eq!(rejection, Some(PolicyWorldRejection::InvalidTransform));
    assert_eq!(outcome, PolicyOutcomeRecord::Rejected { label: "invalidTransform".to_owned() });

    let (outcome, _) = policy_outcome(&set, true, PolicyStoreAnswer::Applied);
    assert_eq!(
        outcome,
        PolicyOutcomeRecord::Accepted { event: PolicyEventRecord::TransformSet { entity: 2 } }
    );

    let disable = PolicyCommandRecord::RequestDisable { entity: 99 };
    let (outcome, _) = policy_outcome(
        &disable,
        true,
        PolicyStoreAnswer::LifecycleRefused { error: LifecycleError::UnknownEntity },
    );
    assert_eq!(outcome, PolicyOutcomeRecord::Rejected { label: "unknownEntity".to_owned() });
    let (_, rejection) = policy_outcome(
        &disable,
        true,
        PolicyStoreAnswer::LifecycleRefused { error: LifecycleError::InvalidTransition },
    );
    assert_eq!(rejection, Some(PolicyWorldRejection::AlreadyDisabled));

    let noop = PolicyCommandRecord::NoopMarker { note_debug: "\"tick-done\"".to_owned() };
    let (outcome, rejection) = policy_outcome(&noop, true, PolicyStoreAnswer::Applied);
    assert_eq!(rejection, None);
    assert_eq!(
        outcome,
        PolicyOutcomeRecord::Accepted {
            event: PolicyEventRecord::NoopRecorded { note_debug: "\"tick-done\"".to_owned() }
        }
    );
}

fn set_transform(entity: u64) -> PolicyCommandRecord {
    PolicyCommandRecord::RequestSetTransform {
        entity,
        translation: ["0".to_owned(), "0".to_owned(), "0".to_owned()],
    }
}

#[test]
fn rejects_zero_scale_transform_as_invalid() {
    // The scale [0, 1, 1] has a zero axis: refused before the store is asked.
    let (outcome, rejection) = policy_outcome(&set_transform(1), false, PolicyStoreAnswer::Applied);
    assert_eq!(rejection, Some(PolicyWorldRejection::InvalidTransform));
    assert_eq!(outcome, PolicyOutcomeRecord::Rejected { label: "invalidTransform".to_owned() });
}

#[test]
fn add_label_accepts_then_rejects_duplicate() {
    let cmd = PolicyCommandRecord::RequestAddLabel { entity: 1, label: 7 };
    let (first, _) = policy_outcome(&cmd, true, PolicyStoreAnswer::Applied);
    assert_eq!(
        first,
        PolicyOutcomeRecord::Accepted { event: PolicyEventRecord::LabelAdded { entity: 1, label: 7 } }
    );
    let (second, rejection) = policy_outcome(
        &cmd,
        true,
        PolicyStoreAnswer::LifecycleRefused { error: LifecycleError::LabelAlreadyPresent },
    );
    assert_eq!(rejection, Some(PolicyWorldRejection::LabelAlreadyPresent));
    assert!(matches!(second, PolicyOutcomeRecord::Rejected { .. }));
}

#[test]
fn disable_accepts_then_rejects_already_disabled() {
    let cmd = PolicyCommandRecord::RequestDisable { entity: 1 };
    let (first, _) = policy_outcome(&cmd, true, PolicyStoreAnswer::Applied);
    assert_eq!(first, PolicyOutcomeRecord::Accepted { event: PolicyEventRecord::Disabled { entity: 1 } });
    let (_, rejection) = policy_outcome(
        &cmd,
        true,
        PolicyStoreAnswer::LifecycleRefused { error: LifecycleError::InvalidTransition },
    );
    assert_eq!(rejection, Some(PolicyWorldRejection::AlreadyDisabled));
}

#[test]
fn transform_on_disabled_entity_is_rejected() {
    let (_, rejection) = policy_outcome(
        &set_transform(1),
        true,
        PolicyStoreAnswer::TransformRefused { error: TransformError::Disabled },
    );
    assert_eq!(rejection, Some(PolicyWorldRejection::EntityDisabled));
}

#[test]
fn noop_marker_is_always_accepted_and_changes_nothing() {
    // A no-op marker never asks the store.
    let cmd = PolicyCommandRecord::NoopMarker { note_debug: format!("{:?}", "audit") };
    let (outcome, rejection) = policy_outcome(&cmd, true, PolicyStoreAnswer::Applied);
    assert_eq!(rejection, None);
    assert!(matches!(outcome, PolicyOutcomeRecord::Accepted { .. }));
}
