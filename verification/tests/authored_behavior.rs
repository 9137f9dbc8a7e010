use asha_services::authored_behavior::{
    step_dependencies_resolve, validate_authored_behaviors, validate_authored_machine,
    validate_authored_package, validate_authored_sequence, AuthoredArgument, AuthoredBehavior,
    AuthoredBehaviorPackage, AuthoredCondition, AuthoredOperation, AuthoredPackageRules,
    AuthoredProvenance, AuthoredSequence, AuthoredSignal, AuthoredStateMachine, AuthoredStep,
    AuthoredTransition, AuthoredValue, AuthoredVocabulary, BehaviorDiagnostic, BehaviorDiagnosticCode,
    EntryPrefabInstance, EntrySceneFacts, PackageDiagnostic, SignalAdmission,
};

const DOOR: &str = "reference.trigger.instance";

fn vocabulary() -> AuthoredVocabulary {
    AuthoredVocabulary {
        version: 1,
        max_machines: 16,
        max_behaviors: 32,
        max_states_per_machine: 16,
        max_transitions_per_machine: 32,
        max_steps_per_behavior: 16,
        max_operations_per_step: 8,
        max_arguments: 8,
        max_delay_ticks: 3600,
        verb_transition_state: "asha.verb.transition-state".to_owned(),
        verb_set_relative_translation: "asha.verb.set-relative-translation".to_owned(),
        verb_set_capability_active: "asha.verb.set-capability-active".to_owned(),
        predicate_state_is: "asha.predicate.state-is".to_owned(),
    }
}

fn rules() -> AuthoredPackageRules {
    AuthoredPackageRules {
        schema_version: 1,
        sdk_id: "@asha/game-workspace".to_owned(),
        vocabulary_hash: "fnv1a64:1111111111111111".to_owned(),
        vocabulary: vocabulary(),
    }
}

fn scene() -> EntrySceneFacts {
    EntrySceneFacts {
        entity_instances: vec![DOOR.to_owned()],
        prefab_instances: vec![EntryPrefabInstance {
            scene_instance_id: "reference.console.blue".to_owned(),
            roles: vec!["interaction/body".to_owned()],
        }],
    }
}

fn arg(name: &str, value: AuthoredValue) -> AuthoredArgument {
    AuthoredArgument { name: name.to_owned(), value }
}

fn text(value: &str) -> AuthoredValue {
    AuthoredValue::Text { value: value.to_owned() }
}

fn entity() -> AuthoredValue {
    AuthoredValue::SceneEntity { scene_instance_id: DOOR.to_owned() }
}

fn op(verb: &str, arguments: Vec<AuthoredArgument>) -> AuthoredOperation {
    AuthoredOperation { verb_id: verb.to_owned(), verb_version: 1, arguments }
}

fn step_operations(transition: &str, active: bool) -> Vec<AuthoredOperation> {
    vec![
        op(
            "asha.verb.transition-state",
            vec![
                arg("machine", AuthoredValue::StateMachine { machine_id: "door".to_owned() }),
                arg("transition", text(transition)),
            ],
        ),
        op(
            "asha.verb.set-relative-translation",
            vec![arg("entity", entity()), arg("value", AuthoredValue::Vector3 { finite: true })],
        ),
        op(
            "asha.verb.set-capability-active",
            vec![
                arg("entity", entity()),
                arg("capability", text("collision")),
                arg("active", AuthoredValue::Boolean { value: active }),
            ],
        ),
    ]
}

fn door_machine() -> AuthoredStateMachine {
    AuthoredStateMachine {
        machine_id: "door".to_owned(),
        target_scene_instance_id: DOOR.to_owned(),
        state_ids: vec!["open".to_owned(), "closed".to_owned()],
        initial_state_id: "closed".to_owned(),
        transitions: vec![
            AuthoredTransition {
                transition_id: "open".to_owned(),
                from_state_id: "closed".to_owned(),
                to_state_id: "open".to_owned(),
            },
            AuthoredTransition {
                transition_id: "close".to_owned(),
                from_state_id: "open".to_owned(),
                to_state_id: "closed".to_owned(),
            },
        ],
    }
}

fn door_sequence() -> AuthoredSequence {
    AuthoredSequence {
        steps: vec![
            AuthoredStep {
                step_id: "open-now".to_owned(),
                after_step_ids: Vec::new(),
                delay_ticks: 0,
                operations: step_operations("open", false),
            },
            AuthoredStep {
                step_id: "close-later".to_owned(),
                after_step_ids: vec!["open-now".to_owned()],
                delay_ticks: 120,
                operations: step_operations("close", true),
            },
        ],
        conditions: vec![AuthoredCondition {
            predicate_id: "asha.predicate.state-is".to_owned(),
            predicate_version: 1,
            arguments: vec![arg(
                "state",
                AuthoredValue::State { machine_id: "door".to_owned(), state_id: "closed".to_owned() },
            )],
        }],
    }
}

fn door_package() -> AuthoredBehaviorPackage {
    AuthoredBehaviorPackage {
        schema_version: 1,
        package_id: "reference.doors".to_owned(),
        provenance: AuthoredProvenance {
            sdk_id: "@asha/game-workspace".to_owned(),
            sdk_version: 1,
            vocabulary_hash: "fnv1a64:1111111111111111".to_owned(),
            source_module: "@fixture/gameplay".to_owned(),
            source_path: "src/doors.ts".to_owned(),
            source_hash: "fnv1a64:0123456789abcdef".to_owned(),
        },
        state_machines: vec![door_machine()],
        behaviors: vec![AuthoredBehavior {
            behavior_id: "switch-opens-door".to_owned(),
            signal: AuthoredSignal {
                semantic_id: "asha.prefab.part-interacted".to_owned(),
                version: 1,
                arguments: vec![arg(
                    "part",
                    AuthoredValue::PrefabPart {
                        scene_instance_id: "reference.console.blue".to_owned(),
                        role: "interaction/body".to_owned(),
                    },
                )],
            },
            admission: SignalAdmission::Admitted,
            sequence: door_sequence(),
        }],
    }
}

fn codes(package: &AuthoredBehaviorPackage) -> Vec<BehaviorDiagnosticCode> {
    validate_authored_package(package, false, &rules(), &scene()).problems.iter().map(|d| d.code()).collect()
}

#[test]
fn authored_behavior_is_strict_canonical_project_content() {
    let report = validate_authored_package(&door_package(), false, &rules(), &scene());
    assert!(report.problems.is_empty(), "{:?}", report.problems);
    assert!(report.source_prefixed);
}

#[test]
fn authored_behavior_rejects_unknown_code_references_cycles_versions_and_budgets() {
    let mut missing_target = door_package();
    missing_target.state_machines[0].target_scene_instance_id = "missing.door".to_owned();
    let mut version = door_package();
    version.schema_version = 2;
    let mut cycle = door_package();
    cycle.behaviors[0].sequence.steps[0].after_step_ids = vec!["close-later".to_owned()];
    let mut delay = door_package();
    delay.behaviors[0].sequence.steps[1].delay_ticks = 3601;
    let cases = [
        (missing_target, BehaviorDiagnosticCode::UnknownReference),
        (version, BehaviorDiagnosticCode::InvalidField),
        (cycle, BehaviorDiagnosticCode::InvalidDocument),
        (delay, BehaviorDiagnosticCode::InvalidDocument),
    ];
    for (package, expected) in cases {
        let report = validate_authored_package(&package, false, &rules(), &scene());
        assert!(!report.problems.is_empty());
        assert!(codes(&package).contains(&expected), "expected {expected:?}: {:?}", report.problems);
        assert!(report.source_prefixed);
    }
}

#[test]
fn a_cycle_and_a_missing_root_are_both_reported() {
    let mut sequence = door_sequence();
    sequence.steps[0].after_step_ids = vec!["close-later".to_owned()];
    let diagnostics = validate_authored_sequence(&sequence, &vocabulary(), &[door_machine()], &vec![DOOR.to_owned()]);
    assert_eq!(diagnostics, vec![BehaviorDiagnostic::StepDependencyCycle, BehaviorDiagnostic::NoImmediateRootStep]);
}

fn order(id: &str, after: &[&str]) -> AuthoredStep {
    AuthoredStep {
        step_id: id.to_owned(),
        after_step_ids: after.iter().map(|s| (*s).to_owned()).collect(),
        delay_ticks: 0,
        operations: Vec::new(),
    }
}

#[test]
fn dependencies_resolve_in_any_declared_order() {
    assert!(step_dependencies_resolve(&[order("c", &["b"]), order("b", &["a"]), order("a", &[])]));
    assert!(step_dependencies_resolve(&[]));
    assert!(!step_dependencies_resolve(&[order("a", &[]), order("b", &["c"]), order("c", &["b"])]));
    assert!(!step_dependencies_resolve(&[order("a", &["missing"])]));
    assert!(!step_dependencies_resolve(&[order("a", &["a"])]));
}

#[test]
fn machine_states_and_transitions_must_resolve() {
    let mut machine = door_machine();
    machine.state_ids.push("open".to_owned());
    machine.initial_state_id = "ajar".to_owned();
    machine.transitions.push(AuthoredTransition {
        transition_id: "open".to_owned(),
        from_state_id: "open".to_owned(),
        to_state_id: "open".to_owned(),
    });
    machine.transitions.push(AuthoredTransition {
        transition_id: "bad id!".to_owned(),
        from_state_id: "closed".to_owned(),
        to_state_id: "locked".to_owned(),
    });
    let diagnostics = validate_authored_machine(&machine, 0, &vocabulary(), &vec![DOOR.to_owned()]);
    assert_eq!(
        diagnostics,
        vec![
            BehaviorDiagnostic::DuplicateStateId { machine: 0, state: 2 },
            BehaviorDiagnostic::UnknownInitialState { machine: 0 },
            BehaviorDiagnostic::InvalidTransition { machine: 0, transition: 2 },
            BehaviorDiagnostic::InvalidTransitionId { machine: 0, transition: 3 },
            BehaviorDiagnostic::UnresolvedTransition { machine: 0, transition: 3 },
        ]
    );
}

#[test]
fn operations_must_be_published_with_typed_arguments() {
    let mut sequence = door_sequence();
    sequence.steps[0].operations = vec![
        op("asha.verb.unknown", Vec::new()),
        op(
            "asha.verb.set-capability-active",
            vec![arg("entity", entity()), arg("capability", text("render")), arg("active", text("no"))],
        ),
        AuthoredOperation { verb_id: "asha.verb.transition-state".to_owned(), verb_version: 2, arguments: Vec::new() },
        op("asha.verb.transition-state", vec![arg("machine", text("door")), arg("machine", text("door"))]),
        op(
            "asha.verb.transition-state",
            vec![
                arg("machine", AuthoredValue::StateMachine { machine_id: "door".to_owned() }),
                arg("transition", text("slam")),
            ],
        ),
    ];
    let diagnostics = validate_authored_sequence(&sequence, &vocabulary(), &[door_machine()], &vec![DOOR.to_owned()]);
    assert_eq!(
        diagnostics,
        vec![
            BehaviorDiagnostic::UnpublishedOperation { step: 0, operation: 0 },
            BehaviorDiagnostic::UnpublishedOperation { step: 0, operation: 1 },
            BehaviorDiagnostic::InvalidOperationShape { step: 0, operation: 2 },
            BehaviorDiagnostic::InvalidOperationShape { step: 0, operation: 3 },
            BehaviorDiagnostic::UnpublishedOperation { step: 0, operation: 4 },
        ]
    );
}

#[test]
fn signals_and_conditions_are_checked() {
    let mut package = door_package();
    package.behaviors[0].signal.arguments.push(arg("count", AuthoredValue::Number { finite: false }));
    package.behaviors[0].sequence.conditions[0].arguments[0] =
        arg("state", AuthoredValue::State { machine_id: "door".to_owned(), state_id: "ajar".to_owned() });
    let report = validate_authored_package(&package, true, &rules(), &scene());
    assert_eq!(
        report.problems,
        vec![
            PackageDiagnostic::DuplicatePackageId,
            PackageDiagnostic::InvalidArgumentValue { behavior: 0, argument: 1 },
            PackageDiagnostic::Sequence { behavior: 0, problem: BehaviorDiagnostic::InvalidCondition { condition: 0 } },
        ]
    );
    let mut unresolved = door_package();
    unresolved.behaviors[0].admission = SignalAdmission::Unresolved;
    unresolved.provenance.source_path = "/abs/doors.ts".to_owned();
    let report = validate_authored_package(&unresolved, false, &rules(), &scene());
    assert_eq!(
        report.problems,
        vec![PackageDiagnostic::InvalidProvenance, PackageDiagnostic::UnresolvedSignal { behavior: 0 }]
    );
    assert!(!report.source_prefixed);
}

#[test]
fn package_ids_must_be_unique_across_the_project() {
    let reports = validate_authored_behaviors(&vec![door_package(), door_package()], &rules(), &scene());
    assert!(reports[0].problems.is_empty());
    assert_eq!(reports[1].problems, vec![PackageDiagnostic::DuplicatePackageId]);
    assert_eq!(reports[1].problems[0].code(), BehaviorDiagnosticCode::InvalidDocument);
}
