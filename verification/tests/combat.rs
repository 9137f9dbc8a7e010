use asha_services::combat::{
    apply_fire_resolution, hash_readout, miss_label, validate_fire_order, CombatEvent,
    CombatFireOutcome, CombatOutcome, CombatRejectionReason, CombatState, FireControlState,
    FireMissReason, FireOrder, FireTargeting, HealthState,
};

const TARGET: u64 = 20;
const SHOOTER: u64 = 10;

fn fnv(bytes: &[u8]) -> u64 {
    let mut h = 0xcbf2_9ce4_8422_2325u64;
    for b in bytes {
        h ^= *b as u64;
        h = h.wrapping_mul(0x0000_0100_0000_01b3);
    }
    h
}

fn fire(damage: u32) -> FireOrder {
    FireOrder {
        shooter: SHOOTER,
        damage,
        fire_control: FireControlState::ready(3, 4),
        tick: 7,
    }
}

fn state(health: u32) -> CombatState {
    let mut state = CombatState::new();
    assert_eq!(
        state.attach_health(TARGET, HealthState::new(health, health)),
        CombatOutcome::Accepted
    );
    state
}

/// The ray from (2.5, 1.5, 1.5) along +z meets the target box at z = 5.0,
/// before the far wall of the tunnel.
fn hit_in_front() -> FireTargeting {
    FireTargeting::Hit {
        target: TARGET,
        distance_bits: 3.5f64.to_bits(),
    }
}

#[test]
fn fire_hits_target_and_applies_damage_before_geometry() {
    let mut state = state(100);
    let readout = apply_fire_resolution(&mut state, fire(35), hit_in_front()).expect("fire");
    assert!(matches!(readout.outcome, CombatFireOutcome::Hit { .. }));
    assert_eq!(state.health(TARGET).unwrap().current, 65);
    assert_eq!(readout.events.len(), 2);
}

#[test]
fn lethal_damage_emits_defeat_event() {
    let mut state = state(40);
    let readout = apply_fire_resolution(&mut state, fire(100), hit_in_front()).expect("fire");
    assert!(matches!(
        readout.outcome,
        CombatFireOutcome::Hit { defeated: true, .. }
    ));
    assert_eq!(state.health(TARGET).unwrap().current, 0);
    assert!(matches!(
        readout.events.last(),
        Some(CombatEvent::EntityDefeated { target }) if *target == TARGET
    ));
}

#[test]
fn geometry_blocks_target_behind_wall() {
    let mut state = state(100);
    let readout =
        apply_fire_resolution(&mut state, fire(20), FireTargeting::Blocked).expect("fire");
    assert_eq!(
        readout.outcome,
        CombatFireOutcome::Miss {
            reason: FireMissReason::GeometryBlocked
        }
    );
    assert_eq!(state.health(TARGET).unwrap().current, 100);
}

#[test]
fn invalid_fire_command_rejects_without_mutation() {
    let mut state = state(100);
    let mut command = fire(20);
    command.fire_control.ammo = 0;
    assert_eq!(
        apply_fire_resolution(&mut state, command, hit_in_front()),
        Err(CombatRejectionReason::NoAmmo)
    );
    assert_eq!(state.health(TARGET).unwrap().current, 100);
}

#[test]
fn damage_events_account_for_health() {
    let mut state = state(100);
    let readout = apply_fire_resolution(&mut state, fire(35), hit_in_front()).expect("fire");
    assert_eq!(
        readout.events,
        vec![
            CombatEvent::FireHit {
                shooter: SHOOTER,
                target: TARGET,
                distance_bits: 3.5f64.to_bits(),
                tick: 7
            },
            CombatEvent::DamageApplied {
                target: TARGET,
                amount: 35,
                before: 100,
                after: 65
            },
        ]
    );
    assert_eq!(
        readout.next_fire_control,
        FireControlState {
            ammo: 2,
            cooldown_ticks_remaining: 4,
            cooldown_ticks_after_fire: 4
        }
    );
    assert_eq!(readout.health_hash, state.health_hash());
}

#[test]
fn rejections_are_classified_in_order() {
    let mut state = state(100);
    assert_eq!(
        validate_fire_order(fire(0)),
        Err(CombatRejectionReason::InvalidDamage)
    );
    let mut cooling = fire(5);
    cooling.fire_control.cooldown_ticks_remaining = 1;
    assert_eq!(
        apply_fire_resolution(&mut state, cooling, hit_in_front()),
        Err(CombatRejectionReason::Cooldown)
    );
    let unknown = FireTargeting::Hit {
        target: 99,
        distance_bits: 1.0f64.to_bits(),
    };
    assert_eq!(
        apply_fire_resolution(&mut state, fire(5), unknown),
        Err(CombatRejectionReason::UnknownTargetHealth)
    );
    assert_eq!(state.health(TARGET), Some(HealthState::new(100, 100)));
    assert_eq!(CombatRejectionReason::UnknownTargetHealth.label(), "unknownTargetHealth");
}

#[test]
fn no_target_misses_without_damage() {
    let mut state = state(100);
    let readout =
        apply_fire_resolution(&mut state, fire(20), FireTargeting::NoTarget).expect("fire");
    assert_eq!(
        readout.events,
        vec![CombatEvent::FireMissed {
            shooter: SHOOTER,
            reason: FireMissReason::NoTarget,
            tick: 7
        }]
    );
    assert_eq!(miss_label(FireMissReason::NoTarget), "noTarget");
    assert_eq!(miss_label(FireMissReason::GeometryBlocked), "geometryBlocked");
}

#[test]
fn invalid_health_is_rejected() {
    let mut state = CombatState::new();
    assert_eq!(
        state.attach_health(1, HealthState::new(5, 0)),
        CombatOutcome::Rejected {
            reason: CombatRejectionReason::InvalidHealth
        }
    );
    assert_eq!(
        state.attach_health(1, HealthState::new(6, 5)),
        CombatOutcome::Rejected {
            reason: CombatRejectionReason::InvalidHealth
        }
    );
    assert_eq!(state.health(1), None);
    assert!(HealthState::new(0, 5).is_defeated());
    assert!(!HealthState::new(1, 5).is_defeated());
}

#[test]
fn health_hash_lists_entries_in_id_order() {
    let mut state = CombatState::new();
    state.attach_health(9, HealthState::new(3, 4));
    state.attach_health(2, HealthState::new(1, 1));
    let mut bytes = Vec::new();
    for (id, cur, max) in [(2u64, 1u32, 1u32), (9, 3, 4)] {
        bytes.extend_from_slice(&id.to_le_bytes());
        bytes.extend_from_slice(&cur.to_le_bytes());
        bytes.extend_from_slice(&max.to_le_bytes());
    }
    assert_eq!(state.health_hash(), fnv(&bytes));
}

#[test]
fn replay_hash_covers_lines_fire_control_and_health() {
    let fc = FireControlState::ready(2, 4);
    let lines = vec!["event a\n".to_string(), "event b\n".to_string()];
    let mut bytes = b"outcome\n".to_vec();
    bytes.extend_from_slice(b"event a\nevent b\n");
    for v in [2u32, 0, 4] {
        bytes.extend_from_slice(&v.to_le_bytes());
    }
    bytes.extend_from_slice(&77u64.to_le_bytes());
    assert_eq!(hash_readout("outcome\n", &lines, fc, 77), fnv(&bytes));
}
