//! Combat authority: the health table, fire-control validation and the
//! atomic application of a resolved fire command.
//!
//! Ray/box geometry runs on floating point and is decided before this module
//! is called: the caller hands over which target (if any) the ray reached
//! first, and the hit distance as its raw `f64` bit pattern, which this
//! module only carries into events.

use vstd::prelude::*;
use std::collections::BTreeMap;
use vstd::std_specs::iter::IteratorSpec;
use vstd::string::StringSliceAdditionalSpecFns;
use crate::fnv::{fnv_bytes, fnv_offset, feed_u32, feed_u64, feed_str, le_u32, le_u64, lemma_fnv_concat, FNV_OFFSET};

verus! {

broadcast use vstd::std_specs::btree::group_btree_axioms, vstd::laws_cmp::group_laws_cmp;

/// Health capability/state for a combat participant.
#[derive(Debug, Clone, Copy, PartialEq, Eq, Structural)]
pub struct HealthState {
    pub current: u32,
    pub max: u32,
}

impl HealthState {
    pub fn new(current: u32, max: u32) -> (s: Self)
        ensures
            s.current == current,
            s.max == max,
    {
        HealthState { current, max }
    }

    pub fn is_defeated(self) -> (b: bool)
        ensures
            b == (self.current == 0),
    {
        self.current == 0
    }

    /// A health state the table accepts: a positive maximum not exceeded.
    pub open spec fn valid(self) -> bool {
        self.max > 0 && self.current <= self.max
    }
}

/// Deterministic health table keyed by raw entity id.
#[derive(Debug, Clone, PartialEq, Eq)]
pub struct CombatState {
    health: BTreeMap<u64, HealthState>,
}

impl View for CombatState {
    type V = Map<u64, HealthState>;

    closed spec fn view(&self) -> Map<u64, HealthState> {
        self.health@
    }
}

/// Every stored health state is valid.
pub open spec fn health_table_valid(m: Map<u64, HealthState>) -> bool {
    forall|e: u64| #[trigger] m.contains_key(e) ==> m[e].valid()
}

/// Fire resolution outcome of a table mutation.
#[derive(Debug, Clone, Copy, PartialEq, Eq, Structural)]
pub enum CombatOutcome {
    Accepted,
    Rejected { reason: CombatRejectionReason },
}

/// Why combat validation rejected a proposed command.
#[derive(Debug, Clone, Copy, PartialEq, Eq, Structural)]
pub enum CombatRejectionReason {
    InvalidHealth,
    InvalidRay,
    InvalidDamage,
    NoAmmo,
    Cooldown,
    UnknownTargetHealth,
}

impl CombatRejectionReason {
    pub open spec fn label_text(self) -> Seq<char> {
        match self {
            CombatRejectionReason::InvalidHealth => "invalidHealth"@,
            CombatRejectionReason::InvalidRay => "invalidRay"@,
            CombatRejectionReason::InvalidDamage => "invalidDamage"@,
            CombatRejectionReason::NoAmmo => "noAmmo"@,
            CombatRejectionReason::Cooldown => "cooldown"@,
            CombatRejectionReason::UnknownTargetHealth => "unknownTargetHealth"@,
        }
    }

    pub fn label(self) -> (s: &'static str)
        ensures
            s@ == self.label_text(),
    {
        match self {
            CombatRejectionReason::InvalidHealth => "invalidHealth",
            CombatRejectionReason::InvalidRay => "invalidRay",
            CombatRejectionReason::InvalidDamage => "invalidDamage",
            CombatRejectionReason::NoAmmo => "noAmmo",
            CombatRejectionReason::Cooldown => "cooldown",
            CombatRejectionReason::UnknownTargetHealth => "unknownTargetHealth",
        }
    }
}

/// The bytes hashed for one health entry.
pub open spec fn health_entry_bytes(e: (u64, HealthState)) -> Seq<u8> {
    le_u64(e.0) + le_u32(e.1.current) + le_u32(e.1.max)
}

/// The bytes hashed for a listing of health entries, in order.
pub open spec fn health_listing_bytes(s: Seq<(u64, HealthState)>) -> Seq<u8>
    decreases s.len(),
{
    if s.len() == 0 {
        Seq::empty()
    } else {
        health_listing_bytes(s.drop_last()) + health_entry_bytes(s.last())
    }
}

/// `s` lists the entries of `m` by strictly increasing entity id.
pub open spec fn is_sorted_listing(s: Seq<(u64, HealthState)>, m: Map<u64, HealthState>) -> bool {
    &&& forall|i: int, j: int| 0 <= i < j < s.len() ==> s[i].0 < s[j].0
    &&& forall|i: int| 0 <= i < s.len() ==> #[trigger] m.contains_key(s[i].0) && m[s[i].0]
        == s[i].1
    &&& forall|e: u64| #[trigger] m.contains_key(e) ==> exists|i: int| 0 <= i < s.len() && s[i].0 == e
}

/// The entries of `m` in increasing entity-id order.
pub open spec fn sorted_listing(m: Map<u64, HealthState>) -> Seq<(u64, HealthState)> {
    choose|s: Seq<(u64, HealthState)>| is_sorted_listing(s, m)
}

/// The health hash of a table: FNV-1a over (id, current, max) of every entry
/// in increasing id order.
pub open spec fn health_hash_of(m: Map<u64, HealthState>) -> u64 {
    fnv_bytes(FNV_OFFSET, health_listing_bytes(sorted_listing(m)))
}

/// Two sorted listings of one table are the same sequence.
pub proof fn lemma_sorted_listing_unique(
    s1: Seq<(u64, HealthState)>,
    s2: Seq<(u64, HealthState)>,
    m: Map<u64, HealthState>,
)
    requires
        is_sorted_listing(s1, m),
        is_sorted_listing(s2, m),
    ensures
        s1 == s2,
    decreases s1.len() + s2.len(),
{
    if s1.len() == 0 {
        if s2.len() > 0 {
            assert(m.contains_key(s2[0].0));
        }
        assert(s1 =~= s2);
    } else if s2.len() == 0 {
        assert(m.contains_key(s1[0].0));
    } else {
        let k1 = s1[0].0;
        let k2 = s2[0].0;
        assert(m.contains_key(k1));
        assert(m.contains_key(k2));
        let i2 = choose|i: int| 0 <= i < s2.len() && s2[i].0 == k1;
        let i1 = choose|i: int| 0 <= i < s1.len() && s1[i].0 == k2;
        assert(k1 == k2) by {
            if k1 < k2 {
                assert(s2[i2].0 >= k2);
            } else if k2 < k1 {
                assert(s1[i1].0 >= k1);
            }
        }
        let m2 = m.remove(k1);
        let t1 = s1.drop_first();
        let t2 = s2.drop_first();
        assert(is_sorted_listing(t1, m2)) by {
            assert forall|e: u64| #[trigger] m2.contains_key(e) implies exists|i: int|
                0 <= i < t1.len() && t1[i].0 == e by {
                let i = choose|i: int| 0 <= i < s1.len() && s1[i].0 == e;
                assert(i != 0);
                assert(t1[i - 1].0 == e);
            }
            assert forall|i: int| 0 <= i < t1.len() implies #[trigger] m2.contains_key(t1[i].0)
                && m2[t1[i].0] == t1[i].1 by {
                assert(s1[i + 1].0 > s1[0].0);
                assert(m.contains_key(s1[i + 1].0));
            }
        }
        assert(is_sorted_listing(t2, m2)) by {
            assert forall|e: u64| #[trigger] m2.contains_key(e) implies exists|i: int|
                0 <= i < t2.len() && t2[i].0 == e by {
                let i = choose|i: int| 0 <= i < s2.len() && s2[i].0 == e;
                assert(i != 0);
                assert(t2[i - 1].0 == e);
            }
            assert forall|i: int| 0 <= i < t2.len() implies #[trigger] m2.contains_key(t2[i].0)
                && m2[t2[i].0] == t2[i].1 by {
                assert(s2[i + 1].0 > s2[0].0);
                assert(m.contains_key(s2[i + 1].0));
            }
        }
        lemma_sorted_listing_unique(t1, t2, m2);
        assert(s1[0] == s2[0]);
        assert(s1 =~= seq![s1[0]] + t1);
        assert(s2 =~= seq![s2[0]] + t2);
    }
}

/// Machine integers used as table keys are totally ordered.
proof fn lemma_u64_keys_ordered()
    ensures
        vstd::std_specs::btree::key_obeys_cmp_spec::<u64>(),
{
    assert(vstd::laws_cmp::obeys_cmp::<u64>());
}

/// The entries a table iterator yields, in order, are its sorted listing.
proof fn lemma_iter_listing(map: &BTreeMap<u64, HealthState>, done: Seq<(u64, HealthState)>)
    requires
        vstd::std_specs::btree::key_obeys_cmp_spec::<u64>(),
        vstd::std_specs::btree::increasing_seq(
            vstd::std_specs::btree::spec_btree_map_iter(map).remaining().map_values(
                |kv: (&u64, &HealthState)| *kv.0,
            ),
        ),
        done.len() == vstd::std_specs::btree::spec_btree_map_iter(map).remaining().len(),
        forall|i: int|
            0 <= i < done.len() ==> done[i] == (
                *vstd::std_specs::btree::spec_btree_map_iter(map).remaining()[i].0,
                *vstd::std_specs::btree::spec_btree_map_iter(map).remaining()[i].1,
            ),
    ensures
        is_sorted_listing(done, map@),
{
    let m = map@;
    let all = vstd::std_specs::btree::spec_btree_map_iter(map).remaining();
    let keys = all.map_values(|kv: (&u64, &HealthState)| *kv.0);
    assert(vstd::laws_cmp::obeys_cmp::<u64>());
    assert forall|i: int, j: int| 0 <= i < j < done.len() implies done[i].0 < done[j].0 by {
        assert(keys[i] == done[i].0);
        assert(keys[j] == done[j].0);
        assert(vstd::std_specs::cmp::OrdSpec::cmp_spec(&keys[i], &keys[j]) is Less);
    }
    assert forall|i: int| 0 <= i < done.len() implies #[trigger] m.contains_key(done[i].0)
        && m[done[i].0] == done[i].1 by {
        assert(m.contains_key(*all[i].0));
    }
    assert forall|e: u64| #[trigger] m.contains_key(e) implies exists|i: int|
        0 <= i < done.len() && done[i].0 == e by {
        assert(all.contains((&e, &m[e])));
        let i = choose|i: int| 0 <= i < all.len() && all[i] == (&e, &m[e]);
        assert(done[i].0 == e);
    }
}

impl CombatState {
    /// Every stored health state is valid.
    pub open spec fn well_formed(&self) -> bool {
        health_table_valid(self@)
    }

    pub fn new() -> (s: Self)
        ensures
            s@ == Map::<u64, HealthState>::empty(),
            s.well_formed(),
    {
        CombatState { health: BTreeMap::new() }
    }

    /// Attach (or replace) the health state of `entity`. A state with a zero
    /// maximum, or a current value above its maximum, is rejected and the
    /// table is left unchanged.
    pub fn attach_health(&mut self, entity: u64, health: HealthState) -> (out: CombatOutcome)
        ensures
            health.valid() ==> out == CombatOutcome::Accepted && final(self)@ == old(self)@.insert(
                entity,
                health,
            ),
            !health.valid() ==> out == (CombatOutcome::Rejected {
                reason: CombatRejectionReason::InvalidHealth,
            }) && final(self)@ == old(self)@,
            old(self).well_formed() ==> final(self).well_formed(),
    {
        if health.max == 0 || health.current > health.max {
            return CombatOutcome::Rejected { reason: CombatRejectionReason::InvalidHealth };
        }
        self.health.insert(entity, health);
        CombatOutcome::Accepted
    }

    /// The health state of `entity`, if any.
    pub fn health(&self, entity: u64) -> (h: Option<HealthState>)
        ensures
            h == (if self@.contains_key(entity) {
                Some(self@[entity])
            } else {
                None
            }),
    {
        match self.health.get(&entity) {
            Some(h) => Some(*h),
            None => None,
        }
    }

    /// FNV-1a over (id, current, max) of every entry in increasing id order.
    pub fn health_hash(&self) -> (h: u64)
        ensures
            h == health_hash_of(self@),
    {
        let mut h = fnv_offset();
        let ghost m = self@;
        proof {
            lemma_u64_keys_ordered();
        }
        let ghost all = vstd::std_specs::btree::spec_btree_map_iter(&self.health).remaining();
        let ghost mut done: Seq<(u64, HealthState)> = Seq::empty();
        for (entity, health) in it: self.health.iter()
            invariant
                it.seq() == all,
                done.len() == it.index(),
                forall|i: int| 0 <= i < done.len() ==> done[i] == (*all[i].0, *all[i].1),
                h == fnv_bytes(FNV_OFFSET, health_listing_bytes(done)),
        {
            let ghost before = h;
            feed_u64(&mut h, *entity);
            feed_u32(&mut h, health.current);
            feed_u32(&mut h, health.max);
            proof {
                let e = (*entity, *health);
                lemma_fnv_concat(before, le_u64(e.0), le_u32(e.1.current));
                lemma_fnv_concat(before, le_u64(e.0) + le_u32(e.1.current), le_u32(e.1.max));
                lemma_fnv_concat(FNV_OFFSET, health_listing_bytes(done), health_entry_bytes(e));
                assert(done.push(e).drop_last() =~= done);
                done = done.push(e);
            }
        }
        proof {
            assert(done.len() == all.len());
            lemma_iter_listing(&self.health, done);
            lemma_sorted_listing_unique(done, sorted_listing(m), m);
        }
        h
    }
}

} // verus!

verus! {

/// Deterministic weapon/fire validation state.
#[derive(Debug, Clone, Copy, PartialEq, Eq, Structural)]
pub struct FireControlState {
    pub ammo: u32,
    pub cooldown_ticks_remaining: u32,
    pub cooldown_ticks_after_fire: u32,
}

impl FireControlState {
    /// A loaded weapon with no cooldown pending.
    pub fn ready(ammo: u32, cooldown_ticks_after_fire: u32) -> (s: Self)
        ensures
            s == (FireControlState { ammo, cooldown_ticks_remaining: 0, cooldown_ticks_after_fire }),
    {
        FireControlState { ammo, cooldown_ticks_remaining: 0, cooldown_ticks_after_fire }
    }
}

/// Why an accepted fire command did not damage a target.
#[derive(Debug, Clone, Copy, PartialEq, Eq, Structural)]
pub enum FireMissReason {
    NoTarget,
    GeometryBlocked,
}

pub open spec fn miss_label_text(reason: FireMissReason) -> Seq<char> {
    match reason {
        FireMissReason::NoTarget => "noTarget"@,
        FireMissReason::GeometryBlocked => "geometryBlocked"@,
    }
}

/// Stable label of a miss reason.
pub fn miss_label(reason: FireMissReason) -> (s: &'static str)
    ensures
        s@ == miss_label_text(reason),
{
    match reason {
        FireMissReason::NoTarget => "noTarget",
        FireMissReason::GeometryBlocked => "geometryBlocked",
    }
}

/// The integer part of a proposed fire intent. Ray origin, direction and
/// range are floating point and checked before this command is formed.
#[derive(Debug, Clone, Copy, PartialEq, Eq, Structural)]
pub struct FireOrder {
    pub shooter: u64,
    pub damage: u32,
    pub fire_control: FireControlState,
    pub tick: u64,
}

/// What the ray reached, decided by geometry: the nearest target in range
/// in front of any blocking collider (hit distance carried as `f64` bits),
/// a target behind a blocking collider, or no target at all.
#[derive(Debug, Clone, Copy, PartialEq, Eq, Structural)]
pub enum FireTargeting {
    Hit { target: u64, distance_bits: u64 },
    Blocked,
    NoTarget,
}

/// Accepted combat event.
#[derive(Debug, Clone, Copy, PartialEq, Eq, Structural)]
pub enum CombatEvent {
    FireHit { shooter: u64, target: u64, distance_bits: u64, tick: u64 },
    FireMissed { shooter: u64, reason: FireMissReason, tick: u64 },
    DamageApplied { target: u64, amount: u32, before: u32, after: u32 },
    EntityDefeated { target: u64 },
}

/// Outcome of an accepted fire command.
#[derive(Debug, Clone, Copy, PartialEq, Eq, Structural)]
pub enum CombatFireOutcome {
    Hit { target: u64, distance_bits: u64, defeated: bool },
    Miss { reason: FireMissReason },
}

/// Deterministic result of one accepted fire command.
#[derive(Debug, Clone, PartialEq, Eq)]
pub struct FireResolution {
    pub outcome: CombatFireOutcome,
    pub events: Vec<CombatEvent>,
    pub next_fire_control: FireControlState,
    pub health_hash: u64,
}

/// Fire validation of the integer part: damage first, then ammunition,
/// then cooldown; the first failing check names the rejection.
pub open spec fn fire_order_check(order: FireOrder) -> Result<(), CombatRejectionReason> {
    if order.damage == 0 {
        Err(CombatRejectionReason::InvalidDamage)
    } else if order.fire_control.ammo == 0 {
        Err(CombatRejectionReason::NoAmmo)
    } else if order.fire_control.cooldown_ticks_remaining > 0 {
        Err(CombatRejectionReason::Cooldown)
    } else {
        Ok(())
    }
}

/// Reject a zero damage, an empty magazine, or a pending cooldown.
pub fn validate_fire_order(order: FireOrder) -> (r: Result<(), CombatRejectionReason>)
    ensures
        r == fire_order_check(order),
{
    if order.damage == 0 {
        return Err(CombatRejectionReason::InvalidDamage);
    }
    if order.fire_control.ammo == 0 {
        return Err(CombatRejectionReason::NoAmmo);
    }
    if order.fire_control.cooldown_ticks_remaining > 0 {
        return Err(CombatRejectionReason::Cooldown);
    }
    Ok(())
}

/// Fire control after one accepted shot: one round spent, cooldown re-armed.
pub open spec fn fire_control_after_shot(fc: FireControlState) -> FireControlState {
    FireControlState {
        ammo: (fc.ammo - 1) as u32,
        cooldown_ticks_remaining: fc.cooldown_ticks_after_fire,
        cooldown_ticks_after_fire: fc.cooldown_ticks_after_fire,
    }
}

/// Damage actually applied: the requested amount, capped at current health.
pub open spec fn applied_damage(damage: u32, current: u32) -> u32 {
    if damage < current {
        damage
    } else {
        current
    }
}

/// The events, outcome and table of an accepted, validated fire command.
pub open spec fn fire_effect(
    m: Map<u64, HealthState>,
    order: FireOrder,
    targeting: FireTargeting,
) -> (CombatFireOutcome, Seq<CombatEvent>, Map<u64, HealthState>) {
    match targeting {
        FireTargeting::Hit { target, distance_bits } => {
            let before = m[target];
            let amount = applied_damage(order.damage, before.current);
            let after = (before.current - amount) as u32;
            let hit = CombatEvent::FireHit {
                shooter: order.shooter,
                target,
                distance_bits,
                tick: order.tick,
            };
            let dmg = CombatEvent::DamageApplied { target, amount, before: before.current, after };
            let events = if after == 0 {
                seq![hit, dmg, CombatEvent::EntityDefeated { target }]
            } else {
                seq![hit, dmg]
            };
            (
                CombatFireOutcome::Hit { target, distance_bits, defeated: after == 0 },
                events,
                m.insert(target, HealthState { current: after, max: before.max }),
            )
        },
        FireTargeting::Blocked => (
            CombatFireOutcome::Miss { reason: FireMissReason::GeometryBlocked },
            seq![
                CombatEvent::FireMissed {
                    shooter: order.shooter,
                    reason: FireMissReason::GeometryBlocked,
                    tick: order.tick,
                },
            ],
            m,
        ),
        FireTargeting::NoTarget => (
            CombatFireOutcome::Miss { reason: FireMissReason::NoTarget },
            seq![
                CombatEvent::FireMissed {
                    shooter: order.shooter,
                    reason: FireMissReason::NoTarget,
                    tick: order.tick,
                },
            ],
            m,
        ),
    }
}

/// A hit on a known target takes exactly `min(damage, current)` from its
/// health, keeps its maximum, touches no other entry, keeps the table valid,
/// and reports the defeat exactly when the target's health reaches zero.
pub proof fn law_hit_accounting(
    m: Map<u64, HealthState>,
    order: FireOrder,
    target: u64,
    distance_bits: u64,
)
    requires
        m.contains_key(target),
    ensures
        ({
            let (outcome, events, table) = fire_effect(
                m,
                order,
                FireTargeting::Hit { target, distance_bits },
            );
            let before = m[target].current;
            let after = table[target].current;
            &&& table.contains_key(target)
            &&& after <= before
            &&& before - after == applied_damage(order.damage, before)
            &&& applied_damage(order.damage, before) <= order.damage
            &&& table[target].max == m[target].max
            &&& table.dom() == m.dom()
            &&& forall|e: u64| e != target && #[trigger] m.contains_key(e) ==> table[e] == m[e]
            &&& health_table_valid(m) ==> health_table_valid(table)
            &&& outcome == (CombatFireOutcome::Hit { target, distance_bits, defeated: after == 0 })
            &&& (events.contains(CombatEvent::EntityDefeated { target }) <==> after == 0)
        }),
{
    let (outcome, events, table) = fire_effect(m, order, FireTargeting::Hit { target, distance_bits });
    assert(table.dom() =~= m.dom());
    let after = table[target].current;
    if after == 0 {
        assert(events[2] == CombatEvent::EntityDefeated { target });
    } else {
        assert(events.len() == 2);
        assert(!events.contains(CombatEvent::EntityDefeated { target })) by {
            if events.contains(CombatEvent::EntityDefeated { target }) {
                let i = choose|i: int| 0 <= i < events.len() && events[i] == CombatEvent::EntityDefeated { target };
                assert(i == 0 || i == 1);
            }
        }
    }
}

/// A shot that misses, blocked by geometry or without a target, leaves the
/// health table exactly as it was.
pub proof fn law_miss_keeps_table(m: Map<u64, HealthState>, order: FireOrder, targeting: FireTargeting)
    requires
        !(targeting is Hit),
    ensures
        fire_effect(m, order, targeting).2 == m,
        fire_effect(m, order, targeting).1.len() == 1,
{
}

/// A miss reports one event: the shooter missed, for the same reason the
/// outcome gives, at the order's tick. Geometry in the way is a blocked
/// shot; no target is a miss without a target.
pub proof fn law_miss_event_matches_outcome(m: Map<u64, HealthState>, order: FireOrder, targeting: FireTargeting)
    requires
        !(targeting is Hit),
    ensures
        ({
            let (outcome, events, _) = fire_effect(m, order, targeting);
            &&& outcome matches CombatFireOutcome::Miss { reason } && events == seq![
                CombatEvent::FireMissed { shooter: order.shooter, reason, tick: order.tick },
            ]
            &&& targeting is Blocked ==> outcome == (CombatFireOutcome::Miss { reason: FireMissReason::GeometryBlocked })
            &&& targeting is NoTarget ==> outcome == (CombatFireOutcome::Miss { reason: FireMissReason::NoTarget })
        }),
{
}

/// Validate and apply a fire command atomically. On rejection the table is
/// unchanged; on acceptance the hit target (if any) loses
/// `min(damage, current)` health, and the events, outcome, next fire control
/// and health hash are returned.
pub fn apply_fire_resolution(
    state: &mut CombatState,
    order: FireOrder,
    targeting: FireTargeting,
) -> (r: Result<FireResolution, CombatRejectionReason>)
    ensures
        fire_order_check(order) is Err ==> r == Err::<FireResolution, _>(
            fire_order_check(order)->Err_0,
        ) && final(state)@ == old(state)@,
        fire_order_check(order) is Ok && (targeting matches FireTargeting::Hit { target, .. }
            && !old(state)@.contains_key(target)) ==> r == Err::<FireResolution, _>(
            CombatRejectionReason::UnknownTargetHealth,
        ) && final(state)@ == old(state)@,
        fire_order_check(order) is Ok && !(targeting matches FireTargeting::Hit { target, .. }
            && !old(state)@.contains_key(target)) ==> {
            let (outcome, events, table) = fire_effect(old(state)@, order, targeting);
            &&& r is Ok
            &&& final(state)@ == table
            &&& r->Ok_0.outcome == outcome
            &&& r->Ok_0.events@ == events
            &&& r->Ok_0.next_fire_control == fire_control_after_shot(order.fire_control)
            &&& r->Ok_0.health_hash == health_hash_of(table)
        },
        r matches Ok(res) ==> (res.outcome matches CombatFireOutcome::Miss { reason } ==> (res.events@ == seq![
            CombatEvent::FireMissed { shooter: order.shooter, reason, tick: order.tick },
        ] && final(state)@ == old(state)@)),
        r is Ok && targeting is Blocked ==> r->Ok_0.outcome == (CombatFireOutcome::Miss { reason: FireMissReason::GeometryBlocked }),
        r is Ok && targeting is NoTarget ==> r->Ok_0.outcome == (CombatFireOutcome::Miss { reason: FireMissReason::NoTarget }),
        old(state).well_formed() ==> final(state).well_formed(),
{
    validate_fire_order(order)?;
    let mut next_fire_control = order.fire_control;
    next_fire_control.ammo = next_fire_control.ammo - 1;
    next_fire_control.cooldown_ticks_remaining = next_fire_control.cooldown_ticks_after_fire;

    let mut events: Vec<CombatEvent> = Vec::new();
    let outcome = match targeting {
        FireTargeting::Hit { target, distance_bits } => {
            let before = match state.health(target) {
                Some(h) => h,
                None => {
                    return Err(CombatRejectionReason::UnknownTargetHealth);
                },
            };
            let damage = if order.damage < before.current {
                order.damage
            } else {
                before.current
            };
            let after = before.current - damage;
            state.health.insert(target, HealthState { current: after, max: before.max });
            events.push(
                CombatEvent::FireHit { shooter: order.shooter, target, distance_bits, tick: order.tick },
            );
            events.push(
                CombatEvent::DamageApplied { target, amount: damage, before: before.current, after },
            );
            if after == 0 {
                events.push(CombatEvent::EntityDefeated { target });
            }
            CombatFireOutcome::Hit { target, distance_bits, defeated: after == 0 }
        },
        FireTargeting::Blocked => {
            events.push(
                CombatEvent::FireMissed {
                    shooter: order.shooter,
                    reason: FireMissReason::GeometryBlocked,
                    tick: order.tick,
                },
            );
            CombatFireOutcome::Miss { reason: FireMissReason::GeometryBlocked }
        },
        FireTargeting::NoTarget => {
            events.push(
                CombatEvent::FireMissed {
                    shooter: order.shooter,
                    reason: FireMissReason::NoTarget,
                    tick: order.tick,
                },
            );
            CombatFireOutcome::Miss { reason: FireMissReason::NoTarget }
        },
    };
    let health_hash = state.health_hash();
    assert(events@ =~= fire_effect(old(state)@, order, targeting).1);
    Ok(FireResolution { outcome, events, next_fire_control, health_hash })
}

/// The replay hash of a fire readout: FNV-1a over the outcome line, each
/// event line, the next fire control and the health hash.
pub open spec fn replay_hash_of(
    outcome_line: Seq<u8>,
    event_lines: Seq<Seq<u8>>,
    fc: FireControlState,
    health_hash: u64,
) -> u64 {
    fnv_bytes(
        FNV_OFFSET,
        outcome_line + concat_lines(event_lines) + le_u32(fc.ammo) + le_u32(
            fc.cooldown_ticks_remaining,
        ) + le_u32(fc.cooldown_ticks_after_fire) + le_u64(health_hash),
    )
}

/// The bytes of every line, concatenated in order.
pub open spec fn concat_lines(lines: Seq<Seq<u8>>) -> Seq<u8>
    decreases lines.len(),
{
    if lines.len() == 0 {
        Seq::empty()
    } else {
        concat_lines(lines.drop_last()) + lines.last()
    }
}

/// Replay hash over already rendered readout lines. The outcome and event
/// lines carry hit distances rendered from floating point by the caller.
pub fn hash_readout(
    outcome_line: &str,
    event_lines: &[String],
    fire_control: FireControlState,
    health_hash: u64,
) -> (h: u64)
    ensures
        h == replay_hash_of(
            outcome_line.spec_bytes(),
            event_lines@.map_values(|l: String| vstd::utf8::encode_utf8(l@)),
            fire_control,
            health_hash,
        ),
{
    let ghost lines = event_lines@.map_values(|l: String| vstd::utf8::encode_utf8(l@));
    let mut h = fnv_offset();
    feed_str(&mut h, outcome_line);
    let mut i: usize = 0;
    while i < event_lines.len()
        invariant
            i <= event_lines@.len(),
            lines == event_lines@.map_values(|l: String| vstd::utf8::encode_utf8(l@)),
            h == fnv_bytes(FNV_OFFSET, outcome_line.spec_bytes() + concat_lines(lines.take(i as int))),
        decreases event_lines@.len() - i,
    {
        let ghost before = h;
        feed_str(&mut h, event_lines[i].as_str());
        proof {
            assert(lines.take(i + 1).drop_last() =~= lines.take(i as int));
            lemma_fnv_concat(
                FNV_OFFSET,
                outcome_line.spec_bytes() + concat_lines(lines.take(i as int)),
                lines[i as int],
            );
            assert(outcome_line.spec_bytes() + concat_lines(lines.take(i as int)) + lines[i as int]
                =~= outcome_line.spec_bytes() + concat_lines(lines.take(i + 1)));
        }
        i = i + 1;
    }
    assert(lines.take(i as int) =~= lines);
    let ghost mid = outcome_line.spec_bytes() + concat_lines(lines);
    feed_u32(&mut h, fire_control.ammo);
    feed_u32(&mut h, fire_control.cooldown_ticks_remaining);
    feed_u32(&mut h, fire_control.cooldown_ticks_after_fire);
    feed_u64(&mut h, health_hash);
    proof {
        let a = le_u32(fire_control.ammo);
        let b = le_u32(fire_control.cooldown_ticks_remaining);
        let c = le_u32(fire_control.cooldown_ticks_after_fire);
        let d = le_u64(health_hash);
        lemma_fnv_concat(FNV_OFFSET, mid, a);
        lemma_fnv_concat(FNV_OFFSET, mid + a, b);
        lemma_fnv_concat(FNV_OFFSET, mid + a + b, c);
        lemma_fnv_concat(FNV_OFFSET, mid + a + b + c, d);
    }
    h
}

} // verus!
