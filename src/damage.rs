use vstd::prelude::*;
use vstd::arithmetic::div_mod::{lemma_div_is_ordered, lemma_div_is_ordered_by_denominator};
use vstd::arithmetic::mul::{lemma_mul_inequality, lemma_mul_nonnegative};
use crate::stats::{CurrentStats, STAT_MAX};
use crate::tags::{DamageTag, DamageTags};

verus! {

/// Where the attacker's stats come from when a damage lands.
#[derive(Clone, Copy, Debug, PartialEq, Eq, Structural)]
pub enum DamageSource {
    /// The live stats of the entity with this external id.
    Realtime(u64),
    /// The stats frozen in the snapshot with this id.
    Snapshot(u128),
}

/// A damage on its way to a target.
#[derive(Clone, Copy, Debug, PartialEq, Eq, Structural)]
pub struct Damage {
    pub kind: DamageTags,
    pub base_amount: u64,
    pub source: DamageSource,
}

impl Damage {
    pub fn new(kind: DamageTags, amount: u64, source: DamageSource) -> (r: Damage)
        ensures
            r == (Damage { kind, base_amount: amount, source }),
    {
        Damage { kind, base_amount: amount, source }
    }
}

/// The attacker's offensive stat for a damage kind: strength for physical
/// damage, intelligence for magic damage, both for a damage that is both.
pub open spec fn offense(kind: DamageTags, attacker: CurrentStats) -> int {
    (if kind.has(DamageTag::Physical) { attacker.strength as int } else { 0 })
        + (if kind.has(DamageTag::Magic) { attacker.intelligence as int } else { 0 })
}

/// The percentage applied to the base amount before the multiplicative
/// multiplier: 100, plus the offensive stat, the additive multiplier and the
/// expected critical bonus.
pub open spec fn additive_percent(kind: DamageTags, attacker: CurrentStats) -> int {
    100 + offense(kind, attacker) + attacker.additive_multiplier + attacker.bonus_multiplier
}

/// The damage an attacker deals before the target's defences:
/// `base * additive_percent / 100 * multiplicative / 100`, rounded down once.
pub open spec fn raw_damage(kind: DamageTags, base: int, attacker: CurrentStats) -> int {
    base * additive_percent(kind, attacker) * attacker.multiplicative_multiplier / 10000
}

/// What is left of `raw` after the target's defences: defense divides it by
/// `(100 + defense) / 100` unless the damage is `Real`, then absorption takes
/// a flat amount off, down to zero.
pub open spec fn mitigated(kind: DamageTags, raw: int, target: CurrentStats) -> int {
    let reduced = if kind.has(DamageTag::Real) { raw } else { raw * 100 / (100 + target.defense) };
    if reduced > target.absorption { reduced - target.absorption } else { 0 }
}

/// The health a target loses to a damage of this kind and base amount.
pub open spec fn damage_dealt(kind: DamageTags, base: int, attacker: CurrentStats, target: CurrentStats) -> int {
    mitigated(kind, raw_damage(kind, base, attacker), target)
}

/// Health after losing `dealt`, never below zero.
pub open spec fn health_after(health: int, dealt: int) -> int {
    if dealt >= health { 0 } else { health - dealt }
}

/// The health a target loses to a damage.
pub fn compute_damage(kind: DamageTags, base: u64, attacker: &CurrentStats, target: &CurrentStats) -> (r: u128)
    requires
        attacker.wf(),
        target.wf(),
    ensures
        r == damage_dealt(kind, base as int, *attacker, *target),
{
    let phys: u64 = if kind.contains(DamageTag::Physical) { attacker.strength } else { 0 };
    let magic: u64 = if kind.contains(DamageTag::Magic) { attacker.intelligence } else { 0 };
    let percent: u128 = 100u128 + phys as u128 + magic as u128 + attacker.additive_multiplier as u128
        + attacker.bonus_multiplier as u128;
    assert(percent <= 4 * STAT_MAX + 100);
    assert(base as int * percent <= 0x1_0000_0000_0000_0000 * (4 * STAT_MAX + 100)) by (nonlinear_arith)
        requires
            base < 0x1_0000_0000_0000_0000,
            percent <= 4 * STAT_MAX + 100,
    ;
    let scaled = base as u128 * percent;
    assert(scaled * attacker.multiplicative_multiplier as int <= 0x1_0000_0000_0000_0000 * (4 * STAT_MAX
        + 100) * STAT_MAX) by (nonlinear_arith)
        requires
            scaled <= 0x1_0000_0000_0000_0000 * (4 * STAT_MAX + 100),
            attacker.multiplicative_multiplier <= STAT_MAX,
    ;
    let raw = scaled * attacker.multiplicative_multiplier as u128 / 10000;
    assert(raw * 100 <= scaled * attacker.multiplicative_multiplier as int) by {
        assert(raw * 10000 <= scaled * attacker.multiplicative_multiplier as int);
    }
    mitigate(kind, raw, target)
}

/// What is left of `raw` after the target's defences.
pub fn mitigate(kind: DamageTags, raw: u128, target: &CurrentStats) -> (r: u128)
    requires
        raw * 100 <= u128::MAX,
        target.wf(),
    ensures
        r == mitigated(kind, raw as int, *target),
{
    let reduced = if kind.contains(DamageTag::Real) {
        raw
    } else {
        raw * 100 / (100 + target.defense as u128)
    };
    if reduced > target.absorption as u128 {
        reduced - target.absorption as u128
    } else {
        0
    }
}

/// The dealt damage grows with the base amount.
pub proof fn lemma_damage_monotonic_in_base(
    kind: DamageTags,
    base1: int,
    base2: int,
    attacker: CurrentStats,
    target: CurrentStats,
)
    requires
        0 <= base1 <= base2,
        attacker.wf(),
        target.wf(),
    ensures
        damage_dealt(kind, base1, attacker, target) <= damage_dealt(kind, base2, attacker, target),
{
    let p = additive_percent(kind, attacker);
    let m = attacker.multiplicative_multiplier as int;
    lemma_mul_inequality(base1, base2, p);
    lemma_mul_nonnegative(base1, p);
    lemma_mul_inequality(base1 * p, base2 * p, m);
    lemma_mul_nonnegative(base1 * p, m);
    lemma_div_is_ordered(base1 * p * m, base2 * p * m, 10000);
    let raw1 = raw_damage(kind, base1, attacker);
    let raw2 = raw_damage(kind, base2, attacker);
    lemma_mul_inequality(raw1, raw2, 100);
    lemma_div_is_ordered(raw1 * 100, raw2 * 100, 100 + target.defense);
}

/// The dealt damage shrinks as the target's defense grows, all else equal.
pub proof fn lemma_damage_antitone_in_defense(
    kind: DamageTags,
    base: int,
    attacker: CurrentStats,
    target1: CurrentStats,
    target2: CurrentStats,
)
    requires
        0 <= base,
        attacker.wf(),
        target1.wf(),
        target2.wf(),
        target1.defense <= target2.defense,
        target1.absorption == target2.absorption,
    ensures
        damage_dealt(kind, base, attacker, target2) <= damage_dealt(kind, base, attacker, target1),
{
    let p = additive_percent(kind, attacker);
    let m = attacker.multiplicative_multiplier as int;
    lemma_mul_nonnegative(base, p);
    lemma_mul_nonnegative(base * p, m);
    let raw = raw_damage(kind, base, attacker);
    lemma_mul_nonnegative(raw, 100);
    lemma_div_is_ordered_by_denominator(raw * 100, 100 + target1.defense, 100 + target2.defense);
}

} // verus!
