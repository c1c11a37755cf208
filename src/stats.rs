use vstd::prelude::*;

verus! {

/// The largest value a stat may take; every stat is clamped into `0..=STAT_MAX`.
pub const STAT_MAX: u64 = 1_000_000_000;

/// How a modifier changes a stat: by a flat amount, or by a percentage of
/// the value after all flat amounts.
#[derive(Clone, Copy, Debug, PartialEq, Eq, Structural)]
pub enum ModifierOp {
    Flat(i32),
    Percent(i32),
}

/// The stats that modifier effects can change.
#[derive(Clone, Copy, Debug, PartialEq, Eq, Structural)]
pub enum StatKind {
    /// Outgoing damage, in percentage points.
    Damage,
    CritChance,
    CritDamage,
    Defense,
    AttackSpeed,
    MovementSpeed,
    MaxHealth,
    MaxMana,
    CooldownReduction,
    /// Incoming damage absorbed, in points per hit.
    Absorption,
}

/// A change to one stat, carried by an effect or a piece of equipment.
#[derive(Clone, Copy, Debug, PartialEq, Eq, Structural)]
pub enum StatsModifyEffect {
    Damage(ModifierOp),
    CritChance(ModifierOp),
    CritDamage(ModifierOp),
    Defense(ModifierOp),
    AttackSpeed(ModifierOp),
    MovementSpeed(ModifierOp),
    MaxHealth(ModifierOp),
    MaxMana(ModifierOp),
    CooldownReduction(ModifierOp),
    Absorption(ModifierOp),
}

impl StatsModifyEffect {
    pub open spec fn spec_parts(self) -> (StatKind, ModifierOp) {
        match self {
            StatsModifyEffect::Damage(op) => (StatKind::Damage, op),
            StatsModifyEffect::CritChance(op) => (StatKind::CritChance, op),
            StatsModifyEffect::CritDamage(op) => (StatKind::CritDamage, op),
            StatsModifyEffect::Defense(op) => (StatKind::Defense, op),
            StatsModifyEffect::AttackSpeed(op) => (StatKind::AttackSpeed, op),
            StatsModifyEffect::MovementSpeed(op) => (StatKind::MovementSpeed, op),
            StatsModifyEffect::MaxHealth(op) => (StatKind::MaxHealth, op),
            StatsModifyEffect::MaxMana(op) => (StatKind::MaxMana, op),
            StatsModifyEffect::CooldownReduction(op) => (StatKind::CooldownReduction, op),
            StatsModifyEffect::Absorption(op) => (StatKind::Absorption, op),
        }
    }

    /// The stat the modifier changes, and how.
    pub fn parts(&self) -> (r: (StatKind, ModifierOp))
        ensures
            r == self.spec_parts(),
    {
        match *self {
            StatsModifyEffect::Damage(op) => (StatKind::Damage, op),
            StatsModifyEffect::CritChance(op) => (StatKind::CritChance, op),
            StatsModifyEffect::CritDamage(op) => (StatKind::CritDamage, op),
            StatsModifyEffect::Defense(op) => (StatKind::Defense, op),
            StatsModifyEffect::AttackSpeed(op) => (StatKind::AttackSpeed, op),
            StatsModifyEffect::MovementSpeed(op) => (StatKind::MovementSpeed, op),
            StatsModifyEffect::MaxHealth(op) => (StatKind::MaxHealth, op),
            StatsModifyEffect::MaxMana(op) => (StatKind::MaxMana, op),
            StatsModifyEffect::CooldownReduction(op) => (StatKind::CooldownReduction, op),
            StatsModifyEffect::Absorption(op) => (StatKind::Absorption, op),
        }
    }
}

/// The flat amount a modifier adds to stat `k` (zero for another stat or a percentage).
pub open spec fn flat_of(m: StatsModifyEffect, k: StatKind) -> int {
    match m.spec_parts() {
        (kind, ModifierOp::Flat(a)) => if kind == k { a as int } else { 0 },
        _ => 0,
    }
}

/// The percentage a modifier adds to stat `k` (zero for another stat or a flat amount).
pub open spec fn percent_of(m: StatsModifyEffect, k: StatKind) -> int {
    match m.spec_parts() {
        (kind, ModifierOp::Percent(p)) => if kind == k { p as int } else { 0 },
        _ => 0,
    }
}

/// The sum of the flat amounts for stat `k` in a list of modifiers.
pub open spec fn flat_sum(mods: Seq<StatsModifyEffect>, k: StatKind) -> int
    decreases mods.len(),
{
    if mods.len() == 0 {
        0
    } else {
        flat_sum(mods.drop_last(), k) + flat_of(mods.last(), k)
    }
}

/// The sum of the percentages for stat `k` in a list of modifiers.
pub open spec fn percent_sum(mods: Seq<StatsModifyEffect>, k: StatKind) -> int
    decreases mods.len(),
{
    if mods.len() == 0 {
        0
    } else {
        percent_sum(mods.drop_last(), k) + percent_of(mods.last(), k)
    }
}

pub open spec fn clamp_stat(x: int) -> int {
    if x < 0 {
        0
    } else if x > STAT_MAX {
        STAT_MAX as int
    } else {
        x
    }
}

/// Stat `k` from its base value and the active modifiers: first every flat
/// amount is added, then the sum of the percentages is applied once
/// (`value * (100 + percent) / 100`), each step clamped into `0..=STAT_MAX`.
pub open spec fn modified_stat(base: int, mods: Seq<StatsModifyEffect>, k: StatKind) -> int {
    clamp_stat(
        clamp_stat(base + flat_sum(mods, k)) * clamp_stat(100 + percent_sum(mods, k)) / 100,
    )
}

/// The attributes an entity starts from; modifiers never change them.
#[derive(Clone, Copy, Debug, PartialEq, Eq, Structural)]
pub struct BaseStats {
    pub health: u64,
    pub mana: u64,
    pub strength: u64,
    pub intelligence: u64,
    pub defense: u64,
    pub attack_speed: u64,
    pub movement_speed: u64,
    pub attack_range: u64,
    pub crit_chance: u64,
    pub crit_damage: u64,
}

impl BaseStats {
    pub open spec fn wf(&self) -> bool {
        &&& self.health <= STAT_MAX
        &&& self.mana <= STAT_MAX
        &&& self.strength <= STAT_MAX
        &&& self.intelligence <= STAT_MAX
        &&& self.defense <= STAT_MAX
        &&& self.attack_speed <= STAT_MAX
        &&& self.movement_speed <= STAT_MAX
        &&& self.attack_range <= STAT_MAX
        &&& self.crit_chance <= STAT_MAX
        &&& self.crit_damage <= STAT_MAX
    }

    pub open spec fn spec_default() -> BaseStats {
        BaseStats {
            health: 100,
            mana: 100,
            strength: 10,
            intelligence: 10,
            defense: 10,
            attack_speed: 1,
            movement_speed: 1,
            attack_range: 4,
            crit_chance: 50,
            crit_damage: 100,
        }
    }
}

impl Default for BaseStats {
    fn default() -> (r: BaseStats)
        ensures
            r == BaseStats::spec_default(),
    {
        BaseStats {
            health: 100,
            mana: 100,
            strength: 10,
            intelligence: 10,
            defense: 10,
            attack_speed: 1,
            movement_speed: 1,
            attack_range: 4,
            crit_chance: 50,
            crit_damage: 100,
        }
    }
}

/// The attributes in force: the base stats with every active modifier
/// applied, plus the current health and mana and the three damage
/// multipliers (all in percent).
#[derive(Clone, Copy, Debug, PartialEq, Eq, Structural)]
pub struct CurrentStats {
    pub max_health: u64,
    pub health: u64,
    pub max_mana: u64,
    pub mana: u64,
    pub strength: u64,
    pub intelligence: u64,
    pub defense: u64,
    pub attack_speed: u64,
    pub movement_speed: u64,
    pub attack_range: u64,
    pub crit_chance: u64,
    pub crit_damage: u64,
    pub cooldown_reduction: u64,
    pub absorption: u64,
    /// Percentage points added to outgoing damage.
    pub additive_multiplier: u64,
    /// Percentage that outgoing damage is multiplied by (100 is neutral).
    pub multiplicative_multiplier: u64,
    /// The expected critical bonus, `crit_chance * crit_damage / 100`.
    pub bonus_multiplier: u64,
}

/// The expected extra damage of critical hits, in percent.
pub open spec fn crit_bonus(crit_chance: int, crit_damage: int) -> int {
    clamp_stat(crit_chance * crit_damage / 100)
}

/// The stats in force for `base` under `mods`, keeping `health` and `mana`
/// but cutting them down to the new maxima.
pub open spec fn recomputed(base: BaseStats, mods: Seq<StatsModifyEffect>, health: int, mana: int) -> CurrentStats {
    let max_health = modified_stat(base.health as int, mods, StatKind::MaxHealth);
    let max_mana = modified_stat(base.mana as int, mods, StatKind::MaxMana);
    let crit_chance = modified_stat(base.crit_chance as int, mods, StatKind::CritChance);
    let crit_damage = modified_stat(base.crit_damage as int, mods, StatKind::CritDamage);
    CurrentStats {
        max_health: max_health as u64,
        health: (if health < max_health { health } else { max_health }) as u64,
        max_mana: max_mana as u64,
        mana: (if mana < max_mana { mana } else { max_mana }) as u64,
        strength: base.strength,
        intelligence: base.intelligence,
        defense: modified_stat(base.defense as int, mods, StatKind::Defense) as u64,
        attack_speed: modified_stat(base.attack_speed as int, mods, StatKind::AttackSpeed) as u64,
        movement_speed: modified_stat(base.movement_speed as int, mods, StatKind::MovementSpeed) as u64,
        attack_range: base.attack_range,
        crit_chance: crit_chance as u64,
        crit_damage: crit_damage as u64,
        cooldown_reduction: modified_stat(0, mods, StatKind::CooldownReduction) as u64,
        absorption: modified_stat(0, mods, StatKind::Absorption) as u64,
        additive_multiplier: clamp_stat(flat_sum(mods, StatKind::Damage)) as u64,
        multiplicative_multiplier: clamp_stat(100 + percent_sum(mods, StatKind::Damage)) as u64,
        bonus_multiplier: crit_bonus(crit_chance, crit_damage) as u64,
    }
}

/// Recomputed stats never hold more health than their maximum.
pub proof fn lemma_recomputed_health_in_range(base: BaseStats, mods: Seq<StatsModifyEffect>, health: int, mana: int)
    requires
        0 <= health <= u64::MAX,
        0 <= mana <= u64::MAX,
    ensures
        0 <= recomputed(base, mods, health, mana).health <= recomputed(base, mods, health, mana).max_health,
{
}

impl CurrentStats {
    pub open spec fn wf(&self) -> bool {
        &&& self.max_health <= STAT_MAX
        &&& self.health <= self.max_health
        &&& self.max_mana <= STAT_MAX
        &&& self.mana <= self.max_mana
        &&& self.strength <= STAT_MAX
        &&& self.intelligence <= STAT_MAX
        &&& self.defense <= STAT_MAX
        &&& self.attack_speed <= STAT_MAX
        &&& self.movement_speed <= STAT_MAX
        &&& self.attack_range <= STAT_MAX
        &&& self.crit_chance <= STAT_MAX
        &&& self.crit_damage <= STAT_MAX
        &&& self.cooldown_reduction <= STAT_MAX
        &&& self.absorption <= STAT_MAX
        &&& self.additive_multiplier <= STAT_MAX
        &&& self.multiplicative_multiplier <= STAT_MAX
        &&& self.bonus_multiplier <= STAT_MAX
    }

    /// Full health and mana, no modifier.
    pub fn from_base(base: BaseStats) -> (r: CurrentStats)
        requires
            base.wf(),
        ensures
            r.wf(),
            r == recomputed(base, Seq::empty(), base.health as int, base.mana as int),
    {
        let mods: Vec<StatsModifyEffect> = Vec::new();
        CurrentStats::recompute(base, &mods, base.health, base.mana)
    }

    /// The stats in force for `base` under `mods`, with health and mana kept
    /// (and cut down to the new maxima).
    pub fn recompute(base: BaseStats, mods: &Vec<StatsModifyEffect>, health: u64, mana: u64) -> (r: CurrentStats)
        requires
            base.wf(),
        ensures
            r.wf(),
            r == recomputed(base, mods@, health as int, mana as int),
    {
        let max_health = modified_value(base.health, mods, StatKind::MaxHealth);
        let max_mana = modified_value(base.mana, mods, StatKind::MaxMana);
        let crit_chance = modified_value(base.crit_chance, mods, StatKind::CritChance);
        let crit_damage = modified_value(base.crit_damage, mods, StatKind::CritDamage);
        let (damage_flat, damage_percent) = sums(mods, StatKind::Damage);
        assert(crit_chance * crit_damage <= STAT_MAX * STAT_MAX) by (nonlinear_arith)
            requires
                crit_chance <= STAT_MAX,
                crit_damage <= STAT_MAX,
        ;
        let bonus = crit_chance * crit_damage / 100;
        CurrentStats {
            max_health,
            health: if health < max_health { health } else { max_health },
            max_mana,
            mana: if mana < max_mana { mana } else { max_mana },
            strength: base.strength,
            intelligence: base.intelligence,
            defense: modified_value(base.defense, mods, StatKind::Defense),
            attack_speed: modified_value(base.attack_speed, mods, StatKind::AttackSpeed),
            movement_speed: modified_value(base.movement_speed, mods, StatKind::MovementSpeed),
            attack_range: base.attack_range,
            crit_chance,
            crit_damage,
            cooldown_reduction: modified_value(0, mods, StatKind::CooldownReduction),
            absorption: modified_value(0, mods, StatKind::Absorption),
            additive_multiplier: clamp_value(damage_flat),
            multiplicative_multiplier: clamp_value(100 + damage_percent),
            bonus_multiplier: clamp_value(bonus as i128),
        }
    }
}

fn clamp_value(x: i128) -> (r: u64)
    ensures
        r == clamp_stat(x as int),
{
    if x < 0 {
        0
    } else if x > STAT_MAX as i128 {
        STAT_MAX
    } else {
        x as u64
    }
}

/// The flat and the percentage sums for stat `k`.
fn sums(mods: &Vec<StatsModifyEffect>, k: StatKind) -> (r: (i128, i128))
    ensures
        r.0 == flat_sum(mods@, k),
        r.1 == percent_sum(mods@, k),
        -0x1_0000_0000_0000_0000_0000_0000 < r.0 < 0x1_0000_0000_0000_0000_0000_0000,
        -0x1_0000_0000_0000_0000_0000_0000 < r.1 < 0x1_0000_0000_0000_0000_0000_0000,
{
    let mut flat: i128 = 0;
    let mut percent: i128 = 0;
    let mut i: usize = 0;
    while i < mods.len()
        invariant
            i <= mods@.len(),
            flat == flat_sum(mods@.subrange(0, i as int), k),
            percent == percent_sum(mods@.subrange(0, i as int), k),
            -(i as int) * 0x8000_0000 <= flat <= (i as int) * 0x8000_0000,
            -(i as int) * 0x8000_0000 <= percent <= (i as int) * 0x8000_0000,
        decreases mods@.len() - i,
    {
        let (kind, op) = mods[i].parts();
        let ghost prefix = mods@.subrange(0, i + 1);
        assert(prefix.drop_last() =~= mods@.subrange(0, i as int));
        assert(prefix.last() == mods@[i as int]);
        if kind == k {
            match op {
                ModifierOp::Flat(a) => {
                    flat = flat + a as i128;
                },
                ModifierOp::Percent(p) => {
                    percent = percent + p as i128;
                },
            }
        }
        i = i + 1;
    }
    assert(mods@.subrange(0, mods@.len() as int) =~= mods@);
    (flat, percent)
}

/// Stat `k` for base value `base` under `mods`.
fn modified_value(base: u64, mods: &Vec<StatsModifyEffect>, k: StatKind) -> (r: u64)
    requires
        base <= STAT_MAX,
    ensures
        r == modified_stat(base as int, mods@, k),
        r <= STAT_MAX,
{
    let (flat, percent) = sums(mods, k);
    let value = clamp_value(base as i128 + flat);
    let factor = clamp_value(100 + percent);
    assert(value * factor <= STAT_MAX * STAT_MAX) by (nonlinear_arith)
        requires
            value <= STAT_MAX,
            factor <= STAT_MAX,
    ;
    clamp_value(((value * factor) / 100) as i128)
}

} // verus!
