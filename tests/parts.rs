use battle_core::damage::{compute_damage, mitigate, Damage, DamageSource};
use battle_core::effect::{Effect, EffectVariants, TickEffect, TickEffectKind};
use battle_core::entity::{make_snapshot, EntityState};
use battle_core::equipment::{Equipment, Skill, Weapon};
use battle_core::idmap::IdMap;
use battle_core::stats::{BaseStats, CurrentStats, ModifierOp, StatsModifyEffect, STAT_MAX};
use battle_core::tags::{DamageTag, DamageTags, EffectTag};
use battle_core::world::BattleSystem;

fn neutral() -> CurrentStats {
    CurrentStats::from_base(BaseStats::default())
}

fn ticking(kind: TickEffectKind, interval_ms: u64, duration_ms: u64) -> Effect {
    Effect {
        id: "periodic".to_string(),
        visible: false,
        modifier: Vec::new(),
        cc: Vec::new(),
        tick: vec![(TickEffect { kind, interval_ms, interval_counter: 0 }, duration_ms)],
    }
}

#[test]
fn id_map_insert_get_remove() {
    let mut m: IdMap<u32> = IdMap::new();
    m.insert(5, 50);
    m.insert(9, 90);
    m.insert(5, 55);
    assert_eq!(m.len(), 2);
    assert_eq!(m.get(5), Some(&55));
    assert!(m.contains_key(9));
    assert_eq!(m.keys(), vec![5, 9]);
    assert_eq!(m.remove(5), Some(55));
    assert_eq!(m.remove(5), None);
    assert!(!m.contains_key(5));
    assert_eq!(m.keys(), vec![9]);
    assert_eq!(*m.value_at(0), 90);
}

#[test]
fn damage_formula_values() {
    let a = neutral();
    let kind = DamageTags::empty().with(DamageTag::Physical);
    assert_eq!(compute_damage(kind, 50, &a, &a), 72);
    assert_eq!(compute_damage(kind, 0, &a, &a), 0);
    let magic = DamageTags::empty().with(DamageTag::Magic).with(DamageTag::Physical);
    // 50 * (100 + 10 + 10 + 50) / 100 = 85, 85 * 100 / 110 = 77
    assert_eq!(compute_damage(magic, 50, &a, &a), 77);
    let mut strong = a;
    strong.multiplicative_multiplier = 200;
    assert_eq!(compute_damage(kind, 50, &strong, &a), 145);
}

#[test]
fn absorption_takes_flat_amount() {
    let mut t = neutral();
    t.absorption = 5;
    assert_eq!(mitigate(DamageTags::empty(), 110, &t), 95);
    t.absorption = 500;
    assert_eq!(mitigate(DamageTags::empty(), 110, &t), 0);
}

#[test]
fn largest_amounts_do_not_overflow() {
    let mut a = neutral();
    a.strength = STAT_MAX;
    a.additive_multiplier = STAT_MAX;
    a.bonus_multiplier = STAT_MAX;
    a.multiplicative_multiplier = STAT_MAX;
    let kind = DamageTags::empty().with(DamageTag::Physical).with(DamageTag::Real);
    let dealt = compute_damage(kind, u64::MAX, &a, &neutral());
    assert!(dealt > u64::MAX as u128);
    let mut system = BattleSystem::new();
    system.register_entity(1);
    system.take_damage(1, Damage::new(kind, u64::MAX, DamageSource::Realtime(2)));
    assert_eq!(system.stats_of(1).unwrap().health, 0);
}

#[test]
fn fresh_entity_has_empty_slots() {
    let e = EntityState::new(3);
    assert_eq!(e.external_id, 3);
    assert_eq!(e.weapon.id, "Unknown");
    assert_eq!(e.weapon.skill, Skill::Nothing);
    assert_eq!(e.eq1.id, "Unknown");
    assert!(e.eq4.stats.is_empty());
    assert_eq!(e.effects.len(), 0);
    assert_eq!(e.stats, neutral());
}

#[test]
fn snapshot_copies_entity_state() {
    let mut e = EntityState::new(3);
    e.eq2 = Equipment { stats: vec![StatsModifyEffect::Defense(ModifierOp::Flat(5))], perks: 2, id: "shield".to_string() };
    e.weapon = Weapon { stats: Vec::new(), perks: 1, skill: Skill::Nothing, id: "bow".to_string() };
    let snap = make_snapshot(&e);
    assert_eq!(snap.eq2.id, "shield");
    assert_eq!(snap.eq2.perks, 2);
    assert_eq!(snap.weapon.id, "bow");
    assert_eq!(snap.stats, e.stats);
    assert!(snap.effects.is_empty());
    let copy = snap.duplicate();
    assert_eq!(copy.eq2.stats, snap.eq2.stats);
}

#[test]
fn equipment_counts_in_recompute() {
    let mut e = EntityState::new(3);
    e.eq1 = Equipment { stats: vec![StatsModifyEffect::MaxHealth(ModifierOp::Flat(40))], perks: 0, id: "ring".to_string() };
    e.refresh_stats();
    assert_eq!(e.stats.max_health, 140);
    assert_eq!(e.stats.health, 100);
    assert_eq!(e.gather_all_modifiers().len(), 1);
}

#[test]
fn named_effects_by_name() {
    assert_eq!(
        EffectVariants::from_name("burn", 3000, 4),
        Some(EffectVariants::Burn { duration_ms: 3000, damage: 4 })
    );
    assert_eq!(
        EffectVariants::from_name("charm", 3000, 4),
        Some(EffectVariants::Charm { duration_ms: 3000 })
    );
    assert_eq!(
        EffectVariants::from_name("invincible", 10, 0),
        Some(EffectVariants::Invincible { duration_ms: 10 })
    );
    assert_eq!(EffectVariants::from_name("Burn", 3000, 4), None);
}

#[test]
fn effect_timer_update_alone() {
    let mut system = BattleSystem::new();
    system.register_entity(1);
    let a = system.apply_effect(1, ticking(TickEffectKind::ManaRegen(1), 10, 300)).unwrap();
    let b = system.apply_effect(1, ticking(TickEffectKind::ManaRegen(1), 10, 100)).unwrap();
    system.effect_timer_update(100);
    assert_eq!(system.timer_of(a).unwrap().remaining, 200_000);
    assert!(system.timer_of(b).is_none());
    let e = system.get_entity(1).unwrap();
    assert!(e.effects.contains_key(a));
    assert!(!e.effects.contains_key(b));
}

#[test]
fn tick_effect_update_reports_firings() {
    let mut system = BattleSystem::new();
    system.register_entity(1);
    system.register_entity(2);
    system.apply_effect(1, ticking(TickEffectKind::ManaRegen(3), 10, 5000)).unwrap();
    system.apply_effect(2, ticking(TickEffectKind::PhysicalDamage(4), 100, 5000)).unwrap();
    let fired = system.tick_effect_update(50);
    assert_eq!(fired, vec![(1, TickEffectKind::ManaRegen(3))]);
    let fired = system.tick_effect_update(51);
    assert_eq!(fired.len(), 2);
    assert!(fired.contains(&(2, TickEffectKind::PhysicalDamage(4))));
}

#[test]
fn fire_payload_effects() {
    let mut system = BattleSystem::new();
    system.register_entity(1);
    system.take_damage(1, Damage::new(DamageTags::empty(), 20, DamageSource::Realtime(9)));
    // 20 * 150 / 100 = 30, 30 * 100 / 110 = 27
    assert_eq!(system.stats_of(1).unwrap().health, 73);
    assert!(system.fire_payload(1, TickEffectKind::HealthRegen(5)).is_none());
    assert_eq!(system.stats_of(1).unwrap().health, 78);
    system.fire_payload(1, TickEffectKind::MagicalDamage(22));
    assert_eq!(system.stats_of(1).unwrap().health, 58);
    system.fire_payload(1, TickEffectKind::ManaRegen(5));
    assert_eq!(system.stats_of(1).unwrap().mana, 100);
    system.fire_payload(1, TickEffectKind::DeferredEffect(EffectVariants::Charm { duration_ms: 5 }));
    assert_eq!(system.pending_len(), 1);
    assert!(system.fire_payload(4, TickEffectKind::ForceMove(2, 3)).is_none());
    let m = system.fire_payload(1, TickEffectKind::ForceMove(2, 3)).unwrap();
    assert_eq!((m.entity, m.dx, m.dy), (1, 2, 3));
}

#[test]
fn death_check_alone() {
    let mut system = BattleSystem::new();
    system.register_entity(1);
    system.register_entity(2);
    let real = DamageTags::empty().with(DamageTag::Real);
    system.take_damage(1, Damage::new(real, 500, DamageSource::Realtime(2)));
    assert_eq!(system.stats_of(1).unwrap().health, 0);
    assert_eq!(system.current_stats_update(), vec![1]);
    assert_eq!(system.entity_ids(), vec![2]);
    assert!(system.current_stats_update().is_empty());
}

#[test]
fn flush_handles_events_in_order() {
    let mut system = BattleSystem::new();
    system.request_damage(1, Damage::new(DamageTags::empty(), 20, DamageSource::Realtime(9)));
    system.register_entity(1);
    system.request_damage(1, Damage::new(DamageTags::empty(), 20, DamageSource::Realtime(9)));
    system.request_damage(1, Damage::new(DamageTags::empty(), 20, DamageSource::Realtime(9)));
    assert_eq!(system.pending_len(), 3);
    system.flush_events();
    assert_eq!(system.pending_len(), 0);
    assert_eq!(system.stats_of(1).unwrap().health, 19);
}

#[test]
fn stats_recompute_keeps_health() {
    let mut system = BattleSystem::new();
    system.register_entity(1);
    let buff = Effect {
        id: "fortify".to_string(),
        visible: true,
        modifier: vec![
            (StatsModifyEffect::MaxHealth(ModifierOp::Percent(100)), 1000),
            (StatsModifyEffect::CritChance(ModifierOp::Flat(50)), 1000),
        ],
        cc: Vec::new(),
        tick: Vec::new(),
    };
    system.apply_effect(1, buff).unwrap();
    system.effects_changed_update();
    let stats = system.stats_of(1).unwrap();
    assert_eq!(stats.max_health, 200);
    assert_eq!(stats.health, 100);
    assert_eq!(stats.crit_chance, 100);
    assert_eq!(stats.bonus_multiplier, 100);
}

#[test]
fn tag_sets_from_lists() {
    let tags = DamageTags::from_tags(&vec![DamageTag::Skill, DamageTag::Projectile, DamageTag::Skill]);
    assert!(tags.contains(DamageTag::Skill));
    assert!(tags.contains(DamageTag::Projectile));
    assert!(!tags.contains(DamageTag::Magic));
    assert!(!DamageTags::empty().contains(DamageTag::Real));
}

#[test]
fn crowd_control_tags() {
    assert!(EffectTag::Stun.is_crowd_control());
    assert!(EffectTag::Immune(DamageTags::empty()).is_crowd_control());
    assert!(!EffectTag::Haste.is_crowd_control());
    assert!(!EffectTag::DoT(DamageTags::empty()).is_crowd_control());
}
