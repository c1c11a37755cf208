use battle_core::damage::{Damage, DamageSource};
use battle_core::effect::{CrowdControlEffect, Effect, EffectVariants, TickEffect, TickEffectKind};
use battle_core::projectile::ProjectileBuilder;
use battle_core::stats::{BaseStats, CurrentStats, ModifierOp, StatsModifyEffect};
use battle_core::tags::{parse_damage_tags, DamageTag, DamageTags, GroupTag};
use battle_core::world::{BattleSystem, ForcedMove};

fn physical() -> DamageTags {
    DamageTags::empty().with(DamageTag::Physical)
}

fn health(system: &BattleSystem, id: u64) -> u64 {
    system.stats_of(id).unwrap().health
}

fn cc_effect(duration_ms: u64) -> Effect {
    Effect {
        id: "stun".to_string(),
        visible: true,
        modifier: Vec::new(),
        cc: vec![(CrowdControlEffect::CannotMove, duration_ms)],
        tick: Vec::new(),
    }
}

fn modifier_effect(m: StatsModifyEffect, duration_ms: u64) -> Effect {
    Effect {
        id: "buff".to_string(),
        visible: false,
        modifier: vec![(m, duration_ms)],
        cc: Vec::new(),
        tick: Vec::new(),
    }
}

fn has_effect(system: &BattleSystem, id: u64, effect: u128) -> bool {
    system.get_entity(id).unwrap().effects.contains_key(effect)
}

#[test]
fn register_creates_default_entity() {
    let mut system = BattleSystem::new();
    system.register_entity(7);
    let stats = system.stats_of(7).unwrap();
    assert_eq!(stats.health, 100);
    assert_eq!(stats.max_health, 100);
    assert_eq!(stats.defense, 10);
    assert_eq!(stats.bonus_multiplier, 50);
    assert_eq!(stats.multiplicative_multiplier, 100);
    assert_eq!(system.entity_ids(), vec![7]);
}

#[test]
fn unregister_unknown_id_is_noop() {
    let mut system = BattleSystem::new();
    system.register_entity(1);
    system.register_entity(2);
    system.unregister_entity(999);
    let mut ids = system.entity_ids();
    ids.sort();
    assert_eq!(ids, vec![1, 2]);
    assert_eq!(health(&system, 1), 100);
    assert_eq!(health(&system, 2), 100);
}

#[test]
fn unregister_removes_entity() {
    let mut system = BattleSystem::new();
    system.register_entity(1);
    system.unregister_entity(1);
    assert!(system.stats_of(1).is_none());
    assert!(system.entity_ids().is_empty());
}

#[test]
fn reregistering_replaces_entity() {
    let mut system = BattleSystem::new();
    system.register_entity(1);
    system.register_entity(2);
    system.take_damage(2, Damage::new(physical(), 50, DamageSource::Realtime(1)));
    assert_eq!(health(&system, 2), 28);
    system.register_entity(2);
    assert_eq!(health(&system, 2), 100);
}

#[test]
fn end_to_end_damage_after_one_tick() {
    let mut system = BattleSystem::new();
    system.register_entity(1);
    system.register_entity(2);
    system.request_damage(2, Damage::new(physical(), 50, DamageSource::Realtime(1)));
    assert_eq!(health(&system, 2), 100);
    let report = system.tick(16);
    // 50 * (100 + strength 10 + crit bonus 50) / 100 = 80, then 80 * 100 / (100 + defense 10) = 72.
    assert_eq!(health(&system, 2), 28);
    assert_eq!(health(&system, 1), 100);
    assert!(report.died.is_empty());
    assert_eq!(system.pending_len(), 0);
}

#[test]
fn damage_grows_with_base_amount() {
    let mut system = BattleSystem::new();
    system.register_entity(1);
    system.register_entity(2);
    system.register_entity(3);
    system.take_damage(2, Damage::new(physical(), 50, DamageSource::Realtime(1)));
    system.take_damage(3, Damage::new(physical(), 60, DamageSource::Realtime(1)));
    assert_eq!(health(&system, 2), 28);
    assert_eq!(health(&system, 3), 13);
}

#[test]
fn damage_shrinks_with_defense() {
    let mut system = BattleSystem::new();
    system.register_entity(1);
    system.register_entity(2);
    let armor = modifier_effect(StatsModifyEffect::Defense(ModifierOp::Flat(90)), 60_000);
    system.request_apply_effect(2, armor);
    system.tick(16);
    assert_eq!(system.stats_of(2).unwrap().defense, 100);
    system.request_damage(2, Damage::new(physical(), 50, DamageSource::Realtime(1)));
    system.tick(16);
    // 80 * 100 / 200 = 40
    assert_eq!(health(&system, 2), 60);
}

#[test]
fn real_damage_ignores_defense() {
    let mut system = BattleSystem::new();
    system.register_entity(1);
    system.register_entity(2);
    let kind = DamageTags::empty().with(DamageTag::Real);
    system.take_damage(2, Damage::new(kind, 50, DamageSource::Realtime(1)));
    // 50 * (100 + crit bonus 50) / 100 = 75, not reduced
    assert_eq!(health(&system, 2), 25);
}

#[test]
fn gone_attacker_hits_with_neutral_stats() {
    let mut system = BattleSystem::new();
    system.register_entity(1);
    system.register_entity(2);
    system.request_damage(2, Damage::new(physical(), 50, DamageSource::Realtime(1)));
    system.unregister_entity(1);
    system.tick(16);
    assert_eq!(health(&system, 2), 28);
}

#[test]
fn damage_to_missing_target_is_noop() {
    let mut system = BattleSystem::new();
    system.register_entity(1);
    let sid = system.new_snapshot(1, 1).unwrap();
    system.take_damage(5, Damage::new(physical(), 50, DamageSource::Snapshot(sid)));
    assert_eq!(system.snapshot_ref_count(sid), Some(1));
    assert_eq!(health(&system, 1), 100);
}

#[test]
fn instant_effect_is_removed_after_one_tick() {
    let mut system = BattleSystem::new();
    system.register_entity(1);
    let id = system.apply_effect(1, cc_effect(0)).unwrap();
    assert!(has_effect(&system, 1, id));
    assert_eq!(system.timer_of(id).unwrap().remaining, 0);
    system.tick(1);
    assert!(!has_effect(&system, 1, id));
    assert!(system.timer_of(id).is_none());
}

#[test]
fn requested_instant_effect_is_gone_after_its_tick() {
    let mut system = BattleSystem::new();
    system.register_entity(1);
    system.request_apply_effect(1, cc_effect(0));
    system.tick(1);
    assert_eq!(system.get_entity(1).unwrap().effects.len(), 0);
}

#[test]
fn effect_lasts_its_duration() {
    let mut system = BattleSystem::new();
    system.register_entity(1);
    let id = system.apply_effect(1, cc_effect(5000)).unwrap();
    for _ in 0..4 {
        system.tick(1000);
    }
    system.tick(999);
    assert!(has_effect(&system, 1, id));
    assert_eq!(system.timer_of(id).unwrap().remaining, 1000);
    system.tick(1);
    assert!(!has_effect(&system, 1, id));
    assert!(system.timer_of(id).is_none());
}

#[test]
fn half_time_scale_doubles_duration() {
    let mut system = BattleSystem::new();
    system.register_entity(1);
    system.set_timescale(500);
    assert_eq!(system.time_scale(), 500);
    let id = system.apply_effect(1, cc_effect(5000)).unwrap();
    for _ in 0..9 {
        system.tick(1000);
    }
    system.tick(999);
    assert!(has_effect(&system, 1, id));
    system.tick(1);
    assert!(!has_effect(&system, 1, id));
}

#[test]
fn periodic_payload_fires_once_per_tick() {
    let mut system = BattleSystem::new();
    system.register_entity(1);
    let burn = EffectVariants::Burn { duration_ms: 10_000_000, damage: 11 }.to_effect();
    system.apply_effect(1, burn).unwrap();
    // one huge frame: many intervals, one firing of 11 * 100 / 110 = 10
    system.tick(100_000);
    assert_eq!(health(&system, 1), 90);
    system.tick(500);
    assert_eq!(health(&system, 1), 90);
    system.tick(600);
    assert_eq!(health(&system, 1), 80);
}

#[test]
fn snapshot_is_collected_after_its_uses() {
    let mut system = BattleSystem::new();
    system.register_entity(1);
    let sid = system.new_snapshot(1, 2).unwrap();
    assert_eq!(system.snapshot_ref_count(sid), Some(2));
    let first = system.consume_snapshot(sid).unwrap();
    assert_eq!(first.stats.health, 100);
    assert!(system.consume_snapshot(sid).is_some());
    assert_eq!(system.snapshot_ref_count(sid), Some(0));
    system.snapshot_ref_decrease();
    assert!(!system.has_snapshot(sid));
    assert!(system.consume_snapshot(sid).is_none());
}

#[test]
fn snapshot_of_missing_entity_fails() {
    let mut system = BattleSystem::new();
    assert!(system.new_snapshot(3, 2).is_none());
}

#[test]
fn snapshot_count_holds_at_zero() {
    let mut system = BattleSystem::new();
    system.register_entity(1);
    let sid = system.new_snapshot(1, 0).unwrap();
    assert!(system.consume_snapshot(sid).is_some());
    assert_eq!(system.snapshot_ref_count(sid), Some(0));
}

#[test]
fn snapshot_damage_uses_frozen_stats() {
    let mut system = BattleSystem::new();
    system.register_entity(1);
    system.register_entity(2);
    let sid = system.new_snapshot(1, 1).unwrap();
    system.unregister_entity(1);
    system.request_damage(2, Damage::new(physical(), 50, DamageSource::Snapshot(sid)));
    system.tick(16);
    assert_eq!(health(&system, 2), 28);
    assert!(!system.has_snapshot(sid));
}

#[test]
fn removing_unknown_effect_is_noop() {
    let mut system = BattleSystem::new();
    system.register_entity(1);
    let id = system.apply_effect(1, cc_effect(5000)).unwrap();
    system.remove_effect(1, id.wrapping_add(1));
    system.remove_effect(2, id);
    assert!(has_effect(&system, 1, id));
    assert!(system.timer_of(id).is_some());
    system.remove_effect(1, id);
    assert!(!has_effect(&system, 1, id));
    assert!(system.timer_of(id).is_none());
}

#[test]
fn remove_effects_removes_each() {
    let mut system = BattleSystem::new();
    system.register_entity(1);
    let a = system.apply_effect(1, cc_effect(5000)).unwrap();
    let b = system.apply_effect(1, cc_effect(5000)).unwrap();
    let c = system.apply_effect(1, cc_effect(5000)).unwrap();
    system.remove_effects(1, &vec![a, c]);
    assert!(!has_effect(&system, 1, a));
    assert!(has_effect(&system, 1, b));
    assert!(!has_effect(&system, 1, c));
    assert!(system.timer_of(b).is_some());
    assert!(system.timer_of(a).is_none());
}

#[test]
fn requested_removal_happens_on_tick() {
    let mut system = BattleSystem::new();
    system.register_entity(1);
    let id = system.apply_effect(1, cc_effect(5000)).unwrap();
    system.request_remove_effect(1, id);
    assert!(has_effect(&system, 1, id));
    system.tick(1);
    assert!(!has_effect(&system, 1, id));
}

#[test]
fn effect_ids_are_random_version_four() {
    let mut system = BattleSystem::new();
    system.register_entity(1);
    let a = system.apply_effect(1, cc_effect(5000)).unwrap();
    let b = system.apply_effect(1, cc_effect(5000)).unwrap();
    assert_ne!(a, b);
    assert_eq!((a >> 76) & 0xf, 4);
    assert_eq!((b >> 76) & 0xf, 4);
}

#[test]
fn apply_to_missing_entity_fails() {
    let mut system = BattleSystem::new();
    assert!(system.apply_effect(4, cc_effect(5000)).is_none());
}

#[test]
fn health_stays_within_maximum_after_recompute() {
    let mut system = BattleSystem::new();
    system.register_entity(1);
    let debuff = modifier_effect(StatsModifyEffect::MaxHealth(ModifierOp::Flat(-50)), 60_000);
    system.request_apply_effect(1, debuff);
    system.tick(16);
    let stats = system.stats_of(1).unwrap();
    assert_eq!(stats.max_health, 50);
    assert_eq!(stats.health, 50);
}

#[test]
fn percent_modifier_applies_after_flat() {
    let base = BaseStats::default();
    let mods = vec![
        StatsModifyEffect::MaxHealth(ModifierOp::Percent(50)),
        StatsModifyEffect::MaxHealth(ModifierOp::Flat(20)),
        StatsModifyEffect::Damage(ModifierOp::Flat(15)),
        StatsModifyEffect::Damage(ModifierOp::Percent(-20)),
    ];
    let stats = CurrentStats::recompute(base, &mods, 100, 100);
    assert_eq!(stats.max_health, 180);
    assert_eq!(stats.health, 100);
    assert_eq!(stats.additive_multiplier, 15);
    assert_eq!(stats.multiplicative_multiplier, 80);
}

#[test]
fn stats_clamp_at_zero() {
    let base = BaseStats::default();
    let mods = vec![StatsModifyEffect::Defense(ModifierOp::Flat(-500))];
    let stats = CurrentStats::recompute(base, &mods, 100, 100);
    assert_eq!(stats.defense, 0);
}

#[test]
fn lethal_damage_destroys_entity() {
    let mut system = BattleSystem::new();
    system.register_entity(1);
    system.register_entity(2);
    let kind = DamageTags::empty().with(DamageTag::Real);
    system.request_damage(2, Damage::new(kind, 1000, DamageSource::Realtime(1)));
    let report = system.tick(16);
    assert_eq!(report.died, vec![2]);
    assert!(system.stats_of(2).is_none());
    assert!(system.stats_of(1).is_some());
}

#[test]
fn regeneration_is_capped() {
    let mut system = BattleSystem::new();
    system.register_entity(1);
    system.register_entity(2);
    system.take_damage(1, Damage::new(physical(), 50, DamageSource::Realtime(2)));
    assert_eq!(health(&system, 1), 28);
    let regen = Effect {
        id: "regen".to_string(),
        visible: true,
        modifier: Vec::new(),
        cc: Vec::new(),
        tick: vec![(
            TickEffect { kind: TickEffectKind::HealthRegen(50), interval_ms: 100, interval_counter: 0 },
            1_000_000,
        )],
    };
    system.apply_effect(1, regen).unwrap();
    system.tick(101);
    assert_eq!(health(&system, 1), 78);
    system.tick(101);
    assert_eq!(health(&system, 1), 100);
}

#[test]
fn charm_pushes_and_restricts() {
    let mut system = BattleSystem::new();
    system.register_entity(1);
    let charm = EffectVariants::Charm { duration_ms: 10_000 }.to_effect();
    assert_eq!(charm.id, "charm");
    assert_eq!(charm.cc.len(), 2);
    system.apply_effect(1, charm).unwrap();
    let report = system.tick(500);
    assert!(report.moves.is_empty());
    let report = system.tick(600);
    assert_eq!(report.moves, vec![ForcedMove { entity: 1, dx: 1, dy: 1 }]);
}

#[test]
fn deferred_effect_is_applied_next_tick() {
    let mut system = BattleSystem::new();
    system.register_entity(1);
    let carrier = Effect {
        id: "curse".to_string(),
        visible: true,
        modifier: Vec::new(),
        cc: Vec::new(),
        tick: vec![(
            TickEffect {
                kind: TickEffectKind::DeferredEffect(EffectVariants::Invincible { duration_ms: 5000 }),
                interval_ms: 100,
                interval_counter: 0,
            },
            150,
        )],
    };
    system.apply_effect(1, carrier).unwrap();
    system.tick(101);
    assert_eq!(system.pending_len(), 1);
    assert_eq!(system.get_entity(1).unwrap().effects.len(), 1);
    system.tick(1);
    assert_eq!(system.pending_len(), 0);
    assert_eq!(system.get_entity(1).unwrap().effects.len(), 2);
    system.tick(48);
    assert_eq!(system.get_entity(1).unwrap().effects.len(), 1);
}

#[test]
fn named_effects_describe_their_payloads() {
    let invincible = EffectVariants::Invincible { duration_ms: 3000 }.to_effect();
    assert_eq!(invincible.id, "invincible");
    assert!(invincible.visible);
    assert_eq!(invincible.cc.len(), 2);
    assert_eq!(invincible.cc[0], (CrowdControlEffect::CannotBeDamaged, 3000));
    let burn = EffectVariants::Burn { duration_ms: 2000, damage: 7 }.to_effect();
    assert_eq!(burn.id, "burn");
    assert_eq!(burn.tick[0].0.kind, TickEffectKind::MagicalDamage(7));
    assert_eq!(burn.tick[0].0.interval_ms, 1000);
}

#[test]
fn damage_tags_parse_from_names() {
    assert_eq!(DamageTag::from_name("Physical"), Some(DamageTag::Physical));
    assert_eq!(DamageTag::from_name("Projectile"), Some(DamageTag::Projectile));
    assert_eq!(DamageTag::from_name("physical"), None);
    assert_eq!(DamageTag::Magic.name(), "Magic");
    let names = vec!["Magic".to_string(), "Real".to_string()];
    let tags = parse_damage_tags(&names).unwrap();
    assert!(tags.contains(DamageTag::Magic));
    assert!(tags.contains(DamageTag::Real));
    assert!(!tags.contains(DamageTag::Physical));
    let bad = vec!["Magic".to_string(), "Fire".to_string()];
    assert!(parse_damage_tags(&bad).is_none());
    assert!(parse_damage_tags(&Vec::new()).is_some());
}

#[test]
fn group_names() {
    assert_eq!(GroupTag::Damageable.name(), "Damageable");
    assert_eq!(GroupTag::Obstacle.name(), "Obstacle");
}

#[test]
fn projectile_with_live_source() {
    let mut system = BattleSystem::new();
    system.register_entity(1);
    system.register_entity(2);
    let builder = ProjectileBuilder::init().add_damage_tag(DamageTag::Physical).set_damage(50);
    let mut projectile = builder.build(&mut system, 1).unwrap();
    assert_eq!(projectile.damage.unwrap().source, DamageSource::Realtime(1));
    projectile.hit(&mut system, 2);
    assert!(projectile.damage.is_none());
    assert_eq!(system.pending_len(), 1);
    system.tick(16);
    assert_eq!(health(&system, 2), 28);
}

#[test]
fn projectile_volley_with_snapshot() {
    let mut system = BattleSystem::new();
    system.register_entity(1);
    system.register_entity(2);
    let builder = ProjectileBuilder::init()
        .add_damage_tag(DamageTag::Physical)
        .set_damage(50)
        .set_snapshot(true)
        .set_amount(2);
    let mut first = builder.build(&mut system, 1).unwrap();
    let mut second = first;
    let sid = match first.damage.unwrap().source {
        DamageSource::Snapshot(id) => id,
        DamageSource::Realtime(_) => panic!("expected a snapshot source"),
    };
    assert_eq!(system.snapshot_ref_count(sid), Some(2));
    first.hit(&mut system, 2);
    system.tick(16);
    assert_eq!(system.snapshot_ref_count(sid), Some(1));
    second.despawn(&mut system);
    assert_eq!(system.snapshot_ref_count(sid), Some(0));
    system.snapshot_ref_decrease();
    assert!(!system.has_snapshot(sid));
    assert!(ProjectileBuilder::init().set_snapshot(true).build(&mut system, 9).is_none());
}

#[test]
fn unregister_drops_effect_timers() {
    let mut system = BattleSystem::new();
    system.register_entity(1);
    system.register_entity(2);
    let a = system.apply_effect(1, cc_effect(5000)).unwrap();
    let b = system.apply_effect(2, cc_effect(5000)).unwrap();
    system.unregister_entity(1);
    assert!(system.timer_of(a).is_none());
    assert!(system.timer_of(b).is_some());
}

#[test]
fn death_drops_effect_timers() {
    let mut system = BattleSystem::new();
    system.register_entity(1);
    system.register_entity(2);
    let a = system.apply_effect(2, cc_effect(5000)).unwrap();
    let kind = DamageTags::empty().with(DamageTag::Real);
    system.request_damage(2, Damage::new(kind, 1000, DamageSource::Realtime(1)));
    let report = system.tick(16);
    assert_eq!(report.died, vec![2]);
    assert!(system.timer_of(a).is_none());
}

#[test]
fn removal_from_missing_target_keeps_timers() {
    let mut system = BattleSystem::new();
    system.register_entity(1);
    let a = system.apply_effect(1, cc_effect(5000)).unwrap();
    system.remove_effect(9, a);
    system.remove_effects(9, &vec![a]);
    assert!(system.timer_of(a).is_some());
    assert!(has_effect(&system, 1, a));
}

#[test]
fn first_draws_succeed_on_empty_system() {
    let mut system = BattleSystem::new();
    system.register_entity(1);
    assert!(system.apply_effect(1, cc_effect(10)).is_some());
    assert!(system.new_snapshot(1, 1).is_some());
}
