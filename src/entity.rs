use vstd::prelude::*;
use crate::effect::{advance_counter, ActiveEffect, TickEffect, TickEffectKind};
use crate::equipment::{unknown_name, Equipment, Skill, Weapon};
use crate::idmap::IdMap;
use crate::stats::{recomputed, BaseStats, CurrentStats, StatsModifyEffect};

verus! {

/// The combat state of one registered entity.
pub struct EntityState {
    /// The identifier the host knows the entity by.
    pub external_id: u64,
    pub base_stats: BaseStats,
    pub stats: CurrentStats,
    pub weapon: Weapon,
    pub eq1: Equipment,
    pub eq2: Equipment,
    pub eq3: Equipment,
    pub eq4: Equipment,
    /// The applied effects, by runtime id.
    pub effects: IdMap<ActiveEffect>,
}

/// A frozen, independent copy of an entity's combat state.
pub struct EntitySnapshot {
    pub stats: CurrentStats,
    pub weapon: Weapon,
    pub eq1: Equipment,
    pub eq2: Equipment,
    pub eq3: Equipment,
    pub eq4: Equipment,
    /// Every active modifier effect at the time of the copy.
    pub effects: Vec<StatsModifyEffect>,
}

/// `a` and `b` differ at most in their effects.
pub open spec fn same_but_effects(a: EntityState, b: EntityState) -> bool {
    &&& a.external_id == b.external_id
    &&& a.base_stats == b.base_stats
    &&& a.stats == b.stats
    &&& a.weapon == b.weapon
    &&& a.eq1 == b.eq1
    &&& a.eq2 == b.eq2
    &&& a.eq3 == b.eq3
    &&& a.eq4 == b.eq4
}

/// `a` and `b` differ at most in their current stats.
pub open spec fn same_but_stats(a: EntityState, b: EntityState) -> bool {
    &&& a.external_id == b.external_id
    &&& a.base_stats == b.base_stats
    &&& a.weapon == b.weapon
    &&& a.eq1 == b.eq1
    &&& a.eq2 == b.eq2
    &&& a.eq3 == b.eq3
    &&& a.eq4 == b.eq4
    &&& a.effects == b.effects
}

/// A periodic payload after a step of scaled time.
pub open spec fn advanced_tick(t: TickEffect, step: int) -> TickEffect {
    TickEffect {
        interval_counter: advance_counter(t.interval_counter as int, t.interval_ms as int, step).0 as u128,
        ..t
    }
}

pub open spec fn advanced_ticks(s: Seq<TickEffect>, step: int) -> Seq<TickEffect> {
    s.map_values(|t: TickEffect| advanced_tick(t, step))
}

/// The kinds of the payloads in `ticks` that fire in a step, in order.
pub open spec fn fired_kinds(ticks: Seq<TickEffect>, step: int) -> Seq<TickEffectKind>
    decreases ticks.len(),
{
    if ticks.len() == 0 {
        Seq::empty()
    } else {
        let before = fired_kinds(ticks.drop_last(), step);
        let t = ticks.last();
        if advance_counter(t.interval_counter as int, t.interval_ms as int, step).1 {
            before.push(t.kind)
        } else {
            before
        }
    }
}

/// In one step each periodic payload of an effect fires at most once,
/// however long the step: the firings number at most the payloads.
pub proof fn lemma_one_firing_per_payload(ticks: Seq<TickEffect>, step: int)
    ensures
        fired_kinds(ticks, step).len() <= ticks.len(),
    decreases ticks.len(),
{
    if ticks.len() > 0 {
        lemma_one_firing_per_payload(ticks.drop_last(), step);
    }
}

/// The kinds of the payloads that fire in a step, effect after effect.
pub open spec fn effects_fired(effects: Seq<(u128, ActiveEffect)>, step: int) -> Seq<TickEffectKind>
    decreases effects.len(),
{
    if effects.len() == 0 {
        Seq::empty()
    } else {
        effects_fired(effects.drop_last(), step) + fired_kinds(effects.last().1.tick@, step)
    }
}

/// `a` is `b` with its periodic payloads advanced by `step`.
pub open spec fn is_advanced(a: ActiveEffect, b: ActiveEffect, step: int) -> bool {
    &&& a.metadata == b.metadata
    &&& a.modifier == b.modifier
    &&& a.cc == b.cc
    &&& a.tick@ == advanced_ticks(b.tick@, step)
}

/// Advances every periodic payload of an applied effect by `step` timer
/// units; returns the payloads that fire.
pub fn advance_active(a: &mut ActiveEffect, step: u128) -> (fired: Vec<TickEffectKind>)
    ensures
        is_advanced(*final(a), *old(a), step as int),
        fired@ == fired_kinds(old(a).tick@, step as int),
{
    let mut fired: Vec<TickEffectKind> = Vec::new();
    let mut j: usize = 0;
    while j < a.tick.len()
        invariant
            j <= a.tick@.len(),
            a.tick@.len() == old(a).tick@.len(),
            a.metadata == old(a).metadata,
            a.modifier == old(a).modifier,
            a.cc == old(a).cc,
            forall|x: int| 0 <= x < j ==> a.tick@[x] == advanced_tick(old(a).tick@[x], step as int),
            forall|x: int| j <= x < a.tick@.len() ==> a.tick@[x] == old(a).tick@[x],
            fired@ == fired_kinds(old(a).tick@.subrange(0, j as int), step as int),
        decreases a.tick@.len() - j,
    {
        let mut t = a.tick[j];
        if t.advance(step) {
            fired.push(t.kind);
        }
        a.tick.set(j, t);
        j = j + 1;
        assert(old(a).tick@.subrange(0, j as int).drop_last() =~= old(a).tick@.subrange(0, j - 1));
    }
    assert(old(a).tick@.subrange(0, old(a).tick@.len() as int) =~= old(a).tick@);
    assert(a.tick@ =~= advanced_ticks(old(a).tick@, step as int));
    fired
}

/// The modifiers of the effects in `effects`, one effect after another.
pub open spec fn effect_modifiers(effects: Seq<(u128, ActiveEffect)>) -> Seq<StatsModifyEffect>
    decreases effects.len(),
{
    if effects.len() == 0 {
        Seq::empty()
    } else {
        effect_modifiers(effects.drop_last()) + effects.last().1.modifier@
    }
}

impl EntityState {
    pub open spec fn wf(&self) -> bool {
        &&& self.base_stats.wf()
        &&& self.stats.wf()
        &&& self.effects.wf()
    }

    /// The modifiers of the active effects, in the order the effects are stored.
    pub open spec fn active_modifiers(&self) -> Seq<StatsModifyEffect> {
        effect_modifiers(self.effects.entry_seq())
    }

    /// Every modifier in force: the weapon's, the four slots', then those of
    /// the active effects.
    pub open spec fn all_modifiers(&self) -> Seq<StatsModifyEffect> {
        self.weapon.stats@ + self.eq1.stats@ + self.eq2.stats@ + self.eq3.stats@ + self.eq4.stats@
            + self.active_modifiers()
    }

    /// A newly registered entity: default base stats, full health and mana,
    /// empty slots and no effect.
    pub open spec fn is_fresh(&self, external_id: u64) -> bool {
        &&& self.external_id == external_id
        &&& self.base_stats == BaseStats::spec_default()
        &&& self.stats == recomputed(BaseStats::spec_default(), Seq::empty(), 100, 100)
        &&& self.weapon.stats@.len() == 0 && self.weapon.skill == Skill::Nothing
        &&& self.weapon.id@ == unknown_name()
        &&& self.eq1.stats@.len() == 0 && self.eq2.stats@.len() == 0
        &&& self.eq3.stats@.len() == 0 && self.eq4.stats@.len() == 0
        &&& self.effects@ == Map::<u128, ActiveEffect>::empty()
    }

    pub fn new(external_id: u64) -> (r: EntityState)
        ensures
            r.wf(),
            r.is_fresh(external_id),
    {
        let base_stats = BaseStats::default();
        EntityState {
            external_id,
            base_stats,
            stats: CurrentStats::from_base(base_stats),
            weapon: Weapon::empty_slot(),
            eq1: Equipment::empty_slot(),
            eq2: Equipment::empty_slot(),
            eq3: Equipment::empty_slot(),
            eq4: Equipment::empty_slot(),
            effects: IdMap::new(),
        }
    }

    /// The modifiers of the active effects, gathered into one list.
    pub fn collect_modifiers(&self) -> (r: Vec<StatsModifyEffect>)
        requires
            self.wf(),
        ensures
            r@ == self.active_modifiers(),
    {
        let mut r: Vec<StatsModifyEffect> = Vec::new();
        let mut i: usize = 0;
        while i < self.effects.len()
            invariant
                i <= self.effects.entry_seq().len(),
                r@ == effect_modifiers(self.effects.entry_seq().subrange(0, i as int)),
            decreases self.effects.entry_seq().len() - i,
        {
            let e = self.effects.value_at(i);
            let mut j: usize = 0;
            let ghost before = r@;
            while j < e.modifier.len()
                invariant
                    j <= e.modifier@.len(),
                    r@ == before + e.modifier@.subrange(0, j as int),
                decreases e.modifier@.len() - j,
            {
                r.push(e.modifier[j]);
                j = j + 1;
                assert(r@ =~= before + e.modifier@.subrange(0, j as int));
            }
            let ghost s = self.effects.entry_seq().subrange(0, i + 1);
            assert(s.drop_last() =~= self.effects.entry_seq().subrange(0, i as int));
            assert(e.modifier@.subrange(0, e.modifier@.len() as int) =~= e.modifier@);
            i = i + 1;
        }
        assert(self.effects.entry_seq().subrange(0, self.effects.entry_seq().len() as int)
            =~= self.effects.entry_seq());
        r
    }

    /// Every modifier in force, gathered into one list.
    pub fn gather_all_modifiers(&self) -> (r: Vec<StatsModifyEffect>)
        requires
            self.wf(),
        ensures
            r@ == self.all_modifiers(),
    {
        let mut r = self.weapon.stats.clone();
        let mut tail = self.eq1.stats.clone();
        r.append(&mut tail);
        let mut tail = self.eq2.stats.clone();
        r.append(&mut tail);
        let mut tail = self.eq3.stats.clone();
        r.append(&mut tail);
        let mut tail = self.eq4.stats.clone();
        r.append(&mut tail);
        let mut tail = self.collect_modifiers();
        r.append(&mut tail);
        assert(r@ =~= self.all_modifiers());
        r
    }

    /// Advances the periodic payloads of every applied effect by `step`
    /// timer units; returns the payloads that fire.
    pub fn advance_all_ticks(&mut self, step: u128) -> (fired: Vec<TickEffectKind>)
        requires
            old(self).wf(),
        ensures
            final(self).wf(),
            same_but_effects(*final(self), *old(self)),
            final(self).effects@.dom() == old(self).effects@.dom(),
            forall|id: u128| #[trigger] old(self).effects@.contains_key(id) ==> is_advanced(
                final(self).effects@[id],
                old(self).effects@[id],
                step as int,
            ),
            fired@ == effects_fired(old(self).effects.entry_seq(), step as int),
    {
        let mut fired: Vec<TickEffectKind> = Vec::new();
        let ghost start = self.effects@;
        let keys = self.effects.keys();
        let mut i: usize = 0;
        while i < keys.len()
            invariant
                self.wf(),
                same_but_effects(*self, *old(self)),
                i <= keys@.len(),
                keys@.no_duplicates(),
                forall|k: u128| start.contains_key(k) <==> keys@.contains(k),
                self.effects@.dom() == start.dom(),
                forall|j: int| 0 <= j < i ==> is_advanced(self.effects@[#[trigger] keys@[j]], start[keys@[j]], step as int),
                forall|j: int| i <= j < keys@.len() ==> self.effects@[#[trigger] keys@[j]] == start[keys@[j]],
                keys@ == old(self).effects.entry_seq().map_values(|e: (u128, ActiveEffect)| e.0),
                old(self).wf(),
                start == old(self).effects@,
                fired@ == effects_fired(old(self).effects.entry_seq().subrange(0, i as int), step as int),
            decreases keys@.len() - i,
        {
            let k = keys[i];
            assert(keys@.contains(k));
            proof {
                old(self).effects.lemma_entry(i as int);
                assert(keys@[i as int] == old(self).effects.entry_seq()[i as int].0);
            }
            let mut a = self.effects.remove(k).unwrap();
            assert(a == old(self).effects.entry_seq()[i as int].1);
            let mut more = advance_active(&mut a, step);
            fired.append(&mut more);
            self.effects.insert(k, a);
            proof {
                let es = old(self).effects.entry_seq();
                assert(es.subrange(0, i + 1).drop_last() =~= es.subrange(0, i as int));
                assert(es.subrange(0, i + 1).last() == es[i as int]);
                assert(self.effects@.dom() =~= start.dom());
                assert forall|j: int| 0 <= j < i + 1 implies is_advanced(self.effects@[#[trigger] keys@[j]], start[keys@[j]], step as int) by {
                    if j < i {
                        assert(keys@[j] != k);
                    }
                }
                assert forall|j: int| i + 1 <= j < keys@.len() implies self.effects@[#[trigger] keys@[j]] == start[keys@[j]] by {
                    assert(keys@[j] != k);
                }
            }
            i = i + 1;
        }
        proof {
            let es = old(self).effects.entry_seq();
            assert(es.subrange(0, es.len() as int) =~= es);
            assert forall|id: u128| #[trigger] start.contains_key(id) implies is_advanced(
                self.effects@[id], start[id], step as int) by {
                assert(keys@.contains(id));
                let j = choose|j: int| 0 <= j < keys@.len() && keys@[j] == id;
                assert(is_advanced(self.effects@[keys@[j]], start[keys@[j]], step as int));
            }
        }
        fired
    }

    /// The stats in force for the current modifiers, health and mana kept.
    pub fn refresh_stats(&mut self)
        requires
            old(self).wf(),
        ensures
            final(self).wf(),
            final(self).stats == recomputed(
                old(self).base_stats,
                old(self).all_modifiers(),
                old(self).stats.health as int,
                old(self).stats.mana as int,
            ),
            final(self).stats.health <= final(self).stats.max_health,
            final(self).external_id == old(self).external_id,
            final(self).base_stats == old(self).base_stats,
            final(self).weapon == old(self).weapon,
            final(self).eq1 == old(self).eq1,
            final(self).eq2 == old(self).eq2,
            final(self).eq3 == old(self).eq3,
            final(self).eq4 == old(self).eq4,
            final(self).effects == old(self).effects,
    {
        let mods = self.gather_all_modifiers();
        self.stats = CurrentStats::recompute(self.base_stats, &mods, self.stats.health, self.stats.mana);
    }
}

impl EntitySnapshot {
    /// `self` is a copy of the combat state of `e`.
    pub open spec fn copies(&self, e: &EntityState) -> bool {
        &&& self.stats == e.stats
        &&& self.weapon.same(&e.weapon)
        &&& self.eq1.same(&e.eq1)
        &&& self.eq2.same(&e.eq2)
        &&& self.eq3.same(&e.eq3)
        &&& self.eq4.same(&e.eq4)
        &&& self.effects@ == e.active_modifiers()
    }

    /// Two snapshots hold the same data.
    pub open spec fn same(&self, other: &EntitySnapshot) -> bool {
        &&& self.stats == other.stats
        &&& self.weapon.same(&other.weapon)
        &&& self.eq1.same(&other.eq1)
        &&& self.eq2.same(&other.eq2)
        &&& self.eq3.same(&other.eq3)
        &&& self.eq4.same(&other.eq4)
        &&& self.effects@ == other.effects@
    }

    pub fn duplicate(&self) -> (r: EntitySnapshot)
        ensures
            r.same(self),
    {
        let effects = self.effects.clone();
        assert(effects@ =~= self.effects@);
        EntitySnapshot {
            stats: self.stats,
            weapon: self.weapon.duplicate(),
            eq1: self.eq1.duplicate(),
            eq2: self.eq2.duplicate(),
            eq3: self.eq3.duplicate(),
            eq4: self.eq4.duplicate(),
            effects,
        }
    }
}

/// Copies the combat state of an entity: its stats, weapon, slots and every
/// active modifier effect.
pub fn make_snapshot(e: &EntityState) -> (r: EntitySnapshot)
    requires
        e.wf(),
    ensures
        r.copies(e),
{
    EntitySnapshot {
        stats: e.stats,
        weapon: e.weapon.duplicate(),
        eq1: e.eq1.duplicate(),
        eq2: e.eq2.duplicate(),
        eq3: e.eq3.duplicate(),
        eq4: e.eq4.duplicate(),
        effects: e.collect_modifiers(),
    }
}

} // verus!
