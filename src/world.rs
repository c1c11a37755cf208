use vstd::prelude::*;
use vstd::arithmetic::mul::{lemma_mul_is_commutative, lemma_mul_is_distributive_add, lemma_mul_nonnegative};
use crate::damage::{compute_damage, damage_dealt, health_after, mitigate, Damage, DamageSource};
use crate::effect::{is_active_of, timer_duration, ActiveEffect, Effect, TickEffectKind, SCALE_UNIT};
use crate::entity::{effects_fired, is_advanced, make_snapshot, same_but_effects, same_but_stats, EntitySnapshot, EntityState};
use crate::idmap::IdMap;
use crate::snapshot::{collected, decremented, SnapshotEntry};
use crate::timer::{
    decayed, expired_ids, expires, initial_timer, lemma_total_nonnegative, total, without_owner, EffectTimer,
};
use crate::stats::{recomputed, BaseStats, CurrentStats};
use crate::tags::DamageTags;

verus! {

/// Relies on `uuid::Uuid::new_v4`, read with `Uuid::as_u128`: a random
/// version-4 UUID, whose version field (bits 76 to 79) is 4.
#[verifier::external_body]
fn draw_uuid() -> (r: u128)
    ensures
        (r >> 76u128) & 0xfu128 == 4,
{
    uuid::Uuid::new_v4().as_u128()
}

/// How many random ids are drawn before giving up on finding a fresh one.
pub const ID_DRAWS: usize = 4;

/// The key under which an entity is stored.
pub open spec fn key_of(external_id: u64) -> u128 {
    external_id as u128
}

/// The time scale, in per mille, that the simulation starts with.
pub const DEFAULT_TIME_SCALE: u64 = 1000;

/// An event waiting for the next tick.
pub enum Command {
    TakeDamage(u64, Damage),
    ApplyEffect(u64, Effect),
    RemoveEffect(u64, u128),
}

/// Whether `id` has the version field (bits 76 to 79) of a random UUID,
/// which every freshly drawn id has.
pub open spec fn is_version4(id: u128) -> bool {
    (id >> 76u128) & 0xfu128 == 4
}

/// Whether an event removes the effect `id`, from whichever target.
pub open spec fn removes(command: Command, id: u128) -> bool {
    match command {
        Command::RemoveEffect(_, x) => x == id,
        _ => false,
    }
}

/// The stats of an attacker that is gone: those of a fresh entity.
pub open spec fn neutral_stats() -> CurrentStats {
    recomputed(BaseStats::spec_default(), Seq::empty(), 100, 100)
}

/// The payloads that fire in a step, with their bearers: entity after
/// entity, in the order the entities are stored.
pub open spec fn entities_fired(entities: Seq<(u128, EntityState)>, step: int) -> Seq<(u64, TickEffectKind)>
    decreases entities.len(),
{
    if entities.len() == 0 {
        Seq::empty()
    } else {
        let e = entities.last().1;
        entities_fired(entities.drop_last(), step) + effects_fired(e.effects.entry_seq(), step).map_values(
            |k: TickEffectKind| (e.external_id, k),
        )
    }
}

/// The pushes among the outcomes of firings, in order.
pub open spec fn moves_of(outs: Seq<Option<ForcedMove>>) -> Seq<ForcedMove>
    decreases outs.len(),
{
    if outs.len() == 0 {
        Seq::empty()
    } else {
        match outs.last() {
            Some(m) => moves_of(outs.drop_last()).push(m),
            None => moves_of(outs.drop_last()),
        }
    }
}

/// A request to the host to push an entity by an offset.
#[derive(Clone, Copy, Debug, PartialEq, Eq, Structural)]
pub struct ForcedMove {
    pub entity: u64,
    pub dx: i64,
    pub dy: i64,
}

/// What a tick reports to the host.
pub struct TickReport {
    /// The external ids of the entities that died, each once.
    pub died: Vec<u64>,
    /// The pushes that periodic payloads asked for.
    pub moves: Vec<ForcedMove>,
}

/// The health lost to a periodic damage payload of `amount` (neither
/// scaled by an attacker nor `Real`).
pub open spec fn periodic_loss(amount: int, target: CurrentStats) -> int {
    let reduced = amount * 100 / (100 + target.defense);
    if reduced > target.absorption { reduced - target.absorption } else { 0 }
}

/// `n` added to `value`, up to `max`.
pub open spec fn capped_add(value: int, n: int, max: int) -> int {
    if value + n > max { max } else { value + n }
}

/// Two maps that agree away from `key`, and on whether they hold `key`, hold
/// the same keys.
pub proof fn lemma_same_keys<V>(a: Map<u128, V>, b: Map<u128, V>, key: u128)
    requires
        a.remove(key) == b.remove(key),
        a.contains_key(key) == b.contains_key(key),
    ensures
        forall|k: u128| #[trigger] a.contains_key(k) <==> b.contains_key(k),
{
    assert forall|k: u128| #[trigger] a.contains_key(k) <==> b.contains_key(k) by {
        if k != key {
            assert(a.remove(key).contains_key(k) == a.contains_key(k));
            assert(b.remove(key).contains_key(k) == b.contains_key(k));
        }
    }
}

proof fn lemma_flush_prefix(
    s: BattleSystem,
    next: BattleSystem,
    trace: Seq<BattleSystem>,
    target: u64,
    id: u128,
    t: EffectTimer,
    i: int,
)
    requires
        s.flushed_by(next, trace),
        s.timer_held(target, id, t),
        t.owner == target,
        s.no_removal_queued(id),
        0 <= i <= s.pending().len(),
    ensures
        trace[i].timer_held(target, id, t),
        trace[i].scale() == s.scale(),
    decreases i,
{
    if i == 0 {
    } else {
        lemma_flush_prefix(s, next, trace, target, id, t, i - 1);
        let j = i - 1;
        let c = s.pending()[j];
        assert(trace[j].handled(trace[j + 1], s.pending()[j]));
        assert(!removes(c, id));
        trace[j].lemma_handled_keeps_timer(trace[j + 1], c, target, id, t);
    }
}

proof fn lemma_flush_scale_prefix(s: BattleSystem, next: BattleSystem, trace: Seq<BattleSystem>, i: int)
    requires
        s.flushed_by(next, trace),
        0 <= i <= s.pending().len(),
    ensures
        trace[i].scale() == s.scale(),
    decreases i,
{
    if i > 0 {
        lemma_flush_scale_prefix(s, next, trace, i - 1);
        let j = i - 1;
        assert(trace[j].handled(trace[j + 1], s.pending()[j]));
        trace[j].lemma_handled_keeps_scale(trace[j + 1], s.pending()[j]);
    }
}

proof fn lemma_fired_keeps_timers(
    s: BattleSystem,
    next: BattleSystem,
    fired: Seq<(u64, TickEffectKind)>,
    outs: Seq<Option<ForcedMove>>,
    trace: Seq<BattleSystem>,
    i: int,
)
    requires
        s.fired_by(next, fired, outs, trace),
        0 <= i <= fired.len(),
    ensures
        trace[i].timer_map() == s.timer_map(),
        trace[i].scale() == s.scale(),
    decreases i,
{
    if i > 0 {
        lemma_fired_keeps_timers(s, next, fired, outs, trace, i - 1);
        let j = i - 1;
        assert(trace[j].payload_fired(trace[j + 1], fired[j].0, fired[j].1, outs[j]));
    }
}

proof fn lemma_fired_prefix(
    s: BattleSystem,
    next: BattleSystem,
    fired: Seq<(u64, TickEffectKind)>,
    outs: Seq<Option<ForcedMove>>,
    trace: Seq<BattleSystem>,
    target: u64,
    id: u128,
    i: int,
)
    requires
        s.fired_by(next, fired, outs, trace),
        s.effect_gone(target, id),
        0 <= i <= fired.len(),
    ensures
        trace[i].effect_gone(target, id),
    decreases i,
{
    if i > 0 {
        lemma_fired_prefix(s, next, fired, outs, trace, target, id, i - 1);
        let j = i - 1;
        assert(trace[j].payload_fired(trace[j + 1], fired[j].0, fired[j].1, outs[j]));
        let a = trace[j];
        let b = trace[j + 1];
        let owner = fired[j].0;
        if a.has_entity(owner) {
            lemma_same_keys(b.entity_map(), a.entity_map(), key_of(owner));
            if owner != target && b.has_entity(target) {
                assert(b.entity_map().remove(key_of(owner))[key_of(target)] == b.entity(target));
            }
        }
    }
}

/// The combat state of the whole simulation: the registered entities, the
/// timers of the applied effects, the snapshots, the events waiting for the
/// next tick and the time scale.
pub struct BattleSystem {
    entities: IdMap<EntityState>,
    timers: IdMap<EffectTimer>,
    snapshots: IdMap<SnapshotEntry>,
    queue: Vec<Command>,
    time_scale: u64,
}

impl BattleSystem {
    /// The registered entities, by `key_of` their external id.
    pub closed spec fn entity_map(&self) -> Map<u128, EntityState> {
        self.entities@
    }

    /// The registered entities in their stored order.
    pub closed spec fn entity_seq(&self) -> Seq<(u128, EntityState)> {
        self.entities.entry_seq()
    }

    /// The timers of the applied effects, by runtime effect id.
    pub closed spec fn timer_map(&self) -> Map<u128, EffectTimer> {
        self.timers@
    }

    /// The live snapshots, by snapshot id.
    pub closed spec fn snapshot_map(&self) -> Map<u128, SnapshotEntry> {
        self.snapshots@
    }

    /// The events waiting for the next tick, oldest first.
    pub closed spec fn pending(&self) -> Seq<Command> {
        self.queue@
    }

    /// The time scale in per mille (1000 is normal speed).
    pub closed spec fn scale(&self) -> u64 {
        self.time_scale
    }

    pub closed spec fn wf(&self) -> bool {
        &&& self.entities.wf()
        &&& self.timers.wf()
        &&& self.snapshots.wf()
        &&& forall|k: u128| #[trigger] self.entities@.contains_key(k) ==> {
            &&& self.entities@[k].wf()
            &&& key_of(self.entities@[k].external_id) == k
        }
        &&& forall|k: u128| #[trigger] self.snapshots@.contains_key(k) ==> self.snapshots@[k].snapshot.stats.wf()
        &&& forall|k: u128| #[trigger] self.timers@.contains_key(k) ==> self.entities@.contains_key(
            key_of(self.timers@[k].owner),
        )
    }

    /// Every timer belongs to a registered entity.
    pub proof fn lemma_timer_owner_registered(&self, id: u128)
        requires
            self.wf(),
            self.timer_map().contains_key(id),
        ensures
            self.has_entity(self.timer_map()[id].owner),
    {
    }

    /// The stored order of the entities is a listing of `entity_map`: each
    /// entry is a registered entity under its key, no key is listed twice,
    /// and every registered entity is listed.
    pub proof fn lemma_entity_seq(&self)
        requires
            self.wf(),
        ensures
            forall|i: int|
                0 <= i < self.entity_seq().len() ==> {
                    &&& self.entity_map().contains_key(#[trigger] self.entity_seq()[i].0)
                    &&& self.entity_map()[self.entity_seq()[i].0] == self.entity_seq()[i].1
                },
            forall|i: int, j: int|
                0 <= i < self.entity_seq().len() && 0 <= j < self.entity_seq().len() && i != j
                    ==> #[trigger] self.entity_seq()[i].0 != #[trigger] self.entity_seq()[j].0,
            forall|k: u128| #[trigger] self.entity_map().contains_key(k) ==> exists|i: int|
                0 <= i < self.entity_seq().len() && #[trigger] self.entity_seq()[i].0 == k,
    {
        self.entities.lemma_entries();
    }

    /// Whether an entity with this external id is registered.
    pub open spec fn has_entity(&self, external_id: u64) -> bool {
        self.entity_map().contains_key(key_of(external_id))
    }

    /// The registered entity with this external id.
    pub open spec fn entity(&self, external_id: u64) -> EntityState {
        self.entity_map()[key_of(external_id)]
    }

    pub proof fn lemma_entity_wf(&self, k: u128)
        requires
            self.wf(),
            self.entity_map().contains_key(k),
        ensures
            self.entity_map()[k].wf(),
            key_of(self.entity_map()[k].external_id) == k,
    {
    }

    pub proof fn lemma_snapshot_wf(&self, k: u128)
        requires
            self.wf(),
            self.snapshot_map().contains_key(k),
        ensures
            self.snapshot_map()[k].snapshot.stats.wf(),
    {
    }

    pub fn new() -> (r: BattleSystem)
        ensures
            r.wf(),
            r.entity_map() == Map::<u128, EntityState>::empty(),
            r.timer_map() == Map::<u128, EffectTimer>::empty(),
            r.snapshot_map() == Map::<u128, SnapshotEntry>::empty(),
            r.pending() == Seq::<Command>::empty(),
            r.scale() == DEFAULT_TIME_SCALE,
    {
        BattleSystem {
            entities: IdMap::new(),
            timers: IdMap::new(),
            snapshots: IdMap::new(),
            queue: Vec::new(),
            time_scale: DEFAULT_TIME_SCALE,
        }
    }

    /// Sets the time scale, in per mille. It slows or speeds up the running
    /// down of effects and periodic payloads; at 500 an effect lasts twice
    /// as long in host time.
    pub fn set_timescale(&mut self, time_scale: u64)
        requires
            old(self).wf(),
        ensures
            final(self).wf(),
            final(self).scale() == time_scale,
            final(self).entity_map() == old(self).entity_map(),
            final(self).timer_map() == old(self).timer_map(),
            final(self).snapshot_map() == old(self).snapshot_map(),
            final(self).pending() == old(self).pending(),
    {
        self.time_scale = time_scale;
    }

    pub fn time_scale(&self) -> (r: u64)
        ensures
            r == self.scale(),
    {
        self.time_scale
    }

    /// Creates an entity with default components for the host object
    /// `external_id`. A second registration replaces the first entity.
    pub fn register_entity(&mut self, external_id: u64)
        requires
            old(self).wf(),
        ensures
            final(self).wf(),
            final(self).has_entity(external_id),
            final(self).entity(external_id).is_fresh(external_id),
            final(self).entity_map().remove(key_of(external_id)) == old(self).entity_map().remove(
                key_of(external_id),
            ),
            final(self).timer_map() == old(self).timer_map(),
            final(self).snapshot_map() == old(self).snapshot_map(),
            final(self).pending() == old(self).pending(),
            final(self).scale() == old(self).scale(),
    {
        let e = EntityState::new(external_id);
        self.entities.insert(external_id as u128, e);
        assert(self.entities@.remove(key_of(external_id)) =~= old(self).entities@.remove(key_of(external_id)));
    }

    /// Destroys the entity of the host object `external_id`, with the timers
    /// of its effects; nothing happens when there is none.
    pub fn unregister_entity(&mut self, external_id: u64)
        requires
            old(self).wf(),
        ensures
            final(self).wf(),
            final(self).entity_map() == old(self).entity_map().remove(key_of(external_id)),
            final(self).timer_map() == without_owner(old(self).timer_map(), external_id),
            final(self).snapshot_map() == old(self).snapshot_map(),
            final(self).pending() == old(self).pending(),
            final(self).scale() == old(self).scale(),
            !old(self).has_entity(external_id) ==> *final(self) == *old(self),
    {
        if !self.entities.contains_key(external_id as u128) {
            assert(self.entities@.remove(key_of(external_id)) =~= self.entities@);
            assert(without_owner(self.timers@, external_id) =~= self.timers@);
            return;
        }
        self.drop_timers_of(external_id);
        let _ = self.entities.remove(external_id as u128);
    }

    /// Removes every timer that belongs to `owner`.
    fn drop_timers_of(&mut self, owner: u64)
        requires
            old(self).wf(),
        ensures
            final(self).wf(),
            final(self).timer_map() == without_owner(old(self).timer_map(), owner),
            final(self).entities == old(self).entities,
            final(self).snapshots == old(self).snapshots,
            final(self).queue == old(self).queue,
            final(self).time_scale == old(self).time_scale,
    {
        let ghost start = self.timers@;
        let keys = self.timers.keys();
        assert forall|j: int| 0 <= j < keys@.len() implies self.timers@.contains_key(#[trigger] keys@[j]) by {
            assert(keys@.contains(keys@[j]));
        }
        let mut i: usize = 0;
        while i < keys.len()
            invariant
                self.wf(),
                i <= keys@.len(),
                keys@.no_duplicates(),
                forall|k: u128| start.contains_key(k) <==> keys@.contains(k),
                self.entities == old(self).entities,
                self.snapshots == old(self).snapshots,
                self.queue == old(self).queue,
                self.time_scale == old(self).time_scale,
                forall|k: u128| #[trigger] self.timers@.contains_key(k) ==> start.contains_key(k)
                    && self.timers@[k] == start[k],
                forall|j: int| 0 <= j < i ==> (!self.timers@.contains_key(#[trigger] keys@[j]) <==> start[keys@[j]].owner == owner),
                forall|j: int| i <= j < keys@.len() ==> self.timers@.contains_key(#[trigger] keys@[j]),
            decreases keys@.len() - i,
        {
            let k = keys[i];
            let mine = match self.timers.get(k) {
                Some(t) => t.owner == owner,
                None => false,
            };
            if mine {
                let _ = self.timers.remove(k);
            }
            proof {
                assert forall|j: int| i + 1 <= j < keys@.len() implies self.timers@.contains_key(#[trigger] keys@[j]) by {
                    assert(keys@[j] != keys@[i as int]);
                }
                assert forall|j: int| 0 <= j < i + 1 implies (!self.timers@.contains_key(#[trigger] keys@[j]) <==> start[keys@[j]].owner == owner) by {
                    if j < i {
                        assert(keys@[j] != keys@[i as int]);
                    }
                }
            }
            i = i + 1;
        }
        assert forall|k: u128| #[trigger] self.timers@.contains_key(k) <==> without_owner(start, owner).contains_key(k) by {
            if start.contains_key(k) {
                assert(keys@.contains(k));
                let j = choose|j: int| 0 <= j < keys@.len() && keys@[j] == k;
                assert(!self.timers@.contains_key(keys@[j]) <==> start[keys@[j]].owner == owner);
            }
        }
        assert(self.timers@ =~= without_owner(start, owner));
    }

    /// The external ids of the registered entities, each once.
    pub fn entity_ids(&self) -> (r: Vec<u64>)
        requires
            self.wf(),
        ensures
            r@.no_duplicates(),
            forall|id: u64| self.has_entity(id) <==> r@.contains(id),
    {
        let keys = self.entities.keys();
        let mut r: Vec<u64> = Vec::new();
        let mut i: usize = 0;
        while i < keys.len()
            invariant
                self.wf(),
                i <= keys@.len(),
                keys@.no_duplicates(),
                forall|k: u128| self.entities@.contains_key(k) <==> keys@.contains(k),
                r@.len() == i,
                forall|j: int| 0 <= j < i ==> key_of(#[trigger] r@[j]) == keys@[j],
            decreases keys@.len() - i,
        {
            let k = keys[i];
            assert(keys@.contains(k));
            let e = self.entities.get(k).unwrap();
            r.push(e.external_id);
            i = i + 1;
        }
        assert forall|id: u64| self.has_entity(id) <==> r@.contains(id) by {
            if self.has_entity(id) {
                assert(keys@.contains(key_of(id)));
                let j = choose|j: int| 0 <= j < keys@.len() && keys@[j] == key_of(id);
                assert(r@[j] == id);
            }
            if r@.contains(id) {
                let j = choose|j: int| 0 <= j < r@.len() && r@[j] == id;
                assert(keys@.contains(keys@[j]));
            }
        }
        assert forall|a: int, b: int| 0 <= a < r@.len() && 0 <= b < r@.len() && a != b implies r@[a] != r@[b] by {
            assert(key_of(r@[a]) == keys@[a]);
            assert(key_of(r@[b]) == keys@[b]);
        }
        r
    }

    /// The current stats of a registered entity.
    pub fn stats_of(&self, external_id: u64) -> (r: Option<CurrentStats>)
        requires
            self.wf(),
        ensures
            match r {
                Some(s) => self.has_entity(external_id) && s == self.entity(external_id).stats,
                None => !self.has_entity(external_id),
            },
    {
        match self.entities.get(external_id as u128) {
            Some(e) => Some(e.stats),
            None => None,
        }
    }

    /// The registered entity of the host object `external_id`.
    pub fn get_entity(&self, external_id: u64) -> (r: Option<&EntityState>)
        requires
            self.wf(),
        ensures
            match r {
                Some(e) => self.has_entity(external_id) && *e == self.entity(external_id),
                None => !self.has_entity(external_id),
            },
    {
        self.entities.get(external_id as u128)
    }

    /// The timer of the applied effect `id`, if it has one.
    pub fn timer_of(&self, id: u128) -> (r: Option<EffectTimer>)
        requires
            self.wf(),
        ensures
            match r {
                Some(t) => self.timer_map().contains_key(id) && t == self.timer_map()[id],
                None => !self.timer_map().contains_key(id),
            },
    {
        match self.timers.get(id) {
            Some(t) => Some(*t),
            None => None,
        }
    }

    /// How many events wait for the next tick.
    pub fn pending_len(&self) -> (r: usize)
        ensures
            r == self.pending().len(),
    {
        self.queue.len()
    }

    /// Whether a snapshot with this id is live.
    pub fn has_snapshot(&self, snapshot_id: u128) -> (r: bool)
        requires
            self.wf(),
        ensures
            r == self.snapshot_map().contains_key(snapshot_id),
    {
        self.snapshots.contains_key(snapshot_id)
    }

    /// The reference count of a live snapshot.
    pub fn snapshot_ref_count(&self, snapshot_id: u128) -> (r: Option<usize>)
        requires
            self.wf(),
        ensures
            match r {
                Some(n) => self.snapshot_map().contains_key(snapshot_id) && n
                    == self.snapshot_map()[snapshot_id].ref_count,
                None => !self.snapshot_map().contains_key(snapshot_id),
            },
    {
        match self.snapshots.get(snapshot_id) {
            Some(entry) => Some(entry.ref_count),
            None => None,
        }
    }

    /// Stores a snapshot of the entity `external_id` under `snapshot_id`
    /// with `expected_uses` pending uses. Returns `false`, and changes
    /// nothing, when the entity is not registered or the id is taken.
    pub fn new_snapshot_with_id(&mut self, external_id: u64, expected_uses: usize, snapshot_id: u128) -> (r: bool)
        requires
            old(self).wf(),
        ensures
            final(self).wf(),
            r == (old(self).has_entity(external_id) && !old(self).snapshot_map().contains_key(snapshot_id)),
            r ==> {
                &&& final(self).snapshot_map().contains_key(snapshot_id)
                &&& final(self).snapshot_map()[snapshot_id].snapshot.copies(&old(self).entity(external_id))
                &&& final(self).snapshot_map()[snapshot_id].ref_count == expected_uses
                &&& final(self).snapshot_map().remove(snapshot_id) == old(self).snapshot_map()
            },
            !r ==> *final(self) == *old(self),
            final(self).entity_map() == old(self).entity_map(),
            final(self).timer_map() == old(self).timer_map(),
            final(self).pending() == old(self).pending(),
            final(self).scale() == old(self).scale(),
    {
        if self.snapshots.contains_key(snapshot_id) {
            return false;
        }
        let snapshot = match self.entities.get(external_id as u128) {
            Some(e) => {
                proof {
                    self.lemma_entity_wf(key_of(external_id));
                }
                make_snapshot(e)
            },
            None => {
                return false;
            },
        };
        self.snapshots.insert(snapshot_id, SnapshotEntry { snapshot, ref_count: expected_uses });
        assert(self.snapshots@.remove(snapshot_id) =~= old(self).snapshots@);
        true
    }

    /// Snapshots the entity `external_id` for `expected_uses` deferred
    /// damages, under a fresh random id. `None` when the entity is not
    /// registered (and, with negligible odds, when every id drawn was taken).
    pub fn new_snapshot(&mut self, external_id: u64, expected_uses: usize) -> (r: Option<u128>)
        requires
            old(self).wf(),
        ensures
            final(self).wf(),
            !old(self).has_entity(external_id) ==> r.is_none(),
            old(self).has_entity(external_id) && old(self).no_random_snapshot_ids() ==> r is Some,
            old(self).has_entity(external_id) && old(self).snapshot_map() == Map::<u128, SnapshotEntry>::empty()
                ==> r is Some,
            match r {
                Some(id) => {
                    &&& !old(self).snapshot_map().contains_key(id)
                    &&& final(self).snapshot_map().contains_key(id)
                    &&& final(self).snapshot_map()[id].snapshot.copies(&old(self).entity(external_id))
                    &&& final(self).snapshot_map()[id].ref_count == expected_uses
                    &&& final(self).snapshot_map().remove(id) == old(self).snapshot_map()
                },
                None => *final(self) == *old(self),
            },
            final(self).entity_map() == old(self).entity_map(),
            final(self).timer_map() == old(self).timer_map(),
            final(self).pending() == old(self).pending(),
            final(self).scale() == old(self).scale(),
    {
        if !self.entities.contains_key(external_id as u128) {
            return None;
        }
        assert(self.snapshot_map() == Map::<u128, SnapshotEntry>::empty() ==> self.no_random_snapshot_ids());
        let mut attempt: usize = 0;
        while attempt < ID_DRAWS
            invariant
                *self == *old(self),
                self.wf(),
                self.has_entity(external_id),
                self.no_random_snapshot_ids() ==> attempt == 0,
            decreases ID_DRAWS - attempt,
        {
            let id = draw_uuid();
            if self.new_snapshot_with_id(external_id, expected_uses, id) {
                return Some(id);
            }
            attempt = attempt + 1;
        }
        None
    }

    /// Takes one pending use of a snapshot: decrements its reference count
    /// (held at zero) and returns a copy of its data; `None` when no such
    /// snapshot is live.
    pub fn consume_snapshot(&mut self, snapshot_id: u128) -> (r: Option<EntitySnapshot>)
        requires
            old(self).wf(),
        ensures
            final(self).wf(),
            match r {
                Some(s) => {
                    &&& old(self).snapshot_map().contains_key(snapshot_id)
                    &&& s.same(&old(self).snapshot_map()[snapshot_id].snapshot)
                    &&& s.stats.wf()
                    &&& final(self).snapshot_map().contains_key(snapshot_id)
                    &&& final(self).snapshot_map()[snapshot_id].snapshot == old(
                        self,
                    ).snapshot_map()[snapshot_id].snapshot
                    &&& final(self).snapshot_map()[snapshot_id].ref_count == decremented(
                        old(self).snapshot_map()[snapshot_id].ref_count,
                    )
                    &&& final(self).snapshot_map().remove(snapshot_id) == old(self).snapshot_map().remove(
                        snapshot_id,
                    )
                },
                None => {
                    &&& !old(self).snapshot_map().contains_key(snapshot_id)
                    &&& *final(self) == *old(self)
                },
            },
            final(self).entity_map() == old(self).entity_map(),
            final(self).timer_map() == old(self).timer_map(),
            final(self).pending() == old(self).pending(),
            final(self).scale() == old(self).scale(),
    {
        if !self.snapshots.contains_key(snapshot_id) {
            return None;
        }
        proof {
            self.lemma_snapshot_wf(snapshot_id);
        }
        match self.snapshots.remove(snapshot_id) {
            Some(entry) => {
                let copy = entry.snapshot.duplicate();
                let count = if entry.ref_count == 0 { 0 } else { entry.ref_count - 1 };
                self.snapshots.insert(snapshot_id, SnapshotEntry { snapshot: entry.snapshot, ref_count: count });
                assert(self.snapshots@.remove(snapshot_id) =~= old(self).snapshots@.remove(snapshot_id));
                Some(copy)
            },
            None => None,
        }
    }

    /// `next` is `self` after a damage landed on `target`: nothing changes
    /// when the target is not registered; otherwise it loses `damage_dealt`
    /// health (down to zero), computed with `attacker_stats`, and a live
    /// snapshot source gives up one use.
    pub open spec fn damage_taken(self, next: BattleSystem, target: u64, damage: Damage) -> bool {
        &&& !self.has_entity(target) ==> next == self
        &&& self.has_entity(target) ==> {
            &&& next.has_entity(target)
            &&& same_but_stats(next.entity(target), self.entity(target))
            &&& next.entity(target).stats == (CurrentStats {
                health: health_after(
                    self.entity(target).stats.health as int,
                    damage_dealt(
                        damage.kind,
                        damage.base_amount as int,
                        self.attacker_stats(damage.source),
                        self.entity(target).stats,
                    ),
                ) as u64,
                ..self.entity(target).stats
            })
            &&& next.entity_map().remove(key_of(target)) == self.entity_map().remove(
                key_of(target),
            )
            &&& match damage.source {
                DamageSource::Snapshot(sid) => if self.snapshot_map().contains_key(sid) {
                    &&& next.snapshot_map().contains_key(sid)
                    &&& next.snapshot_map()[sid].snapshot == self.snapshot_map()[sid].snapshot
                    &&& next.snapshot_map()[sid].ref_count == decremented(
                        self.snapshot_map()[sid].ref_count,
                    )
                    &&& next.snapshot_map().remove(sid) == self.snapshot_map().remove(sid)
                } else {
                    next.snapshot_map() == self.snapshot_map()
                },
                DamageSource::Realtime(_) => next.snapshot_map() == self.snapshot_map(),
            }
        }
        &&& next.timer_map() == self.timer_map()
        &&& next.pending() == self.pending()
        &&& next.scale() == self.scale()
    }

    /// `next` is `self` after `effect` was applied to `target` under the
    /// fresh id `r` (recorded on the target, timer started), or, for `None`,
    /// unchanged.
    pub open spec fn effect_applied(self, next: BattleSystem, target: u64, effect: Effect, r: Option<u128>) -> bool {
        &&& !self.has_entity(target) ==> r.is_none()
        &&& match r {
            Some(id) => {
                &&& !self.effect_id_in_use(id)
                &&& next.has_entity(target)
                &&& same_but_effects(next.entity(target), self.entity(target))
                &&& next.entity(target).effects@.contains_key(id)
                &&& is_active_of(&next.entity(target).effects@[id], &effect)
                &&& next.entity(target).effects@.remove(id) == self.entity(target).effects@
                &&& next.entity_map().remove(key_of(target)) == self.entity_map().remove(
                    key_of(target),
                )
                &&& next.timer_map() == match initial_timer(&effect, target) {
                    Some(t) => self.timer_map().insert(id, t),
                    None => self.timer_map(),
                }
            },
            None => next == self,
        }
        &&& next.snapshot_map() == self.snapshot_map()
        &&& next.pending() == self.pending()
        &&& next.scale() == self.scale()
    }

    /// `next` is `self` after the effect `id` was removed from `target`: from
    /// the target's effects and from the timers. Nothing changes when the
    /// target is not registered.
    pub open spec fn effect_removed(self, next: BattleSystem, target: u64, id: u128) -> bool {
        &&& !self.has_entity(target) ==> next == self
        &&& self.has_entity(target) ==> {
            &&& next.timer_map() == self.timer_map().remove(id)
            &&& next.has_entity(target)
            &&& same_but_effects(next.entity(target), self.entity(target))
            &&& next.entity(target).effects@ == self.entity(target).effects@.remove(id)
            &&& next.entity_map().remove(key_of(target)) == self.entity_map().remove(key_of(target))
            &&& next.snapshot_map() == self.snapshot_map()
            &&& next.pending() == self.pending()
            &&& next.scale() == self.scale()
        }
        &&& !self.timer_map().contains_key(id) && (!self.has_entity(target) || !self.entity(target).effects@.contains_key(id))
            ==> next == self
    }

    /// `next` is `self` after the timers ran down by `delta_ms` times the time
    /// scale, and the effects whose timers ran out were removed from their
    /// owners.
    pub open spec fn timers_run_down(self, next: BattleSystem, delta_ms: u64) -> bool {
        &&& next.timer_map() == decayed(self.timer_map(), delta_ms * self.scale())
        &&& forall|k: u128| #[trigger] next.entity_map().contains_key(k) <==> self.entity_map().contains_key(k)
        &&& forall|k: u128| #[trigger] self.entity_map().contains_key(k) ==> {
            &&& same_but_effects(next.entity_map()[k], self.entity_map()[k])
            &&& next.entity_map()[k].effects@ == self.entity_map()[k].effects@.remove_keys(
                expired_ids(self.timer_map(), delta_ms * self.scale(), self.entity_map()[k].external_id),
            )
        }
        &&& next.snapshot_map() == self.snapshot_map()
        &&& next.pending() == self.pending()
        &&& next.scale() == self.scale()
    }

    /// `next` is `self` after every periodic payload advanced by `delta_ms`
    /// times the time scale; `fired` lists those that fire, with their
    /// bearers.
    pub open spec fn payloads_advanced(self, next: BattleSystem, delta_ms: u64, fired: Seq<(u64, TickEffectKind)>) -> bool {
        &&& forall|k: u128| #[trigger] next.entity_map().contains_key(k) <==> self.entity_map().contains_key(k)
        &&& forall|k: u128| #[trigger] self.entity_map().contains_key(k) ==> {
            &&& same_but_effects(next.entity_map()[k], self.entity_map()[k])
            &&& next.entity_map()[k].effects@.dom() == self.entity_map()[k].effects@.dom()
            &&& forall|id: u128| #[trigger] self.entity_map()[k].effects@.contains_key(id) ==> is_advanced(
                next.entity_map()[k].effects@[id],
                self.entity_map()[k].effects@[id],
                delta_ms * self.scale(),
            )
        }
        &&& forall|i: int| 0 <= i < fired.len() ==> self.has_entity(#[trigger] fired[i].0)
        &&& fired == entities_fired(self.entity_seq(), delta_ms * self.scale())
        &&& next.timer_map() == self.timer_map()
        &&& next.snapshot_map() == self.snapshot_map()
        &&& next.pending() == self.pending()
        &&& next.scale() == self.scale()
    }

    /// `next` is `self` after a payload of `kind` fired on `owner`, handing
    /// back `r` for the host.
    pub open spec fn payload_fired(self, next: BattleSystem, owner: u64, kind: TickEffectKind, r: Option<ForcedMove>) -> bool {
        &&& !self.has_entity(owner) ==> next == self && r.is_none()
        &&& self.has_entity(owner) ==> {
            let before = self.entity(owner).stats;
            match kind {
                TickEffectKind::HealthRegen(n) => next.entity(owner).stats == (CurrentStats {
                    health: capped_add(before.health as int, n as int, before.max_health as int) as u64,
                    ..before
                }),
                TickEffectKind::ManaRegen(n) => next.entity(owner).stats == (CurrentStats {
                    mana: capped_add(before.mana as int, n as int, before.max_mana as int) as u64,
                    ..before
                }),
                TickEffectKind::PhysicalDamage(n) | TickEffectKind::MagicalDamage(n) => next.entity(
                    owner,
                ).stats == (CurrentStats {
                    health: health_after(before.health as int, periodic_loss(n as int, before)) as u64,
                    ..before
                }),
                _ => next.entity(owner).stats == before,
            }
        }
        &&& self.has_entity(owner) ==> {
            &&& next.has_entity(owner)
            &&& same_but_stats(next.entity(owner), self.entity(owner))
            &&& next.entity_map().remove(key_of(owner)) == self.entity_map().remove(key_of(owner))
            &&& r == match kind {
                TickEffectKind::ForceMove(dx, dy) => Some(ForcedMove { entity: owner, dx, dy }),
                _ => None,
            }
            &&& match kind {
                TickEffectKind::DeferredEffect(v) => {
                    &&& next.pending().len() == self.pending().len() + 1
                    &&& next.pending().drop_last() == self.pending()
                    &&& match next.pending().last() {
                        Command::ApplyEffect(t, e) => t == owner && v.describes(&e),
                        _ => false,
                    }
                },
                _ => next.pending() == self.pending(),
            }
        }
        &&& next.timer_map() == self.timer_map()
        &&& next.snapshot_map() == self.snapshot_map()
        &&& next.scale() == self.scale()
    }

    /// `next` is `self` with every entity's stats recomputed from its base
    /// stats and the modifiers in force.
    pub open spec fn stats_recomputed(self, next: BattleSystem) -> bool {
        &&& forall|k: u128| #[trigger] next.entity_map().contains_key(k) <==> self.entity_map().contains_key(k)
        &&& forall|k: u128| #[trigger] self.entity_map().contains_key(k) ==> {
            let e = self.entity_map()[k];
            &&& same_but_stats(next.entity_map()[k], e)
            &&& next.entity_map()[k].stats == recomputed(
                e.base_stats,
                e.all_modifiers(),
                e.stats.health as int,
                e.stats.mana as int,
            )
        }
        &&& forall|k: u128| #[trigger] next.entity_map().contains_key(k) ==> next.entity_map()[k].stats.health
            <= next.entity_map()[k].stats.max_health
        &&& next.timer_map() == self.timer_map()
        &&& next.snapshot_map() == self.snapshot_map()
        &&& next.pending() == self.pending()
        &&& next.scale() == self.scale()
    }

    /// `next` is `self` without the entities whose health is zero and the
    /// timers of their effects; `died` lists their external ids.
    pub open spec fn deaths_removed(self, next: BattleSystem, died: Seq<u64>) -> bool {
        &&& next.entity_map() == self.entity_map().restrict(
            self.entity_map().dom().filter(|k: u128| self.entity_map()[k].stats.health != 0),
        )
        &&& died.no_duplicates()
        &&& forall|id: u64| died.contains(id) <==> self.has_entity(id) && self.entity(id).stats.health == 0
        &&& next.timer_map() == self.timer_map().restrict(
            self.timer_map().dom().filter(|k: u128| self.entity(self.timer_map()[k].owner).stats.health != 0),
        )
        &&& next.snapshot_map() == self.snapshot_map()
        &&& next.pending() == self.pending()
        &&& next.scale() == self.scale()
    }

    /// `next` is `self` without the snapshots that have no use left.
    pub open spec fn snapshots_collected(self, next: BattleSystem) -> bool {
        &&& next.snapshot_map() == collected(self.snapshot_map())
        &&& next.entity_map() == self.entity_map()
        &&& next.timer_map() == self.timer_map()
        &&& next.pending() == self.pending()
        &&& next.scale() == self.scale()
    }

    /// `a` and `b` hold the same entities, timers, snapshots and time scale.
    pub open spec fn same_but_pending(a: BattleSystem, b: BattleSystem) -> bool {
        &&& a.entity_map() == b.entity_map()
        &&& a.timer_map() == b.timer_map()
        &&& a.snapshot_map() == b.snapshot_map()
        &&& a.scale() == b.scale()
    }

    /// `next` is `self` after carrying out `command`.
    pub open spec fn handled(self, next: BattleSystem, command: Command) -> bool {
        match command {
            Command::TakeDamage(target, damage) => self.damage_taken(next, target, damage),
            Command::ApplyEffect(target, effect) => exists|r: Option<u128>| #[trigger] self.effect_applied(next, target, effect, r),
            Command::RemoveEffect(target, id) => self.effect_removed(next, target, id),
        }
    }

    /// `trace` runs from `self` with its queue emptied to `next`, one queued
    /// event after another, oldest first.
    pub open spec fn flushed_by(self, next: BattleSystem, trace: Seq<BattleSystem>) -> bool {
        &&& trace.len() == self.pending().len() + 1
        &&& BattleSystem::same_but_pending(trace[0], self)
        &&& trace[0].pending() == Seq::<Command>::empty()
        &&& forall|i: int| 0 <= i < self.pending().len() ==> #[trigger] trace[i].handled(trace[i + 1], self.pending()[i])
        &&& BattleSystem::same_but_pending(trace.last(), next)
        &&& next.pending() == Seq::<Command>::empty()
    }

    /// `next` is `self` after `flush_events()`.
    pub open spec fn flushed(self, next: BattleSystem) -> bool {
        exists|trace: Seq<BattleSystem>| #[trigger] self.flushed_by(next, trace)
    }

    /// `trace` runs from `self` to `next` by firing the payloads of `fired`
    /// in order, the firings giving `outs`.
    pub open spec fn fired_by(
        self,
        next: BattleSystem,
        fired: Seq<(u64, TickEffectKind)>,
        outs: Seq<Option<ForcedMove>>,
        trace: Seq<BattleSystem>,
    ) -> bool {
        &&& trace.len() == fired.len() + 1
        &&& outs.len() == fired.len()
        &&& trace[0] == self
        &&& forall|i: int| 0 <= i < fired.len() ==> #[trigger] trace[i].payload_fired(trace[i + 1], fired[i].0, fired[i].1, outs[i])
        &&& BattleSystem::same_but_pending(trace.last(), next)
        &&& trace.last().pending() == next.pending()
    }

    /// `next` is `self` after a tick of `delta_ms` that reported `died` and
    /// `moves`: the queue was flushed, the timers ran down, the periodic
    /// payloads advanced and fired, the stats were recomputed, the dead were
    /// removed and the used-up snapshots collected, in that order.
    pub open spec fn ticked_via(
        self,
        next: BattleSystem,
        delta_ms: u64,
        died: Seq<u64>,
        moves: Seq<ForcedMove>,
        stages: Seq<BattleSystem>,
        fired: Seq<(u64, TickEffectKind)>,
        outs: Seq<Option<ForcedMove>>,
    ) -> bool {
        &&& stages.len() == 6
        &&& self.flushed(stages[0])
        &&& stages[0].timers_run_down(stages[1], delta_ms)
        &&& stages[1].payloads_advanced(stages[2], delta_ms, fired)
        &&& exists|trace: Seq<BattleSystem>| #[trigger] stages[2].fired_by(stages[3], fired, outs, trace)
        &&& moves == moves_of(outs)
        &&& stages[3].stats_recomputed(stages[4])
        &&& stages[4].deaths_removed(stages[5], died)
        &&& stages[5].snapshots_collected(next)
    }

    /// The timer of `id` is `t`, and the entity `target`, when registered,
    /// has its own id.
    pub open spec fn timer_held(self, target: u64, id: u128, t: EffectTimer) -> bool {
        &&& self.timer_map().contains_key(id)
        &&& self.timer_map()[id] == t
        &&& self.has_entity(target) ==> self.entity(target).external_id == target
    }

    /// No queued event removes the effect `id`.
    pub open spec fn no_removal_queued(self, id: u128) -> bool {
        forall|i: int| 0 <= i < self.pending().len() ==> !removes(#[trigger] self.pending()[i], id)
    }

    /// Neither a timer nor the entity `target` holds the effect `id`.
    pub open spec fn effect_gone(self, target: u64, id: u128) -> bool {
        &&& !self.timer_map().contains_key(id)
        &&& self.has_entity(target) ==> !self.entity(target).effects@.contains_key(id)
    }

    proof fn lemma_handled_keeps_timer(self, next: BattleSystem, command: Command, target: u64, id: u128, t: EffectTimer)
        requires
            self.handled(next, command),
            self.timer_held(target, id, t),
            t.owner == target,
            !removes(command, id),
        ensures
            next.timer_held(target, id, t),
            next.scale() == self.scale(),
            forall|k: u128| #[trigger] next.entity_map().contains_key(k) <==> self.entity_map().contains_key(k),
    {
        match command {
            Command::TakeDamage(t2, d) => {
                if self.has_entity(t2) {
                    lemma_same_keys(next.entity_map(), self.entity_map(), key_of(t2));
                    if t2 != target && self.has_entity(target) {
                        assert(next.entity_map().remove(key_of(t2))[key_of(target)] == next.entity(target));
                    }
                }
            },
            Command::ApplyEffect(t2, e) => {
                let r = choose|r: Option<u128>| #[trigger] self.effect_applied(next, t2, e, r);
                if let Some(id2) = r {
                    assert(self.effect_id_in_use(id));
                    lemma_same_keys(next.entity_map(), self.entity_map(), key_of(t2));
                    if t2 != target && self.has_entity(target) {
                        assert(next.entity_map().remove(key_of(t2))[key_of(target)] == next.entity(target));
                    }
                }
            },
            Command::RemoveEffect(t2, id2) => {
                if self.has_entity(t2) {
                    lemma_same_keys(next.entity_map(), self.entity_map(), key_of(t2));
                    if t2 != target && self.has_entity(target) {
                        assert(next.entity_map().remove(key_of(t2))[key_of(target)] == next.entity(target));
                    }
                }
            },
        }
    }

    proof fn lemma_flush_keeps_timer(self, next: BattleSystem, trace: Seq<BattleSystem>, target: u64, id: u128, t: EffectTimer)
        requires
            self.flushed_by(next, trace),
            self.timer_held(target, id, t),
            t.owner == target,
            self.no_removal_queued(id),
        ensures
            next.timer_held(target, id, t),
    {
        let n = self.pending().len() as int;
        assert forall|i: int| 0 <= i <= n implies #[trigger] trace[i].timer_held(target, id, t) by {
            lemma_flush_prefix(self, next, trace, target, id, t, i);
        }
        assert(trace[n].timer_held(target, id, t));
        assert(trace.last() == trace[n]);
    }

    proof fn lemma_fired_keeps_gone(
        self,
        next: BattleSystem,
        fired: Seq<(u64, TickEffectKind)>,
        outs: Seq<Option<ForcedMove>>,
        trace: Seq<BattleSystem>,
        target: u64,
        id: u128,
    )
        requires
            self.fired_by(next, fired, outs, trace),
            self.effect_gone(target, id),
        ensures
            next.effect_gone(target, id),
    {
        let n = fired.len() as int;
        assert forall|i: int| 0 <= i <= n implies #[trigger] trace[i].effect_gone(target, id) by {
            lemma_fired_prefix(self, next, fired, outs, trace, target, id, i);
        }
        assert(trace[n].effect_gone(target, id));
        assert(trace.last() == trace[n]);
    }

    /// `next` follows `self` by one tick of `delta_ms`.
    pub open spec fn ticks_to(self, next: BattleSystem, delta_ms: u64) -> bool {
        exists|
            died: Seq<u64>,
            moves: Seq<ForcedMove>,
            stages: Seq<BattleSystem>,
            fired: Seq<(u64, TickEffectKind)>,
            outs: Seq<Option<ForcedMove>>,
        | #[trigger] self.ticked_via(next, delta_ms, died, moves, stages, fired, outs)
    }

    proof fn lemma_handled_keeps_scale(self, next: BattleSystem, command: Command)
        requires
            self.handled(next, command),
        ensures
            next.scale() == self.scale(),
    {
        if let Command::ApplyEffect(t2, e) = command {
            let r = choose|r: Option<u128>| #[trigger] self.effect_applied(next, t2, e, r);
        }
    }

    proof fn lemma_flush_keeps_scale(self, next: BattleSystem, trace: Seq<BattleSystem>)
        requires
            self.flushed_by(next, trace),
        ensures
            next.scale() == self.scale(),
    {
        let n = self.pending().len() as int;
        assert forall|i: int| 0 <= i <= n implies #[trigger] trace[i].scale() == self.scale() by {
            lemma_flush_scale_prefix(self, next, trace, i);
        }
        assert(trace.last() == trace[n]);
    }

    /// A tick keeps the time scale.
    pub proof fn lemma_tick_keeps_scale(self, next: BattleSystem, delta_ms: u64)
        requires
            self.ticks_to(next, delta_ms),
        ensures
            next.scale() == self.scale(),
    {
        let (died, moves, stages, fired, outs) = choose|
            died: Seq<u64>,
            moves: Seq<ForcedMove>,
            stages: Seq<BattleSystem>,
            fired: Seq<(u64, TickEffectKind)>,
            outs: Seq<Option<ForcedMove>>,
        | #[trigger] self.ticked_via(next, delta_ms, died, moves, stages, fired, outs);
        let trace0 = choose|trace: Seq<BattleSystem>| #[trigger] self.flushed_by(stages[0], trace);
        self.lemma_flush_keeps_scale(stages[0], trace0);
        let trace1 = choose|trace: Seq<BattleSystem>| #[trigger] stages[2].fired_by(stages[3], fired, outs, trace);
        lemma_fired_keeps_timers(stages[2], stages[3], fired, outs, trace1, fired.len() as int);
        assert(trace1.last() == trace1[fired.len() as int]);
    }

    /// One tick of `delta_ms` runs the timer `t` of the effect `id` down by
    /// the frame times the time scale: while something is left the timer
    /// keeps it (unless its owner died in the tick, taking its timers along);
    /// otherwise the effect is removed from its owner and no timer is left.
    /// (A queued removal of that very effect is left out.)
    pub proof fn lemma_tick_runs_timer_down(self, next: BattleSystem, delta_ms: u64, id: u128, t: EffectTimer)
        requires
            self.wf(),
            self.timer_map().contains_key(id),
            self.timer_map()[id] == t,
            self.no_removal_queued(id),
            self.ticks_to(next, delta_ms),
        ensures
            next.scale() == self.scale(),
            t.remaining > delta_ms * self.scale() && next.has_entity(t.owner) ==> {
                &&& next.timer_map().contains_key(id)
                &&& next.timer_map()[id] == (EffectTimer {
                    remaining: (t.remaining - delta_ms * self.scale()) as u128,
                    owner: t.owner,
                })
            },
            t.remaining <= delta_ms * self.scale() ==> next.effect_gone(t.owner, id),
    {
        let target = t.owner;
        self.lemma_tick_keeps_scale(next, delta_ms);
        let (died, moves, stages, fired, outs) = choose|
            died: Seq<u64>,
            moves: Seq<ForcedMove>,
            stages: Seq<BattleSystem>,
            fired: Seq<(u64, TickEffectKind)>,
            outs: Seq<Option<ForcedMove>>,
        | #[trigger] self.ticked_via(next, delta_ms, died, moves, stages, fired, outs);
        if self.has_entity(target) {
            self.lemma_entity_wf(key_of(target));
        }
        assert(self.timer_held(target, id, t));
        let trace0 = choose|trace: Seq<BattleSystem>| #[trigger] self.flushed_by(stages[0], trace);
        self.lemma_flush_keeps_timer(stages[0], trace0, target, id, t);
        self.lemma_flush_keeps_scale(stages[0], trace0);
        let st: int = delta_ms * stages[0].scale();
        assert(st >= 0) by (nonlinear_arith)
            requires
                st == delta_ms * stages[0].scale(),
        ;
        let trace1 = choose|trace: Seq<BattleSystem>| #[trigger] stages[2].fired_by(stages[3], fired, outs, trace);
        lemma_fired_keeps_timers(stages[2], stages[3], fired, outs, trace1, fired.len() as int);
        assert(trace1.last() == trace1[fired.len() as int]);
        if !expires(t, st) {
            assert(stages[1].timer_map().contains_key(id));
            if next.has_entity(target) {
                assert(stages[5].entity_map().contains_key(key_of(target)));
                assert(stages[4].entity_map().contains_key(key_of(target)));
                assert(stages[4].entity(target).stats.health != 0);
                assert(stages[4].timer_map().contains_key(id));
                assert(stages[5].timer_map().contains_key(id));
            }
        } else {
            if stages[0].has_entity(target) {
                assert(expired_ids(stages[0].timer_map(), st, target).contains(id));
                assert(stages[0].entity_map().contains_key(key_of(target)));
            }
            assert(stages[1].effect_gone(target, id));
            assert(stages[2].effect_gone(target, id)) by {
                if stages[2].has_entity(target) {
                    assert(stages[1].entity_map().contains_key(key_of(target)));
                }
            }
            stages[2].lemma_fired_keeps_gone(stages[3], fired, outs, trace1, target, id);
            assert(stages[4].effect_gone(target, id)) by {
                if stages[4].has_entity(target) {
                    assert(stages[3].entity_map().contains_key(key_of(target)));
                }
            }
            assert(stages[5].effect_gone(target, id)) by {
                if stages[5].has_entity(target) {
                    assert(stages[4].entity_map().contains_key(key_of(target)));
                }
            }
        }
    }

    /// Over successive passes of `effect_timer_update` with frames `deltas`,
    /// an effect's timer `t` is still there exactly while the frames, scaled
    /// by the time scale, add up to less than what it had left, and then
    /// keeps the difference; once they reach it, neither a timer nor the
    /// owner holds the effect any more.
    pub proof fn lemma_timer_over_passes(states: Seq<BattleSystem>, deltas: Seq<u64>, id: u128, t: EffectTimer)
        requires
            states.len() == deltas.len() + 1,
            forall|i: int| 0 <= i < states.len() ==> #[trigger] states[i].wf(),
            forall|i: int| 0 <= i < deltas.len() ==> #[trigger] states[i].timers_run_down(states[i + 1], deltas[i]),
            states[0].timer_map().contains_key(id),
            states[0].timer_map()[id] == t,
        ensures
            states.last().scale() == states[0].scale(),
            deltas.len() > 0 ==> (states.last().timer_map().contains_key(id) <==> t.remaining > states[0].scale()
                * total(deltas)),
            t.remaining > states[0].scale() * total(deltas) ==> {
                &&& states.last().timer_map().contains_key(id)
                &&& states.last().timer_map()[id] == (EffectTimer {
                    remaining: (t.remaining - states[0].scale() * total(deltas)) as u128,
                    owner: t.owner,
                })
            },
            deltas.len() > 0 && t.remaining <= states[0].scale() * total(deltas) ==> states.last().effect_gone(
                t.owner,
                id,
            ),
        decreases deltas.len(),
    {
        let s = states[0].scale();
        assert(s * 0int == 0) by (nonlinear_arith);
        if deltas.len() > 0 {
            let n = deltas.len() as int;
            let prefix = deltas.drop_last();
            let before = states.drop_last();
            assert forall|i: int| 0 <= i < before.len() implies #[trigger] before[i].wf() by {
                assert(before[i] == states[i]);
            }
            assert forall|i: int| 0 <= i < prefix.len() implies #[trigger] before[i].timers_run_down(before[i + 1], prefix[i]) by {
                assert(before[i] == states[i]);
                assert(before[i + 1] == states[i + 1]);
                assert(states[i].timers_run_down(states[i + 1], deltas[i]));
            }
            BattleSystem::lemma_timer_over_passes(before, prefix, id, t);
            let prev = states[n - 1];
            let next = states[n];
            assert(before.last() == prev);
            assert(states.last() == next);
            assert(prev.wf());
            assert(prev.timers_run_down(next, deltas[n - 1]));
            lemma_total_nonnegative(prefix);
            lemma_mul_is_distributive_add(s as int, total(prefix), deltas.last() as int);
            lemma_mul_is_commutative(deltas.last() as int, s as int);
            lemma_mul_nonnegative(s as int, deltas.last() as int);
            lemma_mul_nonnegative(s as int, total(prefix));
            assert(total(deltas) == total(prefix) + deltas.last());
            let st: int = deltas.last() * s;
            let owner = t.owner;
            if prev.timer_map().contains_key(id) {
                let t1 = prev.timer_map()[id];
                assert(t1.owner == owner);
                assert(t1.remaining == t.remaining - s * total(prefix));
                if !expires(t1, st) {
                    assert(next.timer_map().contains_key(id));
                } else {
                    assert(!next.timer_map().contains_key(id));
                    prev.lemma_timer_owner_registered(id);
                    prev.lemma_entity_wf(key_of(owner));
                    assert(expired_ids(prev.timer_map(), st, owner).contains(id));
                    assert(prev.entity_map().contains_key(key_of(owner)));
                }
            } else {
                assert(prefix.len() > 0);
                assert(prev.effect_gone(owner, id));
                assert(!next.timer_map().contains_key(id));
                if next.has_entity(owner) {
                    assert(prev.entity_map().contains_key(key_of(owner)));
                }
            }
        }
    }

    /// An effect applied with duration `duration_ms` keeps its timer over
    /// successive passes of `effect_timer_update` exactly while the frames,
    /// scaled by the time scale in per mille, add up to less than the
    /// duration; once they reach it the effect is gone. At the normal scale
    /// (1000) that is frames adding up to the duration; at half speed (500),
    /// to twice the duration.
    pub proof fn lemma_effect_duration_over_passes(
        s0: BattleSystem,
        states: Seq<BattleSystem>,
        deltas: Seq<u64>,
        target: u64,
        effect: Effect,
        id: u128,
        duration_ms: u64,
    )
        requires
            s0.effect_applied(states[0], target, effect, Some(id)),
            timer_duration(&effect) == Some(duration_ms),
            states.len() == deltas.len() + 1,
            deltas.len() > 0,
            forall|i: int| 0 <= i < states.len() ==> #[trigger] states[i].wf(),
            forall|i: int| 0 <= i < deltas.len() ==> #[trigger] states[i].timers_run_down(states[i + 1], deltas[i]),
        ensures
            states.last().timer_map().contains_key(id) <==> states[0].scale() * total(deltas) < duration_ms * SCALE_UNIT,
            states[0].scale() * total(deltas) >= duration_ms * SCALE_UNIT ==> states.last().effect_gone(target, id),
            states[0].scale() == 1000 ==> (states.last().timer_map().contains_key(id) <==> total(deltas) < duration_ms),
            states[0].scale() == 500 ==> (states.last().timer_map().contains_key(id) <==> total(deltas) < 2 * duration_ms),
    {
        let t = EffectTimer { remaining: (duration_ms * SCALE_UNIT) as u128, owner: target };
        BattleSystem::lemma_timer_over_passes(states, deltas, id, t);
    }

    /// An effect applied with duration zero is gone after the next tick,
    /// whatever the frame length and the time scale: no timer is left for it
    /// and its target no longer holds it. (A queued removal of that very
    /// effect, from any target, is left out: it would free the id for the
    /// events after it.)
    pub proof fn lemma_instant_effect_gone_after_tick(
        s0: BattleSystem,
        s1: BattleSystem,
        s2: BattleSystem,
        target: u64,
        effect: Effect,
        id: u128,
        delta_ms: u64,
    )
        requires
            s1.wf(),
            s0.effect_applied(s1, target, effect, Some(id)),
            timer_duration(&effect) == Some(0u64),
            s1.no_removal_queued(id),
            s1.ticks_to(s2, delta_ms),
        ensures
            s2.effect_gone(target, id),
    {
        let t = EffectTimer { remaining: 0, owner: target };
        assert(delta_ms * s1.scale() >= 0) by (nonlinear_arith);
        s1.lemma_tick_runs_timer_down(s2, delta_ms, id, t);
    }

    /// Over a run of ticks, an effect's timer `t` keeps what the frames,
    /// scaled by the time scale, have not yet used up; the tick whose frame
    /// uses it up removes the effect from its owner. (Left out: queued
    /// removals of that very effect, and the owner dying before the last
    /// tick, which takes its timers along.)
    pub proof fn lemma_timer_over_ticks(states: Seq<BattleSystem>, deltas: Seq<u64>, id: u128, t: EffectTimer)
        requires
            states.len() == deltas.len() + 1,
            forall|i: int| 0 <= i < states.len() ==> #[trigger] states[i].wf(),
            forall|i: int| 0 <= i < deltas.len() ==> #[trigger] states[i].ticks_to(states[i + 1], deltas[i]),
            forall|i: int| 0 <= i < deltas.len() ==> #[trigger] states[i].no_removal_queued(id),
            forall|i: int| 0 <= i < deltas.len() ==> #[trigger] states[i].has_entity(t.owner),
            states[0].timer_map().contains_key(id),
            states[0].timer_map()[id] == t,
        ensures
            states.last().scale() == states[0].scale(),
            t.remaining > states[0].scale() * total(deltas) && states.last().has_entity(t.owner) ==> {
                &&& states.last().timer_map().contains_key(id)
                &&& states.last().timer_map()[id] == (EffectTimer {
                    remaining: (t.remaining - states[0].scale() * total(deltas)) as u128,
                    owner: t.owner,
                })
            },
            deltas.len() > 0 && states[0].scale() * total(deltas.drop_last()) < t.remaining <= states[0].scale() * total(
                deltas,
            ) ==> states.last().effect_gone(t.owner, id),
        decreases deltas.len(),
    {
        let s = states[0].scale();
        assert(s * 0int == 0) by (nonlinear_arith);
        if deltas.len() > 0 {
            let n = deltas.len() as int;
            let prefix = deltas.drop_last();
            let before = states.drop_last();
            assert forall|i: int| 0 <= i < before.len() implies #[trigger] before[i].wf() by {
                assert(before[i] == states[i]);
            }
            assert forall|i: int| 0 <= i < prefix.len() implies #[trigger] before[i].ticks_to(before[i + 1], prefix[i]) by {
                assert(before[i] == states[i]);
                assert(before[i + 1] == states[i + 1]);
                assert(states[i].ticks_to(states[i + 1], deltas[i]));
            }
            assert forall|i: int| 0 <= i < prefix.len() implies #[trigger] before[i].no_removal_queued(id) by {
                assert(before[i] == states[i]);
                assert(states[i].no_removal_queued(id));
            }
            assert forall|i: int| 0 <= i < prefix.len() implies #[trigger] before[i].has_entity(t.owner) by {
                assert(before[i] == states[i]);
                assert(states[i].has_entity(t.owner));
            }
            BattleSystem::lemma_timer_over_ticks(before, prefix, id, t);
            let prev = states[n - 1];
            assert(before.last() == prev);
            assert(prev.ticks_to(states[n], deltas[n - 1]));
            prev.lemma_tick_keeps_scale(states[n], deltas[n - 1]);
            lemma_total_nonnegative(prefix);
            lemma_mul_is_distributive_add(s as int, total(prefix), deltas.last() as int);
            lemma_mul_is_commutative(deltas.last() as int, s as int);
            lemma_mul_nonnegative(s as int, deltas.last() as int);
            assert(total(deltas) == total(prefix) + deltas.last());
            assert(states.last() == states[n]);
            assert(prev.has_entity(t.owner));
            if t.remaining > s * total(prefix) {
                let t1 = prev.timer_map()[id];
                assert(prev.no_removal_queued(id));
                prev.lemma_tick_runs_timer_down(states[n], deltas[n - 1], id, t1);
            }
        }
    }

    /// An effect applied with duration `duration_ms` is still held after ticks
    /// whose frames, scaled by the time scale in per mille, add up to less
    /// than the duration; the tick that makes them reach it removes the
    /// effect. At the normal scale (1000) that is frames adding up to the
    /// duration; at half speed (500), to twice the duration. (Left out:
    /// queued removals of that very effect, and the target dying before the
    /// last tick.)
    pub proof fn lemma_effect_duration_over_ticks(
        s0: BattleSystem,
        states: Seq<BattleSystem>,
        deltas: Seq<u64>,
        target: u64,
        effect: Effect,
        id: u128,
        duration_ms: u64,
    )
        requires
            s0.effect_applied(states[0], target, effect, Some(id)),
            timer_duration(&effect) == Some(duration_ms),
            states.len() == deltas.len() + 1,
            forall|i: int| 0 <= i < states.len() ==> #[trigger] states[i].wf(),
            forall|i: int| 0 <= i < deltas.len() ==> #[trigger] states[i].ticks_to(states[i + 1], deltas[i]),
            forall|i: int| 0 <= i < deltas.len() ==> #[trigger] states[i].no_removal_queued(id),
            forall|i: int| 0 <= i < deltas.len() ==> #[trigger] states[i].has_entity(target),
        ensures
            states[0].scale() * total(deltas) < duration_ms * SCALE_UNIT && states.last().has_entity(target)
                ==> states.last().timer_map().contains_key(id),
            deltas.len() > 0 && states[0].scale() * total(deltas.drop_last()) < duration_ms * SCALE_UNIT <= states[0].scale()
                * total(deltas) ==> states.last().effect_gone(target, id),
            states[0].scale() == 1000 && states.last().has_entity(target) ==> (total(deltas) < duration_ms
                ==> states.last().timer_map().contains_key(id)),
            states[0].scale() == 500 && states.last().has_entity(target) ==> (total(deltas) < 2 * duration_ms
                ==> states.last().timer_map().contains_key(id)),
    {
        let t = EffectTimer { remaining: (duration_ms * SCALE_UNIT) as u128, owner: target };
        BattleSystem::lemma_timer_over_ticks(states, deltas, id, t);
    }

    /// No effect id in use has the version field of a random UUID, so the
    /// first id drawn is fresh.
    pub open spec fn no_random_effect_ids(self) -> bool {
        forall|id: u128| #[trigger] self.effect_id_in_use(id) ==> !is_version4(id)
    }

    /// No snapshot id in use has the version field of a random UUID, so the
    /// first id drawn is fresh.
    pub open spec fn no_random_snapshot_ids(self) -> bool {
        forall|id: u128| #[trigger] self.snapshot_map().contains_key(id) ==> !is_version4(id)
    }

    /// Whether a runtime effect id is taken: by a timer or by an effect of
    /// any entity.
    pub open spec fn effect_id_in_use(&self, id: u128) -> bool {
        ||| self.timer_map().contains_key(id)
        ||| exists|k: u128| #[trigger] self.entity_map().contains_key(k) && self.entity_map()[k].effects@.contains_key(id)
    }

    pub fn is_effect_id_in_use(&self, id: u128) -> (r: bool)
        requires
            self.wf(),
        ensures
            r == self.effect_id_in_use(id),
    {
        if self.timers.contains_key(id) {
            return true;
        }
        let keys = self.entities.keys();
        let mut i: usize = 0;
        while i < keys.len()
            invariant
                self.wf(),
                i <= keys@.len(),
                forall|k: u128| self.entities@.contains_key(k) <==> keys@.contains(k),
                forall|j: int| 0 <= j < i ==> !(#[trigger] self.entities@[keys@[j]]).effects@.contains_key(id),
            decreases keys@.len() - i,
        {
            let k = keys[i];
            assert(keys@.contains(k));
            let e = self.entities.get(k).unwrap();
            proof {
                self.lemma_entity_wf(k);
            }
            if e.effects.contains_key(id) {
                return true;
            }
            i = i + 1;
        }
        assert forall|k: u128| #[trigger] self.entity_map().contains_key(k) implies !self.entity_map()[k].effects@.contains_key(id) by {
            assert(keys@.contains(k));
            let j = choose|j: int| 0 <= j < keys@.len() && keys@[j] == k;
            assert(!self.entities@[keys@[j]].effects@.contains_key(id));
        }
        false
    }

    /// Applies `effect` to the entity `target` under the runtime id `id`:
    /// the effect is recorded on the entity and its timer (if it has
    /// payloads) starts from its duration. Returns `false`, and changes
    /// nothing, when the entity is not registered or the id is taken.
    pub fn apply_effect_with_id(&mut self, target: u64, effect: Effect, id: u128) -> (r: bool)
        requires
            old(self).wf(),
        ensures
            final(self).wf(),
            r == (old(self).has_entity(target) && !old(self).effect_id_in_use(id)),
            r ==> {
                &&& final(self).has_entity(target)
                &&& same_but_effects(final(self).entity(target), old(self).entity(target))
                &&& final(self).entity(target).effects@.contains_key(id)
                &&& is_active_of(&final(self).entity(target).effects@[id], &effect)
                &&& final(self).entity(target).effects@.remove(id) == old(self).entity(target).effects@
                &&& final(self).entity_map().remove(key_of(target)) == old(self).entity_map().remove(key_of(target))
                &&& final(self).timer_map() == match initial_timer(&effect, target) {
                    Some(t) => old(self).timer_map().insert(id, t),
                    None => old(self).timer_map(),
                }
            },
            !r ==> *final(self) == *old(self),
            final(self).snapshot_map() == old(self).snapshot_map(),
            final(self).pending() == old(self).pending(),
            final(self).scale() == old(self).scale(),
    {
        if !self.entities.contains_key(target as u128) || self.is_effect_id_in_use(id) {
            return false;
        }
        proof {
            self.lemma_entity_wf(key_of(target));
        }
        let mut e = self.entities.remove(target as u128).unwrap();
        let (active, duration) = effect.activate();
        e.effects.insert(id, active);
        assert(e.effects@.remove(id) =~= old(self).entity(target).effects@);
        self.entities.insert(target as u128, e);
        assert(self.entities@.remove(key_of(target)) =~= old(self).entities@.remove(key_of(target)));
        match duration {
            Some(d) => {
                assert(d as int * SCALE_UNIT <= u64::MAX as int * SCALE_UNIT) by (nonlinear_arith)
                    requires
                        d <= u64::MAX,
                ;
                self.timers.insert(id, EffectTimer { remaining: d as u128 * SCALE_UNIT as u128, owner: target });
            },
            None => {},
        }
        true
    }

    /// Applies `effect` to the entity `target` under a fresh random runtime
    /// id, and returns the id. `None` when the entity is not registered (and,
    /// with negligible odds, when every id drawn was taken).
    pub fn apply_effect(&mut self, target: u64, effect: Effect) -> (r: Option<u128>)
        requires
            old(self).wf(),
        ensures
            final(self).wf(),
            old(self).effect_applied(*final(self), target, effect, r),
            old(self).has_entity(target) && old(self).no_random_effect_ids() ==> r is Some,
            old(self).has_entity(target) && old(self).timer_map() == Map::<u128, EffectTimer>::empty() && (forall|k: u128|
                #[trigger] old(self).entity_map().contains_key(k) ==> old(self).entity_map()[k].effects@ == Map::<
                    u128,
                    ActiveEffect,
                >::empty()) ==> r is Some,
    {
        if !self.entities.contains_key(target as u128) {
            return None;
        }
        assert(self.timer_map() == Map::<u128, EffectTimer>::empty() && (forall|k: u128|
            #[trigger] self.entity_map().contains_key(k) ==> self.entity_map()[k].effects@ == Map::<u128, ActiveEffect>::empty())
            ==> self.no_random_effect_ids());
        let mut attempt: usize = 0;
        while attempt < ID_DRAWS
            invariant
                *self == *old(self),
                self.wf(),
                self.has_entity(target),
                self.no_random_effect_ids() ==> attempt == 0,
            decreases ID_DRAWS - attempt,
        {
            let id = draw_uuid();
            if !self.is_effect_id_in_use(id) {
                let applied = self.apply_effect_with_id(target, effect, id);
                assert(applied);
                return Some(id);
            }
            attempt = attempt + 1;
        }
        None
    }

    /// Removes the effect `id` from the entity `target` and from the timers.
    /// Nothing happens when the target is not registered, nor to what is
    /// absent. Explicit cancellation and expiry both go through here.
    pub fn remove_effect(&mut self, target: u64, id: u128)
        requires
            old(self).wf(),
        ensures
            final(self).wf(),
            old(self).effect_removed(*final(self), target, id),
    {
        let held = match self.entities.get(target as u128) {
            Some(e) => {
                proof {
                    self.lemma_entity_wf(key_of(target));
                }
                e.effects.contains_key(id)
            },
            None => {
                return;
            },
        };
        let timed = self.timers.contains_key(id);
        if !timed && !held {
            assert(self.timers@.remove(id) =~= self.timers@);
            assert(self.entity(target).effects@.remove(id) =~= self.entity(target).effects@);
            assert(self.entities@.remove(key_of(target)) =~= old(self).entities@.remove(key_of(target)));
            return;
        }
        if timed {
            let _ = self.timers.remove(id);
        }
        if held {
            let mut e = self.entities.remove(target as u128).unwrap();
            let _ = e.effects.remove(id);
            self.entities.insert(target as u128, e);
            assert(self.entities@.remove(key_of(target)) =~= old(self).entities@.remove(key_of(target)));
        } else {
            assert(self.entity(target).effects@.remove(id) =~= self.entity(target).effects@);
            assert(self.entities@.remove(key_of(target)) =~= old(self).entities@.remove(key_of(target)));
        }
        if !timed {
            assert(self.timers@ =~= old(self).timers@.remove(id));
        }
    }

    /// Removes from the entity `target` each of the effects `ids`, as
    /// `remove_effect` does one; nothing happens when the target is not
    /// registered.
    pub fn remove_effects(&mut self, target: u64, ids: &Vec<u128>)
        requires
            old(self).wf(),
        ensures
            final(self).wf(),
            !old(self).has_entity(target) ==> *final(self) == *old(self),
            old(self).has_entity(target) ==> {
                &&& final(self).timer_map() == old(self).timer_map().remove_keys(ids@.to_set())
                &&& final(self).has_entity(target)
                &&& same_but_effects(final(self).entity(target), old(self).entity(target))
                &&& final(self).entity(target).effects@ == old(self).entity(target).effects@.remove_keys(ids@.to_set())
                &&& final(self).entity_map().remove(key_of(target)) == old(self).entity_map().remove(key_of(target))
            },
            final(self).snapshot_map() == old(self).snapshot_map(),
            final(self).pending() == old(self).pending(),
            final(self).scale() == old(self).scale(),
    {
        if !self.entities.contains_key(target as u128) {
            return;
        }
        let ghost t0 = self.timers@;
        let ghost e0 = self.entities@;
        let mut i: usize = 0;
        while i < ids.len()
            invariant
                self.wf(),
                i <= ids@.len(),
                e0.contains_key(key_of(target)),
                self.timers@ == t0.remove_keys(ids@.subrange(0, i as int).to_set()),
                self.entities@.contains_key(key_of(target)),
                self.entities@.remove(key_of(target)) == e0.remove(key_of(target)),
                same_but_effects(self.entities@[key_of(target)], e0[key_of(target)]),
                self.entities@[key_of(target)].effects@ == e0[key_of(target)].effects@.remove_keys(
                    ids@.subrange(0, i as int).to_set(),
                ),
                self.snapshots@ == old(self).snapshots@,
                self.queue@ == old(self).queue@,
                self.time_scale == old(self).time_scale,
            decreases ids@.len() - i,
        {
            let id = ids[i];
            self.remove_effect(target, id);
            proof {
                let prev = ids@.subrange(0, i as int);
                let next = ids@.subrange(0, i + 1);
                assert(next.to_set() =~= prev.to_set().insert(id)) by {
                    assert forall|x: u128| next.to_set().contains(x) <==> prev.to_set().insert(id).contains(x) by {
                        if next.contains(x) {
                            let j = choose|j: int| 0 <= j < next.len() && next[j] == x;
                            if j < i {
                                assert(prev[j] == x);
                            }
                        }
                        if prev.contains(x) {
                            let j = choose|j: int| 0 <= j < prev.len() && prev[j] == x;
                            assert(next[j] == x);
                        }
                        if x == id {
                            assert(next[i as int] == x);
                        }
                    }
                }
                assert(self.timers@ =~= t0.remove_keys(next.to_set()));
                assert(self.entities@[key_of(target)].effects@ =~= e0[key_of(target)].effects@.remove_keys(next.to_set()));
            }
            i = i + 1;
        }
        assert(ids@.subrange(0, ids@.len() as int) =~= ids@);
    }

    /// Runs the effect timers down by `delta_ms` times the time scale. Each
    /// effect whose timer runs out is removed from its owner through
    /// `remove_effect`; the other timers keep what is left.
    pub fn effect_timer_update(&mut self, delta_ms: u64)
        requires
            old(self).wf(),
        ensures
            final(self).wf(),
            old(self).timers_run_down(*final(self), delta_ms),
    {
        assert(delta_ms as int * self.time_scale as int <= u64::MAX as int * u64::MAX as int) by (nonlinear_arith)
            requires
                delta_ms <= u64::MAX,
                self.time_scale <= u64::MAX,
        ;
        let step: u128 = delta_ms as u128 * self.time_scale as u128;
        let ghost t0 = self.timers@;
        let ghost e0 = self.entities@;
        let keys = self.timers.keys();
        assert forall|j: int| 0 <= j < keys@.len() implies t0.contains_key(#[trigger] keys@[j]) by {
            assert(keys@.contains(keys@[j]));
        }
        assert forall|k: u128| #[trigger] e0.contains_key(k) implies key_of(e0[k].external_id) == k by {
            self.lemma_entity_wf(k);
        }
        let mut i: usize = 0;
        while i < keys.len()
            invariant
                self.wf(),
                i <= keys@.len(),
                keys@.no_duplicates(),
                forall|k: u128| t0.contains_key(k) <==> keys@.contains(k),
                forall|j: int| 0 <= j < keys@.len() ==> t0.contains_key(#[trigger] keys@[j]),
                forall|k: u128| #[trigger] self.timers@.contains_key(k) ==> t0.contains_key(k),
                forall|j: int| 0 <= j < i ==> {
                    let k = #[trigger] keys@[j];
                    if expires(t0[k], step as int) {
                        !self.timers@.contains_key(k)
                    } else {
                        self.timers@.contains_key(k) && self.timers@[k] == decayed(t0, step as int)[k]
                    }
                },
                forall|j: int| i <= j < keys@.len() ==> {
                    let k = #[trigger] keys@[j];
                    self.timers@.contains_key(k) && self.timers@[k] == t0[k]
                },
                forall|k: u128| #[trigger] self.entities@.contains_key(k) <==> e0.contains_key(k),
                forall|k: u128| #[trigger] e0.contains_key(k) ==> key_of(e0[k].external_id) == k,
                forall|k: u128| #[trigger] e0.contains_key(k) ==> {
                    &&& same_but_effects(self.entities@[k], e0[k])
                    &&& self.entities@[k].effects@ == e0[k].effects@.remove_keys(
                        expired_ids(t0, step as int, e0[k].external_id).intersect(keys@.subrange(0, i as int).to_set()),
                    )
                },
                self.snapshots@ == old(self).snapshots@,
                self.queue@ == old(self).queue@,
                self.time_scale == old(self).time_scale,
            decreases keys@.len() - i,
        {
            let k = keys[i];
            let t = *self.timers.get(k).unwrap();
            let ghost prev_set = keys@.subrange(0, i as int).to_set();
            let ghost next_set = keys@.subrange(0, i + 1).to_set();
            assert(next_set =~= prev_set.insert(k)) by {
                let prev = keys@.subrange(0, i as int);
                let next = keys@.subrange(0, i + 1);
                assert forall|x: u128| next.to_set().contains(x) <==> prev.to_set().insert(k).contains(x) by {
                    if next.contains(x) {
                        let j = choose|j: int| 0 <= j < next.len() && next[j] == x;
                        if j < i {
                            assert(prev[j] == x);
                        }
                    }
                    if prev.contains(x) {
                        let j = choose|j: int| 0 <= j < prev.len() && prev[j] == x;
                        assert(next[j] == x);
                    }
                    if x == k {
                        assert(next[i as int] == x);
                    }
                }
            }
            assert(!prev_set.contains(k)) by {
                if keys@.subrange(0, i as int).contains(k) {
                    let j = choose|j: int| 0 <= j < i && keys@.subrange(0, i as int)[j] == k;
                    assert(keys@[j] == keys@[i as int]);
                }
            }
            let ghost before = self.entities@;
            proof {
                self.lemma_timer_owner_registered(k);
            }
            if t.remaining <= step {
                self.remove_effect(t.owner, k);
                proof {
                    lemma_same_keys(self.entities@, before, key_of(t.owner));
                    assert forall|kk: u128| #[trigger] e0.contains_key(kk) implies {
                        &&& same_but_effects(self.entities@[kk], e0[kk])
                        &&& self.entities@[kk].effects@ == e0[kk].effects@.remove_keys(
                            expired_ids(t0, step as int, e0[kk].external_id).intersect(next_set),
                        )
                    } by {
                        assert(before.contains_key(kk));
                        if kk == key_of(t.owner) {
                            assert(self.entities@[kk].effects@ =~= e0[kk].effects@.remove_keys(
                                expired_ids(t0, step as int, e0[kk].external_id).intersect(next_set),
                            ));
                        } else {
                            assert(self.entities@.remove(key_of(t.owner))[kk] == before.remove(key_of(t.owner))[kk]);
                            assert(e0[kk].external_id != t.owner);
                            assert(expired_ids(t0, step as int, e0[kk].external_id).intersect(next_set)
                                =~= expired_ids(t0, step as int, e0[kk].external_id).intersect(prev_set));
                        }
                    }
                    assert forall|j: int| i + 1 <= j < keys@.len() implies {
                        let kk = #[trigger] keys@[j];
                        self.timers@.contains_key(kk) && self.timers@[kk] == t0[kk]
                    } by {
                        assert(keys@[j] != k);
                    }
                    assert forall|j: int| 0 <= j < i + 1 implies {
                        let kk = #[trigger] keys@[j];
                        if expires(t0[kk], step as int) {
                            !self.timers@.contains_key(kk)
                        } else {
                            self.timers@.contains_key(kk) && self.timers@[kk] == decayed(t0, step as int)[kk]
                        }
                    } by {
                        if j < i {
                            assert(keys@[j] != k);
                        }
                    }
                }
            } else {
                self.timers.insert(k, EffectTimer { remaining: t.remaining - step, owner: t.owner });
                proof {
                    assert forall|kk: u128| #[trigger] e0.contains_key(kk) implies
                        self.entities@[kk].effects@ == e0[kk].effects@.remove_keys(
                            expired_ids(t0, step as int, e0[kk].external_id).intersect(next_set),
                        ) by {
                        assert(expired_ids(t0, step as int, e0[kk].external_id).intersect(next_set)
                            =~= expired_ids(t0, step as int, e0[kk].external_id).intersect(prev_set));
                    }
                    assert forall|j: int| i + 1 <= j < keys@.len() implies {
                        let kk = #[trigger] keys@[j];
                        self.timers@.contains_key(kk) && self.timers@[kk] == t0[kk]
                    } by {
                        assert(keys@[j] != k);
                    }
                    assert forall|j: int| 0 <= j < i + 1 implies {
                        let kk = #[trigger] keys@[j];
                        if expires(t0[kk], step as int) {
                            !self.timers@.contains_key(kk)
                        } else {
                            self.timers@.contains_key(kk) && self.timers@[kk] == decayed(t0, step as int)[kk]
                        }
                    } by {
                        if j < i {
                            assert(keys@[j] != k);
                        }
                    }
                }
            }
            i = i + 1;
        }
        proof {
            assert(keys@.subrange(0, keys@.len() as int) =~= keys@);
            assert forall|kk: u128| #[trigger] e0.contains_key(kk) implies
                expired_ids(t0, step as int, e0[kk].external_id).intersect(keys@.to_set())
                    =~= expired_ids(t0, step as int, e0[kk].external_id) by {
                assert forall|x: u128| expired_ids(t0, step as int, e0[kk].external_id).contains(x) implies keys@.to_set().contains(x) by {
                    assert(keys@.contains(x));
                }
            }
            assert forall|x: u128| #[trigger] self.timers@.contains_key(x) <==> decayed(t0, step as int).contains_key(x) by {
                if t0.contains_key(x) {
                    assert(keys@.contains(x));
                    let j = choose|j: int| 0 <= j < keys@.len() && keys@[j] == x;
                    assert(keys@[j] == x);
                }
            }
            assert forall|x: u128| #[trigger] self.timers@.contains_key(x) implies self.timers@[x] == decayed(t0, step as int)[x] by {
                assert(keys@.contains(x));
                let j = choose|j: int| 0 <= j < keys@.len() && keys@[j] == x;
                assert(keys@[j] == x);
            }
            assert(self.timers@ =~= decayed(t0, step as int));
        }
    }

    /// The stats a damage from `source` is computed with: the live stats of a
    /// registered attacker, the frozen stats of a live snapshot, else the
    /// neutral stats.
    pub open spec fn attacker_stats(&self, source: DamageSource) -> CurrentStats {
        match source {
            DamageSource::Realtime(id) => if self.has_entity(id) {
                self.entity(id).stats
            } else {
                neutral_stats()
            },
            DamageSource::Snapshot(sid) => if self.snapshot_map().contains_key(sid) {
                self.snapshot_map()[sid].snapshot.stats
            } else {
                neutral_stats()
            },
        }
    }

    /// A damage whose live source is no longer registered is computed with
    /// the neutral stats of a fresh entity.
    pub proof fn lemma_gone_attacker_is_neutral(&self, source_id: u64)
        requires
            !self.has_entity(source_id),
        ensures
            self.attacker_stats(DamageSource::Realtime(source_id)) == neutral_stats(),
    {
    }

    /// Applies a damage to the entity `target`: nothing when it is not
    /// registered; otherwise a snapshot source gives up one use, and the
    /// target loses `damage_dealt` health, down to zero.
    pub fn take_damage(&mut self, target: u64, damage: Damage)
        requires
            old(self).wf(),
        ensures
            final(self).wf(),
            old(self).damage_taken(*final(self), target, damage),
    {
        if !self.entities.contains_key(target as u128) {
            return;
        }
        let ghost attacker = self.attacker_stats(damage.source);
        let attacker_stats = match damage.source {
            DamageSource::Realtime(id) => match self.entities.get(id as u128) {
                Some(e) => {
                    proof {
                        self.lemma_entity_wf(key_of(id));
                    }
                    e.stats
                },
                None => CurrentStats::from_base(BaseStats::default()),
            },
            DamageSource::Snapshot(sid) => match self.consume_snapshot(sid) {
                Some(snapshot) => snapshot.stats,
                None => CurrentStats::from_base(BaseStats::default()),
            },
        };
        assert(attacker_stats == attacker);
        proof {
            self.lemma_entity_wf(key_of(target));
        }
        let mut e = self.entities.remove(target as u128).unwrap();
        let dealt = compute_damage(damage.kind, damage.base_amount, &attacker_stats, &e.stats);
        e.stats.health = if dealt >= e.stats.health as u128 {
            0
        } else {
            e.stats.health - dealt as u64
        };
        self.entities.insert(target as u128, e);
        assert(self.entities@.remove(key_of(target)) =~= old(self).entities@.remove(key_of(target)));
    }

    /// Advances the periodic payloads of every applied effect by `delta_ms`
    /// times the time scale; a payload fires at most once per call, however
    /// long the step. Returns the firing payloads with their bearers.
    pub fn tick_effect_update(&mut self, delta_ms: u64) -> (fired: Vec<(u64, TickEffectKind)>)
        requires
            old(self).wf(),
        ensures
            final(self).wf(),
            old(self).payloads_advanced(*final(self), delta_ms, fired@),
    {
        assert(delta_ms as int * self.time_scale as int <= u64::MAX as int * u64::MAX as int) by (nonlinear_arith)
            requires
                delta_ms <= u64::MAX,
                self.time_scale <= u64::MAX,
        ;
        let step: u128 = delta_ms as u128 * self.time_scale as u128;
        let ghost e0 = self.entities@;
        let mut fired: Vec<(u64, TickEffectKind)> = Vec::new();
        let keys = self.entities.keys();
        let mut i: usize = 0;
        while i < keys.len()
            invariant
                self.wf(),
                i <= keys@.len(),
                keys@.no_duplicates(),
                forall|k: u128| e0.contains_key(k) <==> keys@.contains(k),
                forall|k: u128| #[trigger] self.entities@.contains_key(k) <==> e0.contains_key(k),
                forall|j: int| 0 <= j < i ==> {
                    let k = #[trigger] keys@[j];
                    &&& same_but_effects(self.entities@[k], e0[k])
                    &&& self.entities@[k].effects@.dom() == e0[k].effects@.dom()
                    &&& forall|id: u128| #[trigger] e0[k].effects@.contains_key(id) ==> is_advanced(
                        self.entities@[k].effects@[id],
                        e0[k].effects@[id],
                        step as int,
                    )
                },
                forall|j: int| i <= j < keys@.len() ==> self.entities@[#[trigger] keys@[j]] == e0[keys@[j]],
                forall|x: int| 0 <= x < fired@.len() ==> e0.contains_key(key_of(#[trigger] fired@[x].0)),
                keys@ == old(self).entities.entry_seq().map_values(|e: (u128, EntityState)| e.0),
                old(self).wf(),
                e0 == old(self).entities@,
                step == delta_ms * old(self).scale(),
                fired@ == entities_fired(old(self).entities.entry_seq().subrange(0, i as int), step as int),
                self.timers@ == old(self).timers@,
                self.snapshots@ == old(self).snapshots@,
                self.queue@ == old(self).queue@,
                self.time_scale == old(self).time_scale,
            decreases keys@.len() - i,
        {
            let k = keys[i];
            assert(keys@.contains(k));
            proof {
                self.lemma_entity_wf(k);
            }
            proof {
                old(self).entities.lemma_entry(i as int);
                assert(keys@[i as int] == old(self).entities.entry_seq()[i as int].0);
            }
            let mut e = self.entities.remove(k).unwrap();
            assert(e == old(self).entities.entry_seq()[i as int].1);
            let more = e.advance_all_ticks(step);
            let owner = e.external_id;
            let ghost before_fired = fired@;
            let mut x: usize = 0;
            while x < more.len()
                invariant
                    x <= more@.len(),
                    key_of(owner) == k,
                    e0.contains_key(k),
                    forall|y: int| 0 <= y < fired@.len() ==> e0.contains_key(key_of(#[trigger] fired@[y].0)),
                    fired@ == before_fired + more@.subrange(0, x as int).map_values(|kind: TickEffectKind| (owner, kind)),
                decreases more@.len() - x,
            {
                fired.push((owner, more[x]));
                x = x + 1;
                assert(fired@ =~= before_fired + more@.subrange(0, x as int).map_values(|kind: TickEffectKind| (owner, kind)));
            }
            proof {
                let es = old(self).entities.entry_seq();
                assert(more@.subrange(0, more@.len() as int) =~= more@);
                assert(es.subrange(0, i + 1).drop_last() =~= es.subrange(0, i as int));
                assert(es.subrange(0, i + 1).last() == es[i as int]);
            }
            self.entities.insert(k, e);
            proof {
                assert forall|j: int| 0 <= j < i + 1 implies {
                    let kk = #[trigger] keys@[j];
                    &&& same_but_effects(self.entities@[kk], e0[kk])
                    &&& self.entities@[kk].effects@.dom() == e0[kk].effects@.dom()
                    &&& forall|id: u128| #[trigger] e0[kk].effects@.contains_key(id) ==> is_advanced(
                        self.entities@[kk].effects@[id],
                        e0[kk].effects@[id],
                        step as int,
                    )
                } by {
                    if j < i {
                        assert(keys@[j] != k);
                    }
                }
                assert forall|j: int| i + 1 <= j < keys@.len() implies self.entities@[#[trigger] keys@[j]] == e0[keys@[j]] by {
                    assert(keys@[j] != k);
                }
            }
            i = i + 1;
        }
        proof {
            let es = old(self).entities.entry_seq();
            assert(es.subrange(0, es.len() as int) =~= es);
            assert forall|k: u128| #[trigger] e0.contains_key(k) implies {
                &&& same_but_effects(self.entities@[k], e0[k])
                &&& self.entities@[k].effects@.dom() == e0[k].effects@.dom()
                &&& forall|id: u128| #[trigger] e0[k].effects@.contains_key(id) ==> is_advanced(
                    self.entities@[k].effects@[id],
                    e0[k].effects@[id],
                    step as int,
                )
            } by {
                assert(keys@.contains(k));
                let j = choose|j: int| 0 <= j < keys@.len() && keys@[j] == k;
                assert(keys@[j] == k);
            }
        }
        fired
    }

    /// Carries out a fired payload on its bearer `owner` (nothing when the
    /// bearer is gone): regeneration adds health or mana up to the maximum,
    /// periodic damage is reduced by the bearer's defences, a deferred effect
    /// waits for the next tick, and a push is handed back for the host.
    pub fn fire_payload(&mut self, owner: u64, kind: TickEffectKind) -> (r: Option<ForcedMove>)
        requires
            old(self).wf(),
        ensures
            final(self).wf(),
            old(self).payload_fired(*final(self), owner, kind, r),
    {
        if !self.entities.contains_key(owner as u128) {
            return None;
        }
        proof {
            self.lemma_entity_wf(key_of(owner));
        }
        let mut e = self.entities.remove(owner as u128).unwrap();
        let mut result: Option<ForcedMove> = None;
        match kind {
            TickEffectKind::HealthRegen(n) => {
                e.stats.health = if n as u128 + e.stats.health as u128 > e.stats.max_health as u128 {
                    e.stats.max_health
                } else {
                    e.stats.health + n
                };
            },
            TickEffectKind::ManaRegen(n) => {
                e.stats.mana = if n as u128 + e.stats.mana as u128 > e.stats.max_mana as u128 {
                    e.stats.max_mana
                } else {
                    e.stats.mana + n
                };
            },
            TickEffectKind::PhysicalDamage(n) | TickEffectKind::MagicalDamage(n) => {
                let loss = mitigate(DamageTags::empty(), n as u128, &e.stats);
                e.stats.health = if loss >= e.stats.health as u128 {
                    0
                } else {
                    e.stats.health - loss as u64
                };
            },
            TickEffectKind::DeferredEffect(v) => {
                self.queue.push(Command::ApplyEffect(owner, v.to_effect()));
            },
            TickEffectKind::ForceMove(dx, dy) => {
                result = Some(ForcedMove { entity: owner, dx, dy });
            },
        }
        self.entities.insert(owner as u128, e);
        assert(self.entities@.remove(key_of(owner)) =~= old(self).entities@.remove(key_of(owner)));
        assert(self.queue@.drop_last() =~= old(self).queue@ || self.queue@ == old(self).queue@);
        result
    }

    /// Recomputes the current stats of every entity from its base stats and
    /// every modifier in force (equipment, then active effects); health and
    /// mana are kept, cut down to the new maxima.
    pub fn effects_changed_update(&mut self)
        requires
            old(self).wf(),
        ensures
            final(self).wf(),
            old(self).stats_recomputed(*final(self)),
    {
        let ghost e0 = self.entities@;
        let keys = self.entities.keys();
        let mut i: usize = 0;
        while i < keys.len()
            invariant
                self.wf(),
                i <= keys@.len(),
                keys@.no_duplicates(),
                forall|k: u128| e0.contains_key(k) <==> keys@.contains(k),
                forall|k: u128| #[trigger] self.entities@.contains_key(k) <==> e0.contains_key(k),
                forall|j: int| 0 <= j < i ==> {
                    let k = #[trigger] keys@[j];
                    &&& same_but_stats(self.entities@[k], e0[k])
                    &&& self.entities@[k].stats == recomputed(
                        e0[k].base_stats,
                        e0[k].all_modifiers(),
                        e0[k].stats.health as int,
                        e0[k].stats.mana as int,
                    )
                },
                forall|j: int| i <= j < keys@.len() ==> self.entities@[#[trigger] keys@[j]] == e0[keys@[j]],
                self.timers@ == old(self).timers@,
                self.snapshots@ == old(self).snapshots@,
                self.queue@ == old(self).queue@,
                self.time_scale == old(self).time_scale,
            decreases keys@.len() - i,
        {
            let k = keys[i];
            assert(keys@.contains(k));
            proof {
                self.lemma_entity_wf(k);
            }
            let mut e = self.entities.remove(k).unwrap();
            e.refresh_stats();
            self.entities.insert(k, e);
            proof {
                assert forall|j: int| 0 <= j < i + 1 implies {
                    let kk = #[trigger] keys@[j];
                    &&& same_but_stats(self.entities@[kk], e0[kk])
                    &&& self.entities@[kk].stats == recomputed(
                        e0[kk].base_stats,
                        e0[kk].all_modifiers(),
                        e0[kk].stats.health as int,
                        e0[kk].stats.mana as int,
                    )
                } by {
                    if j < i {
                        assert(keys@[j] != k);
                    }
                }
                assert forall|j: int| i + 1 <= j < keys@.len() implies self.entities@[#[trigger] keys@[j]] == e0[keys@[j]] by {
                    assert(keys@[j] != k);
                }
            }
            i = i + 1;
        }
        proof {
            assert forall|k: u128| #[trigger] e0.contains_key(k) implies {
                &&& same_but_stats(self.entities@[k], e0[k])
                &&& self.entities@[k].stats == recomputed(
                    e0[k].base_stats,
                    e0[k].all_modifiers(),
                    e0[k].stats.health as int,
                    e0[k].stats.mana as int,
                )
            } by {
                assert(keys@.contains(k));
                let j = choose|j: int| 0 <= j < keys@.len() && keys@[j] == k;
                assert(keys@[j] == k);
            }
            assert forall|k: u128| #[trigger] self.entities@.contains_key(k) implies self.entities@[k].stats.health
                <= self.entities@[k].stats.max_health by {
                self.lemma_entity_wf(k);
            }
        }
    }

    /// The death check: destroys every entity whose health is zero, with the
    /// timers of its effects, and returns their external ids, for the host
    /// to be told.
    pub fn current_stats_update(&mut self) -> (died: Vec<u64>)
        requires
            old(self).wf(),
        ensures
            final(self).wf(),
            old(self).deaths_removed(*final(self), died@),
    {
        let ghost e0 = self.entities@;
        let ghost t0 = self.timers@;
        let ghost alive = e0.dom().filter(|k: u128| e0[k].stats.health != 0);
        let mut died: Vec<u64> = Vec::new();
        let keys = self.entities.keys();
        assert forall|j: int| 0 <= j < keys@.len() implies self.entities@.contains_key(#[trigger] keys@[j]) by {
            assert(keys@.contains(keys@[j]));
        }
        let mut i: usize = 0;
        while i < keys.len()
            invariant
                self.wf(),
                i <= keys@.len(),
                keys@.no_duplicates(),
                forall|k: u128| e0.contains_key(k) <==> keys@.contains(k),
                forall|k: u128| e0.contains_key(k) ==> key_of(#[trigger] e0[k].external_id) == k,
                forall|k: u128| #[trigger] self.entities@.contains_key(k) ==> e0.contains_key(k) && self.entities@[k] == e0[k],
                forall|j: int| 0 <= j < i ==> (!self.entities@.contains_key(#[trigger] keys@[j]) <==> e0[keys@[j]].stats.health == 0),
                forall|j: int| i <= j < keys@.len() ==> self.entities@.contains_key(#[trigger] keys@[j]),
                died@.no_duplicates(),
                forall|id: u64| died@.contains(id) <==> exists|j: int| 0 <= j < i && #[trigger] keys@[j] == key_of(id)
                    && e0[keys@[j]].stats.health == 0,
                self.timers@ == t0.restrict(t0.dom().filter(|k: u128| !died@.contains(t0[k].owner))),
                t0 == old(self).timers@,
                e0 == old(self).entities@,
                old(self).wf(),
                self.snapshots@ == old(self).snapshots@,
                self.queue@ == old(self).queue@,
                self.time_scale == old(self).time_scale,
            decreases keys@.len() - i,
        {
            let k = keys[i];
            let (dead, id) = match self.entities.get(k) {
                Some(e) => (e.stats.health == 0, e.external_id),
                None => (false, 0),
            };
            let ghost prev_died = died@;
            assert(keys@.contains(k));
            if dead {
                let ghost before_timers = self.timers@;
                self.drop_timers_of(id);
                let _ = self.entities.remove(k);
                proof {
                    assert(!died@.contains(id)) by {
                        if died@.contains(id) {
                            let j = choose|j: int| 0 <= j < i && #[trigger] keys@[j] == key_of(id) && e0[keys@[j]].stats.health == 0;
                            assert(keys@[j] == keys@[i as int]);
                        }
                    }
                }
                died.push(id);
            }
            proof {
                assert forall|j: int| i + 1 <= j < keys@.len() implies self.entities@.contains_key(#[trigger] keys@[j]) by {
                    assert(keys@[j] != keys@[i as int]);
                }
                assert forall|j: int| 0 <= j < i + 1 implies (!self.entities@.contains_key(#[trigger] keys@[j]) <==> e0[keys@[j]].stats.health == 0) by {
                    if j < i {
                        assert(keys@[j] != keys@[i as int]);
                    }
                }
                assert forall|x: u64| died@.contains(x) <==> exists|j: int| 0 <= j < i + 1 && #[trigger] keys@[j] == key_of(x)
                    && e0[keys@[j]].stats.health == 0 by {
                    let here = keys@[i as int] == key_of(x) && e0[keys@[i as int]].stats.health == 0;
                    assert((exists|j: int| 0 <= j < i + 1 && #[trigger] keys@[j] == key_of(x) && e0[keys@[j]].stats.health == 0)
                        <==> (here || exists|j: int| 0 <= j < i && #[trigger] keys@[j] == key_of(x) && e0[keys@[j]].stats.health == 0));
                    assert(e0.contains_key(k));
                    if here {
                        assert(e0[k].external_id == x);
                    }
                    assert(here <==> (dead && x == id));
                    assert(died@ =~= (if dead { prev_died.push(id) } else { prev_died }));
                    if dead {
                        assert(died@.contains(x) <==> (prev_died.contains(x) || x == id)) by {
                            if died@.contains(x) && x != id {
                                let j = choose|j: int| 0 <= j < died@.len() && died@[j] == x;
                                assert(prev_died[j] == x);
                            }
                            if prev_died.contains(x) {
                                let j = choose|j: int| 0 <= j < prev_died.len() && prev_died[j] == x;
                                assert(died@[j] == x);
                            }
                            if x == id {
                                assert(died@[died@.len() - 1] == x);
                            }
                        }
                    }
                }
                if dead {
                    assert forall|x: u64| died@.contains(x) <==> (prev_died.contains(x) || x == id) by {
                        if died@.contains(x) && x != id {
                            let j = choose|j: int| 0 <= j < died@.len() && died@[j] == x;
                            assert(prev_died[j] == x);
                        }
                        if prev_died.contains(x) {
                            let j = choose|j: int| 0 <= j < prev_died.len() && prev_died[j] == x;
                            assert(died@[j] == x);
                        }
                        if x == id {
                            assert(died@[died@.len() - 1] == x);
                        }
                    }
                    assert(self.timers@ =~= t0.restrict(t0.dom().filter(|kk: u128| !died@.contains(t0[kk].owner))));
                } else {
                    assert(died@ == prev_died);
                }
            }
            i = i + 1;
        }
        proof {
            assert forall|k: u128| #[trigger] self.entities@.contains_key(k) <==> alive.contains(k) by {
                if e0.contains_key(k) {
                    assert(keys@.contains(k));
                    let j = choose|j: int| 0 <= j < keys@.len() && keys@[j] == k;
                    assert(!self.entities@.contains_key(keys@[j]) <==> e0[keys@[j]].stats.health == 0);
                }
            }
            assert(self.entities@ =~= e0.restrict(alive));
            assert forall|kk: u128| #[trigger] t0.contains_key(kk) implies (died@.contains(t0[kk].owner) <==> old(
                self,
            ).entity(t0[kk].owner).stats.health == 0) by {
                old(self).lemma_timer_owner_registered(kk);
            }
            assert(self.timers@ =~= t0.restrict(
                t0.dom().filter(|kk: u128| old(self).entity(t0[kk].owner).stats.health != 0),
            ));
            assert forall|x: u64| died@.contains(x) <==> old(self).has_entity(x) && old(self).entity(x).stats.health == 0 by {
                if old(self).has_entity(x) && old(self).entity(x).stats.health == 0 {
                    assert(keys@.contains(key_of(x)));
                    let j = choose|j: int| 0 <= j < keys@.len() && keys@[j] == key_of(x);
                    assert(keys@[j] == key_of(x));
                }
            }
        }
        died
    }

    /// Queues a damage for the next tick.
    pub fn request_damage(&mut self, target: u64, damage: Damage)
        requires
            old(self).wf(),
        ensures
            final(self).wf(),
            final(self).pending() == old(self).pending().push(Command::TakeDamage(target, damage)),
            final(self).entity_map() == old(self).entity_map(),
            final(self).timer_map() == old(self).timer_map(),
            final(self).snapshot_map() == old(self).snapshot_map(),
            final(self).scale() == old(self).scale(),
    {
        self.queue.push(Command::TakeDamage(target, damage));
    }

    /// Queues an effect for the next tick.
    pub fn request_apply_effect(&mut self, target: u64, effect: Effect)
        requires
            old(self).wf(),
        ensures
            final(self).wf(),
            final(self).pending() == old(self).pending().push(Command::ApplyEffect(target, effect)),
            final(self).entity_map() == old(self).entity_map(),
            final(self).timer_map() == old(self).timer_map(),
            final(self).snapshot_map() == old(self).snapshot_map(),
            final(self).scale() == old(self).scale(),
    {
        self.queue.push(Command::ApplyEffect(target, effect));
    }

    /// Queues the removal of an effect for the next tick.
    pub fn request_remove_effect(&mut self, target: u64, runtime_id: u128)
        requires
            old(self).wf(),
        ensures
            final(self).wf(),
            final(self).pending() == old(self).pending().push(Command::RemoveEffect(target, runtime_id)),
            final(self).entity_map() == old(self).entity_map(),
            final(self).timer_map() == old(self).timer_map(),
            final(self).snapshot_map() == old(self).snapshot_map(),
            final(self).scale() == old(self).scale(),
    {
        self.queue.push(Command::RemoveEffect(target, runtime_id));
    }

    /// Carries out one event.
    fn handle(&mut self, command: Command)
        requires
            old(self).wf(),
        ensures
            final(self).wf(),
            old(self).handled(*final(self), command),
            forall|k: u128| #[trigger] final(self).entity_map().contains_key(k) <==> old(self).entity_map().contains_key(k),
    {
        match command {
            Command::TakeDamage(target, damage) => {
                self.take_damage(target, damage);
                proof {
                    if old(self).has_entity(target) {
                        lemma_same_keys(self.entity_map(), old(self).entity_map(), key_of(target));
                    }
                }
            },
            Command::ApplyEffect(target, effect) => {
                let r = self.apply_effect(target, effect);
                proof {
                    if r.is_some() {
                        lemma_same_keys(self.entity_map(), old(self).entity_map(), key_of(target));
                    }
                    assert(old(self).effect_applied(*self, target, effect, r));
                }
            },
            Command::RemoveEffect(target, id) => {
                self.remove_effect(target, id);
                proof {
                    if old(self).has_entity(target) {
                        lemma_same_keys(self.entity_map(), old(self).entity_map(), key_of(target));
                    }
                }
            },
        }
    }

    /// Carries out the queued events, oldest first, and empties the queue.
    pub fn flush_events(&mut self)
        requires
            old(self).wf(),
        ensures
            final(self).wf(),
            old(self).flushed(*final(self)),
            final(self).pending() == Seq::<Command>::empty(),
            forall|k: u128| #[trigger] final(self).entity_map().contains_key(k) <==> old(self).entity_map().contains_key(k),
            final(self).scale() == old(self).scale(),
    {
        let mut queue: Vec<Command> = Vec::new();
        std::mem::swap(&mut queue, &mut self.queue);
        let ghost commands = queue@;
        assert(commands.len() == queue.len());
        let ghost mut trace: Seq<BattleSystem> = seq![*self];
        let mut done: usize = 0;
        while queue.len() > 0
            invariant
                self.wf(),
                self.queue@ == Seq::<Command>::empty(),
                forall|k: u128| #[trigger] self.entity_map().contains_key(k) <==> old(self).entity_map().contains_key(k),
                self.time_scale == old(self).time_scale,
                commands == old(self).pending(),
                done + queue@.len() == commands.len(),
                commands.len() <= usize::MAX,
                queue@ == commands.subrange(done as int, commands.len() as int),
                trace.len() == done + 1,
                BattleSystem::same_but_pending(trace[0], *old(self)),
                trace[0].pending() == Seq::<Command>::empty(),
                forall|i: int| 0 <= i < done ==> #[trigger] trace[i].handled(trace[i + 1], commands[i]),
                trace.last() == *self,
            decreases queue@.len(),
        {
            let command = queue.remove(0);
            assert(command == commands[done as int]);
            let ghost before = *self;
            self.handle(command);
            proof {
                trace = trace.push(*self);
                assert forall|i: int| 0 <= i < done + 1 implies #[trigger] trace[i].handled(trace[i + 1], commands[i]) by {
                    if i == done {
                        assert(trace[i] == before);
                    } else {
                        assert(trace[i] == trace.drop_last()[i]);
                        assert(trace[i + 1] == trace.drop_last()[i + 1]);
                    }
                }
            }
            done = done + 1;
            assert(queue@ =~= commands.subrange(done as int, commands.len() as int));
        }
        assert(old(self).flushed_by(*self, trace));
    }

    /// Advances the simulation by one host frame of `delta_ms` milliseconds:
    /// queued events are carried out, effect timers run down (expired effects
    /// are removed), periodic payloads advance and fire, stats are
    /// recomputed, dead entities are destroyed and used-up snapshots are
    /// collected, in that order.
    pub fn tick(&mut self, delta_ms: u64) -> (r: TickReport)
        requires
            old(self).wf(),
        ensures
            final(self).wf(),
            exists|stages: Seq<BattleSystem>, fired: Seq<(u64, TickEffectKind)>, outs: Seq<Option<ForcedMove>>|
                #[trigger] old(self).ticked_via(*final(self), delta_ms, r.died@, r.moves@, stages, fired, outs),
            final(self).scale() == old(self).scale(),
            forall|k: u128| #[trigger] final(self).entity_map().contains_key(k) ==> {
                &&& old(self).entity_map().contains_key(k)
                &&& 0 < final(self).entity_map()[k].stats.health <= final(self).entity_map()[k].stats.max_health
            },
            forall|sid: u128| #[trigger] final(self).snapshot_map().contains_key(sid) ==> final(self).snapshot_map()[sid].ref_count != 0,
            forall|i: int| 0 <= i < r.died@.len() ==> !final(self).has_entity(#[trigger] r.died@[i]) && old(
                self,
            ).has_entity(r.died@[i]),
            r.died@.no_duplicates(),
    {
        self.flush_events();
        let ghost s0 = *self;
        self.effect_timer_update(delta_ms);
        let ghost s1 = *self;
        let fired = self.tick_effect_update(delta_ms);
        let ghost s2 = *self;
        let mut moves: Vec<ForcedMove> = Vec::new();
        let ghost mut trace: Seq<BattleSystem> = seq![*self];
        let ghost mut outs: Seq<Option<ForcedMove>> = Seq::empty();
        let mut i: usize = 0;
        while i < fired.len()
            invariant
                self.wf(),
                i <= fired@.len(),
                forall|k: u128| #[trigger] self.entities@.contains_key(k) <==> old(self).entities@.contains_key(k),
                self.time_scale == old(self).time_scale,
                trace.len() == i + 1,
                outs.len() == i,
                trace[0] == s2,
                forall|j: int| 0 <= j < i ==> #[trigger] trace[j].payload_fired(trace[j + 1], fired@[j].0, fired@[j].1, outs[j]),
                trace.last() == *self,
                moves@ == moves_of(outs),
            decreases fired@.len() - i,
        {
            let (owner, kind) = fired[i];
            let ghost before = *self;
            let out = self.fire_payload(owner, kind);
            match out {
                Some(m) => moves.push(m),
                None => {},
            }
            proof {
                if before.entities@.contains_key(key_of(owner)) {
                    lemma_same_keys(self.entities@, before.entities@, key_of(owner));
                }
                let prev_outs = outs;
                trace = trace.push(*self);
                outs = outs.push(out);
                assert(outs.drop_last() =~= prev_outs);
                assert(outs.last() == out);
                assert forall|j: int| 0 <= j < i + 1 implies #[trigger] trace[j].payload_fired(trace[j + 1], fired@[j].0, fired@[j].1, outs[j]) by {
                    if j == i {
                        assert(trace[j] == before);
                    } else {
                        assert(trace[j] == trace.drop_last()[j]);
                        assert(trace[j + 1] == trace.drop_last()[j + 1]);
                        assert(outs[j] == outs.drop_last()[j]);
                    }
                }
                assert(outs.drop_last() == outs.subrange(0, i as int));
            }
            i = i + 1;
        }
        proof {
            assert(s2.fired_by(*self, fired@, outs, trace));
        }
        let ghost s3 = *self;
        self.effects_changed_update();
        let ghost s4 = *self;
        let died = self.current_stats_update();
        let ghost s5 = *self;
        self.snapshot_ref_decrease();
        proof {
            assert forall|i: int| 0 <= i < died@.len() implies !self.has_entity(#[trigger] died@[i]) && old(
                self,
            ).has_entity(died@[i]) by {
                assert(died@.contains(died@[i]));
                assert(s4.entity_map().contains_key(key_of(died@[i])));
            }
        }
        let ghost stages = seq![s0, s1, s2, s3, s4, s5];
        let r = TickReport { died, moves };
        assert(old(self).ticked_via(*self, delta_ms, r.died@, r.moves@, stages, fired@, outs));
        r
    }

    /// Removes every snapshot whose reference count has reached zero.
    pub fn snapshot_ref_decrease(&mut self)
        requires
            old(self).wf(),
        ensures
            final(self).wf(),
            old(self).snapshots_collected(*final(self)),
    {
        let ghost start = self.snapshots@;
        let ghost live = start.dom().filter(|k: u128| start[k].ref_count != 0);
        let keys = self.snapshots.keys();
        assert forall|j: int| 0 <= j < keys@.len() implies self.snapshots@.contains_key(#[trigger] keys@[j]) by {
            assert(keys@.contains(keys@[j]));
        }
        let mut i: usize = 0;
        while i < keys.len()
            invariant
                self.wf(),
                i <= keys@.len(),
                keys@.no_duplicates(),
                forall|k: u128| start.contains_key(k) <==> keys@.contains(k),
                self.entities == old(self).entities,
                self.timers == old(self).timers,
                self.queue == old(self).queue,
                self.time_scale == old(self).time_scale,
                forall|k: u128| #[trigger] self.snapshots@.contains_key(k) ==> start.contains_key(k)
                    && self.snapshots@[k] == start[k],
                forall|j: int| 0 <= j < i ==> (!self.snapshots@.contains_key(#[trigger] keys@[j]) <==> start[keys@[j]].ref_count == 0),
                forall|j: int| i <= j < keys@.len() ==> self.snapshots@.contains_key(#[trigger] keys@[j]),
            decreases keys@.len() - i,
        {
            let k = keys[i];
            let dead = match self.snapshots.get(k) {
                Some(entry) => entry.ref_count == 0,
                None => false,
            };
            if dead {
                let _ = self.snapshots.remove(k);
            }
            proof {
                assert forall|j: int| i + 1 <= j < keys@.len() implies self.snapshots@.contains_key(#[trigger] keys@[j]) by {
                    assert(keys@[j] != keys@[i as int]);
                }
                assert forall|j: int| 0 <= j < i + 1 implies (!self.snapshots@.contains_key(#[trigger] keys@[j]) <==> start[keys@[j]].ref_count == 0) by {
                    if j < i {
                        assert(keys@[j] != keys@[i as int]);
                    }
                }
            }
            i = i + 1;
        }
        assert forall|k: u128| #[trigger] self.snapshots@.contains_key(k) <==> live.contains(k) by {
            if start.contains_key(k) {
                assert(keys@.contains(k));
                let j = choose|j: int| 0 <= j < keys@.len() && keys@[j] == k;
                assert(!self.snapshots@.contains_key(keys@[j]) <==> start[keys@[j]].ref_count == 0);
            }
        }
        assert(self.snapshots@ =~= start.restrict(live));
    }
}

} // verus!
