use vstd::prelude::*;
use crate::damage::{Damage, DamageSource};
use crate::tags::{DamageTag, DamageTags};
use crate::snapshot::{decremented, SnapshotEntry};
use crate::world::{BattleSystem, Command};

verus! {

/// Collects what a volley of projectiles carries before it is launched.
#[derive(Clone, Copy, Debug, PartialEq, Eq, Structural)]
pub struct ProjectileBuilder {
    pub damage_kind: DamageTags,
    pub base_damage: Option<u64>,
    /// Whether the damage uses the shooter's stats at launch (a snapshot)
    /// rather than at impact.
    pub snapshot: bool,
    /// How many projectiles the volley has.
    pub amount: usize,
}

/// A launched projectile: the damage it will deal on a hit, if any.
#[derive(Clone, Copy, Debug, PartialEq, Eq, Structural)]
pub struct Projectile {
    pub damage: Option<Damage>,
}

impl ProjectileBuilder {
    /// One projectile, no damage tag, no damage, live stats.
    pub fn init() -> (r: ProjectileBuilder)
        ensures
            forall|t: DamageTag| !r.damage_kind.has(t),
            r.base_damage is None,
            !r.snapshot,
            r.amount == 1,
    {
        ProjectileBuilder { damage_kind: DamageTags::empty(), base_damage: None, snapshot: false, amount: 1 }
    }

    pub fn set_amount(self, amount: usize) -> (r: ProjectileBuilder)
        ensures
            r == (ProjectileBuilder { amount, ..self }),
    {
        ProjectileBuilder { amount, ..self }
    }

    pub fn add_damage_tag(self, tag: DamageTag) -> (r: ProjectileBuilder)
        ensures
            r.base_damage == self.base_damage,
            r.snapshot == self.snapshot,
            r.amount == self.amount,
            forall|u: DamageTag| r.damage_kind.has(u) == (self.damage_kind.has(u) || u == tag),
    {
        ProjectileBuilder { damage_kind: self.damage_kind.with(tag), ..self }
    }

    pub fn set_damage(self, value: u64) -> (r: ProjectileBuilder)
        ensures
            r == (ProjectileBuilder { base_damage: Some(value), ..self }),
    {
        ProjectileBuilder { base_damage: Some(value), ..self }
    }

    pub fn set_snapshot(self, snapshot: bool) -> (r: ProjectileBuilder)
        ensures
            r == (ProjectileBuilder { snapshot, ..self }),
    {
        ProjectileBuilder { snapshot, ..self }
    }

    /// The damage a projectile carries for a given source.
    pub open spec fn damage_for(self, source: DamageSource) -> Option<Damage> {
        match self.base_damage {
            Some(b) => Some(Damage { kind: self.damage_kind, base_amount: b, source }),
            None => None,
        }
    }

    /// Launches a projectile for the entity `shooter`. With a snapshot, the
    /// shooter's state is frozen for `amount` uses first, and nothing is
    /// launched when that fails (the shooter is not registered); otherwise
    /// the damage reads the shooter's live stats on impact.
    pub fn build(self, system: &mut BattleSystem, shooter: u64) -> (r: Option<Projectile>)
        requires
            old(system).wf(),
        ensures
            final(system).wf(),
            !self.snapshot ==> {
                &&& r == Some(Projectile { damage: self.damage_for(DamageSource::Realtime(shooter)) })
                &&& *final(system) == *old(system)
            },
            self.snapshot ==> {
                &&& !old(system).has_entity(shooter) ==> r is None
                &&& old(system).has_entity(shooter) && old(system).no_random_snapshot_ids() ==> r is Some
                &&& old(system).has_entity(shooter) && old(system).snapshot_map() == Map::<u128, SnapshotEntry>::empty()
                    ==> r is Some
                &&& match r {
                    Some(p) => exists|id: u128| {
                        &&& p.damage == self.damage_for(DamageSource::Snapshot(id))
                        &&& !old(system).snapshot_map().contains_key(id)
                        &&& #[trigger] final(system).snapshot_map().contains_key(id)
                        &&& final(system).snapshot_map()[id].snapshot.copies(&old(system).entity(shooter))
                        &&& final(system).snapshot_map()[id].ref_count == self.amount
                        &&& final(system).snapshot_map().remove(id) == old(system).snapshot_map()
                    },
                    None => *final(system) == *old(system),
                }
            },
            final(system).entity_map() == old(system).entity_map(),
            final(system).timer_map() == old(system).timer_map(),
            final(system).pending() == old(system).pending(),
    {
        let source = if self.snapshot {
            match system.new_snapshot(shooter, self.amount) {
                Some(id) => DamageSource::Snapshot(id),
                None => {
                    return None;
                },
            }
        } else {
            DamageSource::Realtime(shooter)
        };
        let damage = match self.base_damage {
            Some(b) => Some(Damage { kind: self.damage_kind, base_amount: b, source }),
            None => None,
        };
        Some(Projectile { damage })
    }
}

impl Projectile {
    /// The projectile hits the entity `target`: its damage, if it still has
    /// one, is queued for the next tick and the projectile keeps none.
    pub fn hit(&mut self, system: &mut BattleSystem, target: u64)
        requires
            old(system).wf(),
        ensures
            final(system).wf(),
            final(self).damage is None,
            final(system).pending() == match old(self).damage {
                Some(d) => old(system).pending().push(Command::TakeDamage(target, d)),
                None => old(system).pending(),
            },
            final(system).entity_map() == old(system).entity_map(),
            final(system).timer_map() == old(system).timer_map(),
            final(system).snapshot_map() == old(system).snapshot_map(),
    {
        match self.damage {
            Some(d) => {
                self.damage = None;
                system.request_damage(target, d);
            },
            None => {},
        }
    }

    /// The projectile leaves the simulation. A damage it never delivered
    /// gives up its use of the snapshot it was to consult.
    pub fn despawn(&mut self, system: &mut BattleSystem)
        requires
            old(system).wf(),
        ensures
            final(system).wf(),
            final(self).damage is None,
            match old(self).damage {
                Some(Damage { source: DamageSource::Snapshot(id), .. }) => if old(system).snapshot_map().contains_key(id) {
                    &&& final(system).snapshot_map().contains_key(id)
                    &&& final(system).snapshot_map()[id].snapshot == old(system).snapshot_map()[id].snapshot
                    &&& final(system).snapshot_map()[id].ref_count == decremented(
                        old(system).snapshot_map()[id].ref_count,
                    )
                    &&& final(system).snapshot_map().remove(id) == old(system).snapshot_map().remove(id)
                } else {
                    *final(system) == *old(system)
                },
                _ => *final(system) == *old(system),
            },
            final(system).entity_map() == old(system).entity_map(),
            final(system).timer_map() == old(system).timer_map(),
            final(system).pending() == old(system).pending(),
    {
        match self.damage {
            Some(d) => {
                match d.source {
                    DamageSource::Snapshot(id) => {
                        let _ = system.consume_snapshot(id);
                    },
                    DamageSource::Realtime(_) => {},
                }
            },
            None => {},
        }
        self.damage = None;
    }
}

} // verus!
