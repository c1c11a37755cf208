use vstd::prelude::*;
use crate::stats::StatsModifyEffect;

verus! {

/// Durations and intervals are in milliseconds of simulation time; the
/// timers count in milliseconds times the per-mille time scale, so that a
/// duration `d` is `d * SCALE_UNIT` timer units.
pub const SCALE_UNIT: u64 = 1000;

/// A behavioural restriction on the bearer of an effect.
#[derive(Clone, Copy, Debug, PartialEq, Eq, Structural)]
pub enum CrowdControlEffect {
    CannotMove,
    CannotAttack,
    CannotUseSkill,
    CannotBeHealed,
    CannotBeDamaged,
    CannotBeAffectedByPositiveEffect,
    CannotBeAffectedByNegativeEffect,
    CannotBeTargeted,
    /// Also narrows what target selectors can see.
    RestrictedSight,
    DisableCollision,
    DiscardInput,
}

/// The effects that can be applied by name, with their parameters.
#[derive(Clone, Copy, Debug, PartialEq, Eq, Structural)]
pub enum EffectVariants {
    Invincible { duration_ms: u64 },
    Burn { duration_ms: u64, damage: u64 },
    Charm { duration_ms: u64 },
}

/// What a periodic effect does each time its interval elapses.
#[derive(Clone, Copy, Debug, PartialEq, Eq, Structural)]
pub enum TickEffectKind {
    HealthRegen(u64),
    ManaRegen(u64),
    PhysicalDamage(u64),
    MagicalDamage(u64),
    /// Applies another effect to the bearer.
    DeferredEffect(EffectVariants),
    /// Asks the host to push the bearer by this offset.
    ForceMove(i64, i64),
}

/// A periodic payload with its interval and the time gathered towards it.
#[derive(Clone, Copy, Debug, PartialEq, Eq, Structural)]
pub struct TickEffect {
    pub kind: TickEffectKind,
    pub interval_ms: u64,
    /// Scaled time gathered since the payload last fired, in timer units.
    pub interval_counter: u128,
}

/// A bundle of modifiers, restrictions and periodic payloads, each with a
/// duration in milliseconds.
#[derive(Debug)]
pub struct Effect {
    /// The effect's name, also used for display.
    pub id: String,
    /// Whether to show the effect to the player.
    pub visible: bool,
    pub modifier: Vec<(StatsModifyEffect, u64)>,
    pub cc: Vec<(CrowdControlEffect, u64)>,
    pub tick: Vec<(TickEffect, u64)>,
}

/// What is recorded of an applied effect for display and inspection.
#[derive(Debug)]
pub struct EffectMetadata {
    pub id: String,
    pub visible: bool,
}

/// An applied effect: its metadata and its payloads without durations.
#[derive(Debug)]
pub struct ActiveEffect {
    pub metadata: EffectMetadata,
    pub modifier: Vec<StatsModifyEffect>,
    pub cc: Vec<CrowdControlEffect>,
    pub tick: Vec<TickEffect>,
}

/// The duration that the timer of an applied effect starts from. Payloads
/// register their durations in turn (periodic ones, then restrictions, then
/// modifiers) under one id, so the last one registered stands; an effect
/// without payloads gets no timer.
pub open spec fn timer_duration(e: &Effect) -> Option<u64> {
    if e.modifier@.len() > 0 {
        Some(e.modifier@.last().1)
    } else if e.cc@.len() > 0 {
        Some(e.cc@.last().1)
    } else if e.tick@.len() > 0 {
        Some(e.tick@.last().1)
    } else {
        None
    }
}

pub open spec fn first_of<A, B>(s: Seq<(A, B)>) -> Seq<A> {
    s.map_values(|p: (A, B)| p.0)
}

/// `a` is `e` applied: the same metadata and payloads, without durations.
pub open spec fn is_active_of(a: &ActiveEffect, e: &Effect) -> bool {
    &&& a.metadata.id@ == e.id@
    &&& a.metadata.visible == e.visible
    &&& a.modifier@ == first_of(e.modifier@)
    &&& a.cc@ == first_of(e.cc@)
    &&& a.tick@ == first_of(e.tick@)
}

fn strip<A: Copy, B: Copy>(v: &Vec<(A, B)>) -> (r: Vec<A>)
    ensures
        r@ == first_of(v@),
{
    let mut r: Vec<A> = Vec::new();
    let mut i: usize = 0;
    while i < v.len()
        invariant
            i <= v@.len(),
            r@ == first_of(v@.subrange(0, i as int)),
        decreases v@.len() - i,
    {
        r.push(v[i].0);
        i = i + 1;
        assert(first_of(v@.subrange(0, i as int)) =~= first_of(v@.subrange(0, i - 1)).push(v@[i - 1].0));
    }
    assert(v@.subrange(0, v@.len() as int) =~= v@);
    r
}

impl Effect {
    /// The applied form of the effect and the duration its timer starts from.
    pub fn activate(self) -> (r: (ActiveEffect, Option<u64>))
        ensures
            is_active_of(&r.0, &self),
            r.1 == timer_duration(&self),
    {
        let duration = if self.modifier.len() > 0 {
            Some(self.modifier[self.modifier.len() - 1].1)
        } else if self.cc.len() > 0 {
            Some(self.cc[self.cc.len() - 1].1)
        } else if self.tick.len() > 0 {
            Some(self.tick[self.tick.len() - 1].1)
        } else {
            None
        };
        let modifier = strip(&self.modifier);
        let cc = strip(&self.cc);
        let tick = strip(&self.tick);
        (ActiveEffect { metadata: EffectMetadata { id: self.id, visible: self.visible }, modifier, cc, tick }, duration)
    }
}

pub open spec fn invincible_name() -> Seq<char> {
    seq!['i', 'n', 'v', 'i', 'n', 'c', 'i', 'b', 'l', 'e']
}

pub open spec fn burn_name() -> Seq<char> {
    seq!['b', 'u', 'r', 'n']
}

pub open spec fn charm_name() -> Seq<char> {
    seq!['c', 'h', 'a', 'r', 'm']
}

/// The interval of the periodic payloads of the named effects.
pub const NAMED_INTERVAL_MS: u64 = 1000;

impl EffectVariants {
    /// The effect a variant stands for:
    /// - invincible: visible; cannot be damaged nor affected by negative effects;
    /// - burn: visible; cannot be healed; magical damage each second;
    /// - charm: visible; cannot move, input discarded; pushed by (1, 1) each second.
    /// Every payload lasts the variant's duration.
    pub open spec fn describes(self, e: &Effect) -> bool {
        &&& e.visible
        &&& e.modifier@.len() == 0
        &&& match self {
            EffectVariants::Invincible { duration_ms } => {
                &&& e.id@ == invincible_name()
                &&& e.cc@ == seq![
                    (CrowdControlEffect::CannotBeDamaged, duration_ms),
                    (CrowdControlEffect::CannotBeAffectedByNegativeEffect, duration_ms),
                ]
                &&& e.tick@.len() == 0
            },
            EffectVariants::Burn { duration_ms, damage } => {
                &&& e.id@ == burn_name()
                &&& e.cc@ == seq![(CrowdControlEffect::CannotBeHealed, duration_ms)]
                &&& e.tick@ == seq![
                    (
                        TickEffect {
                            kind: TickEffectKind::MagicalDamage(damage),
                            interval_ms: NAMED_INTERVAL_MS,
                            interval_counter: 0,
                        },
                        duration_ms,
                    ),
                ]
            },
            EffectVariants::Charm { duration_ms } => {
                &&& e.id@ == charm_name()
                &&& e.cc@ == seq![
                    (CrowdControlEffect::CannotMove, duration_ms),
                    (CrowdControlEffect::DiscardInput, duration_ms),
                ]
                &&& e.tick@ == seq![
                    (
                        TickEffect {
                            kind: TickEffectKind::ForceMove(1, 1),
                            interval_ms: NAMED_INTERVAL_MS,
                            interval_counter: 0,
                        },
                        duration_ms,
                    ),
                ]
            },
        }
    }

    /// The variant the host names, with its duration and (for burn) its
    /// damage per second; `None` for a name no variant has.
    pub fn from_name(name: &str, duration_ms: u64, amount: u64) -> (r: Option<EffectVariants>)
        ensures
            name@ == invincible_name() ==> r == Some(EffectVariants::Invincible { duration_ms }),
            name@ == burn_name() ==> r == Some(EffectVariants::Burn { duration_ms, damage: amount }),
            name@ == charm_name() ==> r == Some(EffectVariants::Charm { duration_ms }),
            r is None <==> (name@ != invincible_name() && name@ != burn_name() && name@ != charm_name()),
    {
        let given = name.to_owned();
        let invincible = "invincible".to_owned();
        let burn = "burn".to_owned();
        let charm = "charm".to_owned();
        proof {
            reveal_strlit("invincible");
            reveal_strlit("burn");
            reveal_strlit("charm");
            assert(invincible@ =~= invincible_name());
            assert(burn@ =~= burn_name());
            assert(charm@ =~= charm_name());
        }
        if given == invincible {
            Some(EffectVariants::Invincible { duration_ms })
        } else if given == burn {
            Some(EffectVariants::Burn { duration_ms, damage: amount })
        } else if given == charm {
            Some(EffectVariants::Charm { duration_ms })
        } else {
            None
        }
    }

    pub fn to_effect(self) -> (r: Effect)
        ensures
            self.describes(&r),
    {
        match self {
            EffectVariants::Invincible { duration_ms } => {
                let id = "invincible".to_owned();
                proof {
                    reveal_strlit("invincible");
                }
                assert(id@ =~= invincible_name());
                let cc = vec![
                    (CrowdControlEffect::CannotBeDamaged, duration_ms),
                    (CrowdControlEffect::CannotBeAffectedByNegativeEffect, duration_ms),
                ];
                let r = Effect { id, visible: true, modifier: Vec::new(), cc, tick: Vec::new() };
                assert(r.cc@ =~= seq![
                    (CrowdControlEffect::CannotBeDamaged, duration_ms),
                    (CrowdControlEffect::CannotBeAffectedByNegativeEffect, duration_ms),
                ]);
                r
            },
            EffectVariants::Burn { duration_ms, damage } => {
                let id = "burn".to_owned();
                proof {
                    reveal_strlit("burn");
                }
                assert(id@ =~= burn_name());
                let payload = TickEffect {
                    kind: TickEffectKind::MagicalDamage(damage),
                    interval_ms: NAMED_INTERVAL_MS,
                    interval_counter: 0,
                };
                let cc = vec![(CrowdControlEffect::CannotBeHealed, duration_ms)];
                let tick = vec![(payload, duration_ms)];
                let r = Effect { id, visible: true, modifier: Vec::new(), cc, tick };
                assert(r.cc@ =~= seq![(CrowdControlEffect::CannotBeHealed, duration_ms)]);
                assert(r.tick@ =~= seq![(payload, duration_ms)]);
                r
            },
            EffectVariants::Charm { duration_ms } => {
                let id = "charm".to_owned();
                proof {
                    reveal_strlit("charm");
                }
                assert(id@ =~= charm_name());
                let payload = TickEffect {
                    kind: TickEffectKind::ForceMove(1, 1),
                    interval_ms: NAMED_INTERVAL_MS,
                    interval_counter: 0,
                };
                let cc = vec![
                    (CrowdControlEffect::CannotMove, duration_ms),
                    (CrowdControlEffect::DiscardInput, duration_ms),
                ];
                let tick = vec![(payload, duration_ms)];
                let r = Effect { id, visible: true, modifier: Vec::new(), cc, tick };
                assert(r.cc@ =~= seq![
                    (CrowdControlEffect::CannotMove, duration_ms),
                    (CrowdControlEffect::DiscardInput, duration_ms),
                ]);
                assert(r.tick@ =~= seq![(payload, duration_ms)]);
                r
            },
        }
    }
}

/// One step of a periodic payload's clock: the scaled time `step` is added
/// to the counter; when the sum passes the interval the payload fires once
/// and the counter starts again from zero, whatever is left over.
pub open spec fn advance_counter(counter: int, interval_ms: int, step: int) -> (int, bool) {
    if counter + step > interval_ms * SCALE_UNIT {
        (0, true)
    } else {
        (counter + step, false)
    }
}

/// However long the step, a periodic payload fires at most once in it: when
/// it fires its counter starts again from zero, so what the step had beyond
/// the interval is not carried into further firings.
pub proof fn lemma_fires_at_most_once(counter: int, interval_ms: int, step: int)
    ensures
        advance_counter(counter, interval_ms, step).1 ==> advance_counter(counter, interval_ms, step).0 == 0,
        advance_counter(counter, interval_ms, step).1 <==> counter + step > interval_ms * SCALE_UNIT,
{
}

impl TickEffect {
    /// Advances the payload's clock by `step` timer units; returns whether
    /// it fires.
    pub fn advance(&mut self, step: u128) -> (fired: bool)
        ensures
            (final(self).interval_counter as int, fired) == advance_counter(
                old(self).interval_counter as int,
                old(self).interval_ms as int,
                step as int,
            ),
            final(self).kind == old(self).kind,
            final(self).interval_ms == old(self).interval_ms,
            final(self).interval_counter <= final(self).interval_ms * SCALE_UNIT,
    {
        let limit = self.interval_ms as u128 * SCALE_UNIT as u128;
        if self.interval_counter > limit || step > limit - self.interval_counter {
            self.interval_counter = 0;
            true
        } else {
            self.interval_counter = self.interval_counter + step;
            false
        }
    }
}

} // verus!
