use vstd::prelude::*;
use crate::effect::{timer_duration, Effect, SCALE_UNIT};

verus! {

/// The countdown of an applied effect.
#[derive(Clone, Copy, Debug, PartialEq, Eq, Structural)]
pub struct EffectTimer {
    /// Scaled time left, in milliseconds times per mille.
    pub remaining: u128,
    /// The external id of the entity that bears the effect.
    pub owner: u64,
}

/// A timer runs out when a step of scaled time reaches what is left of it.
pub open spec fn expires(t: EffectTimer, step: int) -> bool {
    t.remaining <= step
}

/// The timers after a step of scaled time: those that run out are gone, the
/// others have `step` less left.
pub open spec fn decayed(timers: Map<u128, EffectTimer>, step: int) -> Map<u128, EffectTimer> {
    Map::new(
        |k: u128| timers.contains_key(k) && !expires(timers[k], step),
        |k: u128| EffectTimer { remaining: (timers[k].remaining - step) as u128, owner: timers[k].owner },
    )
}

/// The ids of the effects of `owner` whose timers run out in a step.
pub open spec fn expired_ids(timers: Map<u128, EffectTimer>, step: int, owner: u64) -> Set<u128> {
    Set::new(|k: u128| timers.contains_key(k) && expires(timers[k], step) && timers[k].owner == owner)
}

/// The timers that do not belong to `owner`.
pub open spec fn without_owner(timers: Map<u128, EffectTimer>, owner: u64) -> Map<u128, EffectTimer> {
    timers.restrict(timers.dom().filter(|k: u128| timers[k].owner != owner))
}

/// The total of a run of frame lengths.
pub open spec fn total(deltas: Seq<u64>) -> int
    decreases deltas.len(),
{
    if deltas.len() == 0 {
        0
    } else {
        total(deltas.drop_last()) + deltas.last()
    }
}

pub proof fn lemma_total_nonnegative(deltas: Seq<u64>)
    ensures
        total(deltas) >= 0,
    decreases deltas.len(),
{
    if deltas.len() > 0 {
        lemma_total_nonnegative(deltas.drop_last());
    }
}

/// The timer an effect starts with, if it has payloads.
pub open spec fn initial_timer(e: &Effect, owner: u64) -> Option<EffectTimer> {
    match timer_duration(e) {
        Some(d) => Some(EffectTimer { remaining: (d * SCALE_UNIT) as u128, owner }),
        None => None,
    }
}

} // verus!
