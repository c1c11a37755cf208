use vstd::prelude::*;
use crate::stats::StatsModifyEffect;

verus! {

/// The name of a slot that holds nothing known.
pub open spec fn unknown_name() -> Seq<char> {
    seq!['U', 'n', 'k', 'n', 'o', 'w', 'n']
}

/// A skill a weapon grants.
#[derive(Clone, Copy, Debug, PartialEq, Eq, Structural)]
pub enum Skill {
    /// The weapon grants no skill.
    Nothing,
}

/// An armor or artifact slot: the stat modifiers it contributes and its
/// perk flags (one bit per perk).
#[derive(Debug)]
pub struct Equipment {
    pub stats: Vec<StatsModifyEffect>,
    pub perks: u64,
    pub id: String,
}

/// The weapon slot: like an equipment slot, with a skill.
#[derive(Debug)]
pub struct Weapon {
    pub stats: Vec<StatsModifyEffect>,
    pub perks: u64,
    pub skill: Skill,
    pub id: String,
}

impl Equipment {
    /// Two slots hold the same things.
    pub open spec fn same(&self, other: &Equipment) -> bool {
        &&& self.stats@ == other.stats@
        &&& self.perks == other.perks
        &&& self.id@ == other.id@
    }

    /// An empty slot, named "Unknown", that contributes nothing.
    pub fn empty_slot() -> (r: Equipment)
        ensures
            r.stats@.len() == 0,
            r.perks == 0,
            r.id@ == unknown_name(),
    {
        let id = "Unknown".to_owned();
        proof {
            reveal_strlit("Unknown");
        }
        assert(id@ =~= unknown_name());
        Equipment { stats: Vec::new(), perks: 0, id }
    }

    pub fn duplicate(&self) -> (r: Equipment)
        ensures
            r.same(self),
    {
        let stats = self.stats.clone();
        assert(stats@ =~= self.stats@);
        Equipment { stats, perks: self.perks, id: self.id.clone() }
    }
}

impl Weapon {
    pub open spec fn same(&self, other: &Weapon) -> bool {
        &&& self.stats@ == other.stats@
        &&& self.perks == other.perks
        &&& self.skill == other.skill
        &&& self.id@ == other.id@
    }

    /// An empty weapon slot, named "Unknown", with no skill.
    pub fn empty_slot() -> (r: Weapon)
        ensures
            r.stats@.len() == 0,
            r.perks == 0,
            r.skill == Skill::Nothing,
            r.id@ == unknown_name(),
    {
        let id = "Unknown".to_owned();
        proof {
            reveal_strlit("Unknown");
        }
        assert(id@ =~= unknown_name());
        Weapon { stats: Vec::new(), perks: 0, skill: Skill::Nothing, id }
    }

    pub fn duplicate(&self) -> (r: Weapon)
        ensures
            r.same(self),
    {
        let stats = self.stats.clone();
        assert(stats@ =~= self.stats@);
        Weapon { stats, perks: self.perks, skill: self.skill, id: self.id.clone() }
    }
}

} // verus!
