use vstd::prelude::*;

verus! {

/// The kinds a damage instance can carry; one damage may carry several.
#[derive(Clone, Copy, Debug, PartialEq, Eq, Structural)]
pub enum DamageTag {
    Physical,
    Magic,
    Real,
    Skill,
    Projectile,
}

/// The bit that stands for a tag in a `DamageTags` set.
pub open spec fn tag_bit(t: DamageTag) -> u8 {
    match t {
        DamageTag::Physical => 1,
        DamageTag::Magic => 2,
        DamageTag::Real => 4,
        DamageTag::Skill => 8,
        DamageTag::Projectile => 16,
    }
}

/// The name of a tag, as the host writes it.
pub open spec fn damage_tag_name(t: DamageTag) -> Seq<char> {
    match t {
        DamageTag::Physical => seq!['P', 'h', 'y', 's', 'i', 'c', 'a', 'l'],
        DamageTag::Magic => seq!['M', 'a', 'g', 'i', 'c'],
        DamageTag::Real => seq!['R', 'e', 'a', 'l'],
        DamageTag::Skill => seq!['S', 'k', 'i', 'l', 'l'],
        DamageTag::Projectile => seq!['P', 'r', 'o', 'j', 'e', 'c', 't', 'i', 'l', 'e'],
    }
}

/// Every tag, in declaration order.
pub open spec fn all_damage_tags() -> Seq<DamageTag> {
    seq![DamageTag::Physical, DamageTag::Magic, DamageTag::Real, DamageTag::Skill, DamageTag::Projectile]
}

impl DamageTag {
    pub fn bit(&self) -> (r: u8)
        ensures
            r == tag_bit(*self),
    {
        match self {
            DamageTag::Physical => 1,
            DamageTag::Magic => 2,
            DamageTag::Real => 4,
            DamageTag::Skill => 8,
            DamageTag::Projectile => 16,
        }
    }

    /// The tag's name, for display and for the host.
    pub fn name(&self) -> (r: String)
        ensures
            r@ == damage_tag_name(*self),
    {
        let r = match self {
            DamageTag::Physical => "Physical".to_owned(),
            DamageTag::Magic => "Magic".to_owned(),
            DamageTag::Real => "Real".to_owned(),
            DamageTag::Skill => "Skill".to_owned(),
            DamageTag::Projectile => "Projectile".to_owned(),
        };
        proof {
            reveal_strlit("Physical");
            reveal_strlit("Magic");
            reveal_strlit("Real");
            reveal_strlit("Skill");
            reveal_strlit("Projectile");
        }
        assert(r@ =~= damage_tag_name(*self));
        r
    }

    /// Reads a tag from its name; `None` for a name that no tag has.
    pub fn from_name(s: &str) -> (r: Option<DamageTag>)
        ensures
            match r {
                Some(t) => damage_tag_name(t) == s@,
                None => forall|t: DamageTag| damage_tag_name(t) != s@,
            },
    {
        let input = s.to_owned();
        let tags = [DamageTag::Physical, DamageTag::Magic, DamageTag::Real, DamageTag::Skill, DamageTag::Projectile];
        let mut i: usize = 0;
        while i < 5
            invariant
                i <= 5,
                input@ == s@,
                tags@ == all_damage_tags(),
                forall|j: int| 0 <= j < i ==> damage_tag_name(#[trigger] all_damage_tags()[j]) != s@,
            decreases 5 - i,
        {
            let t = tags[i];
            if t.name() == input {
                return Some(t);
            }
            i = i + 1;
        }
        assert forall|t: DamageTag| damage_tag_name(t) != s@ by {
            match t {
                DamageTag::Physical => assert(all_damage_tags()[0] == t),
                DamageTag::Magic => assert(all_damage_tags()[1] == t),
                DamageTag::Real => assert(all_damage_tags()[2] == t),
                DamageTag::Skill => assert(all_damage_tags()[3] == t),
                DamageTag::Projectile => assert(all_damage_tags()[4] == t),
            }
        }
        None
    }
}

proof fn lemma_tag_bits(t: DamageTag, u: DamageTag)
    ensures
        tag_bit(t) != 0,
        t != u ==> tag_bit(t) & tag_bit(u) == 0,
{
    let a = tag_bit(t);
    let b = tag_bit(u);
    assert(a == 1 || a == 2 || a == 4 || a == 8 || a == 16);
    assert(b == 1 || b == 2 || b == 4 || b == 8 || b == 16);
    assert(t != u ==> a != b);
    assert((a == 1 || a == 2 || a == 4 || a == 8 || a == 16) && (b == 1 || b == 2 || b == 4 || b == 8
        || b == 16) && a != b ==> a & b == 0) by (bit_vector);
}

/// A set of damage tags, kept as one bit per tag.
#[derive(Clone, Copy, Debug, PartialEq, Eq, Structural)]
pub struct DamageTags {
    bits: u8,
}

impl DamageTags {
    /// Whether the set holds a tag.
    pub closed spec fn has(self, t: DamageTag) -> bool {
        self.bits & tag_bit(t) != 0
    }

    pub fn empty() -> (r: DamageTags)
        ensures
            forall|t: DamageTag| !r.has(t),
    {
        let r = DamageTags { bits: 0 };
        assert forall|t: DamageTag| !r.has(t) by {
            let m = tag_bit(t);
            assert(0u8 & m == 0) by (bit_vector);
        }
        r
    }

    /// The set with `t` added.
    pub fn with(self, t: DamageTag) -> (r: DamageTags)
        ensures
            forall|u: DamageTag| r.has(u) == (self.has(u) || u == t),
    {
        let m = t.bit();
        let r = DamageTags { bits: self.bits | m };
        assert forall|u: DamageTag| r.has(u) == (self.has(u) || u == t) by {
            let a = self.bits;
            let mu = tag_bit(u);
            lemma_tag_bits(t, u);
            if u == t {
                assert(m != 0 ==> (a | m) & m != 0) by (bit_vector);
            } else {
                assert(m & mu == 0 ==> ((a | m) & mu == a & mu)) by (bit_vector);
            }
        }
        r
    }

    pub fn contains(&self, t: DamageTag) -> (r: bool)
        ensures
            r == self.has(t),
    {
        self.bits & t.bit() != 0
    }

    /// The set of the tags in a list.
    pub fn from_tags(tags: &Vec<DamageTag>) -> (r: DamageTags)
        ensures
            forall|u: DamageTag| r.has(u) == tags@.contains(u),
    {
        let mut r = DamageTags::empty();
        let mut i: usize = 0;
        while i < tags.len()
            invariant
                i <= tags@.len(),
                forall|u: DamageTag| r.has(u) == tags@.subrange(0, i as int).contains(u),
            decreases tags@.len() - i,
        {
            r = r.with(tags[i]);
            proof {
                let old_s = tags@.subrange(0, i as int);
                let new_s = tags@.subrange(0, i + 1);
                assert forall|u: DamageTag| r.has(u) == new_s.contains(u) by {
                    if u == tags@[i as int] {
                        assert(new_s[i as int] == u);
                    }
                    if old_s.contains(u) {
                        let j = choose|j: int| 0 <= j < old_s.len() && old_s[j] == u;
                        assert(new_s[j] == u);
                    }
                    if new_s.contains(u) {
                        let j = choose|j: int| 0 <= j < new_s.len() && new_s[j] == u;
                        if j < i {
                            assert(old_s[j] == u);
                        }
                    }
                }
            }
            i = i + 1;
        }
        assert(tags@.subrange(0, tags@.len() as int) =~= tags@);
        r
    }
}

/// Whether `s` is the name of a damage tag.
pub open spec fn is_tag_name(s: Seq<char>) -> bool {
    exists|t: DamageTag| damage_tag_name(t) == s
}

/// Whether every name in `names` is the name of a damage tag.
pub open spec fn all_tag_names(names: Seq<String>) -> bool {
    forall|i: int| 0 <= i < names.len() ==> is_tag_name(#[trigger] names[i]@)
}

/// Reads a set of damage tags from their names, as the host sends them;
/// `None` when one of the names is not a tag's.
pub fn parse_damage_tags(names: &Vec<String>) -> (r: Option<DamageTags>)
    ensures
        r is Some <==> all_tag_names(names@),
        r matches Some(tags) ==> forall|u: DamageTag|
            tags.has(u) <==> exists|i: int| 0 <= i < names@.len() && #[trigger] names@[i]@ == damage_tag_name(u),
{
    let mut tags = DamageTags::empty();
    let mut i: usize = 0;
    while i < names.len()
        invariant
            i <= names@.len(),
            forall|j: int| 0 <= j < i ==> is_tag_name(#[trigger] names@[j]@),
            forall|u: DamageTag|
                tags.has(u) <==> exists|j: int| 0 <= j < i && #[trigger] names@[j]@ == damage_tag_name(u),
        decreases names@.len() - i,
    {
        match DamageTag::from_name(names[i].as_str()) {
            Some(t) => {
                assert(is_tag_name(names@[i as int]@));
                tags = tags.with(t);
                proof {
                    assert forall|u: DamageTag|
                        tags.has(u) <==> exists|j: int| 0 <= j < i + 1 && #[trigger] names@[j]@ == damage_tag_name(u) by {
                        if u == t {
                            assert(names@[i as int]@ == damage_tag_name(u));
                        }
                        if exists|j: int| 0 <= j < i + 1 && #[trigger] names@[j]@ == damage_tag_name(u) {
                            let j = choose|j: int| 0 <= j < i + 1 && #[trigger] names@[j]@ == damage_tag_name(u);
                            if j == i {
                                lemma_name_unique(t, u);
                            }
                        }
                    }
                }
            },
            None => {
                assert(!all_tag_names(names@)) by {
                    if all_tag_names(names@) {
                        assert(is_tag_name(names@[i as int]@));
                    }
                }
                return None;
            },
        }
        i = i + 1;
    }
    Some(tags)
}

proof fn lemma_name_unique(t: DamageTag, u: DamageTag)
    requires
        damage_tag_name(t) == damage_tag_name(u),
    ensures
        t == u,
{
    if t != u {
        assert(damage_tag_name(t).len() != damage_tag_name(u).len() || damage_tag_name(t)[0] != damage_tag_name(u)[0]
            || damage_tag_name(t)[1] != damage_tag_name(u)[1]);
    }
}

/// Kinds of status effect the host can name.
#[derive(Clone, Copy, Debug, PartialEq, Eq)]
pub enum EffectTag {
    HealthRegen,
    ManaRegen,
    DamageBuff(DamageTags),
    CritChanceBuff(DamageTags),
    CritDamageBuff(DamageTags),
    Resistant(DamageTags),
    Absorb(DamageTags),
    HealthBoost,
    CooldownReduction,
    Speed,
    Slow,
    Haste,
    Cripple,
    DoT(DamageTags),
    Invincible,
    Immune(DamageTags),
    Stun,
    Freeze,
    Burn,
    Poison,
    Disarm,
    Silence,
    Drain,
    Blind,
    Charm,
    Fear,
    Taunt,
    Phantom,
    Invisibile,
}

impl EffectTag {
    /// Whether the tag restricts what its bearer may do (as opposed to
    /// changing a number).
    pub open spec fn spec_is_crowd_control(self) -> bool {
        match self {
            EffectTag::Invincible | EffectTag::Immune(_) | EffectTag::Stun | EffectTag::Freeze
            | EffectTag::Burn | EffectTag::Poison | EffectTag::Disarm | EffectTag::Silence
            | EffectTag::Drain | EffectTag::Blind | EffectTag::Charm | EffectTag::Fear
            | EffectTag::Taunt | EffectTag::Phantom | EffectTag::Invisibile => true,
            _ => false,
        }
    }

    pub fn is_crowd_control(&self) -> (r: bool)
        ensures
            r == self.spec_is_crowd_control(),
    {
        match self {
            EffectTag::Invincible | EffectTag::Immune(_) | EffectTag::Stun | EffectTag::Freeze
            | EffectTag::Burn | EffectTag::Poison | EffectTag::Disarm | EffectTag::Silence
            | EffectTag::Drain | EffectTag::Blind | EffectTag::Charm | EffectTag::Fear
            | EffectTag::Taunt | EffectTag::Phantom | EffectTag::Invisibile => true,
            _ => false,
        }
    }
}

/// Scene groups the host sorts its objects into.
#[derive(Clone, Copy, Debug, PartialEq, Eq, Structural)]
pub enum GroupTag {
    /// Arrows, bullets and the like.
    Projectile,
    /// Breakable walls and other destructible objects.
    Damageable,
    Player,
    Enemy,
    /// Walls and other unreachable objects.
    Obstacle,
}

pub open spec fn group_tag_name(g: GroupTag) -> Seq<char> {
    match g {
        GroupTag::Projectile => seq!['P', 'r', 'o', 'j', 'e', 'c', 't', 'i', 'l', 'e'],
        GroupTag::Damageable => seq!['D', 'a', 'm', 'a', 'g', 'e', 'a', 'b', 'l', 'e'],
        GroupTag::Player => seq!['P', 'l', 'a', 'y', 'e', 'r'],
        GroupTag::Enemy => seq!['E', 'n', 'e', 'm', 'y'],
        GroupTag::Obstacle => seq!['O', 'b', 's', 't', 'a', 'c', 'l', 'e'],
    }
}

impl GroupTag {
    /// The group's name in the host's scene tree.
    pub fn name(&self) -> (r: String)
        ensures
            r@ == group_tag_name(*self),
    {
        let r = match self {
            GroupTag::Projectile => "Projectile".to_owned(),
            GroupTag::Damageable => "Damageable".to_owned(),
            GroupTag::Player => "Player".to_owned(),
            GroupTag::Enemy => "Enemy".to_owned(),
            GroupTag::Obstacle => "Obstacle".to_owned(),
        };
        proof {
            reveal_strlit("Projectile");
            reveal_strlit("Damageable");
            reveal_strlit("Player");
            reveal_strlit("Enemy");
            reveal_strlit("Obstacle");
        }
        assert(r@ =~= group_tag_name(*self));
        r
    }
}

} // verus!
