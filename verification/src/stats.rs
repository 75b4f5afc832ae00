//! The agent-facing stat block. The pathfinding core reads exactly one
//! named stat — `StatType::Speed`, which scales the follower's steering
//! command — but the block carries the full set of named stats that the
//! surrounding behaviour layer owns, and names which stat mitigates each
//! kind of damage.

use vstd::prelude::*;

verus! {

/// The named numeric stats an agent carries.
#[derive(Clone, Copy, Hash, Eq, PartialEq, Structural, Debug)]
pub enum StatType {
    Health,
    Defence,
    MagicDefence,
    Speed,
    Attack,
    Magic,
}

/// The kinds of damage the behaviour layer deals; bypass damage ignores
/// defences.
#[allow(non_camel_case_types)]
#[derive(Clone, Copy, Debug)]
pub enum DamageType {
    PHYSICAL,
    MAGICAL,
    BYPASS,
}

/// Which stat mitigates damage of the given type.
pub open spec fn mitigation_spec(damage_type: DamageType) -> Option<StatType> {
    match damage_type {
        DamageType::PHYSICAL => Some(StatType::Defence),
        DamageType::MAGICAL => Some(StatType::MagicDefence),
        DamageType::BYPASS => None,
    }
}

/// The stat consulted when mitigating damage of the given type; bypass
/// damage is mitigated by nothing.
pub fn mitigation_stat(damage_type: &DamageType) -> (r: Option<StatType>)
    ensures
        r == mitigation_spec(*damage_type),
{
    match damage_type {
        DamageType::PHYSICAL => Some(StatType::Defence),
        DamageType::MAGICAL => Some(StatType::MagicDefence),
        DamageType::BYPASS => None,
    }
}

/// One named stat with its current value.
#[derive(Clone, Copy)]
pub struct Stat {
    pub stat_type: StatType,
    pub stat_value: i32,
}

/// An agent's stat block: one entry per stat, in a fixed order.
pub struct Stats {
    pub stats: Vec<Stat>,
}

/// The fixed position of each stat in the block.
pub open spec fn slot(t: StatType) -> int {
    match t {
        StatType::Health => 0,
        StatType::Defence => 1,
        StatType::MagicDefence => 2,
        StatType::Speed => 3,
        StatType::Attack => 4,
        StatType::Magic => 5,
    }
}

/// Clip an unbounded value into the `i32` range, the effect of a saturated
/// add.
pub open spec fn clip_i32(v: int) -> int {
    if v > i32::MAX as int {
        i32::MAX as int
    } else if v < i32::MIN as int {
        i32::MIN as int
    } else {
        v
    }
}

impl Stats {
    /// Every stat sits in its slot, each exactly once.
    pub open spec fn wf(&self) -> bool {
        &&& self.stats@.len() == 6
        &&& self.stats@[0].stat_type == StatType::Health
        &&& self.stats@[1].stat_type == StatType::Defence
        &&& self.stats@[2].stat_type == StatType::MagicDefence
        &&& self.stats@[3].stat_type == StatType::Speed
        &&& self.stats@[4].stat_type == StatType::Attack
        &&& self.stats@[5].stat_type == StatType::Magic
    }

    /// The current value of stat `t`.
    pub open spec fn stat(&self, t: StatType) -> int {
        self.stats@[slot(t)].stat_value as int
    }

    pub fn new(health: i32, defence: i32, mag_def: i32, speed: i32, attack: i32, magic: i32) -> (s:
        Stats)
        ensures
            s.wf(),
            s.stat(StatType::Health) == health,
            s.stat(StatType::Defence) == defence,
            s.stat(StatType::MagicDefence) == mag_def,
            s.stat(StatType::Speed) == speed,
            s.stat(StatType::Attack) == attack,
            s.stat(StatType::Magic) == magic,
    {
        let mut stats: Vec<Stat> = Vec::new();
        stats.push(Stat { stat_type: StatType::Health, stat_value: health });
        stats.push(Stat { stat_type: StatType::Defence, stat_value: defence });
        stats.push(Stat { stat_type: StatType::MagicDefence, stat_value: mag_def });
        stats.push(Stat { stat_type: StatType::Speed, stat_value: speed });
        stats.push(Stat { stat_type: StatType::Attack, stat_value: attack });
        stats.push(Stat { stat_type: StatType::Magic, stat_value: magic });
        Stats { stats }
    }

    /// The current value of stat `t`; a well-formed block holds every stat.
    pub fn get_stat(&self, stat_type: StatType) -> (r: Option<i32>)
        requires
            self.wf(),
        ensures
            r == Some((self.stat(stat_type)) as i32),
    {
        let mut i: usize = 0;
        while i < self.stats.len()
            invariant
                self.wf(),
                i <= self.stats@.len(),
                forall|j: int| 0 <= j < i ==> self.stats@[j].stat_type != stat_type,
            decreases self.stats@.len() - i,
        {
            if self.stats[i].stat_type == stat_type {
                proof {
                    assert(i as int == slot(stat_type));
                }
                return Some(self.stats[i].stat_value);
            }
            i = i + 1;
        }
        None
    }

    /// Adds `amount` to stat `t`, saturating at the `i32` range; all other
    /// stats keep their values.
    pub fn add_stat(&mut self, stat_type: StatType, amount: i32)
        requires
            old(self).wf(),
        ensures
            final(self).wf(),
            final(self).stat(stat_type) == clip_i32(old(self).stat(stat_type) + amount),
            forall|t: StatType| t != stat_type ==> final(self).stat(t) == old(self).stat(t),
    {
        let mut i: usize = 0;
        while i < self.stats.len()
            invariant
                self.wf(),
                *self == *old(self),
                i <= self.stats@.len(),
                forall|j: int| 0 <= j < i ==> self.stats@[j].stat_type != stat_type,
            decreases self.stats@.len() - i,
        {
            if self.stats[i].stat_type == stat_type {
                proof {
                    assert(i as int == slot(stat_type));
                }
                let v = self.stats[i].stat_value;
                let sum: i64 = v as i64 + amount as i64;
                let clipped: i32 = if sum > i32::MAX as i64 {
                    i32::MAX
                } else if sum < i32::MIN as i64 {
                    i32::MIN
                } else {
                    sum as i32
                };
                self.stats[i] = Stat { stat_type, stat_value: clipped };
                return ;
            }
            i = i + 1;
        }
    }
}

impl Default for Stats {
    /// The stat values a fresh agent starts with.
    fn default() -> (s: Stats)
        ensures
            s.wf(),
            s.stat(StatType::Health) == 100,
            s.stat(StatType::Defence) == 10,
            s.stat(StatType::MagicDefence) == 10,
            s.stat(StatType::Speed) == 50,
            s.stat(StatType::Attack) == 25,
            s.stat(StatType::Magic) == 20,
    {
        Stats::new(100, 10, 10, 50, 25, 20)
    }
}

} // verus!
