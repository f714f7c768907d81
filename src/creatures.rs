use vstd::prelude::*;

verus! {

/// A monster of the content pool.
#[derive(Clone, Debug)]
pub struct Monster {
    pub name: String,
    pub intro: String,
    pub icon: String,
    pub atk: i64,
    pub def: i64,
    pub hp: u64,
    pub image_label: String,
}

/// The fighting state of a monster placed on a tile.
#[derive(Clone, Debug)]
pub struct EnemyStatus {
    pub name: String,
    pub atk: i64,
    pub def: i64,
    pub max_hp: u64,
    pub cur_hp: i64,
}

/// What is shown of a monster placed on a tile.
#[derive(Clone, Debug)]
pub struct EnemyLabel {
    pub name: String,
    pub intro: String,
    pub image_label: String,
    pub icon: String,
}

/// `x` clamped to `lo..=hi`.
pub open spec fn clamp(x: int, lo: int, hi: int) -> int {
    if x < lo {
        lo
    } else if x > hi {
        hi
    } else {
        x
    }
}

/// `x` clamped to the range of `i64`.
pub fn saturate(x: i128) -> (r: i64)
    ensures
        r == clamp(x as int, i64::MIN as int, i64::MAX as int),
{
    if x < i64::MIN as i128 {
        i64::MIN
    } else if x > i64::MAX as i128 {
        i64::MAX
    } else {
        x as i64
    }
}

impl Monster {
    /// A fresh fighting state: full health.
    pub fn to_enemy_status(&self) -> (r: EnemyStatus)
        ensures
            r.name@ == self.name@,
            r.atk == self.atk,
            r.def == self.def,
            r.max_hp == self.hp,
            r.cur_hp == self.hp as i64,
    {
        EnemyStatus {
            name: self.name.clone(),
            atk: self.atk,
            def: self.def,
            max_hp: self.hp,
            cur_hp: self.hp as i64,
        }
    }

    /// What is shown of the monster.
    pub fn to_enemy_label(&self) -> (r: EnemyLabel)
        ensures
            r.name@ == self.name@,
            r.intro@ == self.intro@,
            r.image_label@ == self.image_label@,
            r.icon@ == self.icon@,
    {
        EnemyLabel {
            name: self.name.clone(),
            intro: self.intro.clone(),
            image_label: self.image_label.clone(),
            icon: self.icon.clone(),
        }
    }
}

impl EnemyStatus {
    /// Changes the health of a living enemy by `delta` (negative is damage); health
    /// never drops below zero and saturates at `i64::MAX`. An enemy at zero or below is
    /// left as it is. Returns whether this change defeated the enemy, the moment its
    /// tile becomes visited.
    pub fn change_hp(&mut self, delta: i64) -> (r: bool)
        ensures
            old(self).cur_hp > 0 ==> final(self).cur_hp == clamp(
                old(self).cur_hp + delta,
                0,
                i64::MAX as int,
            ),
            old(self).cur_hp > 0 ==> (r <==> final(self).cur_hp == 0),
            old(self).cur_hp <= 0 ==> *final(self) == *old(self) && !r,
            *final(self) == (EnemyStatus { cur_hp: final(self).cur_hp, ..*old(self) }),
    {
        if self.cur_hp <= 0 {
            return false;
        }
        let sum = self.cur_hp as i128 + delta as i128;
        self.cur_hp = if sum < 0 {
            0
        } else {
            saturate(sum)
        };
        self.cur_hp <= 0
    }
}

} // verus!
