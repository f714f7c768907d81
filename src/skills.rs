use crate::creatures::{clamp, saturate, EnemyStatus};
use crate::events::{AudioSound, ChangeEnemyHpEvent, PlayAudioEvent};
use crate::player::{sat_add, PlayerStatus};
use std::collections::VecDeque;
use vstd::prelude::*;

verus! {

/// What a skill does to the monster.
#[derive(Clone, Copy, PartialEq, Eq, Structural, Debug)]
pub enum SkillEvent {
    /// Damage equal to the attack, less the monster's defence.
    CommonAttack,
    /// Damage equal to twice the attack, less the monster's defence.
    DoubleAttack,
}

/// A skill and its cooldown: `cd` turns after use, `cd_timer` turns still to wait.
#[derive(Clone, Debug)]
pub struct Skill {
    pub name: String,
    pub description: String,
    pub icon: String,
    pub event: SkillEvent,
    pub cd: u32,
    pub cd_timer: u32,
}

/// The player's skills in the order they come round.
pub struct PlayerSkills {
    pub skills: VecDeque<Skill>,
}

/// `s` with `k` turns less to wait.
pub open spec fn waited(s: Skill, k: int) -> Skill {
    Skill { cd_timer: (s.cd_timer - k) as u32, ..s }
}

/// Skill `i` is the first whose timer is the least, `m`.
pub open spec fn first_due(q: Seq<Skill>, m: int, i: int) -> bool {
    &&& 0 <= i < q.len()
    &&& q[i].cd_timer == m
    &&& forall|j: int| 0 <= j < i ==> (#[trigger] q[j]).cd_timer > m
    &&& forall|j: int| i < j < q.len() ==> (#[trigger] q[j]).cd_timer >= m
}

/// The queue after turning it until the first skill due, `i` with timer `m`, is in
/// front: the skills from `i` on have waited `m` turns, those before it `m + 1`.
pub open spec fn settled(q: Seq<Skill>, m: int, i: int) -> Seq<Skill> {
    Seq::new(
        q.len(),
        |x: int|
            if x < q.len() - i {
                waited(q[i + x], m)
            } else {
                waited(q[x - (q.len() - i)], m + 1)
            },
    )
}

/// `r` is `q` turned until its first skill due is in front.
pub open spec fn settles(q: Seq<Skill>, r: Seq<Skill>) -> bool {
    exists|m: int, i: int| #[trigger] first_due(q, m, i) && r == settled(q, m, i)
}

/// The queue after using its front skill: that skill waits its full cooldown behind
/// the others.
pub open spec fn used(q: Seq<Skill>) -> Seq<Skill> {
    q.drop_first().push(Skill { cd_timer: q[0].cd, ..q[0] })
}

/// The health change a skill deals to a monster of defence `def`, for a player of
/// attack `atk`.
pub open spec fn strike(event: SkillEvent, atk: i64, def: i64) -> i64 {
    let power = match event {
        SkillEvent::CommonAttack => atk as int,
        SkillEvent::DoubleAttack => 2 * atk,
    };
    clamp(def - power, i64::MIN as int, i64::MAX as int) as i64
}

/// The player after a monster of attack `atk` strikes back: health falls by the
/// attack less the player's defence, never by less than zero.
pub open spec fn struck(p: PlayerStatus, atk: i64) -> PlayerStatus {
    let loss = if atk - p.def > 0 {
        atk - p.def
    } else {
        0
    };
    PlayerStatus { cur_hp: clamp(p.cur_hp - loss, i64::MIN as int, i64::MAX as int) as i64, ..p }
}

impl PlayerSkills {
    /// Turns the queue until a skill is due: each skill still cooling down waits one
    /// turn and moves to the back.
    fn settle(&mut self)
        requires
            old(self).skills@.len() > 0,
        ensures
            settles(old(self).skills@, final(self).skills@),
            final(self).skills@.len() == old(self).skills@.len(),
            final(self).skills@[0].cd_timer == 0,
    {
        let ghost q = self.skills@;
        let n = self.skills.len();
        let ghost mut r: int = 0;
        let ghost mut p: int = 0;
        loop
            invariant
                n == q.len() > 0,
                self.skills@.len() == n,
                0 <= p < n,
                0 <= r <= u32::MAX,
                forall|x: int| 0 <= x < n - p ==> #[trigger] self.skills@[x] == waited(q[p + x], r),
                forall|x: int|
                    n - p <= x < n ==> #[trigger] self.skills@[x] == waited(q[x - (n - p)], r + 1),
                forall|j: int| 0 <= j < p ==> (#[trigger] q[j]).cd_timer >= r + 1,
                forall|j: int| p <= j < n ==> (#[trigger] q[j]).cd_timer >= r,
            ensures
                first_due(q, r, p),
                self.skills@ == settled(q, r, p),
            decreases u32::MAX - r, n - p,
        {
            let front = self.skills.pop_front();
            match front {
                Some(mut s) => {
                    assert(s == waited(q[p], r));
                    if s.cd_timer == 0 {
                        self.skills.push_front(s);
                        proof {
                            assert(self.skills@ =~= settled(q, r, p));
                        }
                        break;
                    }
                    s.cd_timer = s.cd_timer - 1;
                    let ghost before = self.skills@;
                    self.skills.push_back(s);
                    proof {
                        assert(s == waited(q[p], r + 1));
                        if p + 1 == n {
                            assert forall|x: int| 0 <= x < n implies #[trigger] self.skills@[x]
                                == waited(q[x], r + 1) by {
                                if x < n - 1 {
                                    assert(self.skills@[x] == before[x]);
                                }
                            }
                            p = 0;
                            r = r + 1;
                        } else {
                            assert forall|x: int| 0 <= x < n - (p + 1) implies #[trigger] self.skills@[x]
                                == waited(q[p + 1 + x], r) by {
                                assert(self.skills@[x] == before[x]);
                            }
                            assert forall|x: int| n - (p + 1) <= x < n implies #[trigger] self.skills@[x]
                                == waited(q[x - (n - (p + 1))], r + 1) by {
                                if x < n - 1 {
                                    assert(self.skills@[x] == before[x]);
                                }
                            }
                            p = p + 1;
                        }
                    }
                },
                None => {
                    proof {
                        assert(false);
                    }
                    break;
                },
            }
        }
        proof {
            assert(first_due(q, r, p));
        }
    }

    /// Attacks the monster of tile `id` with the next skill due. The queue turns until a
    /// skill is due; that skill is used (it waits its full cooldown behind the others);
    /// the queue turns again until the next one is due. Against a monster, the skill's
    /// health change for it is returned and the monster strikes back at the player.
    /// Every use of a skill comes with its sound.
    pub fn update_player_skills_order(
        &mut self,
        id: u64,
        player: &mut PlayerStatus,
        enemy: Option<&EnemyStatus>,
    ) -> (r: (Option<ChangeEnemyHpEvent>, PlayAudioEvent))
        requires
            old(self).skills@.len() > 0,
        ensures
            final(self).skills@.len() == old(self).skills@.len(),
            exists|q: Seq<Skill>|
                #[trigger] settles(old(self).skills@, q) && q.len() > 0 && settles(
                    used(q),
                    final(self).skills@,
                ) && (match enemy {
                    Some(e) => r.0 == Some(ChangeEnemyHpEvent(id, strike(q[0].event, old(player).atk, e.def))),
                    None => r.0 is None,
                }),
            r.1 == PlayAudioEvent(AudioSound::Dao5),
            enemy matches Some(e) ==> *final(player) == struck(*old(player), e.atk),
            enemy is None ==> *final(player) == *old(player),
    {
        self.settle();
        let ghost q = self.skills@;
        let front = self.skills.pop_front();
        let mut skill = match front {
            Some(s) => s,
            None => {
                proof {
                    assert(false);
                }
                return (None, PlayAudioEvent(AudioSound::Dao5));
            },
        };
        let event = skill.event;
        skill.cd_timer = skill.cd;
        self.skills.push_back(skill);
        proof {
            assert(self.skills@ =~= used(q));
        }
        self.settle();
        let sound = PlayAudioEvent(AudioSound::Dao5);
        match enemy {
            Some(e) => {
                let power: i128 = match event {
                    SkillEvent::CommonAttack => player.atk as i128,
                    SkillEvent::DoubleAttack => 2 * (player.atk as i128),
                };
                let change = saturate(e.def as i128 - power);
                let loss: i128 = if e.atk as i128 - player.def as i128 > 0 {
                    e.atk as i128 - player.def as i128
                } else {
                    0
                };
                player.cur_hp = saturate(player.cur_hp as i128 - loss);
                (Some(ChangeEnemyHpEvent(id, change)), sound)
            },
            None => (None, sound),
        }
    }
}

impl Default for PlayerSkills {
    /// A common attack, ready, then a double attack that waits one turn and then one
    /// turn after each use.
    fn default() -> (r: Self)
        ensures
            r.skills@.len() == 2,
            r.skills@[0].event == SkillEvent::CommonAttack,
            r.skills@[0].cd == 0 && r.skills@[0].cd_timer == 0,
            r.skills@[1].event == SkillEvent::DoubleAttack,
            r.skills@[1].cd == 1 && r.skills@[1].cd_timer == 1,
    {
        let mut skills: VecDeque<Skill> = VecDeque::new();
        skills.push_back(
            Skill {
                name: "普通攻击".to_owned(),
                description: "朴实无华的一次攻击, 造成等同于攻击力的伤害".to_owned(),
                icon: "textures/ui/skill_icons/skill_icon1.png".to_owned(),
                event: SkillEvent::CommonAttack,
                cd: 0,
                cd_timer: 0,
            },
        );
        skills.push_back(
            Skill {
                name: "会心攻击".to_owned(),
                description: "认真的一次攻击, 造成等同于攻击力2倍的伤害".to_owned(),
                icon: "textures/ui/skill_icons/skill_icon2.png".to_owned(),
                event: SkillEvent::DoubleAttack,
                cd: 1,
                cd_timer: 1,
            },
        );
        PlayerSkills { skills }
    }
}

} // verus!
