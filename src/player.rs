use crate::creatures::{clamp, saturate};
use crate::rng::RNG;
use crate::values::{drawn_from, appended, signed_decimal, signed_text, KeyValue, Val, Value};
use vstd::prelude::*;

verus! {

/// The player's numbers.
#[derive(Clone, Copy, PartialEq, Eq, Structural, Debug)]
pub struct PlayerStatus {
    pub atk: i64,
    pub def: i64,
    pub cur_hp: i64,
    pub max_hp: i64,
    pub gold: i64,
}

/// A fresh player: attack 10, defence 1, health 100 of 100, gold 10.
pub open spec fn fresh_player() -> PlayerStatus {
    PlayerStatus { atk: 10, def: 1, cur_hp: 100, max_hp: 100, gold: 10 }
}

/// Which of the player's numbers a line of the status hub shows.
#[derive(Clone, Copy, PartialEq, Eq, Structural, Debug)]
pub enum PlayerStatusType {
    ATK,
    DEF,
    HP,
    GOLD,
}

/// The text of a line of the status hub: the number in decimal, health as
/// `current/maximum`.
pub open spec fn status_text(p: PlayerStatus, kind: PlayerStatusType) -> Seq<char> {
    match kind {
        PlayerStatusType::ATK => signed_decimal(p.atk as int),
        PlayerStatusType::DEF => signed_decimal(p.def as int),
        PlayerStatusType::HP => signed_decimal(p.cur_hp as int) + seq!['/'] + signed_decimal(
            p.max_hp as int,
        ),
        PlayerStatusType::GOLD => signed_decimal(p.gold as int),
    }
}

/// `a + b`, saturating at the ends of `i64`.
pub open spec fn sat_add(a: i64, b: i64) -> i64 {
    clamp(a + b, i64::MIN as int, i64::MAX as int) as i64
}

/// The player after one effect of a reward, with the amount drawn for it: current
/// health rises by the amount but not past the maximum; the other numbers rise by the
/// amount. Sums saturate at the ends of `i64`.
pub open spec fn applied(p: PlayerStatus, effect: KeyValue, amount: i64) -> PlayerStatus {
    match effect {
        KeyValue::PlayerCurrentHp(_) => PlayerStatus {
            cur_hp: if sat_add(p.cur_hp, amount) < p.max_hp {
                sat_add(p.cur_hp, amount)
            } else {
                p.max_hp
            },
            ..p
        },
        KeyValue::PlayerMaxHp(_) => PlayerStatus { max_hp: sat_add(p.max_hp, amount), ..p },
        KeyValue::PlayerAtk(_) => PlayerStatus { atk: sat_add(p.atk, amount), ..p },
        KeyValue::PlayerDef(_) => PlayerStatus { def: sat_add(p.def, amount), ..p },
        KeyValue::PlayerGold(_) => PlayerStatus { gold: sat_add(p.gold, amount), ..p },
    }
}

/// The player after the effects, in order, each with its amount.
pub open spec fn applied_all(p: PlayerStatus, effects: Seq<KeyValue>, amounts: Seq<i64>) -> PlayerStatus
    decreases effects.len(),
{
    if effects.len() == 0 || amounts.len() < effects.len() {
        p
    } else {
        applied(
            applied_all(p, effects.drop_last(), amounts.subrange(0, effects.len() - 1)),
            effects.last(),
            amounts[effects.len() - 1],
        )
    }
}

/// The amount an effect names.
pub open spec fn amount_of(effect: KeyValue) -> Val {
    match effect {
        KeyValue::PlayerCurrentHp(v) => v,
        KeyValue::PlayerMaxHp(v) => v,
        KeyValue::PlayerAtk(v) => v,
        KeyValue::PlayerDef(v) => v,
        KeyValue::PlayerGold(v) => v,
    }
}

/// How many values finding the amounts of `effects` draws: one per range.
pub open spec fn draws_of(effects: Seq<KeyValue>) -> nat
    decreases effects.len(),
{
    if effects.len() == 0 {
        0
    } else {
        draws_of(effects.drop_last()) + amount_of(effects.last()).draws()
    }
}

fn plus(a: i64, b: i64) -> (r: i64)
    ensures
        r == sat_add(a, b),
{
    saturate(a as i128 + b as i128)
}

impl PlayerStatus {
    /// Whether the player has lost: no health left.
    pub fn is_defeated(&self) -> (r: bool)
        ensures
            r == (self.cur_hp <= 0),
    {
        self.cur_hp <= 0
    }

    /// The text of the status-hub line for `kind`.
    pub fn label(&self, kind: PlayerStatusType) -> (r: String)
        ensures
            r@ == status_text(*self, kind),
    {
        match kind {
            PlayerStatusType::ATK => signed_text(self.atk),
            PlayerStatusType::DEF => signed_text(self.def),
            PlayerStatusType::HP => {
                let current = signed_text(self.cur_hp);
                let maximum = signed_text(self.max_hp);
                proof {
                    reveal_strlit("/");
                }
                let head = appended(current, "/");
                appended(head, maximum.as_str())
            },
            PlayerStatusType::GOLD => signed_text(self.gold),
        }
    }

    /// Applies one effect with the amount drawn for it.
    pub fn apply_effect(&mut self, effect: &KeyValue, amount: i64)
        ensures
            *final(self) == applied(*old(self), *effect, amount),
    {
        match effect {
            KeyValue::PlayerCurrentHp(_) => {
                let raised = plus(self.cur_hp, amount);
                self.cur_hp = if raised < self.max_hp {
                    raised
                } else {
                    self.max_hp
                };
            },
            KeyValue::PlayerMaxHp(_) => {
                self.max_hp = plus(self.max_hp, amount);
            },
            KeyValue::PlayerAtk(_) => {
                self.atk = plus(self.atk, amount);
            },
            KeyValue::PlayerDef(_) => {
                self.def = plus(self.def, amount);
            },
            KeyValue::PlayerGold(_) => {
                self.gold = plus(self.gold, amount);
            },
        }
    }

    /// Collects a reward: draws the amount of each effect in order and applies it.
    /// Returns the amounts drawn.
    pub fn apply_reward(&mut self, value: &Value, rng: &mut RNG) -> (r: Vec<i64>)
        ensures
            r@.len() == value.values@.len(),
            forall|i: int|
                0 <= i < r@.len() ==> drawn_from(amount_of(value.values@[i]), #[trigger] r@[i]),
            *final(self) == applied_all(*old(self), value.values@, r@),
            final(rng)@ == (old(rng)@.0, old(rng)@.1 + draws_of(value.values@)),
    {
        let mut amounts: Vec<i64> = Vec::new();
        let mut i: usize = 0;
        while i < value.values.len()
            invariant
                0 <= i <= value.values@.len(),
                amounts@.len() == i,
                forall|j: int|
                    0 <= j < i ==> drawn_from(amount_of(value.values@[j]), #[trigger] amounts@[j]),
                *self == applied_all(*old(self), value.values@.subrange(0, i as int), amounts@),
                rng@ == (old(rng)@.0, old(rng)@.1 + draws_of(value.values@.subrange(0, i as int))),
            decreases value.values@.len() - i,
        {
            let effect = &value.values[i];
            let val = match effect {
                KeyValue::PlayerCurrentHp(v) => v,
                KeyValue::PlayerMaxHp(v) => v,
                KeyValue::PlayerAtk(v) => v,
                KeyValue::PlayerDef(v) => v,
                KeyValue::PlayerGold(v) => v,
            };
            let amount = val.to_i64(rng);
            let ghost before = amounts@;
            self.apply_effect(effect, amount);
            amounts.push(amount);
            proof {
                let es = value.values@.subrange(0, i + 1);
                assert(es.drop_last() == value.values@.subrange(0, i as int));
                assert(amounts@.subrange(0, es.len() - 1) == before);
                assert(es.last() == *effect);
            }
            i = i + 1;
        }
        assert(value.values@.subrange(0, value.values@.len() as int) == value.values@);
        amounts
    }
}

impl Default for PlayerStatus {
    /// A fresh player: attack 10, defence 1, health 100 of 100, gold 10.
    fn default() -> (r: Self)
        ensures
            r == fresh_player(),
    {
        PlayerStatus { atk: 10, def: 1, cur_hp: 100, max_hp: 100, gold: 10 }
    }
}

} // verus!
