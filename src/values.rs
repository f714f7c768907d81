use crate::rng::RNG;
use vstd::string::StringExecFns;
use vstd::prelude::*;

verus! {

/// An amount of a reward: a fixed number, or a number drawn from `min..=max`.
#[derive(Clone, Copy, PartialEq, Eq, Structural, Debug)]
pub enum Val {
    Fixed(i64),
    Float(i64, i64),
}

/// One effect of a reward on the player.
#[derive(Clone, Copy, PartialEq, Eq, Structural, Debug)]
pub enum KeyValue {
    PlayerCurrentHp(Val),
    PlayerMaxHp(Val),
    PlayerAtk(Val),
    PlayerDef(Val),
    PlayerGold(Val),
}

/// A reward block: what it is called and shown as, and its effects.
#[derive(Clone, Debug)]
pub struct Value {
    pub name: String,
    pub intro: String,
    pub image_label: String,
    pub values: Vec<KeyValue>,
}

/// `amount` is a value the amount `v` can take: the fixed number, or one between the
/// ends of the range.
pub open spec fn drawn_from(v: Val, amount: i64) -> bool {
    match v {
        Val::Fixed(n) => amount == n,
        Val::Float(a, b) => (a <= amount <= b) || (b <= amount <= a),
    }
}

/// The decimal digits of `n`, most significant first.
pub open spec fn decimal(n: nat) -> Seq<char>
    decreases n,
{
    let digit = seq!['0', '1', '2', '3', '4', '5', '6', '7', '8', '9'][(n % 10) as int];
    if n < 10 {
        seq![digit]
    } else {
        decimal(n / 10).push(digit)
    }
}

/// `n` in decimal, with a minus sign when negative.
pub open spec fn signed_decimal(n: int) -> Seq<char> {
    if n < 0 {
        seq!['-'] + decimal((-n) as nat)
    } else {
        decimal(n as nat)
    }
}

/// How an amount is shown: a fixed amount with its sign (`+5`, `-3`, `+0`), a range as
/// `min ~ max`.
pub open spec fn val_text(v: Val) -> Seq<char> {
    match v {
        Val::Fixed(n) => if n >= 0 {
            seq!['+'] + decimal(n as nat)
        } else {
            seq!['-'] + decimal((-n) as nat)
        },
        Val::Float(min, max) => signed_decimal(min as int) + seq![' ', '~', ' '] + signed_decimal(
            max as int,
        ),
    }
}

/// The text of the digit `d`.
fn digit_text(d: u64) -> (r: String)
    requires
        d < 10,
    ensures
        r@ == seq![seq!['0', '1', '2', '3', '4', '5', '6', '7', '8', '9'][d as int]],
{
    let text = if d == 0 {
        "0"
    } else if d == 1 {
        "1"
    } else if d == 2 {
        "2"
    } else if d == 3 {
        "3"
    } else if d == 4 {
        "4"
    } else if d == 5 {
        "5"
    } else if d == 6 {
        "6"
    } else if d == 7 {
        "7"
    } else if d == 8 {
        "8"
    } else {
        "9"
    };
    proof {
        reveal_strlit("0");
        reveal_strlit("1");
        reveal_strlit("2");
        reveal_strlit("3");
        reveal_strlit("4");
        reveal_strlit("5");
        reveal_strlit("6");
        reveal_strlit("7");
        reveal_strlit("8");
        reveal_strlit("9");
    }
    let r = text.to_owned();
    assert(r@ =~= seq![seq!['0', '1', '2', '3', '4', '5', '6', '7', '8', '9'][d as int]]);
    r
}

/// The decimal digits of `n`, most significant first.
fn decimal_text(n: u64) -> (r: String)
    ensures
        r@ == decimal(n as nat),
    decreases n,
{
    let last = digit_text(n % 10);
    if n < 10 {
        last
    } else {
        let head = decimal_text(n / 10);
        head.concat(last.as_str())
    }
}

/// The text of `a` followed by that of `b`.
pub(crate) fn appended(a: String, b: &str) -> (r: String)
    ensures
        r@ == a@ + b@,
{
    a.concat(b)
}

/// The absolute value of `n`.
fn magnitude(n: i64) -> (r: u64)
    ensures
        r as int == if n < 0 {
            -n
        } else {
            n as int
        },
{
    if n < 0 {
        (-(n as i128)) as u64
    } else {
        n as u64
    }
}

/// `n` in decimal, with a minus sign when negative.
pub(crate) fn signed_text(n: i64) -> (r: String)
    ensures
        r@ == signed_decimal(n as int),
{
    let digits = decimal_text(magnitude(n));
    if n < 0 {
        let sign = "-".to_owned();
        proof {
            reveal_strlit("-");
        }
        appended(sign, digits.as_str())
    } else {
        digits
    }
}

impl Value {
    /// A copy of the reward block.
    pub fn duplicate(&self) -> (r: Value)
        ensures
            r.name@ == self.name@,
            r.intro@ == self.intro@,
            r.image_label@ == self.image_label@,
            r.values@ == self.values@,
    {
        let mut values: Vec<KeyValue> = Vec::new();
        let mut i: usize = 0;
        while i < self.values.len()
            invariant
                0 <= i <= self.values@.len(),
                values@ == self.values@.subrange(0, i as int),
            decreases self.values@.len() - i,
        {
            values.push(self.values[i]);
            i = i + 1;
        }
        assert(values@ == self.values@.subrange(0, self.values@.len() as int));
        Value {
            name: self.name.clone(),
            intro: self.intro.clone(),
            image_label: self.image_label.clone(),
            values,
        }
    }
}

impl Val {
    /// How many values finding the amount draws: none for a fixed one, one for a
    /// range.
    pub open spec fn draws(&self) -> nat {
        match *self {
            Val::Fixed(_) => 0,
            Val::Float(_, _) => 1,
        }
    }

    /// The amount: the fixed number, or one drawn from the range. A range given with
    /// its ends the wrong way round is read as the range between them.
    pub fn to_i64(&self, rng: &mut RNG) -> (r: i64)
        ensures
            drawn_from(*self, r),
            final(rng)@ == (old(rng)@.0, old(rng)@.1 + self.draws()),
    {
        match self {
            Val::Fixed(v) => *v,
            Val::Float(min, max) => if *min <= *max {
                rng.random_range_i64(*min, *max)
            } else {
                rng.random_range_i64(*max, *min)
            },
        }
    }

    /// How the amount is shown.
    pub fn to_str(&self) -> (r: String)
        ensures
            r@ == val_text(*self),
    {
        match self {
            Val::Fixed(v) => {
                let digits = decimal_text(magnitude(*v));
                if *v >= 0 {
                    let sign = "+".to_owned();
                    proof {
                        reveal_strlit("+");
                    }
                    appended(sign, digits.as_str())
                } else {
                    let sign = "-".to_owned();
                    proof {
                        reveal_strlit("-");
                    }
                    appended(sign, digits.as_str())
                }
            },
            Val::Float(min, max) => {
                let low = signed_text(*min);
                let high = signed_text(*max);
                proof {
                    reveal_strlit(" ~ ");
                }
                let joined = appended(low, " ~ ");
                appended(joined, high.as_str())
            },
        }
    }
}

} // verus!
