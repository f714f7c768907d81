use rand::rngs::StdRng;
use rand::Rng;
use rand::SeedableRng;
use vstd::prelude::*;

verus! {

/// rand's `StdRng`, held opaque: the generator a session draws from.
#[verifier::external_type_specification]
#[verifier::external_body]
pub struct ExStdRng(StdRng);

/// Relies on rand's `SeedableRng::seed_from_u64` for `StdRng`: a generator whose stream
/// is fixed by the seed.
#[verifier::external_body]
fn generator_from_seed(seed: u64) -> StdRng {
    StdRng::seed_from_u64(seed)
}

/// Relies on rand's `Rng::gen_range` on `low..high` for `u64`: a value of the half-open
/// range; it panics on an empty range, which `requires` leaves out.
#[verifier::external_body]
fn draw_below(generator: &mut StdRng, bound: u64) -> (r: u64)
    requires
        bound > 0,
    ensures
        r < bound,
{
    generator.gen_range(0..bound)
}

/// Relies on rand's `Rng::gen_range` on `low..=high` for `i64`: a value of the closed
/// range; it panics when `low > high`, which `requires` leaves out.
#[verifier::external_body]
fn draw_between(generator: &mut StdRng, low: i64, high: i64) -> (r: i64)
    requires
        low <= high,
    ensures
        low <= r <= high,
{
    generator.gen_range(low..=high)
}

/// The random source of a session: one seeded generator, handed by reference to every
/// component that draws, so that a seed reproduces the whole session.
pub struct RNG {
    seed: u64,
    draws: Ghost<nat>,
    generator: StdRng,
}

impl View for RNG {
    /// The seed the generator was made from, and how many values have been drawn
    /// from it.
    type V = (u64, nat);

    closed spec fn view(&self) -> (u64, nat) {
        (self.seed, self.draws@)
    }
}

impl RNG {
    pub fn new(seed: u64) -> (r: RNG)
        ensures
            r@ == (seed, 0nat),
    {
        RNG { seed, draws: Ghost(0), generator: generator_from_seed(seed) }
    }

    /// The seed the generator was made from.
    pub fn seed(&self) -> (r: u64)
        ensures
            r == self@.0,
    {
        self.seed
    }

    /// A value of `0..bound`.
    pub fn random_below(&mut self, bound: u64) -> (r: u64)
        requires
            bound > 0,
        ensures
            r < bound,
            final(self)@ == (old(self)@.0, old(self)@.1 + 1),
    {
        self.draws = Ghost(self.draws@ + 1);
        draw_below(&mut self.generator, bound)
    }

    /// A value of `min..=max`.
    pub fn random_range_i64(&mut self, min: i64, max: i64) -> (r: i64)
        requires
            min <= max,
        ensures
            min <= r <= max,
            final(self)@ == (old(self)@.0, old(self)@.1 + 1),
    {
        self.draws = Ghost(self.draws@ + 1);
        draw_between(&mut self.generator, min, max)
    }

    /// A fair coin.
    pub fn random_boolean(&mut self) -> (r: bool)
        ensures
            final(self)@ == (old(self)@.0, old(self)@.1 + 1),
    {
        self.random_below(2) == 1
    }

    /// `true` with probability `numerator / denominator`: certainly `false` when the
    /// numerator is zero and certainly `true` when it reaches the denominator.
    pub fn random_val_boolean(&mut self, numerator: u64, denominator: u64) -> (r: bool)
        requires
            denominator > 0,
        ensures
            numerator == 0 ==> !r,
            numerator >= denominator ==> r,
            final(self)@ == (old(self)@.0, old(self)@.1 + 1),
    {
        self.random_below(denominator) < numerator
    }

    /// Replays the stream of `seed` and returns the coin of its draw number `times`
    /// (counted from one), with that number.
    pub fn random_boolean_times(seed: u64, times: u64) -> (r: (u64, bool))
        requires
            times >= 1,
        ensures
            r.0 == times,
    {
        let mut rng = RNG::new(seed);
        let mut drawn: u64 = 1;
        let mut value = rng.random_boolean();
        while drawn < times
            invariant
                1 <= drawn <= times,
            decreases times - drawn,
        {
            value = rng.random_boolean();
            drawn = drawn + 1;
        }
        (drawn, value)
    }
}

} // verus!
