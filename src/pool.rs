use crate::rng::RNG;
use vstd::prelude::*;

verus! {

/// An item with its weight: the item is drawn with probability weight / total weight.
pub struct Weight<T>(pub T, pub u64);

/// A weighted pool: items drawn at random in proportion to their weights.
pub struct Pool<T>(pub Vec<Weight<T>>);

/// The weights of a list of entries, in order.
pub open spec fn weights_of<T>(entries: Seq<Weight<T>>) -> Seq<u64> {
    entries.map_values(|w: Weight<T>| w.1)
}

/// The sum of a list of weights.
pub open spec fn sum(ws: Seq<u64>) -> int
    decreases ws.len(),
{
    if ws.len() == 0 {
        0
    } else {
        sum(ws.drop_last()) + ws.last()
    }
}

/// The sum of the first `n` weights: entry `n` covers the draws from this value up to
/// the next one.
pub open spec fn prefix_sum(ws: Seq<u64>, n: int) -> int {
    sum(ws.subrange(0, n))
}

/// The probability of each entry, as a fraction (weight, total weight).
pub open spec fn probabilities(ws: Seq<u64>) -> Seq<(u64, u64)> {
    ws.map_values(|w: u64| (w, sum(ws) as u64))
}

/// The sum of the numerators of a list of fractions.
pub open spec fn numerator_sum(fs: Seq<(u64, u64)>) -> int
    decreases fs.len(),
{
    if fs.len() == 0 {
        0
    } else {
        numerator_sum(fs.drop_last()) + fs.last().0
    }
}

/// Prefix sums grow with their length.
pub proof fn lemma_prefix_sum_monotone(ws: Seq<u64>, i: int, j: int)
    requires
        0 <= i <= j <= ws.len(),
    ensures
        prefix_sum(ws, i) <= prefix_sum(ws, j),
    decreases j - i,
{
    if i < j {
        lemma_prefix_sum_monotone(ws, i, j - 1);
        assert(ws.subrange(0, j).drop_last() == ws.subrange(0, j - 1));
    }
}

proof fn lemma_prefix_sum_step(ws: Seq<u64>, i: int)
    requires
        0 <= i < ws.len(),
    ensures
        prefix_sum(ws, i + 1) == prefix_sum(ws, i) + ws[i],
{
    assert(ws.subrange(0, i + 1).drop_last() == ws.subrange(0, i));
}

proof fn lemma_prefix_sum_full(ws: Seq<u64>)
    ensures
        prefix_sum(ws, ws.len() as int) == sum(ws),
{
    assert(ws.subrange(0, ws.len() as int) == ws);
}

/// The probabilities of a pool whose total weight is positive add up to one: every
/// fraction has the total as its denominator, and the numerators add up to the total.
pub proof fn lemma_probabilities_sum_to_one(ws: Seq<u64>)
    requires
        sum(ws) > 0,
        sum(ws) <= u64::MAX,
    ensures
        forall|i: int| 0 <= i < ws.len() ==> (#[trigger] probabilities(ws)[i]).1 == sum(ws),
        numerator_sum(probabilities(ws)) == sum(ws),
{
    lemma_numerators(ws, sum(ws) as u64);
}

proof fn lemma_numerators(ws: Seq<u64>, d: u64)
    ensures
        numerator_sum(ws.map_values(|w: u64| (w, d))) == sum(ws),
    decreases ws.len(),
{
    if ws.len() > 0 {
        lemma_numerators(ws.drop_last(), d);
        assert(ws.map_values(|w: u64| (w, d)).drop_last() == ws.drop_last().map_values(
            |w: u64| (w, d),
        ));
    }
}

impl<T> Pool<T> {
    /// The weights of the entries, in order.
    pub open spec fn weights(&self) -> Seq<u64> {
        weights_of(self.0@)
    }

    /// The sum of all weights.
    pub open spec fn total(&self) -> int {
        sum(self.weights())
    }

    /// The total weight fits the machine word the draws are made in.
    pub open spec fn wf(&self) -> bool {
        self.total() <= u64::MAX
    }

    pub fn new() -> (r: Pool<T>)
        ensures
            r.0@.len() == 0,
            r.wf(),
    {
        Pool(Vec::new())
    }

    /// Appends an entry.
    pub fn push(&mut self, item: Weight<T>)
        requires
            old(self).total() + item.1 <= u64::MAX,
        ensures
            final(self).0@ == old(self).0@.push(item),
            final(self).total() == old(self).total() + item.1,
            final(self).wf(),
    {
        let ghost before = self.0@;
        self.0.push(item);
        assert(weights_of(self.0@).drop_last() == weights_of(before));
    }

    /// A pool of the given entries, in order.
    pub fn from_items(items: Vec<Weight<T>>) -> (r: Pool<T>)
        requires
            sum(weights_of(items@)) <= u64::MAX,
        ensures
            r.0@ == items@,
            r.wf(),
    {
        let mut pool = Pool::<T>::new();
        let mut items = items;
        let ghost all = items@;
        let n = items.len();
        let mut taken: usize = 0;
        while items.len() > 0
            invariant
                0 <= taken <= all.len() == n,
                items@ == all.subrange(taken as int, all.len() as int),
                pool.0@ == all.subrange(0, taken as int),
                sum(weights_of(all)) <= u64::MAX,
            decreases items@.len(),
        {
            let item = items.remove(0);
            proof {
                assert(item == all[taken as int]);
                let ws = weights_of(all);
                assert(weights_of(all.subrange(0, taken as int)) == ws.subrange(0, taken as int));
                lemma_prefix_sum_step(ws, taken as int);
                lemma_prefix_sum_monotone(ws, taken as int + 1, ws.len() as int);
                lemma_prefix_sum_full(ws);
            }
            pool.push(item);
            taken = taken + 1;
            assert(pool.0@ == all.subrange(0, taken as int));
        }
        assert(all.subrange(0, all.len() as int) == all);
        pool
    }

    /// A pool of the given items, each of weight one.
    pub fn from_items_with_average_probability(items: Vec<T>) -> (r: Pool<T>)
        requires
            items@.len() <= u64::MAX,
        ensures
            r.0@.len() == items@.len(),
            forall|i: int| 0 <= i < items@.len() ==> (#[trigger] r.0@[i]).0 == items@[i] && r.0@[i].1 == 1,
            r.wf(),
    {
        let mut pool = Pool::<T>::new();
        let mut items = items;
        let ghost all = items@;
        let n = items.len();
        let mut taken: usize = 0;
        while items.len() > 0
            invariant
                0 <= taken <= all.len() <= u64::MAX,
                all.len() == n,
                items@ == all.subrange(taken as int, all.len() as int),
                pool.0@.len() == taken,
                pool.total() == taken,
                forall|i: int| 0 <= i < taken ==> (#[trigger] pool.0@[i]).0 == all[i] && pool.0@[i].1 == 1,
            decreases items@.len(),
        {
            let item = items.remove(0);
            proof {
                assert(item == all[taken as int]);
            }
            pool.push(Weight(item, 1));
            taken = taken + 1;
        }
        pool
    }

    /// The index of the entry that a draw `p` of `0..total` selects: the first entry
    /// whose cumulative range `[prefix, prefix + weight)` holds `p`. When none does
    /// (`p` at or past the total), the last entry.
    pub fn select(&self, p: u64) -> (i: usize)
        requires
            self.0@.len() > 0,
            self.wf(),
        ensures
            i < self.0@.len(),
            p < self.total() ==> prefix_sum(self.weights(), i as int) <= p < prefix_sum(
                self.weights(),
                i + 1,
            ),
            p >= self.total() ==> i == self.0@.len() - 1,
    {
        let ghost ws = self.weights();
        let mut grand: u64 = 0;
        let mut i: usize = 0;
        while i < self.0.len()
            invariant
                0 <= i <= self.0@.len(),
                ws == self.weights(),
                self.wf(),
                grand == prefix_sum(ws, i as int),
                p >= grand,
            decreases self.0@.len() - i,
        {
            proof {
                lemma_prefix_sum_step(ws, i as int);
                lemma_prefix_sum_monotone(ws, i as int + 1, ws.len() as int);
                lemma_prefix_sum_full(ws);
            }
            let w = self.0[i].1;
            if p < grand + w {
                return i;
            }
            grand = grand + w;
            i = i + 1;
        }
        proof {
            lemma_prefix_sum_full(ws);
        }
        self.0.len() - 1
    }

    /// Draws one value of `0..total` and returns the item whose range holds it; an item
    /// of weight zero is never drawn. When every weight is zero, the last item (one
    /// value is drawn all the same).
    pub fn fetch_item(&self, rng: &mut RNG) -> (r: &T)
        requires
            self.0@.len() > 0,
            self.wf(),
        ensures
            exists|i: int|
                0 <= i < self.0@.len() && r == &(#[trigger] self.0@[i]).0 && (self.total() > 0
                    ==> self.0@[i].1 > 0) && (self.total() == 0 ==> i == self.0@.len() - 1),
            final(rng)@ == (old(rng)@.0, old(rng)@.1 + 1),
    {
        let mut count: u64 = 0;
        let mut i: usize = 0;
        let ghost ws = self.weights();
        while i < self.0.len()
            invariant
                0 <= i <= self.0@.len(),
                ws == self.weights(),
                self.wf(),
                count == prefix_sum(ws, i as int),
            decreases self.0@.len() - i,
        {
            proof {
                lemma_prefix_sum_step(ws, i as int);
                lemma_prefix_sum_monotone(ws, i as int + 1, ws.len() as int);
                lemma_prefix_sum_full(ws);
            }
            count = count + self.0[i].1;
            i = i + 1;
        }
        proof {
            lemma_prefix_sum_full(ws);
        }
        // One draw per call, whatever the weights, so that the stream of a seed does
        // not depend on them.
        let p = if count > 0 {
            rng.random_below(count)
        } else {
            rng.random_below(1)
        };
        let k = self.select(p);
        proof {
            if count > 0 {
                lemma_prefix_sum_step(ws, k as int);
            }
        }
        &self.0[k].0
    }

    /// The probability of each entry, in entry order, as the fraction
    /// (weight, total weight).
    pub fn get_probability_list(&self) -> (r: Vec<(u64, u64)>)
        requires
            self.wf(),
        ensures
            r@ == probabilities(self.weights()),
    {
        let ghost ws = self.weights();
        let mut count: u64 = 0;
        let mut i: usize = 0;
        while i < self.0.len()
            invariant
                0 <= i <= self.0@.len(),
                ws == self.weights(),
                self.wf(),
                count == prefix_sum(ws, i as int),
            decreases self.0@.len() - i,
        {
            proof {
                lemma_prefix_sum_step(ws, i as int);
                lemma_prefix_sum_monotone(ws, i as int + 1, ws.len() as int);
                lemma_prefix_sum_full(ws);
            }
            count = count + self.0[i].1;
            i = i + 1;
        }
        proof {
            lemma_prefix_sum_full(ws);
        }
        let mut r: Vec<(u64, u64)> = Vec::new();
        let mut j: usize = 0;
        while j < self.0.len()
            invariant
                0 <= j <= self.0@.len(),
                ws == self.weights(),
                count == sum(ws),
                r@.len() == j,
                forall|k: int| 0 <= k < j ==> #[trigger] r@[k] == (ws[k], count),
            decreases self.0@.len() - j,
        {
            r.push((self.0[j].1, count));
            j = j + 1;
        }
        assert(r@ == probabilities(ws));
        r
    }
}

} // verus!
