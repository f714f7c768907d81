use que::pool::{Pool, Weight};
use que::rng::RNG;

fn pool_of(weights: &[u64]) -> Pool<usize> {
    Pool::from_items(weights.iter().enumerate().map(|(i, w)| Weight(i, *w)).collect())
}

#[test]
fn probability_list_is_weight_over_total() {
    let pool = pool_of(&[1, 1, 2]);
    assert_eq!(pool.get_probability_list(), vec![(1, 4), (1, 4), (2, 4)]);
}

#[test]
fn probability_list_sums_to_one() {
    let pool = pool_of(&[3, 7, 0, 5]);
    let list = pool.get_probability_list();
    let sum: f64 = list.iter().map(|(n, d)| *n as f64 / *d as f64).sum();
    assert!((sum - 1.0).abs() < 1e-12);
}

#[test]
fn select_walks_cumulative_ranges() {
    let pool = pool_of(&[1, 1, 2]);
    assert_eq!(pool.select(0), 0);
    assert_eq!(pool.select(1), 1);
    assert_eq!(pool.select(2), 2);
    assert_eq!(pool.select(3), 2);
    assert_eq!(pool.select(4), 2);
    let skewed = pool_of(&[0, 5, 0, 1]);
    assert_eq!(skewed.select(0), 1);
    assert_eq!(skewed.select(4), 1);
    assert_eq!(skewed.select(5), 3);
}

#[test]
fn weighted_draws_converge() {
    let pool = pool_of(&[1, 1, 2]);
    let mut rng = RNG::new(7);
    let mut third = 0u32;
    for _ in 0..100_000 {
        if *pool.fetch_item(&mut rng) == 2 {
            third += 1;
        }
    }
    let freq = third as f64 / 100_000.0;
    assert!((freq - 0.5).abs() < 0.02, "frequency {}", freq);
}

#[test]
fn zero_weight_is_never_drawn() {
    let pool = pool_of(&[0, 3, 0]);
    let mut rng = RNG::new(11);
    for _ in 0..1000 {
        assert_eq!(*pool.fetch_item(&mut rng), 1);
    }
}

#[test]
fn all_zero_weights_fall_back_to_last() {
    let pool = pool_of(&[0, 0, 0]);
    let mut rng = RNG::new(3);
    assert_eq!(*pool.fetch_item(&mut rng), 2);
}

#[test]
fn average_probability_gives_weight_one() {
    let pool = Pool::from_items_with_average_probability(vec!['a', 'b', 'c']);
    assert_eq!(pool.get_probability_list(), vec![(1, 3), (1, 3), (1, 3)]);
    let mut pushed = Pool::new();
    pushed.push(Weight("x", 2));
    pushed.push(Weight("y", 6));
    assert_eq!(pushed.get_probability_list(), vec![(2, 8), (6, 8)]);
}

#[test]
fn seeded_generators_repeat() {
    let mut a = RNG::new(42);
    let mut b = RNG::new(42);
    assert_eq!(a.seed(), 42);
    for _ in 0..20 {
        assert_eq!(a.random_range_i64(-5, 5), b.random_range_i64(-5, 5));
    }
    for _ in 0..100 {
        let v = a.random_range_i64(-3, 4);
        assert!((-3..=4).contains(&v));
        assert!(a.random_below(6) < 6);
    }
    assert!(!a.random_val_boolean(0, 10));
    assert!(a.random_val_boolean(10, 10));
    assert_eq!(RNG::random_boolean_times(5, 3).0, 3);
    assert_eq!(RNG::random_boolean_times(5, 3), RNG::random_boolean_times(5, 3));
}

#[test]
fn range_draws_cover_the_range() {
    let mut rng = RNG::new(8);
    let mut seen = [false; 4];
    for _ in 0..400 {
        let v = rng.random_range_i64(3, 6);
        seen[(v - 3) as usize] = true;
    }
    assert!(seen.iter().all(|s| *s));
    let mut low = [false; 3];
    for _ in 0..300 {
        low[rng.random_below(3) as usize] = true;
    }
    assert!(low.iter().all(|s| *s));
}
