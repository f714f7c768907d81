use que::geometry::{Axis, AxisDirection, Direction, PlaneOrientation, Point};
use que::pool::{Pool, Weight};
use que::regions::Regions;
use que::rng::RNG;
use que::tile::Tile;

fn single(id: u64, p: Point) -> Tile {
    Tile { id, adjacent: vec![], shape: vec![p] }
}

fn sorted(mut v: Vec<u64>) -> Vec<u64> {
    v.sort();
    v
}

#[test]
fn make_tile_assigns_ids_and_merges_revisited_cells() {
    let mut regions = Regions::default();
    let t = regions.make_tile(Point(3, 4), &[PlaneOrientation::Up, PlaneOrientation::Down]);
    assert_eq!(t.id, 1);
    assert_eq!(regions.inc_id, 1);
    assert!(t.adjacent.is_empty());
    assert_eq!(t.shape, vec![Point(3, 4), Point(3, 5)]);
    assert!(regions.tiles.is_empty());
    let u = regions.make_tile(Point(0, 0), &[]);
    assert_eq!(u.id, 2);
}

#[test]
fn placement_records_symmetric_adjacency() {
    let mut regions = Regions::default();
    let mut rng = RNG::new(1);
    let mut a = single(1, Point(0, 0));
    let mut b = single(2, Point(1, 0));
    let mut c = single(3, Point(5, 5));
    assert!(regions.adjust_tile(&mut a, None, &mut rng));
    assert!(regions.adjust_tile(&mut b, None, &mut rng));
    assert!(regions.adjust_tile(&mut c, None, &mut rng));
    assert_eq!(b.adjacent, vec![1]);
    assert_eq!(regions.tiles[&1].adjacent, vec![2]);
    assert_eq!(regions.tiles[&2].adjacent, vec![1]);
    assert!(regions.tiles[&3].adjacent.is_empty());
    assert_eq!(regions.tile_map.get(Point(1, 0)), Some(2));
    assert_eq!(regions.tile_map.get(Point(2, 0)), None);
}

#[test]
fn fixed_direction_nudges_past_occupied_cells() {
    let mut regions = Regions::default();
    let mut rng = RNG::new(1);
    let mut a = Tile { id: 1, adjacent: vec![], shape: vec![Point(0, 0), Point(1, 0)] };
    assert!(regions.adjust_tile(&mut a, None, &mut rng));
    let mut b = single(2, Point(0, 0));
    let right = AxisDirection(Axis::X, Direction::Just);
    assert!(regions.adjust_tile(&mut b, Some(right), &mut rng));
    assert_eq!(b.shape, vec![Point(2, 0)]);
    assert_eq!(b.adjacent, vec![1]);
    assert_eq!(regions.tiles[&1].adjacent, vec![2]);
}

#[test]
fn placement_outside_scope_is_dropped() {
    let mut regions = Regions::default();
    regions.scope = (2, 2);
    let mut rng = RNG::new(1);
    let mut a = single(1, Point(1, 1));
    assert!(regions.adjust_tile(&mut a, None, &mut rng));
    let mut b = single(2, Point(1, 1));
    let up = AxisDirection(Axis::Y, Direction::Just);
    assert!(!regions.adjust_tile(&mut b, Some(up), &mut rng));
    assert_eq!(regions.tiles.len(), 1);
    assert_eq!(regions.tile_map.get(Point(1, 2)), None);
    let mut far = single(3, Point(5, 0));
    assert!(!regions.adjust_tile(&mut far, None, &mut rng));
    assert!(!regions.tiles.contains_key(&3));
}

#[test]
fn second_adjust_of_placed_tile_is_refused() {
    let mut regions = Regions::default();
    let mut rng = RNG::new(1);
    let mut a = single(1, Point(0, 0));
    let mut b = single(2, Point(0, 1));
    assert!(regions.adjust_tile(&mut a, None, &mut rng));
    assert!(regions.adjust_tile(&mut b, None, &mut rng));
    let tiles_before = regions.tiles.len();
    let mut again = b.clone();
    assert!(!regions.adjust_tile(&mut again, None, &mut rng));
    assert_eq!(again.shape, b.shape);
    assert_eq!(again.adjacent, b.adjacent);
    assert_eq!(regions.tiles.len(), tiles_before);
    assert_eq!(regions.tile_map.get(Point(0, 1)), Some(2));
    assert_eq!(regions.tiles[&1].adjacent, vec![2]);
}

fn step_pool() -> Pool<Vec<PlaneOrientation>> {
    let (up, down, left, right) = (
        PlaneOrientation::Up,
        PlaneOrientation::Down,
        PlaneOrientation::Left,
        PlaneOrientation::Right,
    );
    Pool::from_items(vec![
        Weight(vec![up, up], 2),
        Weight(vec![right, up, right], 1),
        Weight(vec![down, right, right, up], 1),
        Weight(vec![left], 3),
    ])
}

#[test]
fn generated_regions_keep_their_invariants() {
    let mut regions = Regions::default();
    regions.scope = (8, 8);
    let mut rng = RNG::new(2024);
    regions.random_generate_tiles(60, &step_pool(), &mut rng);
    assert_eq!(regions.inc_id, 61);
    assert!(regions.tiles.len() <= 61);
    assert!(regions.tiles.contains_key(&1));
    assert_eq!(regions.tiles[&1].shape, vec![Point(0, 0)]);
    let ids = sorted(regions.tile_ids());
    assert_eq!(ids, sorted(regions.tiles.keys().copied().collect()));
    for (a, ta) in regions.tiles.iter() {
        assert_eq!(ta.id, *a);
        for p in ta.shape.iter() {
            assert!(p.0.abs() < 8 && p.1.abs() < 8);
            assert_eq!(regions.tile_map.get(*p), Some(*a));
            for (b, tb) in regions.tiles.iter() {
                if a != b {
                    assert!(!tb.shape.contains(p));
                }
            }
        }
        for b in ta.adjacent.iter() {
            assert!(regions.tiles[b].adjacent.contains(a));
        }
    }
}

#[test]
fn clear_forgets_tiles_but_keeps_scope() {
    let mut regions = Regions::default();
    regions.scope = (6, 6);
    let mut rng = RNG::new(5);
    regions.random_generate_tiles(10, &step_pool(), &mut rng);
    regions.clear();
    assert!(regions.tiles.is_empty());
    assert_eq!(regions.tile_map.get(Point(0, 0)), None);
    assert_eq!(regions.scope, (6, 6));
    assert_eq!(regions.inc_id, 11);
}
