use que::geometry::Point;
use que::regions::Regions;
use que::rng::RNG;
use que::status::{initial_status, ChangeRegionStatusEvent, Exploration, RegionStatus};
use que::tile::{Tile, TileType};

fn chain() -> Regions {
    let mut regions = Regions::default();
    let mut rng = RNG::new(0);
    for (id, x) in [(1u64, 0i64), (2, 1), (3, 2)] {
        let mut t = Tile { id, adjacent: vec![], shape: vec![Point(x, 0)] };
        assert!(regions.adjust_tile(&mut t, None, &mut rng));
    }
    regions
}

#[test]
fn flood_reveals_one_ring_per_visit() {
    let regions = chain();
    assert!(!regions.tiles[&1].adjacent.contains(&3));
    let mut exploration = Exploration::new(&regions);
    exploration.statuses.insert(1, RegionStatus::Found);
    exploration.statuses.insert(2, RegionStatus::Mist);
    exploration.statuses.insert(3, RegionStatus::Mist);

    let events = exploration.visit(&regions, 1);
    assert_eq!(
        events,
        vec![
            ChangeRegionStatusEvent(1, RegionStatus::Visited),
            ChangeRegionStatusEvent(2, RegionStatus::Found)
        ]
    );
    assert_eq!(exploration.status(1), Some(RegionStatus::Visited));
    assert_eq!(exploration.status(2), Some(RegionStatus::Found));
    assert_eq!(exploration.status(3), Some(RegionStatus::Mist));

    let events = exploration.visit(&regions, 2);
    assert_eq!(
        events,
        vec![
            ChangeRegionStatusEvent(2, RegionStatus::Visited),
            ChangeRegionStatusEvent(3, RegionStatus::Found)
        ]
    );
    assert_eq!(exploration.status(2), Some(RegionStatus::Visited));
    assert_eq!(exploration.status(3), Some(RegionStatus::Found));
}

#[test]
fn visiting_a_hidden_or_visited_tile_changes_nothing() {
    let regions = chain();
    let mut exploration = Exploration::new(&regions);
    exploration.statuses.insert(1, RegionStatus::Found);
    exploration.statuses.insert(2, RegionStatus::Mist);
    exploration.statuses.insert(3, RegionStatus::Mist);
    assert!(exploration.visit(&regions, 3).is_empty());
    assert_eq!(exploration.status(3), Some(RegionStatus::Mist));
    exploration.visit(&regions, 1);
    assert!(exploration.visit(&regions, 1).is_empty());
    assert_eq!(exploration.status(1), Some(RegionStatus::Visited));
    assert!(exploration.visit(&regions, 99).is_empty());
}

#[test]
fn initial_statuses_follow_tile_types() {
    assert_eq!(initial_status(TileType::Started), RegionStatus::Found);
    assert_eq!(initial_status(TileType::Room), RegionStatus::Mist);
    assert_eq!(initial_status(TileType::Obstacle), RegionStatus::Mist);
    let regions = chain();
    let exploration = Exploration::new(&regions);
    assert_eq!(exploration.status(1), Some(RegionStatus::Found));
    assert_eq!(exploration.status(2), Some(RegionStatus::Found));
    assert_eq!(exploration.status(4), None);
}
