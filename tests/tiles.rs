use que::geometry::Point;
use que::tile::{Tile, TileType};

fn tile(shape: Vec<Point>) -> Tile {
    Tile { id: 1, adjacent: vec![], shape }
}

#[test]
fn single_cell_classifies_as_started() {
    assert_eq!(tile(vec![Point(0, 0)]).to_tile_type(), TileType::Started);
}

#[test]
fn one_row_classifies_as_obstacle() {
    let t = tile(vec![Point(0, 0), Point(1, 0), Point(2, 0)]);
    assert_eq!(t.to_tile_type(), TileType::Obstacle);
}

#[test]
fn one_column_classifies_as_obstacle() {
    let t = tile(vec![Point(4, -1), Point(4, 0), Point(4, 1)]);
    assert_eq!(t.to_tile_type(), TileType::Obstacle);
}

#[test]
fn bent_shape_classifies_as_room() {
    let t = tile(vec![Point(0, 0), Point(1, 0), Point(1, 1)]);
    assert_eq!(t.to_tile_type(), TileType::Room);
}

#[test]
fn bounding_box_spans_all_cells() {
    let t = tile(vec![Point(2, 5), Point(-1, 3), Point(0, 7)]);
    assert_eq!(t.bounding_box(), Some((Point(-1, 3), Point(2, 7))));
    assert_eq!(tile(vec![]).bounding_box(), None);
}

#[test]
fn duplicate_copies_every_field() {
    let t = Tile { id: 9, adjacent: vec![3, 4], shape: vec![Point(1, 1), Point(1, 2)] };
    let d = t.duplicate();
    assert_eq!(d.id, 9);
    assert_eq!(d.adjacent, vec![3, 4]);
    assert_eq!(d.shape, vec![Point(1, 1), Point(1, 2)]);
}
