use crate::geometry::Point;
use vstd::prelude::*;

verus! {

/// What a tile is, judged by its shape.
#[derive(Clone, Copy, PartialEq, Eq, Structural, Debug)]
pub enum TileType {
    /// A wall or corridor: all cells on one row or one column.
    Obstacle,
    /// Any other shape of more than one cell.
    Room,
    /// A single cell: the start tile.
    Started,
}

/// A region of the grid: its id, its cells and the ids of the tiles it touches.
#[derive(Clone, Debug)]
pub struct Tile {
    pub id: u64,
    pub adjacent: Vec<u64>,
    pub shape: Vec<Point>,
}

/// All cells share the x coordinate of the first.
pub open spec fn same_column(s: Seq<Point>) -> bool {
    forall|i: int| 0 <= i < s.len() ==> (#[trigger] s[i]).0 == s[0].0
}

/// All cells share the y coordinate of the first.
pub open spec fn same_row(s: Seq<Point>) -> bool {
    forall|i: int| 0 <= i < s.len() ==> (#[trigger] s[i]).1 == s[0].1
}

/// The kind of a tile with the cells `s` (listed once each).
pub open spec fn tile_type_of(s: Seq<Point>) -> TileType {
    if s.len() == 1 {
        TileType::Started
    } else if s.len() > 1 && (same_column(s) || same_row(s)) {
        TileType::Obstacle
    } else {
        TileType::Room
    }
}

impl Tile {
    /// A tile has at least one cell, and lists each cell and each neighbour once.
    pub open spec fn wf(&self) -> bool {
        &&& self.shape@.len() > 0
        &&& self.shape@.no_duplicates()
        &&& self.adjacent@.no_duplicates()
    }

    /// A copy of the tile, cell for cell and neighbour for neighbour.
    pub fn duplicate(&self) -> (r: Tile)
        ensures
            r.id == self.id,
            r.shape@ == self.shape@,
            r.adjacent@ == self.adjacent@,
    {
        let mut shape: Vec<Point> = Vec::new();
        let mut i: usize = 0;
        while i < self.shape.len()
            invariant
                0 <= i <= self.shape@.len(),
                shape@ == self.shape@.subrange(0, i as int),
            decreases self.shape@.len() - i,
        {
            shape.push(self.shape[i]);
            i = i + 1;
        }
        let mut adjacent: Vec<u64> = Vec::new();
        let mut j: usize = 0;
        while j < self.adjacent.len()
            invariant
                0 <= j <= self.adjacent@.len(),
                adjacent@ == self.adjacent@.subrange(0, j as int),
            decreases self.adjacent@.len() - j,
        {
            adjacent.push(self.adjacent[j]);
            j = j + 1;
        }
        assert(shape@ == self.shape@.subrange(0, self.shape@.len() as int));
        assert(adjacent@ == self.adjacent@.subrange(0, self.adjacent@.len() as int));
        Tile { id: self.id, adjacent, shape }
    }

    /// Classifies the tile: one cell is the start, one row or one column is an
    /// obstacle, anything else is a room.
    pub fn to_tile_type(&self) -> (r: TileType)
        ensures
            r == tile_type_of(self.shape@),
    {
        let n = self.shape.len();
        if n == 1 {
            return TileType::Started;
        }
        if n == 0 {
            return TileType::Room;
        }
        let first = self.shape[0];
        let mut column = true;
        let mut row = true;
        let mut i: usize = 0;
        while i < n
            invariant
                n == self.shape@.len(),
                first == self.shape@[0],
                0 <= i <= n,
                column <==> forall|j: int| 0 <= j < i ==> (#[trigger] self.shape@[j]).0 == first.0,
                row <==> forall|j: int| 0 <= j < i ==> (#[trigger] self.shape@[j]).1 == first.1,
            decreases n - i,
        {
            let p = self.shape[i];
            column = column && p.0 == first.0;
            row = row && p.1 == first.1;
            i = i + 1;
        }
        if column || row {
            TileType::Obstacle
        } else {
            TileType::Room
        }
    }

    /// The smallest box holding every cell, as its lowest and highest corner; `None`
    /// for a tile without cells.
    pub fn bounding_box(&self) -> (r: Option<(Point, Point)>)
        ensures
            self.shape@.len() == 0 <==> r is None,
            r matches Some((lo, hi)) ==> {
                &&& forall|i: int|
                    0 <= i < self.shape@.len() ==> lo.0 <= (#[trigger] self.shape@[i]).0 <= hi.0
                        && lo.1 <= self.shape@[i].1 <= hi.1
                &&& exists|i: int| 0 <= i < self.shape@.len() && (#[trigger] self.shape@[i]).0 == lo.0
                &&& exists|i: int| 0 <= i < self.shape@.len() && (#[trigger] self.shape@[i]).0 == hi.0
                &&& exists|i: int| 0 <= i < self.shape@.len() && (#[trigger] self.shape@[i]).1 == lo.1
                &&& exists|i: int| 0 <= i < self.shape@.len() && (#[trigger] self.shape@[i]).1 == hi.1
            },
    {
        let n = self.shape.len();
        if n == 0 {
            return None;
        }
        let first = self.shape[0];
        let mut lo = first;
        let mut hi = first;
        let mut i: usize = 1;
        while i < n
            invariant
                n == self.shape@.len(),
                1 <= i <= n,
                forall|j: int|
                    0 <= j < i ==> lo.0 <= (#[trigger] self.shape@[j]).0 <= hi.0 && lo.1
                        <= self.shape@[j].1 <= hi.1,
                exists|j: int| 0 <= j < i && (#[trigger] self.shape@[j]).0 == lo.0,
                exists|j: int| 0 <= j < i && (#[trigger] self.shape@[j]).0 == hi.0,
                exists|j: int| 0 <= j < i && (#[trigger] self.shape@[j]).1 == lo.1,
                exists|j: int| 0 <= j < i && (#[trigger] self.shape@[j]).1 == hi.1,
            decreases n - i,
        {
            let p = self.shape[i];
            if p.0 < lo.0 {
                lo = Point(p.0, lo.1);
            }
            if p.0 > hi.0 {
                hi = Point(p.0, hi.1);
            }
            if p.1 < lo.1 {
                lo = Point(lo.0, p.1);
            }
            if p.1 > hi.1 {
                hi = Point(hi.0, p.1);
            }
            i = i + 1;
        }
        Some((lo, hi))
    }
}

} // verus!
