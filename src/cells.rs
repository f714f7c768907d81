use crate::geometry::Point;
use std::collections::HashMap;
use vstd::prelude::*;

verus! {

/// Which tile owns each occupied cell: a map from cells to tile ids, kept as one row
/// map per x coordinate.
pub struct CellIndex {
    rows: HashMap<i64, HashMap<i64, u64>>,
}

impl View for CellIndex {
    type V = Map<Point, u64>;

    closed spec fn view(&self) -> Map<Point, u64> {
        Map::new(
            |p: Point| self.rows@.contains_key(p.0) && self.rows@[p.0]@.contains_key(p.1),
            |p: Point| self.rows@[p.0]@[p.1],
        )
    }
}

impl CellIndex {
    /// An index with no cell.
    pub fn new() -> (r: CellIndex)
        ensures
            r@ == Map::<Point, u64>::empty(),
    {
        let r = CellIndex { rows: HashMap::new() };
        assert(r@ =~= Map::<Point, u64>::empty());
        r
    }

    /// The id of the tile that owns `p`, if any.
    pub fn get(&self, p: Point) -> (r: Option<u64>)
        ensures
            r == (if self@.contains_key(p) {
                Some(self@[p])
            } else {
                None
            }),
    {
        match self.rows.get(&p.0) {
            Some(row) => match row.get(&p.1) {
                Some(id) => Some(*id),
                None => None,
            },
            None => None,
        }
    }

    /// Records that `p` belongs to the tile `id`.
    pub fn insert(&mut self, p: Point, id: u64)
        ensures
            final(self)@ == old(self)@.insert(p, id),
    {
        let taken = self.rows.remove(&p.0);
        let mut row = match taken {
            Some(row) => row,
            None => HashMap::new(),
        };
        row.insert(p.1, id);
        self.rows.insert(p.0, row);
        assert(self@ =~= old(self)@.insert(p, id));
    }

    /// Forgets every cell.
    pub fn clear(&mut self)
        ensures
            final(self)@ == Map::<Point, u64>::empty(),
    {
        self.rows.clear();
        assert(self@ =~= Map::<Point, u64>::empty());
    }
}

} // verus!
