use crate::cells::CellIndex;
use crate::geometry::{
    dx, dy, in_scope_spec, neighbours, offset, step_of, walk, within,
    AxisDirection, PlaneOrientation, Point,
};
use crate::pool::Pool;
use crate::rng::RNG;
use crate::tile::Tile;
use std::collections::HashMap;
use vstd::std_specs::hash::spec_keys_iter;
use vstd::std_specs::iter::IteratorSpec;
use vstd::prelude::*;

verus! {

/// How many times a colliding tile is moved by one cell before its placement is
/// given up.
pub const NUDGE_LIMIT: u64 = 4096;

/// The largest absolute coordinate of a cell handed to the placement: far enough from
/// the ends of `i64` that no number of nudges can overflow.
pub const COORDINATE_LIMIT: i64 = 0x1000_0000_0000_0000;

/// The largest half-extent of a scope, and the longest step sequence, that the random
/// generation accepts.
pub const SCOPE_LIMIT: i64 = 0x0800_0000_0000_0000;

/// Some cell of `s` lies next to some cell of `t`.
pub open spec fn touching(s: Seq<Point>, t: Seq<Point>) -> bool {
    exists|i: int, j: int| 0 <= i < s.len() && 0 <= j < t.len() && #[trigger] neighbours(s[i], t[j])
}

/// The cells `s`, each moved by `(a, b)`.
pub open spec fn shift(s: Seq<Point>, a: int, b: int) -> Seq<Point> {
    s.map_values(|p: Point| offset(p, a, b))
}

/// The cells `s` after `k` moves in direction `d`.
pub open spec fn shift_n(s: Seq<Point>, d: AxisDirection, k: int) -> Seq<Point> {
    shift(s, k * dx(d), k * dy(d))
}

/// Some cell of `s` is already owned in `m`.
pub open spec fn collides(m: Map<Point, u64>, s: Seq<Point>) -> bool {
    exists|i: int| 0 <= i < s.len() && #[trigger] m.contains_key(s[i])
}

/// Every cell of `s` lies in the scope.
pub open spec fn all_in_scope(s: Seq<Point>, scope: (i64, i64)) -> bool {
    forall|i: int| 0 <= i < s.len() ==> #[trigger] in_scope_spec(s[i], scope)
}

/// Every cell of `s` lies within `bound` of the origin on both axes.
pub open spec fn all_within(s: Seq<Point>, bound: int) -> bool {
    forall|i: int| 0 <= i < s.len() ==> #[trigger] within(s[i], bound)
}

/// After `k` moves in direction `d`, and after none of fewer moves, no cell of `s` is
/// owned in `m`.
pub open spec fn first_free(m: Map<Point, u64>, s: Seq<Point>, d: AxisDirection, k: int) -> bool {
    &&& !collides(m, shift_n(s, d, k))
    &&& forall|j: int| 0 <= j < k ==> #[trigger] collides(m, shift_n(s, d, j))
}

/// Moving `s` in direction `d` stops after `k` moves: every position before it
/// collides in `m`, and it collides itself only when the nudge budget is spent.
pub open spec fn nudged_to(m: Map<Point, u64>, s: Seq<Point>, d: AxisDirection, k: int) -> bool {
    &&& forall|j: int| 0 <= j < k ==> #[trigger] collides(m, shift_n(s, d, j))
    &&& collides(m, shift_n(s, d, k)) ==> k == NUDGE_LIMIT
}

/// The owner of a cell next to `p` in `m` is `x`.
pub open spec fn around(m: Map<Point, u64>, p: Point, x: u64) -> bool {
    ||| m.contains_key(offset(p, 0, 1)) && m[offset(p, 0, 1)] == x
    ||| m.contains_key(offset(p, 0, -1)) && m[offset(p, 0, -1)] == x
    ||| m.contains_key(offset(p, -1, 0)) && m[offset(p, -1, 0)] == x
    ||| m.contains_key(offset(p, 1, 0)) && m[offset(p, 1, 0)] == x
}

/// The region manager: every placed tile by id, and the owner of every occupied cell.
pub struct Regions {
    /// The last id handed out.
    pub inc_id: u64,
    /// The half-extents of the box that every placed cell lies in.
    pub scope: (i64, i64),
    pub tile_map: CellIndex,
    pub tiles: HashMap<u64, Tile>,
}

/// `after` is `before` with the tile `t` placed: each cell of `t` owned by its id, `t`
/// stored under its id with every placed tile it touches as neighbour, and `t` added to
/// the neighbours of each of those.
pub open spec fn placed(before: Regions, after: Regions, t: Tile) -> bool {
    &&& after.inc_id == before.inc_id
    &&& after.scope == before.scope
    &&& forall|p: Point| #[trigger]
        after.tile_map@.contains_key(p) <==> before.tile_map@.contains_key(p) || t.shape@.contains(p)
    &&& forall|p: Point| #[trigger]
        after.tile_map@.contains_key(p) ==> after.tile_map@[p] == (if t.shape@.contains(p) {
            t.id
        } else {
            before.tile_map@[p]
        })
    &&& after.tiles@.dom() == before.tiles@.dom().insert(t.id)
    &&& after.tiles@[t.id].id == t.id
    &&& after.tiles@[t.id].shape@ == t.shape@
    &&& after.tiles@[t.id].adjacent@ == t.adjacent@
    &&& forall|x: u64| #[trigger]
        t.adjacent@.contains(x) <==> before.tiles@.contains_key(x) && touching(
            t.shape@,
            before.tiles@[x].shape@,
        )
    &&& forall|id: u64| #[trigger]
        before.tiles@.contains_key(id) ==> {
            &&& after.tiles@[id].id == before.tiles@[id].id
            &&& after.tiles@[id].shape@ == before.tiles@[id].shape@
            &&& after.tiles@[id].adjacent@.no_duplicates()
            &&& forall|x: u64| #[trigger]
                after.tiles@[id].adjacent@.contains(x) <==> before.tiles@[id].adjacent@.contains(x)
                    || (x == t.id && touching(before.tiles@[id].shape@, t.shape@))
        }
}

/// `x` is one of the first `c` elements of `s`.
spec fn occurs_before<A>(s: Seq<A>, c: int, x: A) -> bool {
    exists|a: int| 0 <= a < c && s[a] == x
}

impl Default for Regions {
    /// No tile, the id counter at zero, and the scope `(32, 32)`.
    fn default() -> (r: Self)
        ensures
            r.wf(),
            r.inc_id == 0,
            r.scope == (32i64, 32i64),
            r.tiles@ == Map::<u64, Tile>::empty(),
            r.tile_map@ == Map::<Point, u64>::empty(),
    {
        Regions { inc_id: 0, scope: (32, 32), tile_map: CellIndex::new(), tiles: HashMap::new() }
    }
}

/// The two lists hold the same cells.
pub open spec fn same_cells(s: Seq<Point>, t: Seq<Point>) -> bool {
    forall|p: Point| #![trigger s.contains(p)] #![trigger t.contains(p)] s.contains(p) <==> t.contains(p)
}

/// `s` holds the cells of the walk `steps` moved somewhere, each once or more.
pub open spec fn walk_shaped(s: Seq<Point>, steps: Seq<PlaneOrientation>) -> bool {
    exists|a: int, b: int| #[trigger] same_cells(s, shift(walk(steps), a, b))
}

/// `after` keeps what `before` placed: the same scope, every tile with its cells and
/// at least its neighbours, and the owner of every occupied cell.
pub open spec fn keeps(before: Regions, after: Regions) -> bool {
    &&& after.scope == before.scope
    &&& forall|id: u64| #[trigger]
        before.tiles@.contains_key(id) ==> {
            &&& after.tiles@.contains_key(id)
            &&& after.tiles@[id].shape@ == before.tiles@[id].shape@
            &&& forall|x: u64| #[trigger]
                before.tiles@[id].adjacent@.contains(x) ==> after.tiles@[id].adjacent@.contains(x)
        }
    &&& forall|p: Point| #[trigger]
        before.tile_map@.contains_key(p) ==> after.tile_map@.contains_key(p)
            && after.tile_map@[p] == before.tile_map@[p]
}

/// Keeping is transitive.
proof fn lemma_keeps_trans(a: Regions, b: Regions, c: Regions)
    requires
        keeps(a, b),
        keeps(b, c),
    ensures
        keeps(a, c),
{
    assert forall|id: u64| #[trigger] a.tiles@.contains_key(id) implies {
        &&& c.tiles@.contains_key(id)
        &&& c.tiles@[id].shape@ == a.tiles@[id].shape@
        &&& forall|x: u64| #[trigger]
            a.tiles@[id].adjacent@.contains(x) ==> c.tiles@[id].adjacent@.contains(x)
    } by {
        assert(b.tiles@.contains_key(id));
        assert forall|x: u64| #[trigger] a.tiles@[id].adjacent@.contains(x) implies c.tiles@[id].adjacent@.contains(
            x,
        ) by {
            assert(b.tiles@[id].adjacent@.contains(x));
        }
    }
    assert forall|p: Point| #[trigger] a.tile_map@.contains_key(p) implies c.tile_map@.contains_key(p)
        && c.tile_map@[p] == a.tile_map@[p] by {
        assert(b.tile_map@.contains_key(p));
    }
}

/// Moving two lists of the same cells by the same amount gives the same cells.
proof fn lemma_shift_same_cells(s: Seq<Point>, t: Seq<Point>, a: int, b: int)
    requires
        same_cells(s, t),
    ensures
        same_cells(shift(s, a, b), shift(t, a, b)),
{
    let ss = shift(s, a, b);
    let tt = shift(t, a, b);
    assert forall|q: Point| #[trigger] ss.contains(q) <==> tt.contains(q) by {
        if ss.contains(q) {
            let i = choose|i: int| 0 <= i < ss.len() && ss[i] == q;
            assert(s.contains(s[i]));
            let j = choose|j: int| 0 <= j < t.len() && t[j] == s[i];
            assert(tt[j] == q);
        }
        if tt.contains(q) {
            let j = choose|j: int| 0 <= j < tt.len() && tt[j] == q;
            assert(t.contains(t[j]));
            let i = choose|i: int| 0 <= i < s.len() && s[i] == t[j];
            assert(ss[i] == q);
        }
    }
}

/// Neighbouring is symmetric.
proof fn lemma_touching_symmetric(s: Seq<Point>, t: Seq<Point>)
    ensures
        touching(s, t) <==> touching(t, s),
{
    if touching(s, t) {
        let (i, j) = choose|i: int, j: int|
            0 <= i < s.len() && 0 <= j < t.len() && #[trigger] neighbours(s[i], t[j]);
        assert(neighbours(t[j], s[i]));
    }
    if touching(t, s) {
        let (i, j) = choose|i: int, j: int|
            0 <= i < t.len() && 0 <= j < s.len() && #[trigger] neighbours(t[i], s[j]);
        assert(neighbours(s[j], t[i]));
    }
}

/// Moving twice is moving by the sum, while the first move stays within `i64`.
proof fn lemma_shift_compose(s: Seq<Point>, a: int, b: int, c: int, e: int)
    requires
        forall|i: int|
            0 <= i < s.len() ==> i64::MIN <= #[trigger] s[i].0 + a <= i64::MAX && i64::MIN <= s[i].1
                + b <= i64::MAX,
    ensures
        shift(shift(s, a, b), c, e) == shift(s, a + c, b + e),
{
    assert(shift(shift(s, a, b), c, e) =~= shift(s, a + c, b + e));
}

/// Moving keeps cells apart, while the move stays within `i64`.
proof fn lemma_shift_distinct(s: Seq<Point>, a: int, b: int)
    requires
        s.no_duplicates(),
        forall|i: int|
            0 <= i < s.len() ==> i64::MIN <= #[trigger] s[i].0 + a <= i64::MAX && i64::MIN <= s[i].1
                + b <= i64::MAX,
    ensures
        shift(s, a, b).no_duplicates(),
{
    let t = shift(s, a, b);
    assert forall|i: int, j: int| 0 <= i < t.len() && 0 <= j < t.len() && i != j implies t[i]
        != t[j] by {
        assert(s[i] != s[j]);
    }
}

impl Regions {
    /// `b` is another placed tile that touches the placed tile `a`.
    pub open spec fn linked(&self, a: u64, b: u64) -> bool {
        &&& a != b
        &&& self.tiles@.contains_key(b)
        &&& touching(self.tiles@[a].shape@, self.tiles@[b].shape@)
    }

    /// The invariant of the region manager: every occupied cell is owned by a placed
    /// tile holding it, every cell of a placed tile is owned by that tile (so no two
    /// tiles share a cell), every placed cell lies in the scope, and each tile's
    /// neighbours are exactly the other placed tiles it touches.
    pub open spec fn wf(&self) -> bool {
        &&& forall|p: Point| #[trigger]
            self.tile_map@.contains_key(p) ==> self.tiles@.contains_key(self.tile_map@[p])
                && self.tiles@[self.tile_map@[p]].shape@.contains(p)
        &&& forall|id: u64, p: Point|
            self.tiles@.contains_key(id) && #[trigger] self.tiles@[id].shape@.contains(p)
                ==> self.tile_map@.contains_key(p) && self.tile_map@[p] == id
        &&& forall|id: u64| #[trigger]
            self.tiles@.contains_key(id) ==> self.tiles@[id].id == id && self.tiles@[id].wf()
        &&& forall|id: u64, p: Point|
            self.tiles@.contains_key(id) && #[trigger] self.tiles@[id].shape@.contains(p)
                ==> in_scope_spec(p, self.scope)
        &&& forall|a: u64, b: u64|
            #![trigger self.tiles@[a].adjacent@.contains(b)]
            #![trigger self.linked(a, b)]
            self.tiles@.contains_key(a) ==> (self.tiles@[a].adjacent@.contains(b) <==> self.linked(
                a,
                b,
            ))
    }
}

/// In a well-formed region manager, adjacency is symmetric: `b` lists `a` exactly when
/// `a` lists `b`.
pub proof fn lemma_adjacency_symmetric(r: Regions, a: u64, b: u64)
    requires
        r.wf(),
        r.tiles@.contains_key(a),
        r.tiles@.contains_key(b),
    ensures
        r.tiles@[a].adjacent@.contains(b) <==> r.tiles@[b].adjacent@.contains(a),
{
    lemma_touching_symmetric(r.tiles@[a].shape@, r.tiles@[b].shape@);
    assert(r.linked(a, b) <==> r.linked(b, a));
}

/// In a well-formed region manager, every occupied cell belongs to exactly one placed
/// tile: the one it is indexed to.
pub proof fn lemma_cell_has_one_owner(r: Regions, p: Point)
    requires
        r.wf(),
        r.tile_map@.contains_key(p),
    ensures
        r.tiles@.contains_key(r.tile_map@[p]),
        r.tiles@[r.tile_map@[p]].shape@.contains(p),
        forall|id: u64|
            r.tiles@.contains_key(id) && #[trigger] r.tiles@[id].shape@.contains(p) ==> id
                == r.tile_map@[p],
{
}

/// In a well-formed region manager, an id is placed exactly when some occupied cell is
/// indexed to it: the placement guard of `adjust_tile` sees the same ids as a search
/// of the cell index would.
pub proof fn lemma_placed_ids_are_indexed(r: Regions, id: u64)
    requires
        r.wf(),
    ensures
        r.tiles@.contains_key(id) <==> exists|p: Point|
            #[trigger] r.tile_map@.contains_key(p) && r.tile_map@[p] == id,
{
    if r.tiles@.contains_key(id) {
        let p = r.tiles@[id].shape@[0];
        assert(r.tiles@[id].shape@.contains(p));
        assert(r.tile_map@.contains_key(p) && r.tile_map@[p] == id);
    }
}

/// In a well-formed region manager, every cell of every placed tile lies in the scope.
pub proof fn lemma_cells_in_scope(r: Regions, id: u64, p: Point)
    requires
        r.wf(),
        r.tiles@.contains_key(id),
        r.tiles@[id].shape@.contains(p),
    ensures
        abs_lt(p.0 as int, r.scope.0 as int),
        abs_lt(p.1 as int, r.scope.1 as int),
{
}

/// `|x| < bound`.
pub open spec fn abs_lt(x: int, bound: int) -> bool {
    -bound < x < bound
}

/// A cell of `s` has a neighbour owned by `x` exactly when `x` is a placed tile that
/// `s` touches.
proof fn lemma_around_touching(r: Regions, s: Seq<Point>, x: u64)
    requires
        r.wf(),
        all_in_scope(s, r.scope),
    ensures
        (exists|a: int| 0 <= a < s.len() && #[trigger] around(r.tile_map@, s[a], x)) <==> (
        r.tiles@.contains_key(x) && touching(s, r.tiles@[x].shape@)),
{
    let m = r.tile_map@;
    if exists|a: int| 0 <= a < s.len() && #[trigger] around(m, s[a], x) {
        let a = choose|a: int| 0 <= a < s.len() && #[trigger] around(m, s[a], x);
        let p = s[a];
        assert(in_scope_spec(p, r.scope));
        let q = if m.contains_key(offset(p, 0, 1)) && m[offset(p, 0, 1)] == x {
            offset(p, 0, 1)
        } else if m.contains_key(offset(p, 0, -1)) && m[offset(p, 0, -1)] == x {
            offset(p, 0, -1)
        } else if m.contains_key(offset(p, -1, 0)) && m[offset(p, -1, 0)] == x {
            offset(p, -1, 0)
        } else {
            offset(p, 1, 0)
        };
        assert(m.contains_key(q) && m[q] == x);
        let t = r.tiles@[x].shape@;
        assert(t.contains(q));
        let j = choose|j: int| 0 <= j < t.len() && t[j] == q;
        assert(neighbours(s[a], t[j]));
    }
    if r.tiles@.contains_key(x) && touching(s, r.tiles@[x].shape@) {
        let t = r.tiles@[x].shape@;
        let (a, j) = choose|a: int, j: int|
            0 <= a < s.len() && 0 <= j < t.len() && #[trigger] neighbours(s[a], t[j]);
        let p = s[a];
        let q = t[j];
        assert(in_scope_spec(p, r.scope));
        assert(t.contains(q));
        assert(m.contains_key(q) && m[q] == x);
        assert(q == offset(p, 0, 1) || q == offset(p, 0, -1) || q == offset(p, -1, 0) || q
            == offset(p, 1, 0));
        assert(around(m, s[a], x));
    }
}

/// Placing a tile that collides with nothing and lies in the scope keeps the region
/// manager well formed.
proof fn lemma_placed_wf(before: Regions, after: Regions, t: Tile)
    requires
        before.wf(),
        t.wf(),
        !before.tiles@.contains_key(t.id),
        !collides(before.tile_map@, t.shape@),
        all_in_scope(t.shape@, before.scope),
        placed(before, after, t),
    ensures
        after.wf(),
{
    let n = t.id;
    assert forall|p: Point| #[trigger] after.tile_map@.contains_key(p) implies after.tiles@.contains_key(
        after.tile_map@[p],
    ) && after.tiles@[after.tile_map@[p]].shape@.contains(p) by {
        if !t.shape@.contains(p) {
            let o = before.tile_map@[p];
            assert(before.tiles@.contains_key(o));
            assert(o != n);
        }
    }
    assert forall|id: u64, p: Point|
        after.tiles@.contains_key(id) && #[trigger] after.tiles@[id].shape@.contains(
            p,
        ) implies after.tile_map@.contains_key(p) && after.tile_map@[p] == id by {
        if id != n {
            assert(before.tiles@.contains_key(id));
            assert(before.tiles@[id].shape@.contains(p));
            assert(before.tile_map@.contains_key(p));
            if t.shape@.contains(p) {
                let i = choose|i: int| 0 <= i < t.shape@.len() && t.shape@[i] == p;
                assert(before.tile_map@.contains_key(t.shape@[i]));
            }
        }
    }
    assert forall|id: u64| #[trigger] after.tiles@.contains_key(id) implies after.tiles@[id].id
        == id && after.tiles@[id].wf() by {
        if id != n {
            assert(before.tiles@.contains_key(id));
        }
    }
    assert forall|id: u64, p: Point|
        after.tiles@.contains_key(id) && #[trigger] after.tiles@[id].shape@.contains(
            p,
        ) implies in_scope_spec(p, after.scope) by {
        if id == n {
            let i = choose|i: int| 0 <= i < t.shape@.len() && t.shape@[i] == p;
            assert(in_scope_spec(t.shape@[i], before.scope));
        } else {
            assert(before.tiles@.contains_key(id));
            assert(before.tiles@[id].shape@.contains(p));
        }
    }
    assert forall|a: u64, b: u64| after.tiles@.contains_key(a) implies (
    #[trigger] after.tiles@[a].adjacent@.contains(b) <==> after.linked(a, b)) by {
        if a == n {
            if b != n && before.tiles@.contains_key(b) {
                assert(after.tiles@[b].shape@ == before.tiles@[b].shape@);
            }
        } else {
            assert(before.tiles@.contains_key(a));
            if b == n {
                assert(!before.tiles@[a].adjacent@.contains(n)) by {
                    if before.tiles@[a].adjacent@.contains(n) {
                        assert(before.linked(a, n));
                    }
                }
            } else {
                assert(before.tiles@[a].adjacent@.contains(b) <==> before.linked(a, b));
                if before.tiles@.contains_key(b) {
                    assert(after.tiles@[b].shape@ == before.tiles@[b].shape@);
                }
            }
        }
    }
}

/// The cells of the walk `steps` started at `pos`.
pub open spec fn walk_from(steps: Seq<PlaneOrientation>, pos: Point) -> Seq<Point> {
    walk(steps).map_values(|q: Point| offset(q, pos.0 as int, pos.1 as int))
}

/// Whether `v` holds `p`.
fn holds(v: &Vec<Point>, p: Point) -> (r: bool)
    ensures
        r == v@.contains(p),
{
    let mut i: usize = 0;
    while i < v.len()
        invariant
            0 <= i <= v@.len(),
            forall|j: int| 0 <= j < i ==> v@[j] != p,
        decreases v@.len() - i,
    {
        if v[i] == p {
            return true;
        }
        i = i + 1;
    }
    false
}

/// Whether `v` lists `x`.
fn lists(v: &Vec<u64>, x: u64) -> (r: bool)
    ensures
        r == v@.contains(x),
{
    let mut i: usize = 0;
    while i < v.len()
        invariant
            0 <= i <= v@.len(),
            forall|j: int| 0 <= j < i ==> v@[j] != x,
        decreases v@.len() - i,
    {
        if v[i] == x {
            return true;
        }
        i = i + 1;
    }
    false
}

/// The cells `shape`, each one unit move away in direction `d`.
fn moved_shape(shape: &Vec<Point>, d: AxisDirection) -> (r: Vec<Point>)
    requires
        forall|i: int|
            0 <= i < shape@.len() ==> i64::MIN < (#[trigger] shape@[i]).0 < i64::MAX && i64::MIN
                < shape@[i].1 < i64::MAX,
    ensures
        r@ == shift(shape@, dx(d), dy(d)),
{
    let mut r: Vec<Point> = Vec::new();
    let mut i: usize = 0;
    while i < shape.len()
        invariant
            0 <= i <= shape@.len(),
            forall|j: int|
                0 <= j < shape@.len() ==> i64::MIN < (#[trigger] shape@[j]).0 < i64::MAX
                    && i64::MIN < shape@[j].1 < i64::MAX,
            r@.len() == i,
            forall|j: int| 0 <= j < i ==> #[trigger] r@[j] == step_of(shape@[j], d),
        decreases shape@.len() - i,
    {
        r.push(shape[i].step(d));
        i = i + 1;
    }
    assert(r@ =~= shift(shape@, dx(d), dy(d)));
    r
}

impl Regions {
    /// Whether some cell of `shape` is owned already.
    fn collides_with(&self, shape: &Vec<Point>) -> (r: bool)
        ensures
            r == collides(self.tile_map@, shape@),
    {
        let mut i: usize = 0;
        while i < shape.len()
            invariant
                0 <= i <= shape@.len(),
                forall|j: int| 0 <= j < i ==> !self.tile_map@.contains_key(#[trigger] shape@[j]),
            decreases shape@.len() - i,
        {
            if self.tile_map.get(shape[i]).is_some() {
                return true;
            }
            i = i + 1;
        }
        false
    }

    /// Whether every cell of `shape` lies in the scope.
    fn fits_scope(&self, shape: &Vec<Point>) -> (r: bool)
        ensures
            r == all_in_scope(shape@, self.scope),
    {
        let mut i: usize = 0;
        while i < shape.len()
            invariant
                0 <= i <= shape@.len(),
                forall|j: int| 0 <= j < i ==> #[trigger] in_scope_spec(shape@[j], self.scope),
            decreases shape@.len() - i,
        {
            if !shape[i].in_scope(self.scope) {
                return false;
            }
            i = i + 1;
        }
        true
    }

    /// Makes an unplaced tile under the next id: the cells of the walk `steps` started at
    /// `pos`, each once, and no neighbours. Only the id counter changes.
    pub fn make_tile(&mut self, pos: Point, steps: &[PlaneOrientation]) -> (r: Tile)
        requires
            old(self).inc_id < u64::MAX,
            steps@.len() < COORDINATE_LIMIT,
            within(pos, COORDINATE_LIMIT - steps@.len()),
        ensures
            final(self).inc_id == old(self).inc_id + 1,
            final(self).scope == old(self).scope,
            final(self).tile_map@ == old(self).tile_map@,
            final(self).tiles@ == old(self).tiles@,
            old(self).wf() ==> final(self).wf(),
            r.id == final(self).inc_id,
            r.adjacent@.len() == 0,
            r.shape@.len() > 0,
            r.shape@.no_duplicates(),
            forall|p: Point| #[trigger] r.shape@.contains(p) <==> walk_from(steps@, pos).contains(p),
            all_within(r.shape@, COORDINATE_LIMIT as int),
            all_within(walk(steps@), steps@.len() as int),
    {
        let points = PlaneOrientation::to_points(steps);
        let ghost cells = walk_from(steps@, pos);
        let ghost bound = steps@.len() as int;
        let mut shape: Vec<Point> = Vec::new();
        let mut i: usize = 0;
        while i < points.len()
            invariant
                0 <= i <= points@.len(),
                points@ == walk(steps@),
                bound == steps@.len() < COORDINATE_LIMIT,
                within(pos, COORDINATE_LIMIT - bound),
                forall|j: int| 0 <= j < points@.len() ==> within(#[trigger] points@[j], bound),
                cells == walk_from(steps@, pos),
                cells.len() == points@.len(),
                shape@.no_duplicates(),
                all_within(shape@, COORDINATE_LIMIT as int),
                i > 0 ==> shape@.len() > 0,
                forall|p: Point| #[trigger] shape@.contains(p) <==> occurs_before(cells, i as int, p),
            decreases points@.len() - i,
        {
            assert(within(points@[i as int], bound));
            let q = points[i].offset_by(pos);
            assert(q == cells[i as int]);
            let ghost before = shape@;
            if !holds(&shape, q) {
                shape.push(q);
                proof {
                    assert forall|k: int, l: int|
                        0 <= k < shape@.len() && 0 <= l < shape@.len() && k != l implies shape@[k]
                        != shape@[l] by {
                        if k == before.len() as int {
                            assert(shape@[l] == before[l]);
                            if before[l] == q {
                                assert(before.contains(q));
                            }
                        } else if l == before.len() as int {
                            assert(shape@[k] == before[k]);
                            if before[k] == q {
                                assert(before.contains(q));
                            }
                        }
                    }
                    assert forall|p: Point| #[trigger] shape@.contains(p) <==> before.contains(p) || p
                        == q by {
                        if before.contains(p) {
                            let j = choose|j: int| 0 <= j < before.len() && before[j] == p;
                            assert(shape@[j] == p);
                        }
                        if p == q {
                            assert(shape@[before.len() as int] == p);
                        }
                    }
                }
            }
            proof {
                assert forall|p: Point| #[trigger] occurs_before(cells, i + 1, p) <==> (occurs_before(
                    cells,
                    i as int,
                    p,
                ) || p == q) by {
                    if p == q {
                        assert(cells[i as int] == p);
                    }
                    if occurs_before(cells, i + 1, p) && p != q {
                        let a = choose|a: int| 0 <= a < i + 1 && cells[a] == p;
                        assert(occurs_before(cells, i as int, p));
                    }
                    if occurs_before(cells, i as int, p) {
                        let a = choose|a: int| 0 <= a < i && cells[a] == p;
                        assert(occurs_before(cells, i + 1, p));
                    }
                }
                assert(shape@.contains(q));
            }
            i = i + 1;
        }
        proof {
            assert forall|p: Point| #[trigger] occurs_before(cells, cells.len() as int, p)
                <==> cells.contains(p) by {
            }
        }
        self.inc_id = self.inc_id + 1;
        Tile { id: self.inc_id, adjacent: Vec::new(), shape }
    }

    /// Makes a tile and tries to place it: the placed tile, or `None` when the
    /// placement was given up (the id is used up either way).
    fn make_and_adjust_tile(
        &mut self,
        pos: Point,
        steps: &[PlaneOrientation],
        axis_direction: Option<AxisDirection>,
        rng: &mut RNG,
    ) -> (r: (Option<Tile>, Ghost<Seq<Point>>))
        requires
            old(self).wf(),
            old(self).inc_id < u64::MAX,
            steps@.len() < COORDINATE_LIMIT,
            within(pos, COORDINATE_LIMIT - steps@.len()),
        ensures
            final(self).wf(),
            final(self).inc_id == old(self).inc_id + 1,
            final(self).scope == old(self).scope,
            final(rng)@.0 == old(rng)@.0,
            forall|id: u64| #[trigger]
                final(self).tiles@.contains_key(id) ==> old(self).tiles@.contains_key(id) || id
                    == final(self).inc_id,
            forall|id: u64| #[trigger]
                old(self).tiles@.contains_key(id) ==> final(self).tiles@.contains_key(id)
                    && final(self).tiles@[id].shape@ == old(self).tiles@[id].shape@,
            r.0 is Some ==> r.0->0.id == final(self).inc_id && final(self).tiles@.contains_key(r.0->0.id),
            old(self).tile_map@ == Map::<Point, u64>::empty() && steps@.len() == 0 && in_scope_spec(
                pos,
                old(self).scope,
            ) ==> r.0 is Some && final(self).tiles@[final(self).inc_id].shape@ == seq![pos],
            r.0 is None ==> final(self).tiles@ == old(self).tiles@ && final(self).tile_map@ == old(
                self,
            ).tile_map@,
            keeps(*old(self), *final(self)),
            !old(self).tiles@.contains_key((old(self).inc_id + 1) as u64) && !collides(
                old(self).tile_map@,
                walk_from(steps@, pos),
            ) ==> (r.0 is Some <==> all_in_scope(walk_from(steps@, pos), old(self).scope)),
            r.0 is Some ==> placed(
                (Regions { inc_id: (old(self).inc_id + 1) as u64, ..*old(self) }),
                *final(self),
                r.0->0,
            ),
            r.0 is Some ==> r.0->0.shape@ == r.1@,
            walk_shaped(r.1@, steps@),
            r.0 is None && !old(self).tiles@.contains_key((old(self).inc_id + 1) as u64) ==> collides(
                old(self).tile_map@,
                r.1@,
            ) || !all_in_scope(r.1@, old(self).scope),
            axis_direction is None && r.0 is None && !old(self).tiles@.contains_key(
                (old(self).inc_id + 1) as u64,
            ) && collides(old(self).tile_map@, r.1@) ==> final(rng)@.1 == old(rng)@.1 + NUDGE_LIMIT,
            axis_direction is Some ==> final(rng)@ == old(rng)@,
            axis_direction is None ==> old(rng)@.1 <= final(rng)@.1 <= old(rng)@.1 + NUDGE_LIMIT,
    {
        let mut tile = self.make_tile(pos, steps);
        let ghost made = *self;
        let ghost cells = walk_from(steps@, pos);
        proof {
            assert(collides(made.tile_map@, tile.shape@) <==> collides(made.tile_map@, cells)) by {
                if collides(made.tile_map@, tile.shape@) {
                    let i = choose|i: int|
                        0 <= i < tile.shape@.len() && #[trigger] made.tile_map@.contains_key(tile.shape@[i]);
                    assert(tile.shape@.contains(tile.shape@[i]));
                    let j = choose|j: int| 0 <= j < cells.len() && cells[j] == tile.shape@[i];
                    assert(made.tile_map@.contains_key(cells[j]));
                }
                if collides(made.tile_map@, cells) {
                    let j = choose|j: int|
                        0 <= j < cells.len() && #[trigger] made.tile_map@.contains_key(cells[j]);
                    assert(cells.contains(cells[j]));
                    assert(tile.shape@.contains(cells[j]));
                    let i = choose|i: int| 0 <= i < tile.shape@.len() && tile.shape@[i] == cells[j];
                    assert(made.tile_map@.contains_key(tile.shape@[i]));
                }
            }
            assert(all_in_scope(tile.shape@, made.scope) <==> all_in_scope(cells, made.scope)) by {
                if all_in_scope(tile.shape@, made.scope) {
                    assert forall|j: int| 0 <= j < cells.len() implies #[trigger] in_scope_spec(
                        cells[j],
                        made.scope,
                    ) by {
                        assert(cells.contains(cells[j]));
                        assert(tile.shape@.contains(cells[j]));
                        let i = choose|i: int| 0 <= i < tile.shape@.len() && tile.shape@[i] == cells[j];
                        assert(in_scope_spec(tile.shape@[i], made.scope));
                    }
                }
                if all_in_scope(cells, made.scope) {
                    assert forall|i: int| 0 <= i < tile.shape@.len() implies #[trigger] in_scope_spec(
                        tile.shape@[i],
                        made.scope,
                    ) by {
                        assert(tile.shape@.contains(tile.shape@[i]));
                        let j = choose|j: int| 0 <= j < cells.len() && cells[j] == tile.shape@[i];
                        assert(in_scope_spec(cells[j], made.scope));
                    }
                }
            }
            assert(cells == shift(walk(steps@), pos.0 as int, pos.1 as int)) by {
                assert(cells =~= shift(walk(steps@), pos.0 as int, pos.1 as int));
            }
            assert(same_cells(tile.shape@, cells));
        }
        let ghost before_shape = tile.shape@;
        proof {
            if old(self).tile_map@ == Map::<Point, u64>::empty() && steps@.len() == 0 {
                let s = tile.shape@;
                assert(walk(steps@) =~= seq![Point(0, 0)]);
                assert(walk_from(steps@, pos) =~= seq![pos]);
                assert(s.contains(s[0]));
                assert(s[0] == pos);
                if s.len() > 1 {
                    assert(s.contains(s[1]));
                    assert(s[1] == pos);
                }
                assert(s =~= seq![pos]);
                assert(!collides(self.tile_map@, s));
                assert(!self.tiles@.contains_key(tile.id)) by {
                    if self.tiles@.contains_key(tile.id) {
                        assert(self.tiles@[tile.id].shape@.contains(self.tiles@[tile.id].shape@[0]));
                    }
                }
                if in_scope_spec(pos, self.scope) {
                    assert(all_in_scope(s, self.scope));
                }
            }
        }
        let done = self.adjust_tile(&mut tile, axis_direction, rng);
        let ghost ended = tile.shape@;
        proof {
            let (a, b) = choose|a: int, b: int| tile.shape@ == shift(before_shape, a, b);
            lemma_shift_same_cells(before_shape, cells, a, b);
            let w = walk(steps@);
            assert forall|i: int| 0 <= i < w.len() implies i64::MIN <= #[trigger] w[i].0 + pos.0
                <= i64::MAX && i64::MIN <= w[i].1 + pos.1 <= i64::MAX by {
                assert(within(w[i], steps@.len() as int));
            }
            lemma_shift_compose(w, pos.0 as int, pos.1 as int, a, b);
            assert(same_cells(tile.shape@, shift(w, pos.0 + a, pos.1 + b)));
        }
        if done {
            assert(self.tiles@.dom() == made.tiles@.dom().insert(tile.id));
            proof {
                assert forall|p: Point| #[trigger] made.tile_map@.contains_key(p) implies self.tile_map@.contains_key(
                    p,
                ) && self.tile_map@[p] == made.tile_map@[p] by {
                    if tile.shape@.contains(p) {
                        let i = choose|i: int| 0 <= i < tile.shape@.len() && tile.shape@[i] == p;
                        assert(made.tile_map@.contains_key(tile.shape@[i]));
                    }
                }
            }
            (Some(tile), Ghost(ended))
        } else {
            (None, Ghost(ended))
        }
    }

    /// Places the start tile, a single cell at the origin, then makes `times` attempts
    /// to place a tile with a step sequence drawn from `move_steps_pool`, started at a
    /// point drawn from the scope and nudged in random directions. Failed placements are
    /// dropped, so at most `times + 1` tiles are added.
    pub fn random_generate_tiles(
        &mut self,
        times: u64,
        move_steps_pool: &Pool<Vec<PlaneOrientation>>,
        rng: &mut RNG,
    )
        requires
            old(self).wf(),
            old(self).inc_id + times + 1 <= u64::MAX,
            old(self).scope.0 <= SCOPE_LIMIT,
            old(self).scope.1 <= SCOPE_LIMIT,
            move_steps_pool.wf(),
            times > 0 ==> move_steps_pool.0@.len() > 0,
            forall|i: int|
                0 <= i < move_steps_pool.0@.len() ==> (#[trigger] move_steps_pool.0@[i]).0@.len()
                    <= SCOPE_LIMIT,
        ensures
            final(self).wf(),
            final(self).scope == old(self).scope,
            final(self).inc_id == old(self).inc_id + times + 1,
            final(rng)@.0 == old(rng)@.0,
            forall|id: u64| #[trigger]
                old(self).tiles@.contains_key(id) ==> final(self).tiles@.contains_key(id),
            forall|id: u64| #[trigger]
                final(self).tiles@.contains_key(id) ==> old(self).tiles@.contains_key(id) || (old(
                    self,
                ).inc_id < id <= final(self).inc_id),
            old(self).tile_map@ == Map::<Point, u64>::empty() && in_scope_spec(
                Point(0, 0),
                old(self).scope,
            ) ==> final(self).tiles@.contains_key((old(self).inc_id + 1) as u64)
                && final(self).tiles@[(old(self).inc_id + 1) as u64].shape@ == seq![Point(0, 0)],
            old(rng)@.1 + times <= final(rng)@.1 <= old(rng)@.1 + NUDGE_LIMIT + times * (NUDGE_LIMIT
                + 3),
            keeps(*old(self), *final(self)),
            forall|id: u64| #[trigger]
                final(self).tiles@.contains_key(id) && !old(self).tiles@.contains_key(id) && id != (
                old(self).inc_id + 1) as u64 ==> exists|i: int|
                    0 <= i < move_steps_pool.0@.len() && walk_shaped(
                        final(self).tiles@[id].shape@,
                        (#[trigger] move_steps_pool.0@[i]).0@,
                    ),
    {
        let ghost start = *self;
        let empty: [PlaneOrientation; 0] = [];
        let _ = self.make_and_adjust_tile(Point(0, 0), &empty, None, rng);
        let ghost start_placed = start.tile_map@ == Map::<Point, u64>::empty() && in_scope_spec(
            Point(0, 0),
            start.scope,
        );
        let ghost first = (start.inc_id + 1) as u64;
        proof {
            assert forall|id: u64| #[trigger]
                self.tiles@.contains_key(id) && !start.tiles@.contains_key(id) implies id == first by {
            }
        }
        let half_x: i64 = if self.scope.0 > 0 {
            self.scope.0 - self.scope.0 / 2
        } else {
            0
        };
        let half_y: i64 = if self.scope.1 > 0 {
            self.scope.1 - self.scope.1 / 2
        } else {
            0
        };
        let mut n: u64 = 0;
        while n < times
            invariant
                0 <= n <= times,
                self.wf(),
                self.scope == start.scope,
                self.inc_id == start.inc_id + n + 1,
                start.inc_id + times + 1 <= u64::MAX,
                0 <= half_x <= SCOPE_LIMIT,
                0 <= half_y <= SCOPE_LIMIT,
                rng@.0 == old(rng)@.0,
                move_steps_pool.wf(),
                times > 0 ==> move_steps_pool.0@.len() > 0,
                forall|i: int|
                    0 <= i < move_steps_pool.0@.len() ==> (#[trigger] move_steps_pool.0@[i]).0@.len()
                        <= SCOPE_LIMIT,
                forall|id: u64| #[trigger]
                    start.tiles@.contains_key(id) ==> self.tiles@.contains_key(id),
                forall|id: u64| #[trigger]
                    self.tiles@.contains_key(id) ==> start.tiles@.contains_key(id) || (start.inc_id
                        < id <= self.inc_id),
                start_placed ==> self.tiles@.contains_key(first) && self.tiles@[first].shape@
                    == seq![Point(0, 0)],
                old(rng)@.1 + n <= rng@.1 <= old(rng)@.1 + NUDGE_LIMIT + n * (NUDGE_LIMIT + 3),
                keeps(start, *self),
                forall|id: u64| #[trigger]
                    self.tiles@.contains_key(id) && !start.tiles@.contains_key(id) && id != first
                        ==> exists|i: int|
                        0 <= i < move_steps_pool.0@.len() && walk_shaped(
                            self.tiles@[id].shape@,
                            (#[trigger] move_steps_pool.0@[i]).0@,
                        ),
            decreases times - n,
        {
            let ghost d0 = rng@.1;
            let x = if half_x > 0 {
                rng.random_range_i64(-half_x, half_x - 1)
            } else {
                0
            };
            let y = if half_y > 0 {
                rng.random_range_i64(-half_y, half_y - 1)
            } else {
                0
            };
            let steps = move_steps_pool.fetch_item(rng);
            let ghost before = *self;
            let (placed_tile, _) = self.make_and_adjust_tile(Point(x, y), steps.as_slice(), None, rng);
            proof {
                lemma_keeps_trans(start, before, *self);
                let k = choose|k: int|
                    0 <= k < move_steps_pool.0@.len() && steps == &(#[trigger] move_steps_pool.0@[k]).0;
                assert forall|id: u64| #[trigger]
                    self.tiles@.contains_key(id) && !start.tiles@.contains_key(id) && id != first
                        implies exists|i: int|
                        0 <= i < move_steps_pool.0@.len() && walk_shaped(
                            self.tiles@[id].shape@,
                            (#[trigger] move_steps_pool.0@[i]).0@,
                        ) by {
                    if before.tiles@.contains_key(id) {
                        let i = choose|i: int|
                            0 <= i < move_steps_pool.0@.len() && walk_shaped(
                                before.tiles@[id].shape@,
                                (#[trigger] move_steps_pool.0@[i]).0@,
                            );
                        assert(self.tiles@[id].shape@ == before.tiles@[id].shape@);
                        assert(walk_shaped(self.tiles@[id].shape@, move_steps_pool.0@[i].0@));
                    } else {
                        assert(placed_tile is Some);
                        assert(walk_shaped(self.tiles@[id].shape@, move_steps_pool.0@[k].0@));
                    }
                }
            }
            proof {
                assert(d0 + 1 <= rng@.1 <= d0 + NUDGE_LIMIT + 3);
                assert((n + 1) * (NUDGE_LIMIT + 3) == n * (NUDGE_LIMIT + 3) + (NUDGE_LIMIT + 3))
                    by (nonlinear_arith);
            }
            n = n + 1;
        }
    }

    /// The ids of all placed tiles, each once, in no particular order.
    pub fn tile_ids(&self) -> (r: Vec<u64>)
        ensures
            r@.no_duplicates(),
            forall|id: u64| #[trigger] r@.contains(id) <==> self.tiles@.contains_key(id),
    {
        let mut r: Vec<u64> = Vec::new();
        let ghost keys = spec_keys_iter(&self.tiles).remaining();
        for id in it: self.tiles.keys()
            invariant
                it.seq() == keys,
                r@.len() == it.index(),
                forall|j: int| 0 <= j < it.index() ==> r@[j] == *keys[j],
        {
            r.push(*id);
        }
        proof {
            assert(r@ =~= keys.unref());
        }
        r
    }

    /// Forgets every tile and every cell; the scope and the id counter stay.
    pub fn clear(&mut self)
        ensures
            final(self).wf(),
            final(self).scope == old(self).scope,
            final(self).inc_id == old(self).inc_id,
            final(self).tiles@ == Map::<u64, Tile>::empty(),
            final(self).tile_map@ == Map::<Point, u64>::empty(),
    {
        self.tiles.clear();
        self.tile_map.clear();
    }

    /// Moves `tile` until none of its cells is owned, then places it if it lies in the
    /// scope.
    ///
    /// A tile whose id is placed already is left alone and `false` returned. Otherwise,
    /// while some cell collides, the whole tile moves one cell: always in
    /// `axis_direction` when one is given, else in a direction drawn from
    /// `AxisDirection::all` each time. After `NUDGE_LIMIT` moves that still collide, or
    /// when the first free position leaves the scope, nothing is placed and `false`
    /// returned. Else the tile is placed (see `placed`) and `true` returned.
    pub fn adjust_tile(
        &mut self,
        tile: &mut Tile,
        axis_direction: Option<AxisDirection>,
        rng: &mut RNG,
    ) -> (r: bool)
        requires
            old(self).wf(),
            old(tile).shape@.len() > 0,
            old(tile).shape@.no_duplicates(),
            !old(self).tiles@.contains_key(old(tile).id) ==> all_within(
                old(tile).shape@,
                COORDINATE_LIMIT as int,
            ),
        ensures
            final(self).wf(),
            final(tile).id == old(tile).id,
            final(rng)@.0 == old(rng)@.0,
            old(self).tiles@.contains_key(old(tile).id) ==> !r && *final(tile) == *old(tile),
            !r ==> *final(self) == *old(self),
            r ==> placed(*old(self), *final(self), *final(tile)),
            r ==> !collides(old(self).tile_map@, final(tile).shape@),
            r ==> all_in_scope(final(tile).shape@, old(self).scope),
            r ==> final(tile).wf(),
            exists|a: int, b: int| final(tile).shape@ == shift(old(tile).shape@, a, b),
            !r && !old(self).tiles@.contains_key(old(tile).id) ==> collides(
                old(self).tile_map@,
                final(tile).shape@,
            ) || !all_in_scope(final(tile).shape@, old(self).scope),
            axis_direction is Some && !old(self).tiles@.contains_key(old(tile).id) ==> exists|k: int|
                0 <= k <= NUDGE_LIMIT && #[trigger] nudged_to(
                    old(self).tile_map@,
                    old(tile).shape@,
                    axis_direction->0,
                    k,
                ) && final(tile).shape@ == shift_n(old(tile).shape@, axis_direction->0, k),
            axis_direction is Some ==> final(rng)@ == old(rng)@,
            axis_direction is None ==> old(rng)@.1 <= final(rng)@.1 <= old(rng)@.1 + NUDGE_LIMIT,
            axis_direction is None && !r && !old(self).tiles@.contains_key(old(tile).id) && collides(
                old(self).tile_map@,
                final(tile).shape@,
            ) ==> final(rng)@.1 == old(rng)@.1 + NUDGE_LIMIT,
            !old(self).tiles@.contains_key(old(tile).id) && !collides(
                old(self).tile_map@,
                old(tile).shape@,
            ) ==> (r <==> all_in_scope(old(tile).shape@, old(self).scope)),
            !collides(old(self).tile_map@, old(tile).shape@) ==> final(tile).shape@
                == old(tile).shape@,
            axis_direction is Some && !old(self).tiles@.contains_key(old(tile).id) ==> (r
                <==> exists|k: int|
                0 <= k <= NUDGE_LIMIT && #[trigger] first_free(
                    old(self).tile_map@,
                    old(tile).shape@,
                    axis_direction->0,
                    k,
                ) && all_in_scope(shift_n(old(tile).shape@, axis_direction->0, k), old(self).scope)),
            axis_direction is Some && r ==> exists|k: int|
                0 <= k <= NUDGE_LIMIT && #[trigger] first_free(
                    old(self).tile_map@,
                    old(tile).shape@,
                    axis_direction->0,
                    k,
                ) && final(tile).shape@ == shift_n(old(tile).shape@, axis_direction->0, k),
    {
        if self.tiles.contains_key(&tile.id) {
            assert(shift(tile.shape@, 0, 0) =~= tile.shape@);
            return false;
        }
        let ghost orig = tile.shape@;
        let ghost m = self.tile_map@;
        let ghost mut ox: int = 0;
        let ghost mut oy: int = 0;
        proof {
            assert(shift(orig, 0, 0) =~= orig);
            if let Some(d) = axis_direction {
                assert(shift_n(orig, d, 0) =~= orig);
            }
        }
        let mut attempts: u64 = 0;
        let mut colliding = self.collides_with(&tile.shape);
        let ghost initially = colliding;
        while colliding && attempts < NUDGE_LIMIT
            invariant
                m == self.tile_map@,
                initially == collides(m, orig),
                !initially ==> attempts == 0,
                attempts <= NUDGE_LIMIT,
                all_within(orig, COORDINATE_LIMIT as int),
                orig.len() > 0,
                orig.no_duplicates(),
                tile.id == old(tile).id,
                tile.shape@ == shift(orig, ox, oy),
                -attempts <= ox <= attempts,
                -attempts <= oy <= attempts,
                colliding == collides(m, tile.shape@),
                rng@.0 == old(rng)@.0,
                axis_direction is Some ==> rng@ == old(rng)@,
                axis_direction is None ==> rng@.1 == old(rng)@.1 + attempts,
                axis_direction is Some ==> {
                    &&& ox == attempts * dx(axis_direction->0)
                    &&& oy == attempts * dy(axis_direction->0)
                    &&& forall|j: int|
                        0 <= j < attempts ==> #[trigger] collides(
                            m,
                            shift_n(orig, axis_direction->0, j),
                        )
                },
            decreases NUDGE_LIMIT - attempts,
        {
            let d = match axis_direction {
                Some(v) => v,
                None => {
                    let all = AxisDirection::all();
                    let k = rng.random_below(4);
                    all[k as usize]
                },
            };
            proof {
                assert forall|i: int| 0 <= i < tile.shape@.len() implies i64::MIN < (
                #[trigger] tile.shape@[i]).0 < i64::MAX && i64::MIN < tile.shape@[i].1 < i64::MAX by {
                    assert(within(orig[i], COORDINATE_LIMIT as int));
                }
                if let Some(v) = axis_direction {
                    assert(collides(m, shift_n(orig, v, attempts as int)));
                }
            }
            tile.shape = moved_shape(&tile.shape, d);
            proof {
                assert forall|i: int| 0 <= i < orig.len() implies i64::MIN <= #[trigger] orig[i].0 + ox
                    <= i64::MAX && i64::MIN <= orig[i].1 + oy <= i64::MAX by {
                    assert(within(orig[i], COORDINATE_LIMIT as int));
                }
                lemma_shift_compose(orig, ox, oy, dx(d), dy(d));
                if let Some(v) = axis_direction {
                    assert((attempts + 1) * dx(v) == attempts * dx(v) + dx(v)) by (nonlinear_arith);
                    assert((attempts + 1) * dy(v) == attempts * dy(v) + dy(v)) by (nonlinear_arith);
                }
                ox = ox + dx(d);
                oy = oy + dy(d);
            }
            attempts = attempts + 1;
            colliding = self.collides_with(&tile.shape);
        }
        proof {
            assert forall|i: int| 0 <= i < orig.len() implies i64::MIN <= #[trigger] orig[i].0 + ox
                <= i64::MAX && i64::MIN <= orig[i].1 + oy <= i64::MAX by {
                assert(within(orig[i], COORDINATE_LIMIT as int));
            }
            lemma_shift_distinct(orig, ox, oy);
            if let Some(d) = axis_direction {
                assert(tile.shape@ == shift_n(orig, d, attempts as int));
                if !colliding {
                    assert(first_free(m, orig, d, attempts as int));
                }
                assert(nudged_to(m, orig, d, attempts as int));
                assert forall|k: int|
                    0 <= k <= NUDGE_LIMIT && #[trigger] first_free(m, orig, d, k) implies k
                    == attempts by {
                    if k < attempts {
                        assert(collides(m, shift_n(orig, d, k)));
                    } else if k > attempts {
                        assert(collides(m, shift_n(orig, d, attempts as int)));
                    }
                }
            }
        }
        proof {
            if !initially {
                assert(tile.shape@ =~= orig);
            }
        }
        if colliding {
            return false;
        }
        if !self.fits_scope(&tile.shape) {
            return false;
        }
        self.place(tile);
        true
    }

    /// Commits a tile that collides with nothing and lies in the scope: records the
    /// edges to every placed tile it touches on both sides, indexes its cells and stores
    /// it.
    fn place(&mut self, tile: &mut Tile)
        requires
            old(self).wf(),
            old(tile).shape@.len() > 0,
            old(tile).shape@.no_duplicates(),
            !old(self).tiles@.contains_key(old(tile).id),
            !collides(old(self).tile_map@, old(tile).shape@),
            all_in_scope(old(tile).shape@, old(self).scope),
        ensures
            final(tile).id == old(tile).id,
            final(tile).shape@ == old(tile).shape@,
            final(tile).wf(),
            placed(*old(self), *final(self), *final(tile)),
            final(self).wf(),
    {
        let id = tile.id;
        let n = tile.shape.len();
        let ghost shape = tile.shape@;
        let ghost before = *self;
        let mut found: Vec<u64> = Vec::new();
        let mut i: usize = 0;
        while i < n
            invariant
                n == shape.len(),
                shape == tile.shape@,
                all_in_scope(shape, self.scope),
                0 <= i <= n,
                found@.no_duplicates(),
                forall|x: u64| #[trigger]
                    found@.contains(x) <==> exists|a: int|
                        0 <= a < i && #[trigger] around(self.tile_map@, shape[a], x),
            decreases n - i,
        {
            let p = tile.shape[i];
            assert(in_scope_spec(shape[i as int], self.scope));
            let ghost f0 = found@;
            let up = Point(p.0, p.1 + 1);
            let down = Point(p.0, p.1 - 1);
            let left = Point(p.0 - 1, p.1);
            let right = Point(p.0 + 1, p.1);
            self.note_owner(&mut found, up);
            self.note_owner(&mut found, down);
            self.note_owner(&mut found, left);
            self.note_owner(&mut found, right);
            proof {
                let m = self.tile_map@;
                assert(up == offset(p, 0, 1));
                assert(down == offset(p, 0, -1));
                assert(left == offset(p, -1, 0));
                assert(right == offset(p, 1, 0));
                assert forall|x: u64| #[trigger]
                    found@.contains(x) <==> exists|a: int|
                        0 <= a < i + 1 && #[trigger] around(m, shape[a], x) by {
                    if found@.contains(x) && !f0.contains(x) {
                        assert(around(m, shape[i as int], x));
                    }
                    if f0.contains(x) {
                        let a = choose|a: int| 0 <= a < i && #[trigger] around(m, shape[a], x);
                        assert(0 <= a < i + 1 && around(m, shape[a], x));
                    }
                    if exists|a: int| 0 <= a < i + 1 && #[trigger] around(m, shape[a], x) {
                        let a = choose|a: int| 0 <= a < i + 1 && #[trigger] around(m, shape[a], x);
                        if a < i {
                            assert(f0.contains(x));
                        }
                    }
                }
            }
            i = i + 1;
        }
        proof {
            assert forall|x: u64| #[trigger] found@.contains(x) implies before.tiles@.contains_key(x)
                && touching(shape, before.tiles@[x].shape@) by {
                lemma_around_touching(before, shape, x);
            }
            assert forall|x: u64|
                before.tiles@.contains_key(x) && touching(
                    shape,
                    before.tiles@[x].shape@,
                ) implies #[trigger] found@.contains(x) by {
                lemma_around_touching(before, shape, x);
            }
        }
        let mut k: usize = 0;
        while k < found.len()
            invariant
                0 <= k <= found@.len(),
                before.wf(),
                !before.tiles@.contains_key(id),
                self.inc_id == before.inc_id,
                self.scope == before.scope,
                self.tile_map@ == before.tile_map@,
                self.tiles@.dom() == before.tiles@.dom(),
                found@.no_duplicates(),
                forall|x: u64| #[trigger] found@.contains(x) ==> before.tiles@.contains_key(x),
                forall|t: u64| #[trigger]
                    before.tiles@.contains_key(t) ==> {
                        &&& self.tiles@[t].id == before.tiles@[t].id
                        &&& self.tiles@[t].shape@ == before.tiles@[t].shape@
                        &&& self.tiles@[t].adjacent@.no_duplicates()
                        &&& forall|y: u64| #[trigger]
                            self.tiles@[t].adjacent@.contains(y) <==> before.tiles@[t].adjacent@.contains(y)
                                || (y == id && occurs_before(found@, k as int, t))
                    },
            decreases found@.len() - k,
        {
            let x = found[k];
            assert(found@.contains(x));
            let taken = self.tiles.remove(&x);
            if let Some(mut t) = taken {
                let ghost adj0 = t.adjacent@;
                assert(!adj0.contains(id)) by {
                    if adj0.contains(id) {
                        if !before.tiles@[x].adjacent@.contains(id) {
                            assert(occurs_before(found@, k as int, x));
                            let a = choose|a: int| 0 <= a < k && found@[a] == x;
                            assert(found@[a] == found@[k as int]);
                        } else {
                            assert(before.linked(x, id));
                        }
                    }
                }
                t.adjacent.push(id);
                proof {
                    assert forall|y: u64| #[trigger]
                        t.adjacent@.contains(y) <==> adj0.contains(y) || y == id by {
                        if adj0.contains(y) {
                            let j = choose|j: int| 0 <= j < adj0.len() && adj0[j] == y;
                            assert(t.adjacent@[j] == y);
                        }
                        if y == id {
                            assert(t.adjacent@[adj0.len() as int] == y);
                        }
                    }
                }
                self.tiles.insert(x, t);
            }
            proof {
                assert forall|t: u64| #[trigger] before.tiles@.contains_key(t) implies {
                    &&& self.tiles@[t].id == before.tiles@[t].id
                    &&& self.tiles@[t].shape@ == before.tiles@[t].shape@
                    &&& self.tiles@[t].adjacent@.no_duplicates()
                    &&& forall|y: u64| #[trigger]
                        self.tiles@[t].adjacent@.contains(y) <==> before.tiles@[t].adjacent@.contains(y)
                            || (y == id && occurs_before(found@, k + 1, t))
                } by {
                    if t == x {
                        assert(found@[k as int] == t);
                        assert(occurs_before(found@, k + 1, t));
                    } else {
                        if occurs_before(found@, k + 1, t) {
                            let a = choose|a: int| 0 <= a < k + 1 && found@[a] == t;
                            assert(a < k);
                            assert(occurs_before(found@, k as int, t));
                        }
                        if occurs_before(found@, k as int, t) {
                            let a = choose|a: int| 0 <= a < k && found@[a] == t;
                            assert(occurs_before(found@, k + 1, t));
                        }
                    }
                }
            }
            k = k + 1;
        }
        let ghost linked_back = self.tiles@;
        let mut c: usize = 0;
        while c < n
            invariant
                0 <= c <= n,
                n == shape.len(),
                shape == tile.shape@,
                self.tiles@ == linked_back,
                self.inc_id == before.inc_id,
                self.scope == before.scope,
                forall|p: Point| #[trigger]
                    self.tile_map@.contains_key(p) <==> before.tile_map@.contains_key(p)
                        || occurs_before(shape, c as int, p),
                forall|p: Point| #[trigger]
                    self.tile_map@.contains_key(p) ==> self.tile_map@[p] == (if occurs_before(
                        shape,
                        c as int,
                        p,
                    ) {
                        id
                    } else {
                        before.tile_map@[p]
                    }),
            decreases n - c,
        {
            let p = tile.shape[c];
            self.tile_map.insert(p, id);
            proof {
                assert forall|q: Point| #[trigger] occurs_before(shape, c + 1, q) <==> (occurs_before(
                    shape,
                    c as int,
                    q,
                ) || q == p) by {
                    if q == p {
                        assert(shape[c as int] == q);
                    }
                    if occurs_before(shape, c + 1, q) && q != p {
                        let a = choose|a: int| 0 <= a < c + 1 && shape[a] == q;
                        assert(occurs_before(shape, c as int, q));
                    }
                    if occurs_before(shape, c as int, q) {
                        let a = choose|a: int| 0 <= a < c && shape[a] == q;
                        assert(occurs_before(shape, c + 1, q));
                    }
                }
            }
            c = c + 1;
        }
        tile.adjacent = found;
        let stored = tile.duplicate();
        self.tiles.insert(id, stored);
        proof {
            assert forall|q: Point| #[trigger] occurs_before(shape, n as int, q) <==> shape.contains(q) by {
            }
            assert forall|t: u64| #[trigger] before.tiles@.contains_key(t) implies (
            found@.contains(t) <==> touching(before.tiles@[t].shape@, shape)) by {
                lemma_touching_symmetric(before.tiles@[t].shape@, shape);
            }
            assert forall|t: u64| #[trigger] before.tiles@.contains_key(t) implies (occurs_before(
                found@,
                found@.len() as int,
                t,
            ) <==> found@.contains(t)) by {
            }
            assert(self.tiles@.dom() =~= before.tiles@.dom().insert(id));
            lemma_placed_wf(before, *self, *tile);
        }
    }

    /// Adds the owner of `q`, if any, to `found`.
    fn note_owner(&self, found: &mut Vec<u64>, q: Point)
        requires
            old(found)@.no_duplicates(),
        ensures
            final(found)@.no_duplicates(),
            forall|x: u64| #[trigger]
                final(found)@.contains(x) <==> old(found)@.contains(x) || (
                self.tile_map@.contains_key(q) && self.tile_map@[q] == x),
    {
        if let Some(x) = self.tile_map.get(q) {
            if !lists(found, x) {
                let ghost before = found@;
                found.push(x);
                assert forall|y: u64| #[trigger] found@.contains(y) <==> before.contains(y) || y
                    == x by {
                    if before.contains(y) {
                        let j = choose|j: int| 0 <= j < before.len() && before[j] == y;
                        assert(found@[j] == y);
                    }
                    if y == x {
                        assert(found@[before.len() as int] == y);
                    }
                }
            }
        }
    }
}

} // verus!
