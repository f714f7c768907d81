use vstd::prelude::*;

verus! {

/// The sign of a unit move along one axis.
#[derive(Clone, Copy, PartialEq, Eq, Structural, Debug)]
pub enum Direction {
    /// Towards larger coordinates.
    Just,
    /// Towards smaller coordinates.
    Burden,
}

/// One of the two axes of the grid.
#[derive(Clone, Copy, PartialEq, Eq, Structural, Debug)]
pub enum Axis {
    X,
    Y,
}

/// A unit move: an axis and a sign.
#[derive(Clone, Copy, PartialEq, Eq, Structural, Debug)]
pub struct AxisDirection(pub Axis, pub Direction);

/// A grid cell.
#[derive(Clone, Copy, PartialEq, Eq, Structural, Hash, Debug)]
pub struct Point(pub i64, pub i64);

/// One of the four planar moves a step sequence is made of.
#[derive(Clone, Copy, PartialEq, Eq, Structural, Debug)]
pub enum PlaneOrientation {
    Up,
    Down,
    Left,
    Right,
}

/// The change of the x coordinate made by a unit move.
pub open spec fn dx(d: AxisDirection) -> int {
    match d {
        AxisDirection(Axis::X, Direction::Just) => 1,
        AxisDirection(Axis::X, Direction::Burden) => -1,
        _ => 0,
    }
}

/// The change of the y coordinate made by a unit move.
pub open spec fn dy(d: AxisDirection) -> int {
    match d {
        AxisDirection(Axis::Y, Direction::Just) => 1,
        AxisDirection(Axis::Y, Direction::Burden) => -1,
        _ => 0,
    }
}

/// The cell `(p.0 + a, p.1 + b)`.
pub open spec fn offset(p: Point, a: int, b: int) -> Point {
    Point((p.0 + a) as i64, (p.1 + b) as i64)
}

/// The cell one unit move away from `p`.
pub open spec fn step_of(p: Point, d: AxisDirection) -> Point {
    offset(p, dx(d), dy(d))
}

/// Both coordinates of `p` lie within `bound` of zero.
pub open spec fn within(p: Point, bound: int) -> bool {
    -bound <= p.0 <= bound && -bound <= p.1 <= bound
}

/// The absolute value of `x`.
pub open spec fn abs(x: int) -> int {
    if x < 0 {
        -x
    } else {
        x
    }
}

/// `|x| < scope.0` and `|y| < scope.1`.
pub open spec fn in_scope_spec(p: Point, scope: (i64, i64)) -> bool {
    abs(p.0 as int) < scope.0 && abs(p.1 as int) < scope.1
}

/// Two cells share an edge.
pub open spec fn neighbours(p: Point, q: Point) -> bool {
    (p.0 == q.0 && abs(p.1 - q.1) == 1) || (p.1 == q.1 && abs(p.0 - q.0) == 1)
}

/// The unit move a planar move stands for.
pub open spec fn orientation_direction(o: PlaneOrientation) -> AxisDirection {
    match o {
        PlaneOrientation::Up => AxisDirection(Axis::Y, Direction::Just),
        PlaneOrientation::Down => AxisDirection(Axis::Y, Direction::Burden),
        PlaneOrientation::Right => AxisDirection(Axis::X, Direction::Just),
        PlaneOrientation::Left => AxisDirection(Axis::X, Direction::Burden),
    }
}

/// The cells visited by following `steps` from the origin, the origin included.
pub open spec fn walk(steps: Seq<PlaneOrientation>) -> Seq<Point>
    decreases steps.len(),
{
    if steps.len() == 0 {
        seq![Point(0, 0)]
    } else {
        let before = walk(steps.drop_last());
        before.push(step_of(before.last(), orientation_direction(steps.last())))
    }
}

impl AxisDirection {
    /// The directions drawn from when a tile is nudged at random.
    ///
    /// The list holds `+X`, `+Y`, `-Y` and `-Y` again: `-X` is absent, so a random
    /// nudge never moves a tile towards smaller x.
    pub fn all() -> (r: Vec<AxisDirection>)
        ensures
            r@ == seq![
                AxisDirection(Axis::X, Direction::Just),
                AxisDirection(Axis::Y, Direction::Just),
                AxisDirection(Axis::Y, Direction::Burden),
                AxisDirection(Axis::Y, Direction::Burden),
            ],
    {
        vec![
            AxisDirection(Axis::X, Direction::Just),
            AxisDirection(Axis::Y, Direction::Just),
            AxisDirection(Axis::Y, Direction::Burden),
            AxisDirection(Axis::Y, Direction::Burden),
        ]
    }
}

impl Point {
    /// Whether `|x| < scope.0` and `|y| < scope.1`.
    pub fn in_scope(&self, scope: (i64, i64)) -> (r: bool)
        ensures
            r == in_scope_spec(*self, scope),
    {
        let Point(x, y) = *self;
        scope.0 > 0 && scope.1 > 0 && x < scope.0 && x > -scope.0 && y < scope.1 && y > -scope.1
    }

    /// The cell one unit move away.
    pub fn step(self, d: AxisDirection) -> (r: Point)
        requires
            i64::MIN < self.0 < i64::MAX,
            i64::MIN < self.1 < i64::MAX,
        ensures
            r == step_of(self, d),
            r.0 == self.0 + dx(d),
            r.1 == self.1 + dy(d),
    {
        let Point(x, y) = self;
        let AxisDirection(axis, direction) = d;
        match axis {
            Axis::X => match direction {
                Direction::Just => Point(x + 1, y),
                Direction::Burden => Point(x - 1, y),
            },
            Axis::Y => match direction {
                Direction::Just => Point(x, y + 1),
                Direction::Burden => Point(x, y - 1),
            },
        }
    }

    /// The cell moved by `by`, coordinate by coordinate.
    pub fn offset_by(self, by: Point) -> (r: Point)
        requires
            i64::MIN <= self.0 + by.0 <= i64::MAX,
            i64::MIN <= self.1 + by.1 <= i64::MAX,
        ensures
            r.0 == self.0 + by.0,
            r.1 == self.1 + by.1,
    {
        Point(self.0 + by.0, self.1 + by.1)
    }
}

impl PlaneOrientation {
    /// The four moves.
    pub fn all() -> (r: Vec<PlaneOrientation>)
        ensures
            r@ == seq![
                PlaneOrientation::Up,
                PlaneOrientation::Down,
                PlaneOrientation::Left,
                PlaneOrientation::Right,
            ],
    {
        vec![PlaneOrientation::Up, PlaneOrientation::Down, PlaneOrientation::Left, PlaneOrientation::Right]
    }

    /// The unit move a planar move stands for.
    pub fn to_axis_direction(plane_orientation: &PlaneOrientation) -> (r: AxisDirection)
        ensures
            r == orientation_direction(*plane_orientation),
    {
        match plane_orientation {
            PlaneOrientation::Up => AxisDirection(Axis::Y, Direction::Just),
            PlaneOrientation::Down => AxisDirection(Axis::Y, Direction::Burden),
            PlaneOrientation::Right => AxisDirection(Axis::X, Direction::Just),
            PlaneOrientation::Left => AxisDirection(Axis::X, Direction::Burden),
        }
    }

    /// The cells visited by following `steps` from `(0, 0)`: the origin first, then
    /// one cell per step.
    pub fn to_points(steps: &[PlaneOrientation]) -> (r: Vec<Point>)
        requires
            steps@.len() < i64::MAX,
        ensures
            r@ == walk(steps@),
            r@.len() == steps@.len() + 1,
            forall|i: int| 0 <= i < r@.len() ==> within(#[trigger] r@[i], steps@.len() as int),
    {
        let mut new_pos = Point(0, 0);
        let mut result: Vec<Point> = vec![new_pos];
        let mut i: usize = 0;
        while i < steps.len()
            invariant
                i <= steps@.len() < i64::MAX,
                result@ == walk(steps@.subrange(0, i as int)),
                result@.len() == i + 1,
                new_pos == result@.last(),
                forall|j: int| 0 <= j < result@.len() ==> within(#[trigger] result@[j], i as int),
            decreases steps@.len() - i,
        {
            let ghost before = result@;
            assert(steps@.subrange(0, i + 1).drop_last() == steps@.subrange(0, i as int));
            new_pos = new_pos.step(PlaneOrientation::to_axis_direction(&steps[i]));
            result.push(new_pos);
            i = i + 1;
            assert forall|j: int| 0 <= j < result@.len() implies within(#[trigger] result@[j], i as int) by {
                if j < before.len() {
                    assert(result@[j] == before[j]);
                }
            }
        }
        assert(steps@.subrange(0, steps@.len() as int) == steps@);
        result
    }
}

} // verus!
