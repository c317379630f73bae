//! The motion resolver: where a particle stands one tick later, and which
//! way it heads, after bouncing off every wall its path crosses.

use vstd::prelude::*;
use crate::arena::Arena;
use crate::geometry::{calc_distance, rounded_distance, squared_distance, Line, Point};
use crate::numeric::lemma_nearest_root_zero;
use crate::walls::{lemma_exit_far, lemma_exit_near, lemma_horizontal_wall, lemma_vertical_wall};

verus! {

/// The fixed-point value of one in the components of a [`Direction`].
pub const DIRECTION_UNIT: i32 = 1_000_000;

/// The largest distance a particle can travel in one tick, and the largest
/// magnitude of a coordinate the resolver accepts, in length units.
pub const MAX_REACH: i32 = 1_000_000_000;

/// A heading, held by its cosine and sine in fixed point: a component `c`
/// stands for `c / DIRECTION_UNIT`.
#[derive(Clone, Copy, Debug, PartialEq, Eq)]
pub struct Direction {
    /// Horizontal component.
    pub cos: i32,
    /// Vertical component.
    pub sin: i32,
}

/// A heading and the distance to travel along it in one tick.
#[derive(Clone, Copy, Debug, PartialEq, Eq)]
pub struct Velocity {
    pub direction: Direction,
    /// Length of the path of one tick, in length units.
    pub distance: u32,
}

impl Direction {
    /// Neither component exceeds one in magnitude.
    pub open spec fn wf(&self) -> bool {
        &&& -DIRECTION_UNIT <= self.cos <= DIRECTION_UNIT
        &&& -DIRECTION_UNIT <= self.sin <= DIRECTION_UNIT
    }

    /// The heading after a bounce: a vertical wall (an x-wall) flips the
    /// horizontal component and keeps the vertical one; a horizontal wall
    /// flips the vertical component and keeps the horizontal one.
    pub open spec fn reflected(self, x_wall: bool) -> Direction {
        if x_wall {
            Direction { cos: (-self.cos) as i32, sin: self.sin }
        } else {
            Direction { cos: self.cos, sin: (-self.sin) as i32 }
        }
    }

    /// Tests whether neither component exceeds one in magnitude.
    pub fn is_valid(&self) -> (valid: bool)
        ensures
            valid == self.wf(),
    {
        -DIRECTION_UNIT <= self.cos && self.cos <= DIRECTION_UNIT && -DIRECTION_UNIT <= self.sin
            && self.sin <= DIRECTION_UNIT
    }

    /// Mirrors the heading at a wall: at a vertical wall the horizontal
    /// component changes sign, at a horizontal wall the vertical one.
    pub fn reflect(self, x_wall: bool) -> (mirrored: Direction)
        requires
            self.wf(),
        ensures
            mirrored == self.reflected(x_wall),
            mirrored.wf(),
            x_wall ==> mirrored.cos == -self.cos && mirrored.sin == self.sin,
            !x_wall ==> mirrored.cos == self.cos && mirrored.sin == -self.sin,
    {
        if x_wall {
            Direction { cos: -self.cos, sin: self.sin }
        } else {
            Direction { cos: self.cos, sin: -self.sin }
        }
    }
}

impl Velocity {
    /// The heading is well formed and the distance is within reach.
    pub open spec fn wf(&self) -> bool {
        self.direction.wf() && self.distance <= MAX_REACH
    }

    /// Tests whether the heading is well formed and the distance is within
    /// reach.
    pub fn is_valid(&self) -> (valid: bool)
        ensures
            valid == self.wf(),
    {
        self.direction.is_valid() && self.distance <= MAX_REACH as u32
    }
}

/// Whether both coordinates of a point are at most [`MAX_REACH`] in
/// magnitude.
pub open spec fn within_reach(p: Point) -> bool {
    -MAX_REACH <= p.0 <= MAX_REACH && -MAX_REACH <= p.1 <= MAX_REACH
}

/// The displacement along one axis: `distance * component / DIRECTION_UNIT`,
/// rounded to the nearest whole length unit, halves away from zero.
pub open spec fn travel(distance: int, component: int) -> int {
    if component >= 0 {
        (distance * component + 500_000) / 1_000_000
    } else {
        -((distance * (-component) + 500_000) / 1_000_000)
    }
}

/// The end of the straight path of one tick, walls ignored.
pub open spec fn candidate(p: Point, v: Velocity) -> Point {
    (
        (p.0 + travel(v.distance as int, v.direction.cos as int)) as i32,
        (p.1 + travel(v.distance as int, v.direction.sin as int)) as i32,
    )
}

/// The vertical wall that the end of the path lies beyond, if any.
pub open spec fn x_contact(arena: Arena, c: Point) -> Option<Line> {
    if c.0 < 0 {
        Some(arena.left)
    } else if c.0 >= arena.width {
        Some(arena.right)
    } else {
        None
    }
}

/// The horizontal wall that the end of the path lies beyond, if any.
pub open spec fn y_contact(arena: Arena, c: Point) -> Option<Line> {
    if c.1 < 0 {
        Some(arena.top)
    } else if c.1 >= arena.height {
        Some(arena.bottom)
    } else {
        None
    }
}

/// Where the path crosses the wall it may have reached.
pub open spec fn wall_hit(traveled: Line, contact: Option<Line>) -> Option<Point> {
    match contact {
        Some(wall) => traveled.intersection(wall),
        None => None,
    }
}

/// The wall struck first on the way from `p` to `c`: the crossing point and
/// whether the wall is a vertical one (an x-wall).
///
/// Of two crossings the one nearer to `p` counts, by the distance rounded
/// to whole length units; at equal distances the vertical wall counts.
pub open spec fn first_strike(arena: Arena, p: Point, c: Point) -> Option<(Point, bool)> {
    let traveled = Line(p, c);
    let x_hit = wall_hit(traveled, x_contact(arena, c));
    let y_hit = wall_hit(traveled, y_contact(arena, c));
    match (x_hit, y_hit) {
        (Some(qx), Some(qy)) => if rounded_distance(p, qx) <= rounded_distance(p, qy) {
            Some((qx, true))
        } else {
            Some((qy, false))
        },
        (Some(qx), None) => Some((qx, true)),
        (None, Some(qy)) => Some((qy, false)),
        (None, None) => None,
    }
}

/// The velocity after a bounce: the heading mirrored at the wall, and what
/// is left of the distance once the way to the wall is taken off (nothing,
/// if the way to the wall used it up).
pub open spec fn rebound(v: Velocity, to_wall: nat, x_wall: bool) -> Velocity {
    Velocity {
        direction: v.direction.reflected(x_wall),
        distance: if to_wall <= v.distance {
            (v.distance - to_wall) as u32
        } else {
            0
        },
    }
}

/// How many of the two axes the particle is about to leave the arena along
/// while it stands on the wall of that side.
pub open spec fn outward_axes(arena: Arena, p: Point, v: Velocity) -> nat {
    let c = candidate(p, v);
    let x: nat = if (p.0 == arena.width && c.0 > p.0) || (p.0 == 0 && c.0 < p.0) {
        1
    } else {
        0
    };
    let y: nat = if (p.1 == arena.height && c.1 > p.1) || (p.1 == 0 && c.1 < p.1) {
        1
    } else {
        0
    };
    x + y
}

/// The position one tick later and the heading then.
///
/// Without a wall in the way this is the end of the straight path and the
/// heading unchanged. Otherwise the particle goes to the wall struck first,
/// turns as a mirror would turn it, and goes on from there with what is left
/// of the distance, which may take it to further walls.
pub open spec fn resolve(arena: Arena, p: Point, v: Velocity) -> (Point, Direction)
    decreases v.distance, outward_axes(arena, p, v),
    when arena.wf() && v.wf() && within_reach(p)
    via resolve_decreases
{
    let c = candidate(p, v);
    match first_strike(arena, p, c) {
        None => (c, v.direction),
        Some((q, x_wall)) => resolve(arena, q, rebound(v, rounded_distance(p, q), x_wall)),
    }
}

#[via_fn]
proof fn resolve_decreases(arena: Arena, p: Point, v: Velocity) {
    let c = candidate(p, v);
    match first_strike(arena, p, c) {
        None => {},
        Some((q, x_wall)) => {
            lemma_strike(arena, p, v);
        },
    }
}

/// The displacement is no longer than the distance.
pub proof fn lemma_travel_bound(distance: int, component: int)
    requires
        0 <= distance,
        -DIRECTION_UNIT <= component <= DIRECTION_UNIT,
    ensures
        -distance <= travel(distance, component) <= distance,
        component >= 0 ==> travel(distance, component) >= 0,
        component <= 0 ==> travel(distance, component) <= 0,
{
    let m = if component >= 0 {
        distance * component
    } else {
        distance * (-component)
    };
    assert(0 <= m <= distance * 1_000_000) by (nonlinear_arith)
        requires
            0 <= distance,
            -1_000_000 <= component <= 1_000_000,
            m == (if component >= 0 {
                distance * component
            } else {
                distance * (-component)
            }),
    ;
}

/// Mirroring a component mirrors the displacement.
pub proof fn lemma_travel_mirrored(distance: int, component: int)
    ensures
        travel(distance, -component) == -travel(distance, component),
{
    assert(distance * 0 == 0) by (nonlinear_arith);
    assert(-(-component) == component);
}

/// Along a full component the displacement is the distance; along a zero
/// component, and over no distance, it is nothing.
pub proof fn lemma_travel_exact(distance: int, component: int)
    ensures
        travel(distance, 1_000_000) == distance,
        travel(distance, -1_000_000) == -distance,
        travel(distance, 0) == 0,
        travel(0, component) == 0,
{
    assert(distance * 0 == 0 && 0 * component == 0 && 0 * (-component) == 0)
        by (nonlinear_arith);
}

/// Within reach, the end of the straight path is the start plus the
/// displacement along each axis.
pub proof fn lemma_candidate(p: Point, v: Velocity)
    requires
        v.wf(),
        within_reach(p),
    ensures
        candidate(p, v).0 == p.0 + travel(v.distance as int, v.direction.cos as int),
        candidate(p, v).1 == p.1 + travel(v.distance as int, v.direction.sin as int),
{
    lemma_travel_bound(v.distance as int, v.direction.cos as int);
    lemma_travel_bound(v.distance as int, v.direction.sin as int);
}

/// Two points at rounded distance zero are the same point.
pub proof fn lemma_distance_zero(p: Point, q: Point)
    ensures
        rounded_distance(p, q) == 0 <==> p == q,
{
    let dx = q.0 - p.0;
    let dy = q.1 - p.1;
    lemma_nearest_root_zero(squared_distance(p, q));
    assert(dx * dx >= 0 && dy * dy >= 0 && (dx * dx == 0 <==> dx == 0) && (dy * dy == 0 <==> dy
        == 0)) by (nonlinear_arith);
}

/// What holds of every strike: the point struck lies on the arena's
/// boundary, some distance was left, the velocity after it is well formed,
/// and the bounce makes progress: either the way to the wall took at least
/// one length unit, or the particle stood on the wall heading out, and after
/// the bounce heads out along one axis fewer.
pub proof fn lemma_strike(arena: Arena, p: Point, v: Velocity)
    requires
        arena.wf(),
        v.wf(),
        within_reach(p),
        first_strike(arena, p, candidate(p, v)) is Some,
    ensures
        ({
            let (q, x_wall) = first_strike(arena, p, candidate(p, v))->0;
            let after = rebound(v, rounded_distance(p, q), x_wall);
            &&& arena.contains(q)
            &&& within_reach(q)
            &&& after.wf()
            &&& v.distance >= 1
            &&& after.distance <= v.distance
            &&& after.distance < v.distance || (after.distance == v.distance && q == p
                && outward_axes(arena, q, after) < outward_axes(arena, p, v))
        }),
{
    let c = candidate(p, v);
    let (q, x_wall) = first_strike(arena, p, c)->0;
    let traveled = Line(p, c);
    let to_wall = rounded_distance(p, q);
    let after = rebound(v, to_wall, x_wall);
    lemma_candidate(p, v);
    lemma_travel_exact(0, v.direction.cos as int);
    lemma_travel_exact(0, v.direction.sin as int);
    lemma_vertical_wall(traveled, 0, arena.height);
    lemma_vertical_wall(traveled, arena.width, arena.height);
    lemma_horizontal_wall(traveled, 0, arena.width);
    lemma_horizontal_wall(traveled, arena.height, arena.width);
    lemma_distance_zero(p, q);
    let dx = c.0 - p.0;
    let dy = c.1 - p.1;
    if x_wall {
        let wall = x_contact(arena, c)->0;
        assert(traveled.intersection(wall) == Some(q));
        traveled.lemma_meeting_point_in_box(wall);
        assert(dx != 0);
    } else {
        let wall = y_contact(arena, c)->0;
        assert(traveled.intersection(wall) == Some(q));
        traveled.lemma_meeting_point_in_box(wall);
        assert(dy != 0);
    }
    assert(v.distance >= 1);
    if to_wall == 0 {
        // The particle stands on the wall: the bounce turns it inward along
        // that axis and leaves the other axis as it was.
        assert(q == p);
        assert(after.distance == v.distance);
        lemma_candidate(p, after);
        lemma_travel_mirrored(v.distance as int, v.direction.cos as int);
        lemma_travel_mirrored(v.distance as int, v.direction.sin as int);
        let c2 = candidate(p, after);
        if x_wall {
            assert(c2.0 - p.0 == -dx);
            assert(c2.1 == c.1);
        } else {
            assert(c2.1 - p.1 == -dy);
            assert(c2.0 == c.0);
        }
    }
}

/// Without a strike the path ends inside the arena, if it began there.
pub proof fn lemma_unobstructed_ends_inside(arena: Arena, p: Point, v: Velocity)
    requires
        arena.wf(),
        v.wf(),
        arena.contains(p),
        first_strike(arena, p, candidate(p, v)) is None,
    ensures
        arena.contains(candidate(p, v)),
{
    let c = candidate(p, v);
    let traveled = Line(p, c);
    lemma_candidate(p, v);
    lemma_vertical_wall(traveled, 0, arena.height);
    lemma_vertical_wall(traveled, arena.width, arena.height);
    lemma_horizontal_wall(traveled, 0, arena.width);
    lemma_horizontal_wall(traveled, arena.height, arena.width);
    let x1 = p.0 as int;
    let y1 = p.1 as int;
    let dx = c.0 - p.0;
    let dy = c.1 - p.1;
    let w = arena.width as int;
    let h = arena.height as int;
    if c.0 > w {
        lemma_exit_far(x1, y1, dx, dy, w, h);
    }
    if c.0 < 0 {
        lemma_exit_near(x1, y1, dx, dy, w, h);
    }
    if c.1 > h {
        lemma_exit_far(y1, x1, dy, dx, h, w);
    }
    if c.1 < 0 {
        lemma_exit_near(y1, x1, dy, dx, h, w);
    }
}

/// A particle inside the arena is inside it one tick later.
pub proof fn lemma_stays_inside(arena: Arena, p: Point, v: Velocity)
    requires
        arena.wf(),
        v.wf(),
        arena.contains(p),
    ensures
        arena.contains(resolve(arena, p, v).0),
    decreases v.distance, outward_axes(arena, p, v),
{
    let c = candidate(p, v);
    match first_strike(arena, p, c) {
        None => {
            lemma_unobstructed_ends_inside(arena, p, v);
        },
        Some((q, x_wall)) => {
            lemma_strike(arena, p, v);
            lemma_stays_inside(arena, q, rebound(v, rounded_distance(p, q), x_wall));
        },
    }
}

/// Bounces only mirror the heading: after the tick each component is what
/// it was or its negative, so the heading is as well formed as before.
pub proof fn lemma_heading_mirrored(arena: Arena, p: Point, v: Velocity)
    requires
        arena.wf(),
        v.wf(),
        within_reach(p),
    ensures
        resolve(arena, p, v).1.cos == v.direction.cos || resolve(arena, p, v).1.cos
            == -v.direction.cos,
        resolve(arena, p, v).1.sin == v.direction.sin || resolve(arena, p, v).1.sin
            == -v.direction.sin,
        resolve(arena, p, v).1.wf(),
    decreases v.distance, outward_axes(arena, p, v),
{
    let c = candidate(p, v);
    match first_strike(arena, p, c) {
        None => {},
        Some((q, x_wall)) => {
            lemma_strike(arena, p, v);
            lemma_heading_mirrored(arena, q, rebound(v, rounded_distance(p, q), x_wall));
        },
    }
}

/// A path that ends inside the arena, short of every wall, is not
/// obstructed: the particle arrives at the end of the straight path with its
/// heading unchanged.
pub proof fn lemma_free_path(arena: Arena, p: Point, v: Velocity)
    requires
        arena.wf(),
        v.wf(),
        within_reach(p),
        0 <= candidate(p, v).0 < arena.width,
        0 <= candidate(p, v).1 < arena.height,
    ensures
        resolve(arena, p, v) == (candidate(p, v), v.direction),
{
}

/// A particle with no distance to travel stays where it is and keeps its
/// heading, wherever it stands.
pub proof fn lemma_no_distance_no_move(arena: Arena, p: Point, v: Velocity)
    requires
        arena.wf(),
        v.wf(),
        within_reach(p),
        v.distance == 0,
    ensures
        candidate(p, v) == p,
        resolve(arena, p, v) == (p, v.direction),
{
    lemma_candidate(p, v);
    lemma_travel_exact(0, v.direction.cos as int);
    lemma_travel_exact(0, v.direction.sin as int);
    let traveled = Line(p, p);
    lemma_vertical_wall(traveled, 0, arena.height);
    lemma_vertical_wall(traveled, arena.width, arena.height);
    lemma_horizontal_wall(traveled, 0, arena.width);
    lemma_horizontal_wall(traveled, arena.height, arena.width);
}

/// Computes the displacement along one axis:
/// `distance * component / DIRECTION_UNIT`, rounded to the nearest whole
/// length unit, halves away from zero.
pub fn compute_travel(distance: u32, component: i32) -> (moved: i32)
    requires
        distance <= MAX_REACH,
        -DIRECTION_UNIT <= component <= DIRECTION_UNIT,
    ensures
        moved == travel(distance as int, component as int),
        -distance <= moved <= distance,
{
    proof {
        lemma_travel_bound(distance as int, component as int);
    }
    if component >= 0 {
        assert(0 <= distance * component <= 1_000_000_000_000_000) by (nonlinear_arith)
            requires
                0 <= distance <= 1_000_000_000,
                0 <= component <= 1_000_000,
        ;
        let product: u64 = distance as u64 * component as u64;
        ((product + 500_000) / 1_000_000) as i32
    } else {
        assert(0 <= distance * (-component) <= 1_000_000_000_000_000) by (nonlinear_arith)
            requires
                0 <= distance <= 1_000_000_000,
                0 <= -component <= 1_000_000,
        ;
        let product: u64 = distance as u64 * ((-component) as u64);
        -(((product + 500_000) / 1_000_000) as i32)
    }
}

/// Computes the end of the straight path of one tick, walls ignored.
pub fn compute_candidate(p: Point, v: Velocity) -> (c: Point)
    requires
        v.wf(),
        within_reach(p),
    ensures
        c == candidate(p, v),
        c.0 == p.0 + travel(v.distance as int, v.direction.cos as int),
        c.1 == p.1 + travel(v.distance as int, v.direction.sin as int),
{
    proof {
        lemma_candidate(p, v);
    }
    let dx: i32 = compute_travel(v.distance, v.direction.cos);
    let dy: i32 = compute_travel(v.distance, v.direction.sin);
    (p.0 + dx, p.1 + dy)
}

/// Finds the wall struck first on the way from `p` to `c`: the crossing
/// point and whether the wall is a vertical one.
///
/// A wall is looked at only when `c` lies beyond it: the left wall for
/// `c.0 < 0`, the right one for `c.0 >= width`, and likewise top and bottom.
/// Of two crossings the one nearer to `p` counts, by the distance rounded to
/// whole length units; at equal distances the vertical wall counts.
pub fn find_first_strike(arena: &Arena, p: Point, c: Point) -> (strike: Option<(Point, bool)>)
    ensures
        strike == first_strike(*arena, p, c),
{
    let traveled = Line(p, c);
    let x_hit: Option<Point> = if c.0 < 0 {
        traveled.intersect(arena.left)
    } else if c.0 >= arena.width {
        traveled.intersect(arena.right)
    } else {
        None
    };
    let y_hit: Option<Point> = if c.1 < 0 {
        traveled.intersect(arena.top)
    } else if c.1 >= arena.height {
        traveled.intersect(arena.bottom)
    } else {
        None
    };
    match (x_hit, y_hit) {
        (Some(qx), Some(qy)) => {
            if calc_distance(p, qx) <= calc_distance(p, qy) {
                Some((qx, true))
            } else {
                Some((qy, false))
            }
        },
        (Some(qx), None) => Some((qx, true)),
        (None, Some(qy)) => Some((qy, false)),
        (None, None) => None,
    }
}

/// Advances one particle by one tick.
///
/// Returns the position after the tick and the velocity to start the next
/// tick with: the heading after the last bounce, and the distance of a full
/// tick. Bounces use up distance only within the tick.
#[verifier::loop_isolation(false)]
pub fn get_new_position(position: Point, velocity: Velocity, arena: &Arena) -> (moved: (
    Point,
    Velocity,
))
    requires
        arena.wf(),
        velocity.wf(),
        within_reach(position),
    ensures
        moved.0 == resolve(*arena, position, velocity).0,
        moved.1.direction == resolve(*arena, position, velocity).1,
        moved.1.distance == velocity.distance,
        moved.1.wf(),
        arena.contains(position) ==> arena.contains(moved.0),
        velocity.distance == 0 ==> moved.0 == position && moved.1 == velocity,
        0 <= candidate(position, velocity).0 < arena.width && 0 <= candidate(
            position,
            velocity,
        ).1 < arena.height ==> moved.0 == candidate(position, velocity) && moved.1 == velocity,
{
    proof {
        if arena.contains(position) {
            lemma_stays_inside(*arena, position, velocity);
        }
        if velocity.distance == 0 {
            lemma_no_distance_no_move(*arena, position, velocity);
        }
    }
    let mut p: Point = position;
    let mut v: Velocity = velocity;
    loop
        invariant
            v.wf(),
            within_reach(p),
            resolve(*arena, p, v) == resolve(*arena, position, velocity),
        decreases v.distance, outward_axes(*arena, p, v),
    {
        let c: Point = compute_candidate(p, v);
        match find_first_strike(arena, p, c) {
            None => {
                return (c, Velocity { direction: v.direction, distance: velocity.distance });
            },
            Some((q, x_wall)) => {
                let to_wall: u64 = calc_distance(p, q);
                proof {
                    lemma_strike(*arena, p, v);
                }
                let left: u32 = if to_wall <= v.distance as u64 {
                    v.distance - to_wall as u32
                } else {
                    0
                };
                v = Velocity { direction: v.direction.reflect(x_wall), distance: left };
                p = q;
            },
        }
    }
}

} // verus!
