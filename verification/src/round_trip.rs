//! The round trip: a particle launched straight at a wall, with twice the
//! way to the wall to travel, comes back to where it started.
//!
//! One law for each wall covers every start inside the arena but the start
//! on the opposite wall of a near wall, where the way back ends in a second
//! bounce; the two laws for a start on the opposite wall cover that one.

use vstd::prelude::*;
use crate::arena::Arena;
use crate::geometry::{rounded_distance, Line, Point};
use crate::motion::{
    candidate, first_strike, lemma_candidate, lemma_no_distance_no_move, lemma_travel_exact,
    rebound, resolve, x_contact, y_contact, Velocity, DIRECTION_UNIT,
};
use crate::numeric::{in_unit_interval, lemma_floor_ratio_of_multiple, lemma_nearest_root_of_square};
use crate::walls::{lemma_horizontal_wall, lemma_vertical_wall};

verus! {

/// A particle launched straight at the right wall from a distance `d`,
/// with `2 * d` to travel, is back where it started after the tick, heading
/// the opposite way.
pub proof fn lemma_round_trip_right(arena: Arena, p: Point, v: Velocity, d: int)
    requires
        arena.wf(),
        arena.contains(p),
        v.wf(),
        0 < d,
        p.0 == arena.width - d,
        v.direction.cos == DIRECTION_UNIT,
        v.direction.sin == 0,
        v.distance == 2 * d,
    ensures
        resolve(arena, p, v) == (p, v.direction.reflected(true)),
{
    let back = v.direction.reflected(true);
    let c = candidate(p, v);
    let q: Point = (arena.width, p.1);
    lemma_candidate(p, v);
    lemma_travel_exact(2 * d, 0);
    assert(c == ((arena.width + d) as i32, p.1));
    lemma_bounce_point_x(arena, p, c, arena.width);
    assert(first_strike(arena, p, c) == Some((q, true)));
    lemma_straight_distance(p, q);
    let v2 = rebound(v, rounded_distance(p, q), true);
    assert(v2 == Velocity { direction: back, distance: d as u32 });
    lemma_candidate(q, v2);
    lemma_travel_exact(d, 0);
    let c2 = candidate(q, v2);
    assert(c2 == p);
    lemma_level_path(arena, q, c2);
    assert(first_strike(arena, q, c2) is None);
    assert(resolve(arena, q, v2) == (p, back));
}

/// A particle launched straight at the left wall from a distance `d`,
/// with `2 * d` to travel, is back where it started after the tick, heading
/// the opposite way.
pub proof fn lemma_round_trip_left(arena: Arena, p: Point, v: Velocity, d: int)
    requires
        arena.wf(),
        arena.contains(p),
        v.wf(),
        0 < d,
        p.0 == d,
        d < arena.width,
        v.direction.cos == -DIRECTION_UNIT,
        v.direction.sin == 0,
        v.distance == 2 * d,
    ensures
        resolve(arena, p, v) == (p, v.direction.reflected(true)),
{
    let back = v.direction.reflected(true);
    let c = candidate(p, v);
    let q: Point = (0, p.1);
    lemma_candidate(p, v);
    lemma_travel_exact(2 * d, 0);
    assert(c == ((-d) as i32, p.1));
    lemma_bounce_point_x(arena, p, c, 0);
    assert(first_strike(arena, p, c) == Some((q, true)));
    lemma_straight_distance(p, q);
    let v2 = rebound(v, rounded_distance(p, q), true);
    assert(v2 == Velocity { direction: back, distance: d as u32 });
    lemma_candidate(q, v2);
    lemma_travel_exact(d, 0);
    let c2 = candidate(q, v2);
    assert(c2 == p);
    lemma_level_path(arena, q, c2);
    assert(first_strike(arena, q, c2) is None);
    assert(resolve(arena, q, v2) == (p, back));
}

/// A particle launched straight at the bottom wall from a distance `d`,
/// with `2 * d` to travel, is back where it started after the tick, heading
/// the opposite way.
pub proof fn lemma_round_trip_bottom(arena: Arena, p: Point, v: Velocity, d: int)
    requires
        arena.wf(),
        arena.contains(p),
        v.wf(),
        0 < d,
        p.1 == arena.height - d,
        v.direction.cos == 0,
        v.direction.sin == DIRECTION_UNIT,
        v.distance == 2 * d,
    ensures
        resolve(arena, p, v) == (p, v.direction.reflected(false)),
{
    let back = v.direction.reflected(false);
    let c = candidate(p, v);
    let q: Point = (p.0, arena.height);
    lemma_candidate(p, v);
    lemma_travel_exact(2 * d, 0);
    assert(c == (p.0, (arena.height + d) as i32));
    lemma_bounce_point_y(arena, p, c, arena.height);
    assert(first_strike(arena, p, c) == Some((q, false)));
    lemma_straight_distance(p, q);
    let v2 = rebound(v, rounded_distance(p, q), false);
    assert(v2 == Velocity { direction: back, distance: d as u32 });
    lemma_candidate(q, v2);
    lemma_travel_exact(d, 0);
    let c2 = candidate(q, v2);
    assert(c2 == p);
    lemma_upright_path(arena, q, c2);
    assert(first_strike(arena, q, c2) is None);
    assert(resolve(arena, q, v2) == (p, back));
}

/// A particle launched straight at the top wall from a distance `d`,
/// with `2 * d` to travel, is back where it started after the tick, heading
/// the opposite way.
pub proof fn lemma_round_trip_top(arena: Arena, p: Point, v: Velocity, d: int)
    requires
        arena.wf(),
        arena.contains(p),
        v.wf(),
        0 < d,
        p.1 == d,
        d < arena.height,
        v.direction.cos == 0,
        v.direction.sin == -DIRECTION_UNIT,
        v.distance == 2 * d,
    ensures
        resolve(arena, p, v) == (p, v.direction.reflected(false)),
{
    let back = v.direction.reflected(false);
    let c = candidate(p, v);
    let q: Point = (p.0, 0);
    lemma_candidate(p, v);
    lemma_travel_exact(2 * d, 0);
    assert(c == (p.0, (-d) as i32));
    lemma_bounce_point_y(arena, p, c, 0);
    assert(first_strike(arena, p, c) == Some((q, false)));
    lemma_straight_distance(p, q);
    let v2 = rebound(v, rounded_distance(p, q), false);
    assert(v2 == Velocity { direction: back, distance: d as u32 });
    lemma_candidate(q, v2);
    lemma_travel_exact(d, 0);
    let c2 = candidate(q, v2);
    assert(c2 == p);
    lemma_upright_path(arena, q, c2);
    assert(first_strike(arena, q, c2) is None);
    assert(resolve(arena, q, v2) == (p, back));
}

/// A particle on the right wall launched straight at the left wall, with
/// twice the way across to travel, bounces off the left wall and then off the
/// right wall, and is back where it started, heading as at the start.
pub proof fn lemma_round_trip_across_x(arena: Arena, p: Point, v: Velocity)
    requires
        arena.wf(),
        arena.contains(p),
        v.wf(),
        p.0 == arena.width,
        v.direction.cos == -DIRECTION_UNIT,
        v.direction.sin == 0,
        v.distance == 2 * arena.width,
    ensures
        resolve(arena, p, v) == (p, v.direction),
{
    let d = arena.width as int;
    let c = candidate(p, v);
    let q: Point = (0, p.1);
    lemma_candidate(p, v);
    lemma_travel_exact(2 * d, 0);
    assert(c == ((-d) as i32, p.1));
    lemma_bounce_point_x(arena, p, c, 0);
    assert(first_strike(arena, p, c) == Some((q, true)));
    lemma_straight_distance(p, q);
    let v2 = rebound(v, rounded_distance(p, q), true);
    assert(v2 == Velocity { direction: v.direction.reflected(true), distance: d as u32 });
    lemma_candidate(q, v2);
    lemma_travel_exact(d, 0);
    let c2 = candidate(q, v2);
    assert(c2 == p);
    lemma_bounce_point_x(arena, q, c2, arena.width);
    assert(first_strike(arena, q, c2) == Some((p, true)));
    lemma_straight_distance(q, p);
    let v3 = rebound(v2, rounded_distance(q, p), true);
    assert(v3 == Velocity { direction: v.direction, distance: 0 });
    lemma_no_distance_no_move(arena, p, v3);
    assert(resolve(arena, q, v2) == (p, v.direction));
}

/// A particle on the bottom wall launched straight at the top wall, with
/// twice the way across to travel, bounces off the top wall and then off the
/// bottom wall, and is back where it started, heading as at the start.
pub proof fn lemma_round_trip_across_y(arena: Arena, p: Point, v: Velocity)
    requires
        arena.wf(),
        arena.contains(p),
        v.wf(),
        p.1 == arena.height,
        v.direction.cos == 0,
        v.direction.sin == -DIRECTION_UNIT,
        v.distance == 2 * arena.height,
    ensures
        resolve(arena, p, v) == (p, v.direction),
{
    let d = arena.height as int;
    let c = candidate(p, v);
    let q: Point = (p.0, 0);
    lemma_candidate(p, v);
    lemma_travel_exact(2 * d, 0);
    assert(c == (p.0, (-d) as i32));
    lemma_bounce_point_y(arena, p, c, 0);
    assert(first_strike(arena, p, c) == Some((q, false)));
    lemma_straight_distance(p, q);
    let v2 = rebound(v, rounded_distance(p, q), false);
    assert(v2 == Velocity { direction: v.direction.reflected(false), distance: d as u32 });
    lemma_candidate(q, v2);
    lemma_travel_exact(d, 0);
    let c2 = candidate(q, v2);
    assert(c2 == p);
    lemma_bounce_point_y(arena, q, c2, arena.height);
    assert(first_strike(arena, q, c2) == Some((p, false)));
    lemma_straight_distance(q, p);
    let v3 = rebound(v2, rounded_distance(q, p), false);
    assert(v3 == Velocity { direction: v.direction, distance: 0 });
    lemma_no_distance_no_move(arena, p, v3);
    assert(resolve(arena, q, v2) == (p, v.direction));
}

/// A level path from inside the arena that ends beyond the vertical wall at
/// `wx`, or on it, strikes that wall at its own height and no other wall.
proof fn lemma_bounce_point_x(arena: Arena, p: Point, c: Point, wx: i32)
    requires
        arena.wf(),
        arena.contains(p),
        c.1 == p.1,
        c.0 != p.0,
        (wx == 0 && c.0 < 0) || (wx == arena.width && c.0 >= arena.width),
    ensures
        first_strike(arena, p, c) == Some(((wx, p.1), true)),
{
    let traveled = Line(p, c);
    let dx = c.0 - p.0;
    lemma_vertical_wall(traveled, wx, arena.height);
    lemma_horizontal_wall(traveled, 0, arena.width);
    lemma_horizontal_wall(traveled, arena.height, arena.width);
    let f = wx - p.0;
    assert(f * 0 == 0) by (nonlinear_arith);
    assert((dx > 0 ==> 0 <= p.1 * dx <= arena.height * dx && arena.height * dx > 0) && (dx < 0
        ==> arena.height * dx <= p.1 * dx <= 0 && arena.height * dx < 0)) by (nonlinear_arith)
        requires
            0 <= p.1 <= arena.height,
            arena.height > 0,
    ;
    assert(in_unit_interval(p.1 * dx + f * 0, arena.height * dx));
    lemma_floor_ratio_of_multiple(p.1 as int, dx);
    let wall = x_contact(arena, c)->0;
    assert(wall == Line((wx, 0), (wx, arena.height)));
    traveled.lemma_meeting_point_in_box(wall);
}

/// An upright path from inside the arena that ends beyond the horizontal
/// wall at `wy`, or on it, strikes that wall at its own abscissa and no
/// other wall.
proof fn lemma_bounce_point_y(arena: Arena, p: Point, c: Point, wy: i32)
    requires
        arena.wf(),
        arena.contains(p),
        c.0 == p.0,
        c.1 != p.1,
        (wy == 0 && c.1 < 0) || (wy == arena.height && c.1 >= arena.height),
    ensures
        first_strike(arena, p, c) == Some(((p.0, wy), false)),
{
    let traveled = Line(p, c);
    let dy = c.1 - p.1;
    lemma_horizontal_wall(traveled, wy, arena.width);
    lemma_vertical_wall(traveled, 0, arena.height);
    lemma_vertical_wall(traveled, arena.width, arena.height);
    let g = wy - p.1;
    assert(g * 0 == 0) by (nonlinear_arith);
    assert((dy > 0 ==> 0 <= p.0 * dy <= arena.width * dy && arena.width * dy > 0) && (dy < 0
        ==> arena.width * dy <= p.0 * dy <= 0 && arena.width * dy < 0)) by (nonlinear_arith)
        requires
            0 <= p.0 <= arena.width,
            arena.width > 0,
    ;
    assert(in_unit_interval(p.0 * dy + g * 0, arena.width * dy));
    lemma_floor_ratio_of_multiple(p.0 as int, dy);
    let wall = y_contact(arena, c)->0;
    assert(wall == Line((0, wy), (arena.width, wy)));
    traveled.lemma_meeting_point_in_box(wall);
}

/// A level path that ends short of both vertical walls strikes nothing.
proof fn lemma_level_path(arena: Arena, p: Point, c: Point)
    requires
        arena.wf(),
        c.1 == p.1,
        0 <= c.0 < arena.width,
    ensures
        first_strike(arena, p, c) is None,
{
    let traveled = Line(p, c);
    lemma_horizontal_wall(traveled, 0, arena.width);
    lemma_horizontal_wall(traveled, arena.height, arena.width);
}

/// An upright path that ends short of both horizontal walls strikes
/// nothing.
proof fn lemma_upright_path(arena: Arena, p: Point, c: Point)
    requires
        arena.wf(),
        c.0 == p.0,
        0 <= c.1 < arena.height,
    ensures
        first_strike(arena, p, c) is None,
{
    let traveled = Line(p, c);
    lemma_vertical_wall(traveled, 0, arena.height);
    lemma_vertical_wall(traveled, arena.width, arena.height);
}

/// Two points on a level or an upright line are as far apart as their
/// coordinates differ.
proof fn lemma_straight_distance(p: Point, q: Point)
    requires
        p.0 == q.0 || p.1 == q.1,
    ensures
        p.1 == q.1 && q.0 >= p.0 ==> rounded_distance(p, q) == q.0 - p.0,
        p.1 == q.1 && q.0 <= p.0 ==> rounded_distance(p, q) == p.0 - q.0,
        p.0 == q.0 && q.1 >= p.1 ==> rounded_distance(p, q) == q.1 - p.1,
        p.0 == q.0 && q.1 <= p.1 ==> rounded_distance(p, q) == p.1 - q.1,
{
    let dx = q.0 - p.0;
    let dy = q.1 - p.1;
    let d: nat = if dx != 0 {
        (if dx > 0 {
            dx
        } else {
            -dx
        }) as nat
    } else {
        (if dy > 0 {
            dy
        } else {
            -dy
        }) as nat
    };
    assert(dx * dx + dy * dy == d * d) by (nonlinear_arith)
        requires
            dx == 0 || dy == 0,
            dx != 0 ==> d == dx || d == -dx,
            dx == 0 ==> d == dy || d == -dy,
    ;
    lemma_nearest_root_of_square(d);
}

} // verus!
