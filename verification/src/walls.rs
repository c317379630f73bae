//! Where a straight move meets an axis-aligned wall, and why a move that
//! leaves a rectangle crosses one of its sides.

use vstd::prelude::*;
use crate::geometry::Line;
use crate::numeric::{
    floor_ratio, in_unit_interval, lemma_floor_ratio_of_multiple, lemma_floor_ratio_shift,
    lemma_floor_within_extent, lemma_fraction_negated, lemma_fraction_scaled,
};

verus! {

/// Whether a straight move crosses an axis-aligned wall.
///
/// The move starts at `a1` along the wall's normal axis and at `b1` along
/// the wall, and goes by `da` and `db`. The wall stands at `wall` on the
/// normal axis and reaches from 0 to `extent` along the other. The move
/// crosses it when it reaches the wall's line within its length and the
/// crossing lies within the wall's extent, ends included.
pub open spec fn axis_hit(a1: int, b1: int, da: int, db: int, wall: int, extent: int) -> bool {
    &&& in_unit_interval(wall - a1, da)
    &&& in_unit_interval(b1 * da + (wall - a1) * db, extent * da)
}

/// Where along the wall the move of [`axis_hit`] crosses it, floored to a
/// whole length unit.
pub open spec fn axis_landing(a1: int, b1: int, da: int, db: int, wall: int) -> int {
    floor_ratio(b1 * da + (wall - a1) * db, da)
}

/// A segment meets the vertical wall from `(wx, 0)` to `(wx, h)` exactly
/// when its move crosses the wall along `x`; the crossing point then has
/// `x = wx` and a `y` on the wall.
pub proof fn lemma_vertical_wall(s: Line, wx: i32, h: i32)
    requires
        h > 0,
    ensures
        ({
            let wall = Line((wx, 0), (wx, h));
            let dx = s.1.0 - s.0.0;
            let dy = s.1.1 - s.0.1;
            &&& s.meets(wall) == axis_hit(s.0.0 as int, s.0.1 as int, dx, dy, wx as int, h as int)
            &&& s.meets(wall) ==> {
                &&& s.meeting_x(wall) == wx
                &&& s.meeting_y(wall) == axis_landing(s.0.0 as int, s.0.1 as int, dx, dy, wx as int)
                &&& 0 <= s.meeting_y(wall) <= h
            }
        }),
{
    let wall = Line((wx, 0), (wx, h));
    let x1 = s.0.0 as int;
    let y1 = s.0.1 as int;
    let dx = s.1.0 - s.0.0;
    let dy = s.1.1 - s.0.1;
    let den = s.denominator(wall);
    let t = s.t_numerator(wall);
    let u = s.u_numerator(wall);
    let f = wx - x1;
    let v = y1 * dx + f * dy;
    assert(den == dx * h) by (nonlinear_arith)
        requires
            den == (-dx) * (0 - h) - (-dy) * (wx - wx),
    ;
    assert(t == f * h) by (nonlinear_arith)
        requires
            t == (-f) * (0 - h) - (y1 - 0) * (wx - wx),
    ;
    assert(u == v) by (nonlinear_arith)
        requires
            u == -((-dx) * (y1 - 0) - (-dy) * (-f)),
            v == y1 * dx + f * dy,
    ;
    assert(h * dx == dx * h) by (nonlinear_arith);
    lemma_fraction_scaled(f, dx, h as int);
    if s.meets(wall) {
        assert(den != 0);
        assert(dx != 0) by (nonlinear_arith)
            requires
                dx * h != 0,
        ;
        assert(t * dx == f * den) by (nonlinear_arith)
            requires
                t == f * h,
                den == dx * h,
        ;
        lemma_floor_ratio_of_multiple(f, den);
        assert(t * dy + y1 * den == v * h) by (nonlinear_arith)
            requires
                t == f * h,
                den == dx * h,
                v == y1 * dx + f * dy,
        ;
        lemma_floor_ratio_shift(t * dy, den, y1);
        lemma_fraction_scaled(v, dx, h as int);
        lemma_floor_within_extent(v, dx, h as int);
    }
}

/// A segment meets the horizontal wall from `(0, wy)` to `(w, wy)` exactly
/// when its move crosses the wall along `y`; the crossing point then has
/// `y = wy` and an `x` on the wall.
pub proof fn lemma_horizontal_wall(s: Line, wy: i32, w: i32)
    requires
        w > 0,
    ensures
        ({
            let wall = Line((0, wy), (w, wy));
            let dx = s.1.0 - s.0.0;
            let dy = s.1.1 - s.0.1;
            &&& s.meets(wall) == axis_hit(s.0.1 as int, s.0.0 as int, dy, dx, wy as int, w as int)
            &&& s.meets(wall) ==> {
                &&& s.meeting_y(wall) == wy
                &&& s.meeting_x(wall) == axis_landing(s.0.1 as int, s.0.0 as int, dy, dx, wy as int)
                &&& 0 <= s.meeting_x(wall) <= w
            }
        }),
{
    let wall = Line((0, wy), (w, wy));
    let x1 = s.0.0 as int;
    let y1 = s.0.1 as int;
    let dx = s.1.0 - s.0.0;
    let dy = s.1.1 - s.0.1;
    let den = s.denominator(wall);
    let t = s.t_numerator(wall);
    let u = s.u_numerator(wall);
    let g = wy - y1;
    let v = x1 * dy + g * dx;
    assert(den == -(dy * w)) by (nonlinear_arith)
        requires
            den == (-dx) * (wy - wy) - (-dy) * (0 - w),
    ;
    assert(t == -(g * w)) by (nonlinear_arith)
        requires
            t == (x1 - 0) * (wy - wy) - (-g) * (0 - w),
    ;
    assert(u == -v) by (nonlinear_arith)
        requires
            u == -((-dx) * (-g) - (-dy) * (x1 - 0)),
            v == x1 * dy + g * dx,
    ;
    assert(w * dy == dy * w) by (nonlinear_arith);
    lemma_fraction_scaled(g, dy, w as int);
    if dy * w != 0 {
        lemma_fraction_negated(g * w, dy * w);
        lemma_fraction_negated(v, dy * w);
    }
    if s.meets(wall) {
        assert(den != 0);
        assert(dy != 0) by (nonlinear_arith)
            requires
                dy * w != 0,
        ;
        assert(t * dy == g * den) by (nonlinear_arith)
            requires
                t == -(g * w),
                den == -(dy * w),
        ;
        lemma_floor_ratio_of_multiple(g, den);
        assert(t * dx + x1 * den == -(v * w)) by (nonlinear_arith)
            requires
                t == -(g * w),
                den == -(dy * w),
                v == x1 * dy + g * dx,
        ;
        lemma_floor_ratio_shift(t * dx, den, x1);
        lemma_fraction_negated(v * w, dy * w);
        lemma_fraction_scaled(v, dy, w as int);
        lemma_floor_within_extent(v, dy, w as int);
    }
}

/// A move that starts inside a rectangle and ends beyond its far side along
/// one axis crosses the far wall of that axis, or leaves along the other
/// axis and crosses the wall there.
pub proof fn lemma_exit_far(a1: int, b1: int, da: int, db: int, far_a: int, far_b: int)
    requires
        far_a > 0,
        far_b > 0,
        0 <= a1 <= far_a,
        0 <= b1 <= far_b,
        a1 + da > far_a,
    ensures
        axis_hit(a1, b1, da, db, far_a, far_b) || (b1 + db > far_b && axis_hit(
            b1,
            a1,
            db,
            da,
            far_b,
            far_a,
        )) || (b1 + db < 0 && axis_hit(b1, a1, db, da, 0, far_a)),
{
    let rise = far_a - a1;
    let v = b1 * da + rise * db;
    assert(far_b * da > 0 && b1 * da >= 0) by (nonlinear_arith)
        requires
            da > 0,
            far_b >= b1 >= 0,
            far_b > 0,
    ;
    if v > far_b * da {
        assert(db > (far_b - b1) && rise * db >= (far_b - b1) * da && a1 * db >= 0 && far_a * db
            > 0) by (nonlinear_arith)
            requires
                v == b1 * da + rise * db,
                v > far_b * da,
                0 <= rise < da,
                far_b - b1 >= 0,
                a1 >= 0,
                far_a >= rise,
                rise == far_a - a1,
        ;
        assert(a1 * db + (far_b - b1) * da <= far_a * db) by (nonlinear_arith)
            requires
                rise * db >= (far_b - b1) * da,
                rise == far_a - a1,
        ;
        assert((far_b - b1) * da >= 0) by (nonlinear_arith)
            requires
                far_b - b1 >= 0,
                da > 0,
        ;
    } else if v < 0 {
        assert(db < 0 && b1 < -db && b1 * da <= rise * (-db) && a1 * db <= 0 && far_a * db < 0)
            by (nonlinear_arith)
            requires
                v == b1 * da + rise * db,
                v < 0,
                0 <= rise < da,
                b1 >= 0,
                a1 >= 0,
                far_a >= rise,
                far_a > 0,
        ;
        assert(far_a * db <= a1 * db + (0 - b1) * da) by (nonlinear_arith)
            requires
                b1 * da <= rise * (-db),
                rise == far_a - a1,
        ;
        assert((0 - b1) * da <= 0) by (nonlinear_arith)
            requires
                b1 >= 0,
                da > 0,
        ;
    }
}

/// A move that starts inside a rectangle and ends before its near side
/// along one axis crosses the near wall of that axis, or leaves along the
/// other axis and crosses the wall there.
pub proof fn lemma_exit_near(a1: int, b1: int, da: int, db: int, far_a: int, far_b: int)
    requires
        far_a > 0,
        far_b > 0,
        0 <= a1 <= far_a,
        0 <= b1 <= far_b,
        a1 + da < 0,
    ensures
        axis_hit(a1, b1, da, db, 0, far_b) || (b1 + db > far_b && axis_hit(
            b1,
            a1,
            db,
            da,
            far_b,
            far_a,
        )) || (b1 + db < 0 && axis_hit(b1, a1, db, da, 0, far_a)),
{
    let v = b1 * da + (0 - a1) * db;
    assert(far_b * da < 0 && b1 * da <= 0) by (nonlinear_arith)
        requires
            da < 0,
            far_b >= b1 >= 0,
            far_b > 0,
    ;
    if v > 0 {
        assert(db < 0 && b1 < -db && a1 * (-db) >= b1 * (-da) && a1 * db <= 0 && far_a * db < 0
            && (far_a - a1) * db <= 0) by (nonlinear_arith)
            requires
                v == b1 * da + (0 - a1) * db,
                v > 0,
                0 <= a1 < -da,
                b1 >= 0,
                far_a >= a1,
                far_a > 0,
        ;
        assert(far_a * db <= a1 * db + (0 - b1) * da <= 0) by (nonlinear_arith)
            requires
                a1 * (-db) >= b1 * (-da),
                (far_a - a1) * db <= 0,
                b1 * da <= 0,
        ;
    } else if v < far_b * da {
        assert(db > far_b - b1 && a1 * db >= (far_b - b1) * (-da) && far_a * db > 0 && (far_a
            - a1) * db >= 0) by (nonlinear_arith)
            requires
                v == b1 * da + (0 - a1) * db,
                v < far_b * da,
                0 <= a1 < -da,
                far_b - b1 >= 0,
                far_a >= a1,
                far_a > 0,
        ;
        assert((far_b - b1) * da <= 0) by (nonlinear_arith)
            requires
                far_b - b1 >= 0,
                da < 0,
        ;
        assert(0 <= a1 * db + (far_b - b1) * da <= far_a * db) by (nonlinear_arith)
            requires
                a1 * db >= (far_b - b1) * (-da),
                (far_a - a1) * db >= 0,
                (far_b - b1) * da <= 0,
        ;
    }
}

} // verus!
