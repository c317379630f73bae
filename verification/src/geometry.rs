//! Points, directed line segments and the point where two segments meet.

use vstd::prelude::*;
use crate::numeric::{
    floor_div, floor_ratio, in_unit_interval, lemma_floor_of_part, lemma_floor_ratio_shift,
    lemma_fraction_negated, lemma_nearest_root_bound, lemma_product_bound, nearest_root,
    rounded_root,
};

verus! {

/// The number of length units in one unit of arena size. Distances are
/// rounded to whole length units, that is to four decimal places of a unit of
/// arena size.
pub const LENGTH_SCALE: i32 = 10_000;

/// A point of the plane, by its `x` and `y` coordinates in length units.
pub type Point = (i32, i32);

/// A line segment from its start `.0` to its end `.1`.
///
/// The order of the two ends fixes the parametrisation: the point at
/// parameter `t` is `start + t * (end - start)`.
#[derive(Clone, Copy, Debug)]
pub struct Line(pub Point, pub Point);

/// The square of the Euclidean distance between two points.
pub open spec fn squared_distance(p1: Point, p2: Point) -> nat {
    ((p2.0 - p1.0) * (p2.0 - p1.0) + (p2.1 - p1.1) * (p2.1 - p1.1)) as nat
}

/// The Euclidean distance between two points, rounded to the nearest whole
/// length unit.
pub open spec fn rounded_distance(p1: Point, p2: Point) -> nat {
    nearest_root(squared_distance(p1, p2))
}

impl Line {
    /// The determinant of the two segments' direction vectors. It is zero
    /// exactly when the segments are parallel, or one of them is a single
    /// point.
    pub open spec fn denominator(self, other: Line) -> int {
        (self.0.0 - self.1.0) * (other.0.1 - other.1.1) - (self.0.1 - self.1.1) * (other.0.0
            - other.1.0)
    }

    /// Numerator of the parameter `t` on `self` at which the two carrying
    /// lines cross; `t` is this over [`Self::denominator`].
    pub open spec fn t_numerator(self, other: Line) -> int {
        (self.0.0 - other.0.0) * (other.0.1 - other.1.1) - (self.0.1 - other.0.1) * (other.0.0
            - other.1.0)
    }

    /// Numerator of the parameter `u` on `other` at which the two carrying
    /// lines cross; `u` is this over [`Self::denominator`].
    pub open spec fn u_numerator(self, other: Line) -> int {
        -((self.0.0 - self.1.0) * (self.0.1 - other.0.1) - (self.0.1 - self.1.1) * (self.0.0
            - other.0.0))
    }

    /// Whether the two segments are parallel.
    pub open spec fn parallel(self, other: Line) -> bool {
        self.denominator(other) == 0
    }

    /// Whether the two segments have a crossing point: they are not parallel
    /// and both parameters lie in the closed interval from 0 to 1, so a
    /// contact at an end point counts.
    pub open spec fn meets(self, other: Line) -> bool {
        &&& in_unit_interval(self.t_numerator(other), self.denominator(other))
        &&& in_unit_interval(self.u_numerator(other), self.denominator(other))
    }

    /// The `x` coordinate of the crossing point, `x1 + t * (x2 - x1)`,
    /// floored to a whole length unit.
    pub open spec fn meeting_x(self, other: Line) -> int {
        self.0.0 + floor_ratio(
            self.t_numerator(other) * (self.1.0 - self.0.0),
            self.denominator(other),
        )
    }

    /// The `y` coordinate of the crossing point, `y1 + t * (y2 - y1)`,
    /// floored to a whole length unit.
    pub open spec fn meeting_y(self, other: Line) -> int {
        self.0.1 + floor_ratio(
            self.t_numerator(other) * (self.1.1 - self.0.1),
            self.denominator(other),
        )
    }

    /// The point where the two segments cross, if they do.
    pub open spec fn intersection(self, other: Line) -> Option<Point> {
        if self.meets(other) {
            Some((self.meeting_x(other) as i32, self.meeting_y(other) as i32))
        } else {
            None
        }
    }

    /// The crossing point of two segments that meet lies in the bounding box
    /// of the first, so its coordinates are those of a [`Point`].
    pub proof fn lemma_meeting_point_in_box(self, other: Line)
        requires
            self.meets(other),
        ensures
            self.0.0 <= self.1.0 ==> self.0.0 <= self.meeting_x(other) <= self.1.0,
            self.0.0 >= self.1.0 ==> self.1.0 <= self.meeting_x(other) <= self.0.0,
            self.0.1 <= self.1.1 ==> self.0.1 <= self.meeting_y(other) <= self.1.1,
            self.0.1 >= self.1.1 ==> self.1.1 <= self.meeting_y(other) <= self.0.1,
            self.intersection(other) == Some(
                (self.meeting_x(other) as i32, self.meeting_y(other) as i32),
            ),
            self.meeting_x(other) as i32 == self.meeting_x(other),
            self.meeting_y(other) as i32 == self.meeting_y(other),
    {
        lemma_floor_of_part(
            self.t_numerator(other),
            self.denominator(other),
            self.1.0 - self.0.0,
        );
        lemma_floor_of_part(
            self.t_numerator(other),
            self.denominator(other),
            self.1.1 - self.0.1,
        );
    }

    /// Computes the point where two segments cross.
    ///
    /// Returns `None` when the segments are parallel or when the crossing of
    /// their carrying lines lies beyond an end of either segment; a contact
    /// at an end point is a crossing. The point returned is computed along
    /// `self` and floored to whole length units.
    pub fn intersect(self, other: Self) -> (hit: Option<Point>)
        ensures
            hit == self.intersection(other),
            hit is Some <==> self.meets(other),
            self.parallel(other) ==> hit is None,
            hit matches Some(p) ==> p.0 == self.meeting_x(other) && p.1 == self.meeting_y(other),
    {
        let x1: i128 = self.0.0 as i128;
        let y1: i128 = self.0.1 as i128;
        let x2: i128 = self.1.0 as i128;
        let y2: i128 = self.1.1 as i128;
        let x3: i128 = other.0.0 as i128;
        let y3: i128 = other.0.1 as i128;
        let x4: i128 = other.1.0 as i128;
        let y4: i128 = other.1.1 as i128;
        proof {
            let m = 0x1_0000_0000int;
            lemma_product_bound(x1 - x2, y3 - y4, m, m);
            lemma_product_bound(y1 - y2, x3 - x4, m, m);
            lemma_product_bound(x1 - x3, y3 - y4, m, m);
            lemma_product_bound(y1 - y3, x3 - x4, m, m);
            lemma_product_bound(x1 - x2, y1 - y3, m, m);
            lemma_product_bound(y1 - y2, x1 - x3, m, m);
        }
        let denominator: i128 = (x1 - x2) * (y3 - y4) - (y1 - y2) * (x3 - x4);
        if denominator == 0 {
            return None;
        }
        let t: i128 = (x1 - x3) * (y3 - y4) - (y1 - y3) * (x3 - x4);
        let u: i128 = -((x1 - x2) * (y1 - y3) - (y1 - y2) * (x1 - x3));
        if !(within_unit(t, denominator) && within_unit(u, denominator)) {
            return None;
        }
        proof {
            let m = 0x1_0000_0000int;
            lemma_product_bound(t as int, x2 - x1, 2 * m * m, m);
            lemma_product_bound(t as int, y2 - y1, 2 * m * m, m);
            self.lemma_meeting_point_in_box(other);
        }
        let px: i128 = x1 + floor_div(t * (x2 - x1), denominator);
        let py: i128 = y1 + floor_div(t * (y2 - y1), denominator);
        Some((px as i32, py as i32))
    }
}

/// Tests whether the fraction `n / d` lies between 0 and 1, both included.
fn within_unit(n: i128, d: i128) -> (r: bool)
    ensures
        r == in_unit_interval(n as int, d as int),
{
    if d > 0 {
        0 <= n && n <= d
    } else {
        d < 0 && d <= n && n <= 0
    }
}

/// Computes the Euclidean distance between two points, rounded to the
/// nearest whole length unit.
pub fn calc_distance(p1: Point, p2: Point) -> (d: u64)
    ensures
        d == rounded_distance(p1, p2),
{
    let dx: i128 = p2.0 as i128 - p1.0 as i128;
    let dy: i128 = p2.1 as i128 - p1.1 as i128;
    proof {
        let m = 0xFFFF_FFFFint;
        lemma_product_bound(dx as int, dx as int, m, m);
        lemma_product_bound(dy as int, dy as int, m, m);
        assert(dx * dx >= 0 && dy * dy >= 0) by (nonlinear_arith);
    }
    let squared: i128 = dx * dx + dy * dy;
    let root: u128 = rounded_root(squared as u128);
    proof {
        assert(0x2_0000_0000nat * 0x2_0000_0000nat == 0x4_0000_0000_0000_0000nat)
            by (nonlinear_arith);
        lemma_nearest_root_bound(squared as nat, 0x2_0000_0000);
    }
    root as u64
}

/// The two numerators and the determinant of a pair of segments, written
/// over the segments' direction vectors `(a, b)` and `(c, e)` and the offset
/// `(f, g)` from the start of the first to the start of the second.
proof fn lemma_crossing_terms(s: Line, o: Line)
    ensures
        s.denominator(o) == (s.1.0 - s.0.0) * (o.1.1 - o.0.1) - (s.1.1 - s.0.1) * (o.1.0 - o.0.0),
        s.t_numerator(o) == (o.0.0 - s.0.0) * (o.1.1 - o.0.1) - (o.0.1 - s.0.1) * (o.1.0 - o.0.0),
        s.u_numerator(o) == (s.1.1 - s.0.1) * (o.0.0 - s.0.0) - (s.1.0 - s.0.0) * (o.0.1 - s.0.1),
{
    let a = s.1.0 - s.0.0;
    let b = s.1.1 - s.0.1;
    let c = o.1.0 - o.0.0;
    let e = o.1.1 - o.0.1;
    let f = o.0.0 - s.0.0;
    let g = o.0.1 - s.0.1;
    assert((-a) * (-e) - (-b) * (-c) == a * e - b * c) by (nonlinear_arith);
    assert((-f) * (-e) - (-g) * (-c) == f * e - g * c) by (nonlinear_arith);
    assert(-((-a) * (-g) - (-b) * (-f)) == b * f - a * g) by (nonlinear_arith);
}

/// The crossing point computed along either segment is the same point:
/// `start + t * direction` of the first equals `start + u * direction` of
/// the second, both scaled by the determinant.
proof fn lemma_same_crossing(s: Line, o: Line)
    ensures
        o.0.0 * s.denominator(o) + s.u_numerator(o) * (o.1.0 - o.0.0) == s.0.0 * s.denominator(o)
            + s.t_numerator(o) * (s.1.0 - s.0.0),
        o.0.1 * s.denominator(o) + s.u_numerator(o) * (o.1.1 - o.0.1) == s.0.1 * s.denominator(o)
            + s.t_numerator(o) * (s.1.1 - s.0.1),
{
    let a = s.1.0 - s.0.0;
    let b = s.1.1 - s.0.1;
    let c = o.1.0 - o.0.0;
    let e = o.1.1 - o.0.1;
    let f = o.0.0 - s.0.0;
    let g = o.0.1 - s.0.1;
    let den = s.denominator(o);
    let t = s.t_numerator(o);
    let u = s.u_numerator(o);
    lemma_crossing_terms(s, o);
    assert(f * (a * e - b * c) + (b * f - a * g) * c - (f * e - g * c) * a == 0)
        by (nonlinear_arith);
    assert(g * (a * e - b * c) + (b * f - a * g) * e - (f * e - g * c) * b == 0)
        by (nonlinear_arith);
    let x1 = s.0.0 as int;
    let y1 = s.0.1 as int;
    assert((x1 + f) * den == x1 * den + f * den) by (nonlinear_arith);
    assert((y1 + g) * den == y1 * den + g * den) by (nonlinear_arith);
}

/// Segment intersection does not depend on the order of the two segments:
/// both orders report a crossing for the same pairs, and the same point.
pub proof fn lemma_intersection_symmetric(a: Line, b: Line)
    ensures
        a.intersection(b) == b.intersection(a),
{
    let den = a.denominator(b);
    let t = a.t_numerator(b);
    let u = a.u_numerator(b);
    lemma_crossing_terms(a, b);
    lemma_crossing_terms(b, a);
    let dxa = a.1.0 - a.0.0;
    let dya = a.1.1 - a.0.1;
    let dxb = b.1.0 - b.0.0;
    let dyb = b.1.1 - b.0.1;
    let fx = b.0.0 - a.0.0;
    let fy = b.0.1 - a.0.1;
    assert(b.denominator(a) == -den) by (nonlinear_arith)
        requires
            den == dxa * dyb - dya * dxb,
            b.denominator(a) == dxb * dya - dyb * dxa,
    ;
    assert(b.t_numerator(a) == -u) by (nonlinear_arith)
        requires
            u == dya * fx - dxa * fy,
            b.t_numerator(a) == (-fx) * dya - (-fy) * dxa,
    ;
    assert(b.u_numerator(a) == -t) by (nonlinear_arith)
        requires
            t == fx * dyb - fy * dxb,
            b.u_numerator(a) == dyb * (-fx) - dxb * (-fy),
    ;
    if den != 0 {
        lemma_fraction_negated(t, den);
        lemma_fraction_negated(u, den);
    }
    assert(a.meets(b) == b.meets(a));
    if a.meets(b) {
        // Both orders floor the same exact point, whose coordinates times
        // the determinant are `nx` and `ny`.
        let nx = a.0.0 * den + t * dxa;
        let ny = a.0.1 * den + t * dya;
        lemma_same_crossing(a, b);
        lemma_floor_ratio_shift(t * dxa, den, a.0.0 as int);
        lemma_floor_ratio_shift(u * dxb, den, b.0.0 as int);
        lemma_floor_ratio_shift(t * dya, den, a.0.1 as int);
        lemma_floor_ratio_shift(u * dyb, den, b.0.1 as int);
        assert((-u) * dxb == -(u * dxb)) by (nonlinear_arith);
        assert((-u) * dyb == -(u * dyb)) by (nonlinear_arith);
        lemma_fraction_negated(u * dxb, den);
        lemma_fraction_negated(u * dyb, den);
        assert(a.meeting_x(b) == floor_ratio(nx, den));
        assert(b.meeting_x(a) == floor_ratio(nx, den));
        assert(a.meeting_y(b) == floor_ratio(ny, den));
        assert(b.meeting_y(a) == floor_ratio(ny, den));
    }
}

/// Parallel segments have no crossing point.
pub proof fn lemma_parallel_never_meet(a: Line, b: Line)
    requires
        a.parallel(b),
    ensures
        a.intersection(b) is None,
        b.intersection(a) is None,
{
    lemma_intersection_symmetric(a, b);
}

/// Every segment is parallel to itself, so a segment has no crossing point
/// with itself.
pub proof fn lemma_parallel_to_itself(a: Line)
    ensures
        a.parallel(a),
        a.intersection(a) is None,
{
    let dx = a.0.0 - a.1.0;
    let dy = a.0.1 - a.1.1;
    assert(dx * dy - dy * dx == 0) by (nonlinear_arith);
}

} // verus!
