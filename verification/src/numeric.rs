//! Integer arithmetic shared by the geometry and the motion resolver:
//! fractions and their floors, and square roots rounded to whole numbers.

use vstd::prelude::*;
use vstd::arithmetic::div_mod::lemma_fundamental_div_mod;
use vstd::arithmetic::div_mod::lemma_fundamental_div_mod_converse;

verus! {

/// Whether the fraction `n / d` lies in the closed interval from 0 to 1.
/// A fraction with denominator zero lies nowhere.
pub open spec fn in_unit_interval(n: int, d: int) -> bool {
    if d > 0 {
        0 <= n <= d
    } else {
        d < 0 && d <= n <= 0
    }
}

/// The greatest integer that is not above the fraction `n / d`.
/// Meaningful for `d != 0` only.
pub open spec fn floor_ratio(n: int, d: int) -> int {
    if d > 0 {
        n / d
    } else {
        (-n) / (-d)
    }
}

/// A quotient `q` with `q * d <= n < (q + 1) * d` for positive `d`
/// (and the mirrored bounds for negative `d`) is the floor of `n / d`.
pub proof fn lemma_floor_ratio_is(n: int, d: int, q: int)
    requires
        d != 0,
        d > 0 ==> q * d <= n < (q + 1) * d,
        d < 0 ==> q * d >= n > (q + 1) * d,
    ensures
        floor_ratio(n, d) == q,
{
    if d > 0 {
        let r = n - q * d;
        assert(0 <= r < d) by (nonlinear_arith)
            requires
                r == n - q * d,
                q * d <= n < (q + 1) * d,
        ;
        lemma_fundamental_div_mod_converse(n, d, q, r);
    } else {
        let e = -d;
        let r = -n - q * e;
        assert(0 <= r < e && -n == q * e + r) by (nonlinear_arith)
            requires
                e == -d,
                r == -n - q * e,
                q * d >= n > (q + 1) * d,
        ;
        lemma_fundamental_div_mod_converse(-n, e, q, r);
    }
}

/// The floor of `n / d` obeys the bounds that define it.
pub proof fn lemma_floor_ratio_bounds(n: int, d: int)
    requires
        d != 0,
    ensures
        d > 0 ==> floor_ratio(n, d) * d <= n < (floor_ratio(n, d) + 1) * d,
        d < 0 ==> floor_ratio(n, d) * d >= n > (floor_ratio(n, d) + 1) * d,
{
    if d > 0 {
        let q = n / d;
        let r = n % d;
        lemma_fundamental_div_mod(n, d);
        assert(q * d <= n < (q + 1) * d) by (nonlinear_arith)
            requires
                n == d * q + r,
                0 <= r < d,
        ;
    } else {
        let e = -d;
        let q = (-n) / e;
        let r = (-n) % e;
        lemma_fundamental_div_mod(-n, e);
        assert(q * d >= n > (q + 1) * d) by (nonlinear_arith)
            requires
                -n == e * q + r,
                0 <= r < e,
                e == -d,
        ;
    }
}

/// A fraction whose numerator is a multiple of its denominator is that
/// multiple exactly.
pub proof fn lemma_floor_ratio_of_multiple(k: int, d: int)
    requires
        d != 0,
    ensures
        floor_ratio(k * d, d) == k,
{
    assert(k * d < (k + 1) * d <==> d > 0) by (nonlinear_arith);
    assert(k * d > (k + 1) * d <==> d < 0) by (nonlinear_arith);
    lemma_floor_ratio_is(k * d, d, k);
}

/// Adding a multiple of the denominator to the numerator adds that multiple
/// to the floor.
pub proof fn lemma_floor_ratio_shift(n: int, d: int, k: int)
    requires
        d != 0,
    ensures
        floor_ratio(n + k * d, d) == floor_ratio(n, d) + k,
{
    let q = floor_ratio(n, d);
    lemma_floor_ratio_bounds(n, d);
    assert((q + k) * d == q * d + k * d && (q + k + 1) * d == (q + 1) * d + k * d)
        by (nonlinear_arith);
    lemma_floor_ratio_is(n + k * d, d, q + k);
}

/// Negating numerator and denominator together leaves the floor as it is,
/// and leaves the fraction where it lies.
pub proof fn lemma_fraction_negated(n: int, d: int)
    requires
        d != 0,
    ensures
        floor_ratio(-n, -d) == floor_ratio(n, d),
        in_unit_interval(-n, -d) == in_unit_interval(n, d),
{
}

/// A fraction `n / d` between 0 and 1, multiplied by an integer `k` and
/// floored, lies between 0 and `k`.
pub proof fn lemma_floor_of_part(n: int, d: int, k: int)
    requires
        in_unit_interval(n, d),
    ensures
        k >= 0 ==> 0 <= floor_ratio(n * k, d) <= k,
        k <= 0 ==> k <= floor_ratio(n * k, d) <= 0,
{
    let q = floor_ratio(n * k, d);
    lemma_floor_ratio_bounds(n * k, d);
    if d > 0 {
        assert(k >= 0 ==> 0 <= q <= k) by (nonlinear_arith)
            requires
                d > 0,
                0 <= n <= d,
                q * d <= n * k < (q + 1) * d,
        ;
        assert(k <= 0 ==> k <= q <= 0) by (nonlinear_arith)
            requires
                d > 0,
                0 <= n <= d,
                q * d <= n * k < (q + 1) * d,
        ;
    } else {
        assert(k >= 0 ==> 0 <= q <= k) by (nonlinear_arith)
            requires
                d < 0,
                d <= n <= 0,
                q * d >= n * k > (q + 1) * d,
        ;
        assert(k <= 0 ==> k <= q <= 0) by (nonlinear_arith)
            requires
                d < 0,
                d <= n <= 0,
                q * d >= n * k > (q + 1) * d,
        ;
    }
}

/// Scaling numerator and denominator by the same positive factor leaves
/// the floor as it is, and leaves the fraction where it lies.
pub proof fn lemma_fraction_scaled(n: int, d: int, h: int)
    requires
        h > 0,
    ensures
        in_unit_interval(n * h, d * h) == in_unit_interval(n, d),
        d != 0 ==> floor_ratio(n * h, d * h) == floor_ratio(n, d),
{
    assert((d > 0 <==> d * h > 0) && (d < 0 <==> d * h < 0)) by (nonlinear_arith)
        requires
            h > 0,
    ;
    assert((0 <= n <==> 0 <= n * h) && (n <= 0 <==> n * h <= 0)) by (nonlinear_arith)
        requires
            h > 0,
    ;
    assert((n <= d <==> n * h <= d * h) && (d <= n <==> d * h <= n * h)) by (nonlinear_arith)
        requires
            h > 0,
    ;
    if d != 0 {
        let q = floor_ratio(n, d);
        lemma_floor_ratio_bounds(n, d);
        assert(q * (d * h) == (q * d) * h && (q + 1) * (d * h) == ((q + 1) * d) * h)
            by (nonlinear_arith);
        if d > 0 {
            assert((q * d) * h <= n * h < ((q + 1) * d) * h) by (nonlinear_arith)
                requires
                    h > 0,
                    q * d <= n < (q + 1) * d,
            ;
        } else {
            assert((q * d) * h >= n * h > ((q + 1) * d) * h) by (nonlinear_arith)
                requires
                    h > 0,
                    q * d >= n > (q + 1) * d,
            ;
        }
        lemma_floor_ratio_is(n * h, d * h, q);
    }
}

/// A fraction `n / (k * d)` between 0 and 1 means that `n / d`, floored,
/// lies between 0 and `k`.
pub proof fn lemma_floor_within_extent(n: int, d: int, k: int)
    requires
        k > 0,
        in_unit_interval(n, k * d),
    ensures
        d != 0,
        0 <= floor_ratio(n, d) <= k,
{
    assert(d != 0) by (nonlinear_arith)
        requires
            k * d != 0,
    ;
    let q = floor_ratio(n, d);
    lemma_floor_ratio_bounds(n, d);
    if d > 0 {
        assert(0 <= q <= k) by (nonlinear_arith)
            requires
                d > 0,
                k > 0,
                k * d > 0 ==> 0 <= n <= k * d,
                k * d < 0 ==> k * d <= n <= 0,
                k * d != 0,
                q * d <= n < (q + 1) * d,
        ;
    } else {
        assert(0 <= q <= k) by (nonlinear_arith)
            requires
                d < 0,
                k > 0,
                k * d > 0 ==> 0 <= n <= k * d,
                k * d < 0 ==> k * d <= n <= 0,
                k * d != 0,
                q * d >= n > (q + 1) * d,
        ;
    }
}

/// The product of two bounded integers is bounded by the product of the
/// bounds.
pub proof fn lemma_product_bound(a: int, b: int, bound_a: int, bound_b: int)
    requires
        -bound_a <= a <= bound_a,
        -bound_b <= b <= bound_b,
    ensures
        -(bound_a * bound_b) <= a * b <= bound_a * bound_b,
{
    assert(-(bound_a * bound_b) <= a * b <= bound_a * bound_b) by (nonlinear_arith)
        requires
            -bound_a <= a <= bound_a,
            -bound_b <= b <= bound_b,
    ;
}

/// Computes the floor of the fraction `n / d`.
///
/// The least `i128` has no negative of its own type, so it is accepted
/// neither as numerator nor as denominator.
pub fn floor_div(n: i128, d: i128) -> (q: i128)
    requires
        d != 0,
        n != i128::MIN,
        d != i128::MIN,
    ensures
        q == floor_ratio(n as int, d as int),
{
    let a: i128 = if d > 0 { n } else { -n };
    let b: u128 = if d > 0 { d as u128 } else { (-d) as u128 };
    if a >= 0 {
        let q: u128 = (a as u128) / b;
        q as i128
    } else {
        let m: u128 = (-a) as u128;
        let up: u128 = (m + b - 1) / b;
        proof {
            let s = (m + b - 1) as int;
            lemma_fundamental_div_mod(s, b as int);
            let r = s % (b as int);
            let rest = a + up * b;
            assert(0 <= rest < b && a == (-(up as int)) * b + rest && up <= m) by (nonlinear_arith)
                requires
                    s == b * up + r,
                    0 <= r < b,
                    s == m + b - 1,
                    m == -a,
                    rest == a + up * b,
                    up >= 0,
            ;
            lemma_fundamental_div_mod_converse(a as int, b as int, -(up as int), rest);
        }
        -(up as i128)
    }
}

/// The squares of the odd neighbours of `2 * r`, written out.
pub proof fn lemma_odd_squares(r: int)
    ensures
        (2 * r + 1) * (2 * r + 1) == 4 * (r * r) + 4 * r + 1,
        (2 * r - 1) * (2 * r - 1) == 4 * (r * r) - 4 * r + 1,
{
    assert((2 * r + 1) * (2 * r + 1) == 4 * (r * r) + 4 * r + 1) by (nonlinear_arith);
    assert((2 * r - 1) * (2 * r - 1) == 4 * (r * r) - 4 * r + 1) by (nonlinear_arith);
}

/// Whether `r` is the natural number nearest to the square root of `n`:
/// the root lies strictly between `r - 1/2` and `r + 1/2`.
pub open spec fn is_nearest_root(n: nat, r: nat) -> bool {
    &&& 4 * n < (2 * r + 1) * (2 * r + 1)
    &&& (r == 0 || (2 * r - 1) * (2 * r - 1) < 4 * n)
}

/// The square root of `n`, rounded to the nearest natural number.
pub open spec fn nearest_root(n: nat) -> nat {
    choose|r: nat| is_nearest_root(n, r)
}

/// At most one natural number is nearest to a square root.
pub proof fn lemma_nearest_root_unique(n: nat, a: nat, b: nat)
    requires
        is_nearest_root(n, a),
        is_nearest_root(n, b),
    ensures
        a == b,
{
    if a < b {
        assert((2 * a + 1) * (2 * a + 1) <= (2 * b - 1) * (2 * b - 1)) by (nonlinear_arith)
            requires
                0 <= a < b,
        ;
    } else if b < a {
        assert((2 * b + 1) * (2 * b + 1) <= (2 * a - 1) * (2 * a - 1)) by (nonlinear_arith)
            requires
                0 <= b < a,
        ;
    }
}

/// A number that is nearest to the root of `n` is its rounded root.
pub proof fn lemma_nearest_root_is(n: nat, r: nat)
    requires
        is_nearest_root(n, r),
    ensures
        nearest_root(n) == r,
{
    lemma_nearest_root_unique(n, nearest_root(n), r);
}

/// The rounded root of a perfect square is its base.
pub proof fn lemma_nearest_root_of_square(d: nat)
    ensures
        nearest_root(d * d) == d,
{
    assert(is_nearest_root(d * d, d)) by (nonlinear_arith);
    lemma_nearest_root_is(d * d, d);
}

/// Only zero has the rounded root zero.
pub proof fn lemma_nearest_root_zero(n: nat)
    ensures
        nearest_root(n) == 0 <==> n == 0,
{
    lemma_odd_squares(0);
    lemma_nearest_root_exists(n);
    if n == 0 {
        assert(is_nearest_root(0, 0));
        lemma_nearest_root_is(0, 0);
    }
}

/// Every natural number has a rounded root.
pub proof fn lemma_nearest_root_exists(n: nat)
    ensures
        is_nearest_root(n, nearest_root(n)),
    decreases n,
{
    if n == 0 {
        lemma_odd_squares(0);
        assert(is_nearest_root(0, 0));
    } else {
        lemma_nearest_root_exists((n - 1) as nat);
        let p = nearest_root((n - 1) as nat);
        // The root of n is the root of n - 1 or the next number.
        let q = p + 1;
        lemma_odd_squares(p as int);
        lemma_odd_squares(q as int);
        assert(q * q == p * p + 2 * p + 1) by (nonlinear_arith)
            requires
                q == p + 1,
        ;
        if 4 * n < (2 * p + 1) * (2 * p + 1) {
            assert(is_nearest_root(n, p));
        } else {
            assert(is_nearest_root(n, q));
        }
    }
}

/// The rounded root of a number that is at most a square is at most the
/// base of that square.
pub proof fn lemma_nearest_root_bound(n: nat, base: nat)
    requires
        n <= base * base,
    ensures
        nearest_root(n) <= base,
{
    let r = nearest_root(n);
    lemma_nearest_root_exists(n);
    if r > base {
        assert((2 * r - 1) * (2 * r - 1) >= 4 * (base * base)) by (nonlinear_arith)
            requires
                r > base >= 0,
        ;
    }
}

/// Computes the square root of `n`, rounded to the nearest whole number.
pub fn rounded_root(n: u128) -> (r: u128)
    ensures
        r == nearest_root(n as nat),
        r <= 0x1_0000_0000_0000_0000,
{
    let mut lo: u128 = 0;
    let mut hi: u128 = 0x1_0000_0000_0000_0000;
    assert(hi * hi > n) by (nonlinear_arith)
        requires
            hi == 0x1_0000_0000_0000_0000,
            n <= 0xFFFF_FFFF_FFFF_FFFF_FFFF_FFFF_FFFF_FFFF,
    ;
    while hi - lo > 1
        invariant
            lo < hi <= 0x1_0000_0000_0000_0000,
            lo * lo <= n < hi * hi,
        decreases hi - lo,
    {
        let mid: u128 = lo + (hi - lo) / 2;
        assert(mid * mid <= 0xFFFF_FFFF_FFFF_FFFF * 0xFFFF_FFFF_FFFF_FFFF) by (nonlinear_arith)
            requires
                0 <= mid <= 0xFFFF_FFFF_FFFF_FFFF,
        ;
        if mid * mid <= n {
            lo = mid;
        } else {
            hi = mid;
        }
    }
    assert(lo * lo <= 0xFFFF_FFFF_FFFF_FFFF * 0xFFFF_FFFF_FFFF_FFFF) by (nonlinear_arith)
        requires
            0 <= lo <= 0xFFFF_FFFF_FFFF_FFFF,
    ;
    let r: u128 = if n - lo * lo > lo { lo + 1 } else { lo };
    proof {
        let q = lo + 1;
        lemma_odd_squares(lo as int);
        lemma_odd_squares(q as int);
        assert(q * q == lo * lo + 2 * lo + 1) by (nonlinear_arith)
            requires
                q == lo + 1,
        ;
        assert(is_nearest_root(n as nat, r as nat));
        lemma_nearest_root_is(n as nat, r as nat);
    }
    r
}

} // verus!
