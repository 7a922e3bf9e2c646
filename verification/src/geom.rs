//! Plain 2D integer geometry: vectors, the circle-overlap test and the
//! screen-wrap transform that every positioned entity goes through each tick.

use vstd::prelude::*;

verus! {

/// A 2D vector of integer coordinates (micro-pixels for positions,
/// micro-pixels per millisecond for velocities).
#[derive(Clone, Copy, Debug, PartialEq, Eq, Structural)]
pub struct Vec2 {
    pub x: i64,
    pub y: i64,
}

/// Coordinate magnitudes the geometry helpers accept without overflowing.
pub const COORD_LIMIT: i64 = 0x1000_0000_0000_0000;

/// Coordinates the geometry helpers accept.
pub open spec fn coords_ok(p: Vec2) -> bool {
    -COORD_LIMIT <= p.x <= COORD_LIMIT && -COORD_LIMIT <= p.y <= COORD_LIMIT
}

/// Squared euclidean distance between two points, as mathematical integers.
pub open spec fn dist_sq(pa: Vec2, pb: Vec2) -> int {
    (pa.x - pb.x) * (pa.x - pb.x) + (pa.y - pb.y) * (pa.y - pb.y)
}

/// Squared length of a vector, as mathematical integers.
pub open spec fn norm_sq(v: Vec2) -> int {
    v.x * v.x + v.y * v.y
}

/// Two circles overlap iff the squared distance of their centers is strictly
/// below the squared sum of their radii; no tolerance, exact inequality.
pub open spec fn spec_circles_overlap(pa: Vec2, ra: i64, pb: Vec2, rb: i64) -> bool {
    dist_sq(pa, pb) < (ra + rb) * (ra + rb)
}

/// A bound on a value bounds its square.
pub proof fn lemma_square_bound(x: int, b: int)
    by (nonlinear_arith)
    requires
        -b <= x <= b,
    ensures
        0 <= x * x <= b * b,
{
}

/// Exact circle-overlap test, computed in 128-bit arithmetic so that any
/// in-range coordinates are accepted.
pub fn circles_overlap(pa: Vec2, ra: i64, pb: Vec2, rb: i64) -> (r: bool)
    requires
        -COORD_LIMIT <= pa.x <= COORD_LIMIT,
        -COORD_LIMIT <= pa.y <= COORD_LIMIT,
        -COORD_LIMIT <= pb.x <= COORD_LIMIT,
        -COORD_LIMIT <= pb.y <= COORD_LIMIT,
        0 <= ra <= COORD_LIMIT,
        0 <= rb <= COORD_LIMIT,
    ensures
        r == spec_circles_overlap(pa, ra, pb, rb),
{
    let dx: i128 = pa.x as i128 - pb.x as i128;
    let dy: i128 = pa.y as i128 - pb.y as i128;
    let rr: i128 = ra as i128 + rb as i128;
    proof {
        lemma_square_bound(dx as int, 2 * COORD_LIMIT as int);
        lemma_square_bound(dy as int, 2 * COORD_LIMIT as int);
        lemma_square_bound(rr as int, 2 * COORD_LIMIT as int);
    }
    dx * dx + dy * dy < rr * rr
}

/// Truncating (round-toward-zero) signed division, the rounding the
/// executable integer helpers below use.
pub open spec fn div_trunc(a: int, b: int) -> int
    recommends
        b > 0,
{
    if a >= 0 {
        a / b
    } else {
        -((-a) / b)
    }
}

/// Truncating signed division, computed on magnitudes so only unsigned
/// machine division is involved.
pub fn div_trunc_i64(a: i64, b: i64) -> (r: i64)
    requires
        b > 0,
        a > i64::MIN,
    ensures
        r == div_trunc(a as int, b as int),
{
    if a >= 0 {
        let q: u64 = (a as u64) / (b as u64);
        assert(q == a as int / b as int);
        q as i64
    } else {
        let m: u64 = (-a) as u64;
        let q: u64 = m / (b as u64);
        assert(q == -(a as int) / b as int);
        assert(q <= m) by {
            vstd::arithmetic::div_mod::lemma_div_is_ordered_by_denominator(m as int, 1, b as int);
        }
        -(q as i64)
    }
}

/// Euclidean remainder of `a` by a positive modulus `d`: the unique value in
/// `[0, d)` congruent to `a`.
pub fn mod_euclid(a: i64, d: i64) -> (r: i64)
    requires
        0 < d,
        i64::MIN < a,
    ensures
        r == a as int % d as int,
{
    if a >= 0 {
        let m: u64 = (a as u64) % (d as u64);
        m as i64
    } else {
        let neg: u64 = (-a) as u64;
        let m: u64 = neg % (d as u64);
        if m == 0 {
            proof {
                let q = neg as int / d as int;
                vstd::arithmetic::div_mod::lemma_fundamental_div_mod(neg as int, d as int);
                assert(neg as int == d as int * q + 0);
                vstd::arithmetic::mul::lemma_mul_is_commutative(d as int, q);
                vstd::arithmetic::mul::lemma_mul_unary_negation(q, d as int);
                assert(a as int == (-q) * d as int + 0);
                vstd::arithmetic::div_mod::lemma_fundamental_div_mod_converse(
                    a as int, d as int, -q, 0);
            }
            0
        } else {
            proof {
                let q = neg as int / d as int;
                vstd::arithmetic::div_mod::lemma_fundamental_div_mod(neg as int, d as int);
                assert(neg as int == d as int * q + m);
                vstd::arithmetic::mul::lemma_mul_is_commutative(d as int, q);
                vstd::arithmetic::mul::lemma_mul_unary_negation(q + 1, d as int);
                vstd::arithmetic::mul::lemma_mul_is_distributive_add_other_way(
                    d as int, q, 1);
                assert(a as int == (-q - 1) * d as int + (d - m));
                vstd::arithmetic::div_mod::lemma_fundamental_div_mod_converse(
                    a as int, d as int, -q - 1, d - m);
            }
            d - (m as i64)
        }
    }
}

/// The unique representative of `x` modulo `dim` in `[-dim/2, dim/2)`: the
/// wrapped coordinate, as a mathematical function.
pub open spec fn spec_wrap(x: int, dim: int) -> int
    recommends
        dim >= 2,
        dim % 2 == 0,
{
    (x + dim / 2) % dim - dim / 2
}

/// Wrap one coordinate into `[-dim/2, dim/2)`: subtract or add the full
/// dimension as often as needed, so an entity leaving one edge re-enters at
/// the opposite one.  A coordinate already strictly inside is unchanged.
pub fn wrap_coord(x: i64, dim: i64) -> (r: i64)
    requires
        2 <= dim <= COORD_LIMIT,
        dim % 2 == 0,
        -COORD_LIMIT <= x <= COORD_LIMIT,
    ensures
        r == spec_wrap(x as int, dim as int),
        -dim / 2 <= r < dim / 2,
        (x - r) % (dim as int) == 0,
        -dim / 2 <= x < dim / 2 ==> r == x,
{
    let h: i64 = (dim as u64 / 2) as i64;
    assert(dim == 2 * h && h == dim as int / 2) by {
        vstd::arithmetic::div_mod::lemma_fundamental_div_mod(dim as int, 2);
    }
    let m: i64 = mod_euclid(x + h, dim);
    proof {
        let s = x + h as int;
        vstd::arithmetic::div_mod::lemma_fundamental_div_mod(s, dim as int);
        let q = s / dim as int;
        // x - (m - h) == q * dim, so the result is congruent to x.
        assert(x - (m - h) == q * (dim as int));
        vstd::arithmetic::div_mod::lemma_mod_multiples_basic(q, dim as int);
        // a coordinate already inside the band is a fixed point
        if -h <= x < h {
            vstd::arithmetic::div_mod::lemma_fundamental_div_mod_converse(
                s, dim as int, 0, s);
        }
    }
    m - h
}

/// Wrap a position into the centered screen rectangle, per axis.
pub fn wrap_position(p: Vec2, width: i64, height: i64) -> (r: Vec2)
    requires
        2 <= width <= COORD_LIMIT,
        2 <= height <= COORD_LIMIT,
        width % 2 == 0,
        height % 2 == 0,
        -COORD_LIMIT <= p.x <= COORD_LIMIT,
        -COORD_LIMIT <= p.y <= COORD_LIMIT,
    ensures
        r.x == spec_wrap(p.x as int, width as int),
        r.y == spec_wrap(p.y as int, height as int),
        -width / 2 <= r.x < width / 2,
        -height / 2 <= r.y < height / 2,
        (p.x - r.x) % (width as int) == 0,
        (p.y - r.y) % (height as int) == 0,
        -width / 2 <= p.x < width / 2 && -height / 2 <= p.y < height / 2 ==> r == p,
{
    Vec2 { x: wrap_coord(p.x, width), y: wrap_coord(p.y, height) }
}

/// Exact half of an even, non-negative dimension.
pub fn half_even(dim: i64) -> (h: i64)
    requires
        0 <= dim <= COORD_LIMIT,
        dim % 2 == 0,
    ensures
        dim == 2 * h,
        h == dim as int / 2,
{
    assert(dim == 2 * (dim as int / 2) + dim as int % 2) by {
        vstd::arithmetic::div_mod::lemma_fundamental_div_mod(dim as int, 2);
    }
    (dim as u64 / 2) as i64
}

/// A bound on a square bounds the value itself.
pub proof fn lemma_sq_bounds_abs(x: int, b: int)
    by (nonlinear_arith)
    requires
        0 <= b,
        x * x <= b * b,
    ensures
        -b <= x <= b,
{
}

/// Bounds on two factors bound their product.
pub proof fn lemma_abs_mul_bound(u: int, v: int, ub: int, vb: int)
    by (nonlinear_arith)
    requires
        -ub <= u <= ub,
        -vb <= v <= vb,
        0 <= ub,
        0 <= vb,
    ensures
        -(ub * vb) <= u * v <= ub * vb,
{
}

/// Truncating division undoes multiplication by the divisor exactly.
pub proof fn lemma_div_trunc_multiple(m: int, d: int)
    requires
        d >= 1,
    ensures
        div_trunc(m * d, d) == m,
{
    if m >= 0 {
        vstd::arithmetic::mul::lemma_mul_nonnegative(m, d);
        vstd::arithmetic::mul::lemma_mul_is_commutative(m, d);
        vstd::arithmetic::div_mod::lemma_fundamental_div_mod_converse(m * d, d, m, 0);
    } else {
        vstd::arithmetic::mul::lemma_mul_unary_negation(m, d);
        assert(-(m * d) == (-m) * d);
        vstd::arithmetic::mul::lemma_mul_nonnegative(-m, d);
        vstd::arithmetic::mul::lemma_mul_is_commutative(-m, d);
        vstd::arithmetic::div_mod::lemma_fundamental_div_mod_converse((-m) * d, d, -m, 0);
        assert(m * d < 0) by (nonlinear_arith)
            requires
                m < 0,
                d >= 1;
    }
}

/// Truncating division loses less than one divisor: the remainder
/// `a - div_trunc(a, n) * n` lies strictly between `-n` and `n`.
pub proof fn lemma_div_trunc_remainder(a: int, n: int)
    requires
        n >= 1,
    ensures
        -(n - 1) <= a - div_trunc(a, n) * n <= n - 1,
{
    if a >= 0 {
        vstd::arithmetic::div_mod::lemma_fundamental_div_mod(a, n);
        vstd::arithmetic::div_mod::lemma_mod_bound(a, n);
        vstd::arithmetic::mul::lemma_mul_is_commutative(n, a / n);
    } else {
        let m = -a;
        vstd::arithmetic::div_mod::lemma_fundamental_div_mod(m, n);
        vstd::arithmetic::div_mod::lemma_mod_bound(m, n);
        vstd::arithmetic::mul::lemma_mul_is_commutative(n, m / n);
        vstd::arithmetic::mul::lemma_mul_unary_negation(m / n, n);
        assert(a - div_trunc(a, n) * n == -(m - (m / n) * n));
    }
}

/// A bound on a vector's squared length bounds each of its components.
pub proof fn lemma_comp_bound_from_norm(v: Vec2, m: int)
    by (nonlinear_arith)
    requires
        m >= 0,
        norm_sq(v) <= m * m,
    ensures
        -m <= v.x <= m,
        -m <= v.y <= m,
{
}

/// Clamp a value into the closed interval `[-lim, lim]`.
pub open spec fn spec_clamp(x: int, lim: int) -> int
    recommends
        lim >= 0,
{
    if x < -lim {
        -lim
    } else if x > lim {
        lim
    } else {
        x
    }
}

/// Clamp a value into the closed interval `[-lim, lim]`.
pub fn clamp_i64(x: i64, lim: i64) -> (r: i64)
    requires
        0 <= lim,
    ensures
        r == spec_clamp(x as int, lim as int),
{
    if x < -lim {
        -lim
    } else if x > lim {
        lim
    } else {
        x
    }
}

/// The integer square root rounded down: the largest `r` with `r * r <= n`.
pub open spec fn sqrt_floor(n: nat) -> nat
    decreases n,
{
    if n == 0 {
        0
    } else {
        let r = sqrt_floor((n - 1) as nat);
        if (r + 1) * (r + 1) <= n {
            r + 1
        } else {
            r
        }
    }
}

/// The integer square root rounded up: the smallest `r` with `r * r >= n`.
pub open spec fn sqrt_ceil(n: nat) -> nat {
    let f = sqrt_floor(n);
    if f * f == n {
        f
    } else {
        f + 1
    }
}

/// The defining properties of `sqrt_floor`.
pub proof fn lemma_sqrt_floor_props(n: nat)
    ensures
        sqrt_floor(n) * sqrt_floor(n) <= n,
        (sqrt_floor(n) + 1) * (sqrt_floor(n) + 1) > n,
    decreases n,
{
    if n > 0 {
        lemma_sqrt_floor_props((n - 1) as nat);
        let p = sqrt_floor((n - 1) as nat);
        let r = sqrt_floor(n);
        assert(p * p <= n - 1 && (p + 1) * (p + 1) > n - 1);
        if (p + 1) * (p + 1) <= n {
            assert(r == p + 1);
            assert((p + 2) * (p + 2) > n) by (nonlinear_arith)
                requires
                    (p + 1) * (p + 1) > n - 1,
                    p >= 0;
            assert((r + 1) * (r + 1) == (p + 2) * (p + 2));
        } else {
            assert(r == p);
            assert(r * r <= n);
            assert((r + 1) * (r + 1) > n);
        }
    } else {
        let z = sqrt_floor(n);
        assert(z == 0);
        assert(z * z == 0 && (z + 1) * (z + 1) == 1) by (nonlinear_arith)
            requires
                z == 0;
    }
}

/// The defining properties of `sqrt_ceil`.
pub proof fn lemma_sqrt_ceil_props(n: nat)
    ensures
        sqrt_ceil(n) * sqrt_ceil(n) >= n,
        n >= 1 ==> sqrt_ceil(n) >= 1,
        sqrt_ceil(n) >= 1 ==> (sqrt_ceil(n) - 1) * (sqrt_ceil(n) - 1) < n,
{
    lemma_sqrt_floor_props(n);
    let f = sqrt_floor(n);
    if f * f == n {
        assert(f >= 1 ==> (f - 1) * (f - 1) < f * f) by (nonlinear_arith);
    }
}

/// Only one value satisfies the floor-square-root properties.
pub proof fn lemma_sqrt_floor_unique(n: nat, r: nat)
    requires
        r * r <= n,
        (r + 1) * (r + 1) > n,
    ensures
        r == sqrt_floor(n),
{
    lemma_sqrt_floor_props(n);
    let f = sqrt_floor(n);
    assert(r == f) by (nonlinear_arith)
        requires
            r * r <= n,
            (r + 1) * (r + 1) > n,
            f * f <= n,
            (f + 1) * (f + 1) > n,
            r >= 0,
            f >= 0;
}

/// Largest square-root bound the helpers accept, `2^62`.
pub const SQ_LIMIT: u64 = 0x4000_0000_0000_0000;

/// Integer square root rounded down: the largest `r` with `r * r <= x`.
pub fn isqrt_floor(x: u64) -> (r: u64)
    requires
        x <= SQ_LIMIT,
    ensures
        r == sqrt_floor(x as nat),
        r * r <= x,
        (r + 1) * (r + 1) > x,
        r <= 0x8000_0000,
{
    let mut lo: u64 = 0;
    let mut hi: u64 = 0x8000_0001;
    assert((0x8000_0001 as int) * (0x8000_0001 as int) > SQ_LIMIT as int) by (nonlinear_arith);
    while lo + 1 < hi
        invariant
            lo < hi <= 0x8000_0001,
            lo * lo <= x,
            hi * hi > x,
            x <= SQ_LIMIT,
        decreases hi - lo,
    {
        let mid: u64 = lo + (hi - lo) / 2;
        assert(lo < mid < hi);
        proof {
            lemma_square_bound(mid as int, 0x8000_0000);
        }
        if mid * mid <= x {
            lo = mid;
        } else {
            hi = mid;
        }
    }
    proof {
        lemma_sqrt_floor_unique(x as nat, lo as nat);
    }
    lo
}

/// Integer square root rounded up: the smallest `r` with `r * r >= x`.
pub fn isqrt_ceil(x: u64) -> (r: u64)
    requires
        x <= SQ_LIMIT,
    ensures
        r == sqrt_ceil(x as nat),
        r * r >= x,
        x >= 1 ==> r >= 1,
        r <= 0x8000_0001,
{
    proof {
        lemma_sqrt_ceil_props(x as nat);
    }
    let f: u64 = isqrt_floor(x);
    if f * f == x {
        f
    } else {
        f + 1
    }
}

pub proof fn lemma_div_trunc_product_bound(a: int, n: int)
    requires
        n >= 1,
    ensures
        div_trunc(a, n) * n <= (if a >= 0 { a } else { -a }),
        div_trunc(a, n) * n >= -(if a >= 0 { a } else { -a }),
{
    if a >= 0 {
        vstd::arithmetic::div_mod::lemma_fundamental_div_mod(a, n);
        vstd::arithmetic::div_mod::lemma_div_is_ordered(0, a, n);
        vstd::arithmetic::mul::lemma_mul_is_commutative(n, a / n);
        assert(div_trunc(a, n) * n == a - a % n);
        vstd::arithmetic::mul::lemma_mul_nonnegative(a / n, n);
    } else {
        let m = -a;
        vstd::arithmetic::div_mod::lemma_fundamental_div_mod(m, n);
        vstd::arithmetic::div_mod::lemma_div_is_ordered(0, m, n);
        vstd::arithmetic::mul::lemma_mul_is_commutative(n, m / n);
        vstd::arithmetic::mul::lemma_mul_unary_negation(m / n, n);
        assert(div_trunc(a, n) * n == -(m - m % n));
        vstd::arithmetic::mul::lemma_mul_nonnegative(m / n, n);
    }
}

proof fn lemma_scale_norm_bound(qx: int, qy: int, ax: int, ay: int, t: int, n: int)
    by (nonlinear_arith)
    requires
        n >= 1,
        t >= 0,
        ax >= 0,
        ay >= 0,
        -ax <= qx * n <= ax,
        -ay <= qy * n <= ay,
        ax * ax + ay * ay <= (t * t) * (n * n),
    ensures
        qx * qx + qy * qy <= t * t,
{
    assert((qx * n) * (qx * n) <= ax * ax);
    assert((qy * n) * (qy * n) <= ay * ay);
    assert((qx * qx + qy * qy) * (n * n) <= (t * t) * (n * n));
}

/// Rescale a nonzero vector to a magnitude of at most `target`, preserving
/// its direction up to the rounding of one truncating division per axis.
pub fn scale_to_length(v: Vec2, target: i64) -> (r: Vec2)
    requires
        1 <= norm_sq(v),
        -0x4000_0000 <= v.x <= 0x4000_0000,
        -0x4000_0000 <= v.y <= 0x4000_0000,
        0 <= target <= 0x4000_0000,
    ensures
        norm_sq(r) <= target * target,
        r.x == div_trunc(v.x * target, sqrt_ceil(norm_sq(v) as nat) as int),
        r.y == div_trunc(v.y * target, sqrt_ceil(norm_sq(v) as nat) as int),
{
    proof {
        lemma_square_bound(v.x as int, 0x4000_0000);
        lemma_square_bound(v.y as int, 0x4000_0000);
    }
    let nsq: u64 = (v.x * v.x + v.y * v.y) as u64;
    let n: u64 = isqrt_ceil(nsq);
    let ni: i64 = n as i64;
    assert(ni >= 1);
    assert(-0x1000_0000_0000_0000 <= v.x * target <= 0x1000_0000_0000_0000) by (nonlinear_arith)
        requires
            -0x4000_0000 <= v.x <= 0x4000_0000,
            0 <= target <= 0x4000_0000;
    assert(-0x1000_0000_0000_0000 <= v.y * target <= 0x1000_0000_0000_0000) by (nonlinear_arith)
        requires
            -0x4000_0000 <= v.y <= 0x4000_0000,
            0 <= target <= 0x4000_0000;
    let rx: i64 = div_trunc_i64(v.x * target, ni);
    let ry: i64 = div_trunc_i64(v.y * target, ni);
    proof {
        let ax = if v.x * target >= 0 { v.x * target } else { -(v.x * target) };
        let ay = if v.y * target >= 0 { v.y * target } else { -(v.y * target) };
        lemma_div_trunc_product_bound(v.x * target, ni as int);
        lemma_div_trunc_product_bound(v.y * target, ni as int);
        assert(ax * ax + ay * ay <= (target * target) * ((ni as int) * (ni as int)))
            by (nonlinear_arith)
            requires
                ax == (if v.x * target >= 0 { v.x * target } else { -(v.x * target) }),
                ay == (if v.y * target >= 0 { v.y * target } else { -(v.y * target) }),
                v.x * v.x + v.y * v.y <= (ni as int) * (ni as int),
                target >= 0;
        lemma_scale_norm_bound(rx as int, ry as int, ax, ay, target as int, ni as int);
    }
    Vec2 { x: rx, y: ry }
}

/// A circle overlaps itself exactly when its radius is positive.
pub proof fn lemma_overlap_self(p: Vec2, r: i64)
    requires
        r >= 0,
    ensures
        spec_circles_overlap(p, r, p, r) <==> r > 0,
{
    assert(dist_sq(p, p) == 0);
    assert(r > 0 ==> (r + r) * (r + r) > 0) by (nonlinear_arith);
    assert(r == 0 ==> (r + r) * (r + r) == 0) by (nonlinear_arith);
}

/// The circle-overlap test is symmetric in its two circle arguments.
pub proof fn lemma_overlap_symmetric(pa: Vec2, ra: i64, pb: Vec2, rb: i64)
    ensures
        spec_circles_overlap(pa, ra, pb, rb) == spec_circles_overlap(pb, rb, pa, ra),
{
    assert(dist_sq(pa, pb) == dist_sq(pb, pa)) by (nonlinear_arith);
}

} // verus!
