//! Exact integer geometry on fixed-point coordinates.
//!
//! A coordinate is an `i64` number of thousandths of a unit (the `SCALE`
//! constant), so positions such as 9.999 units are representable exactly.
//! Distances are never taken as square roots; everything is phrased over
//! squared distances and cross products, which keeps all tests exact.

use vstd::prelude::*;

verus! {

/// Fixed-point scale: coordinates count thousandths of a unit.
pub const SCALE: i64 = 1000;

/// Largest coordinate magnitude the library accepts (one million units).
/// Keeping coordinates in this range makes every squared distance and
/// cross product fit comfortably in `i128`.
pub const MAX_COORD: i64 = 1_000_000_000;

/// Blocking disk radius of an emitter, in scaled units (5 units).
pub const BLOCK_RADIUS: i64 = 5_000;

/// Minimum separation between emitters and from borders, in scaled units
/// (10 units).
pub const CLEARANCE: i64 = 10_000;

/// A point in the room, in scaled (fixed-point) coordinates.
#[derive(Clone, Copy, Debug, PartialEq, Eq, Structural)]
pub struct Point {
    pub x: i64,
    pub y: i64,
}

/// A straight segment between two points.
#[derive(Clone, Copy, Debug)]
pub struct Segment {
    pub p1: Point,
    pub p2: Point,
}

/// Squared euclidean distance between two points.
pub open spec fn dist_sq(a: Point, b: Point) -> int {
    (a.x - b.x) * (a.x - b.x) + (a.y - b.y) * (a.y - b.y)
}

/// Whether a point's coordinates are within the accepted range.
pub open spec fn coord_ok(p: Point) -> bool {
    -MAX_COORD <= p.x <= MAX_COORD && -MAX_COORD <= p.y <= MAX_COORD
}

/// Whether every point of a sequence is within the accepted range.
pub open spec fn all_coords_ok(pls: Seq<Point>) -> bool {
    forall|i: int| 0 <= i < pls.len() ==> coord_ok(#[trigger] pls[i])
}

/// Whether the distance from point `c` to the segment `a`-`b` is at most `r`.
///
/// This is the exact semantics of the usual point-to-segment distance: if the
/// projection of `c` onto the line through `a` and `b` falls beyond `b`, the
/// distance is to `b`; if it falls before `a`, to `a`; otherwise it is the
/// distance to the line, compared by cross-multiplying so that no square root
/// or division is needed.
pub open spec fn seg_within(a: Point, b: Point, c: Point, r: int) -> bool {
    let dx = b.x - a.x;
    let dy = b.y - a.y;
    if (c.x - b.x) * dx + (c.y - b.y) * dy >= 0 {
        dist_sq(c, b) <= r * r
    } else if (c.x - a.x) * dx + (c.y - a.y) * dy <= 0 {
        dist_sq(c, a) <= r * r
    } else {
        let cross = dx * (c.y - a.y) - dy * (c.x - a.x);
        cross * cross <= r * r * dist_sq(a, b)
    }
}

/// Squared distance vanishes exactly on equal points.
pub proof fn lemma_dist_sq_zero(a: Point, b: Point)
    ensures
        (dist_sq(a, b) == 0) <==> a == b,
{
    assert(((a.x - b.x) * (a.x - b.x) + (a.y - b.y) * (a.y - b.y) == 0) <==> (a.x == b.x && a.y
        == b.y)) by (nonlinear_arith);
}

/// Squared distance is symmetric.
pub proof fn lemma_dist_sq_sym(a: Point, b: Point)
    ensures
        dist_sq(a, b) == dist_sq(b, a),
{
    assert((a.x - b.x) * (a.x - b.x) == (b.x - a.x) * (b.x - a.x)) by (nonlinear_arith);
    assert((a.y - b.y) * (a.y - b.y) == (b.y - a.y) * (b.y - a.y)) by (nonlinear_arith);
}

/// A product of two numbers is bounded by the product of their bounds.
pub proof fn lemma_abs_mul_bound(x: int, y: int, bx: int, by: int)
    requires
        -bx <= x <= bx,
        -by <= y <= by,
    ensures
        -(bx * by) <= x * y <= bx * by,
{
    assert(-(bx * by) <= x * y <= bx * by) by (nonlinear_arith)
        requires
            -bx <= x <= bx,
            -by <= y <= by,
    ;
}

/// Computes the squared distance between two points exactly.
pub fn dist_sq_i128(a: &Point, b: &Point) -> (r: i128)
    requires
        coord_ok(*a),
        coord_ok(*b),
    ensures
        r == dist_sq(*a, *b),
        0 <= r <= 8_000_000_000_000_000_000,
{
    let dx: i128 = a.x as i128 - b.x as i128;
    let dy: i128 = a.y as i128 - b.y as i128;
    proof {
        lemma_abs_mul_bound(dx as int, dx as int, 2_000_000_000, 2_000_000_000);
        lemma_abs_mul_bound(dy as int, dy as int, 2_000_000_000, 2_000_000_000);
        assert(dx * dx >= 0 && dy * dy >= 0) by (nonlinear_arith);
    }
    dx * dx + dy * dy
}

impl Segment {
    /// Whether every coordinate of the segment is in the accepted range.
    pub open spec fn wf(self) -> bool {
        coord_ok(self.p1) && coord_ok(self.p2)
    }

    /// Decides exactly whether point `p` lies within distance `r` of this
    /// segment (boundary inclusive).
    pub fn dist_within(&self, p: &Point, r: i64) -> (b: bool)
        requires
            self.wf(),
            coord_ok(*p),
            0 <= r <= MAX_COORD,
        ensures
            b == seg_within(self.p1, self.p2, *p, r as int),
    {
        let ax: i128 = self.p1.x as i128;
        let ay: i128 = self.p1.y as i128;
        let bx: i128 = self.p2.x as i128;
        let by: i128 = self.p2.y as i128;
        let cx: i128 = p.x as i128;
        let cy: i128 = p.y as i128;
        let dx: i128 = bx - ax;
        let dy: i128 = by - ay;
        proof {
            let b2: int = 2_000_000_000;
            lemma_abs_mul_bound(r as int, r as int, MAX_COORD as int, MAX_COORD as int);
            lemma_abs_mul_bound((cx - bx) as int, dx as int, b2, b2);
            lemma_abs_mul_bound((cy - by) as int, dy as int, b2, b2);
            lemma_abs_mul_bound((cx - bx) as int, (cx - bx) as int, b2, b2);
            lemma_abs_mul_bound((cy - by) as int, (cy - by) as int, b2, b2);
            lemma_abs_mul_bound((cx - ax) as int, dx as int, b2, b2);
            lemma_abs_mul_bound((cy - ay) as int, dy as int, b2, b2);
            lemma_abs_mul_bound((cx - ax) as int, (cx - ax) as int, b2, b2);
            lemma_abs_mul_bound((cy - ay) as int, (cy - ay) as int, b2, b2);
            lemma_abs_mul_bound(dx as int, (cy - ay) as int, b2, b2);
            lemma_abs_mul_bound(dy as int, (cx - ax) as int, b2, b2);
            lemma_abs_mul_bound(dx as int, dx as int, b2, b2);
            lemma_abs_mul_bound(dy as int, dy as int, b2, b2);
        }
        let rr: i128 = (r as i128) * (r as i128);
        if (cx - bx) * dx + (cy - by) * dy >= 0 {
            let d2 = (cx - bx) * (cx - bx) + (cy - by) * (cy - by);
            assert(d2 == dist_sq(*p, self.p2));
            d2 <= rr
        } else if (cx - ax) * dx + (cy - ay) * dy <= 0 {
            let d2 = (cx - ax) * (cx - ax) + (cy - ay) * (cy - ay);
            assert(d2 == dist_sq(*p, self.p1));
            d2 <= rr
        } else {
            let cross: i128 = dx * (cy - ay) - dy * (cx - ax);
            let ab2: i128 = dx * dx + dy * dy;
            proof {
                let b3: int = 8_000_000_000_000_000_000;
                lemma_abs_mul_bound(cross as int, cross as int, b3, b3);
                lemma_abs_mul_bound(rr as int, ab2 as int, 1_000_000_000_000_000_000, b3);
            }
            proof {
                let dxi: int = dx as int;
                let dyi: int = dy as int;
                assert((self.p1.x - self.p2.x) * (self.p1.x - self.p2.x) == dxi * dxi)
                    by (nonlinear_arith)
                    requires dxi == self.p2.x - self.p1.x
                ;
                assert((self.p1.y - self.p2.y) * (self.p1.y - self.p2.y) == dyi * dyi)
                    by (nonlinear_arith)
                    requires dyi == self.p2.y - self.p1.y
                ;
            }
            assert(ab2 == dist_sq(self.p1, self.p2));
            cross * cross <= rr * ab2
        }
    }
}

/// Floor of the square root of a natural number.
pub open spec fn sqrt_floor(n: nat) -> nat
    decreases n,
{
    if n == 0 {
        0
    } else {
        let s = sqrt_floor((n - 1) as nat);
        if (s + 1) * (s + 1) <= n {
            s + 1
        } else {
            s
        }
    }
}

/// The defining property of `sqrt_floor`.
pub proof fn lemma_sqrt_floor_bounds(n: nat)
    ensures
        sqrt_floor(n) * sqrt_floor(n) <= n,
        n < (sqrt_floor(n) + 1) * (sqrt_floor(n) + 1),
    decreases n,
{
    if n == 0 {
        assert(sqrt_floor(0) == 0);
        assert(0 * 0 <= 0) by (nonlinear_arith);
        assert((0 + 1) * (0 + 1) == 1) by (nonlinear_arith);
    } else {
        let m = (n - 1) as nat;
        lemma_sqrt_floor_bounds(m);
        let s = sqrt_floor(m);
        if (s + 1) * (s + 1) <= n {
            assert(sqrt_floor(n) == s + 1);
            assert((s + 1) * (s + 1) < (s + 2) * (s + 2)) by (nonlinear_arith);
            assert(n <= (s + 1) * (s + 1));
        } else {
            assert(sqrt_floor(n) == s);
        }
    }
}

/// Any `r` with `r * r <= n < (r + 1) * (r + 1)` is `sqrt_floor(n)`.
pub proof fn lemma_sqrt_floor_unique(n: nat, r: nat)
    requires
        r * r <= n,
        n < (r + 1) * (r + 1),
    ensures
        r == sqrt_floor(n),
{
    lemma_sqrt_floor_bounds(n);
    let s = sqrt_floor(n);
    if r < s {
        assert((r + 1) * (r + 1) <= s * s) by (nonlinear_arith)
            requires r < s
        ;
    }
    if s < r {
        assert((s + 1) * (s + 1) <= r * r) by (nonlinear_arith)
            requires s < r
        ;
    }
}

/// Computes the floor of the square root of `n` by binary search.
pub fn isqrt_u128(n: u128) -> (r: u128)
    requires
        n <= 0xffff_ffff_ffff_ffff_ffff_ffff_ffff_ffff,
    ensures
        r == sqrt_floor(n as nat),
        r * r <= n,
{
    let mut lo: u128 = 0;
    let mut hi: u128 = 0x1_0000_0000_0000_0000;
    // invariant: lo * lo <= n < hi * hi
    while hi - lo > 1
        invariant
            lo < hi,
            lo * lo <= n,
            n < hi * hi,
            hi <= 0x1_0000_0000_0000_0000,
        decreases hi - lo,
    {
        let mid: u128 = lo + (hi - lo) / 2;
        proof {
            assert(mid < hi);
            lemma_abs_mul_bound(
                mid as int,
                mid as int,
                0xffff_ffff_ffff_ffff,
                0xffff_ffff_ffff_ffff,
            );
            assert(mid * mid >= 0) by (nonlinear_arith);
        }
        if mid * mid <= n {
            lo = mid;
        } else {
            hi = mid;
        }
    }
    proof {
        lemma_sqrt_floor_unique(n as nat, lo as nat);
    }
    lo
}

/// Ceiling of the exact rational `a / b` for positive `b`.
pub open spec fn ceil_div(a: int, b: int) -> int {
    -((-a) / b)
}

/// In spec arithmetic, division is euclidean, so `-((-a) / b)` is the true
/// ceiling for positive divisors.
pub proof fn lemma_ceil_div_bounds(a: int, b: int)
    requires
        b > 0,
    ensures
        b * ceil_div(a, b) >= a,
        b * (ceil_div(a, b) - 1) < a,
{
    let q = (-a) / b;
    let r = (-a) % b;
    vstd::arithmetic::div_mod::lemma_fundamental_div_mod(-a, b);
    vstd::arithmetic::div_mod::lemma_mod_bound(-a, b);
    assert(b * (-q) >= a && b * (-q - 1) < a) by (nonlinear_arith)
        requires
            b > 0,
            -a == b * q + r,
            0 <= r < b,
    ;
}

/// Multiples of the divisor divide exactly.
pub proof fn lemma_ceil_div_exact(k: int, b: int)
    requires
        b > 0,
    ensures
        ceil_div(k * b, b) == k,
{
    vstd::arithmetic::div_mod::lemma_div_multiples_vanish(-k, b);
    assert(-(k * b) == b * (-k)) by (nonlinear_arith);
}

/// Computes `ceil_div(a, b)` in executable code. Rust's `/` truncates toward
/// zero, so the two signs of `a` are handled separately.
pub fn ceil_div_i128(a: i128, b: i128) -> (r: i128)
    requires
        b > 0,
        -0x7fff_ffff_ffff_ffff_ffff_ffff_ffff_ffff <= a,
        a + b <= 0x7fff_ffff_ffff_ffff_ffff_ffff_ffff_ffff,
    ensures
        r == ceil_div(a as int, b as int),
{
    let ghost ai: int = a as int;
    let ghost bi: int = b as int;
    if a >= 0 {
        let q = (a + (b - 1)) / b;
        proof {
            lemma_ceil_div_bounds(ai, bi);
            let c = ceil_div(ai, bi);
            vstd::arithmetic::div_mod::lemma_fundamental_div_mod(ai + bi - 1, bi);
            vstd::arithmetic::div_mod::lemma_mod_bound(ai + bi - 1, bi);
            assert((ai + bi - 1) / bi == c) by (nonlinear_arith)
                requires
                    bi > 0,
                    bi * c >= ai,
                    bi * (c - 1) < ai,
                    ai + bi - 1 == bi * ((ai + bi - 1) / bi) + (ai + bi - 1) % bi,
                    0 <= (ai + bi - 1) % bi < bi,
            ;
        }
        q
    } else {
        let q = (-a) / b;
        proof {
            vstd::arithmetic::div_mod::lemma_fundamental_div_mod(-ai, bi);
            vstd::arithmetic::div_mod::lemma_mod_bound(-ai, bi);
            // exec (-a) / b truncates; -a > 0 so it agrees with euclidean division
        }
        -q
    }
}

} // verus!
