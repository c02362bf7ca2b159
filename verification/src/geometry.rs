//! A 2D point in the working image coordinate space, held in milli-pixels,
//! with the Euclidean distance between two points.

use vstd::prelude::*;
use crate::fixed::{COORD_BOUND, is_isqrt, isqrt, lemma_isqrt_is, spec_isqrt};

verus! {

/// A location in the working (post-crop) image space. Coordinates are in
/// thousandths of a pixel, so `Point { x: 250_000, y: 250_000 }` is the
/// center of a 500 x 500 canvas. Points may lie outside the canvas when the
/// crop policy lets the spiral overflow it.
#[derive(Clone, Copy, Debug, PartialEq, Eq, Structural)]
pub struct Point {
    pub x: i64,
    pub y: i64,
}

/// The squared Euclidean distance between `a` and `b`, in squared
/// milli-pixels.
pub open spec fn sq_dist(a: Point, b: Point) -> int {
    (b.x - a.x) * (b.x - a.x) + (b.y - a.y) * (b.y - a.y)
}

/// The Euclidean distance between `a` and `b` in milli-pixels, rounded down
/// to a whole milli-pixel.
pub open spec fn spec_dist(a: Point, b: Point) -> int {
    spec_isqrt(sq_dist(a, b))
}

/// Both coordinates are small enough that squared differences of two such
/// points fit comfortably in `i64`.
pub open spec fn in_coord_range(p: Point) -> bool {
    -COORD_BOUND <= p.x <= COORD_BOUND && -COORD_BOUND <= p.y <= COORD_BOUND
}

impl Point {
    pub fn new(x: i64, y: i64) -> (r: Point)
        ensures
            r == (Point { x, y }),
    {
        Point { x, y }
    }

    /// Euclidean distance to `point`, rounded down to a whole milli-pixel.
    pub fn dist(&self, point: &Point) -> (r: i64)
        requires
            in_coord_range(*self),
            in_coord_range(*point),
        ensures
            r == spec_dist(*self, *point),
            is_isqrt(sq_dist(*self, *point), r as int),
            0 <= r <= 3_000_000_000,
    {
        let dx: i64 = point.x - self.x;
        let dy: i64 = point.y - self.y;
        proof {
            lemma_sq_dist_bounds(*self, *point);
        }
        let n: i64 = dx * dx + dy * dy;
        let r = isqrt(n);
        proof {
            if r > 3_000_000_000 {
                assert(3_000_000_001 * 3_000_000_001 <= r as int * r as int) by (nonlinear_arith)
                    requires
                        3_000_000_001 <= r as int,
                ;
                assert(3_000_000_001i64 as int * 3_000_000_001 > n as int) by (nonlinear_arith)
                    requires
                        n as int <= 8_820_000_000_000_000_000,
                ;
            }
        }
        r
    }
}

proof fn lemma_sq_dist_bounds(a: Point, b: Point)
    requires
        in_coord_range(a),
        in_coord_range(b),
    ensures
        0 <= sq_dist(a, b) <= 8_820_000_000_000_000_000,
        (b.x - a.x) * (b.x - a.x) <= 4_410_000_000_000_000_000,
        (b.y - a.y) * (b.y - a.y) <= 4_410_000_000_000_000_000,
{
    let dx = b.x - a.x;
    let dy = b.y - a.y;
    assert(0 <= dx * dx <= 4_410_000_000_000_000_000 && 0 <= dy * dy
        <= 4_410_000_000_000_000_000) by (nonlinear_arith)
        requires
            -2_100_000_000 <= dx <= 2_100_000_000,
            -2_100_000_000 <= dy <= 2_100_000_000,
    ;
}

/// A point is at distance zero from itself.
pub proof fn lemma_dist_self_zero(a: Point)
    ensures
        spec_dist(a, a) == 0,
{
    assert(is_isqrt(sq_dist(a, a), 0));
    lemma_isqrt_is(sq_dist(a, a), 0);
}

/// Distance is symmetric: the distance from `a` to `b` equals the distance
/// from `b` to `a`.
pub proof fn lemma_dist_symmetric(a: Point, b: Point)
    ensures
        spec_dist(a, b) == spec_dist(b, a),
{
    assert(sq_dist(a, b) == sq_dist(b, a)) by (nonlinear_arith);
}

} // verus!
