//! The contour-to-path reducer: a greedy, order-preserving distance
//! filter. It keeps the first point and then every point farther than a
//! minimum gap from the last kept point, thinning the contour without
//! reordering it.

use vstd::prelude::*;
use crate::geometry::{Point, in_coord_range, spec_dist};

verus! {

/// Default minimum gap between kept points: 2 pixels, in milli-pixels.
pub const MIN_GAP: i64 = 2000;

/// The tail of the greedy filter from index `i` on, with `last` the most
/// recently kept point.
pub open spec fn spec_reduce_rec(s: Seq<Point>, i: int, last: Point, gap: int) -> Seq<Point>
    decreases s.len() - i,
{
    if i < 0 || i >= s.len() {
        Seq::empty()
    } else if spec_dist(last, s[i]) > gap {
        seq![s[i]] + spec_reduce_rec(s, i + 1, s[i], gap)
    } else {
        spec_reduce_rec(s, i + 1, last, gap)
    }
}

/// The greedy filter over a whole sequence: the first point, then every
/// point farther than `gap` from the last kept one.
pub open spec fn spec_reduce(s: Seq<Point>, gap: int) -> Seq<Point> {
    if s.len() == 0 {
        Seq::empty()
    } else {
        seq![s[0]] + spec_reduce_rec(s, 1, s[0], gap)
    }
}

proof fn lemma_push_concat(a: Seq<Point>, x: Point, b: Seq<Point>)
    ensures
        a.push(x) + b == a + (seq![x] + b),
{
    assert(a.push(x) + b =~= a + (seq![x] + b));
}

/// Thins an ordered point sequence: keeps the first point, then each
/// point whose distance to the last kept point exceeds `min_gap`.
pub fn reduce(points: &Vec<Point>, min_gap: i64) -> (r: Vec<Point>)
    requires
        forall|i: int| 0 <= i < points@.len() ==> in_coord_range(#[trigger] points@[i]),
        0 <= min_gap,
    ensures
        r@ == spec_reduce(points@, min_gap as int),
{
    let mut out: Vec<Point> = Vec::new();
    if points.len() == 0 {
        proof {
            assert(out@ =~= spec_reduce(points@, min_gap as int));
        }
        return out;
    }
    let mut last: Point = points[0];
    out.push(last);
    let mut i: usize = 1;
    proof {
        assert(out@ =~= seq![points@[0]]);
    }
    while i < points.len()
        invariant
            points@.len() >= 1,
            1 <= i <= points@.len(),
            forall|j: int| 0 <= j < points@.len() ==> in_coord_range(#[trigger] points@[j]),
            in_coord_range(last),
            out@ + spec_reduce_rec(points@, i as int, last, min_gap as int) == spec_reduce(
                points@,
                min_gap as int,
            ),
        decreases points@.len() - i,
    {
        let p = points[i];
        let d = last.dist(&p);
        let ghost out0 = out@;
        if d > min_gap {
            out.push(p);
            proof {
                lemma_push_concat(
                    out0,
                    p,
                    spec_reduce_rec(points@, i as int + 1, p, min_gap as int),
                );
            }
            last = p;
        }
        i = i + 1;
    }
    proof {
        assert(out@ + spec_reduce_rec(points@, i as int, last, min_gap as int) =~= out@);
    }
    out
}

proof fn lemma_reduce_rec_gap(s: Seq<Point>, i: int, last: Point, gap: int)
    requires
        0 <= i,
    ensures
        ({
            let r = spec_reduce_rec(s, i, last, gap);
            &&& (r.len() > 0 ==> spec_dist(last, r[0]) > gap)
            &&& (forall|j: int|
                1 <= j < r.len() ==> spec_dist(r[j - 1], #[trigger] r[j]) > gap)
        }),
    decreases s.len() - i,
{
    let r = spec_reduce_rec(s, i, last, gap);
    if i < s.len() {
        if spec_dist(last, s[i]) > gap {
            lemma_reduce_rec_gap(s, i + 1, s[i], gap);
            let t = spec_reduce_rec(s, i + 1, s[i], gap);
            assert forall|j: int| 1 <= j < r.len() implies spec_dist(r[j - 1], #[trigger] r[j])
                > gap by {
                if j == 1 {
                    assert(r[0] == s[i]);
                    assert(r[1] == t[0]);
                } else {
                    assert(r[j - 1] == t[j - 2]);
                    assert(r[j] == t[j - 1]);
                }
            }
        } else {
            lemma_reduce_rec_gap(s, i + 1, last, gap);
        }
    }
}

/// In the reduced polyline every adjacent pair of kept points is farther
/// apart than the gap; only the implicit pair closing the path back to the
/// start is exempt, since it is not part of the sequence.
pub proof fn lemma_reduce_min_gap(s: Seq<Point>, gap: int)
    ensures
        forall|j: int|
            1 <= j < spec_reduce(s, gap).len() ==> spec_dist(
                spec_reduce(s, gap)[j - 1],
                #[trigger] spec_reduce(s, gap)[j],
            ) > gap,
{
    if s.len() > 0 {
        lemma_reduce_rec_gap(s, 1, s[0], gap);
        let r = spec_reduce(s, gap);
        let t = spec_reduce_rec(s, 1, s[0], gap);
        assert forall|j: int| 1 <= j < r.len() implies spec_dist(r[j - 1], #[trigger] r[j])
            > gap by {
            if j == 1 {
                assert(r[0] == s[0]);
                assert(r[1] == t[0]);
            } else {
                assert(r[j - 1] == t[j - 2]);
                assert(r[j] == t[j - 1]);
            }
        }
    }
}

} // verus!
