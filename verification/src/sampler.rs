//! The pixel sampler: a square RGB buffer of plain bytes, and the average
//! color of the pixels lying on the segment between two points.
//!
//! A sample coordinate that falls outside the buffer is silently skipped;
//! that is expected near the canvas edges, not an error. A segment on which
//! no coordinate was valid has no average: the sampler returns `None` and
//! the caller recovers (the walker reuses the previous thickness).

use vstd::prelude::*;
use vstd::arithmetic::div_mod::lemma_fundamental_div_mod;
use vstd::arithmetic::mul::lemma_mul_inequality;
use crate::fixed::{lemma_mul_abs_bound, lemma_round_div_bound, mul_div_round, round_div};
use crate::geometry::{Point, in_coord_range, sq_dist, spec_dist};

verus! {

/// One pixel's color, eight bits per channel.
#[derive(Clone, Copy, Debug, PartialEq, Eq, Structural)]
pub struct Rgb {
    pub r: u8,
    pub g: u8,
    pub b: u8,
}

/// A rectangular RGB pixel grid in row-major order. The walker reads it
/// through `get_pixel` only; preprocessing (decode, center-crop, resize)
/// happens outside the library and hands the finished grid in.
#[derive(Debug)]
pub struct PixelBuffer {
    pub width: usize,
    pub height: usize,
    pub pixels: Vec<Rgb>,
}

impl PixelBuffer {
    /// The grid holds exactly one color per cell and its sides are small
    /// enough that index arithmetic cannot overflow.
    pub open spec fn wf(&self) -> bool {
        &&& self.pixels@.len() == self.width * self.height
        &&& self.width <= 10_000
        &&& self.height <= 10_000
    }

    /// The color at column `x`, row `y`.
    pub open spec fn spec_pixel(&self, x: int, y: int) -> Rgb {
        self.pixels@[y * self.width + x]
    }

    /// Builds a buffer, refusing a pixel vector whose length does not match
    /// the sides and sides too large for index arithmetic.
    pub fn new(width: usize, height: usize, pixels: Vec<Rgb>) -> (r: Option<PixelBuffer>)
        ensures
            match r {
                Some(buf) => {
                    &&& buf.wf()
                    &&& buf.width == width
                    &&& buf.height == height
                    &&& buf.pixels@ == pixels@
                },
                None => !(PixelBuffer { width, height, pixels }).wf(),
            },
    {
        if width <= 10_000 && height <= 10_000 {
            proof {
                assert(width * height <= 100_000_000) by (nonlinear_arith)
                    requires
                        width <= 10_000,
                        height <= 10_000,
                ;
            }
            if pixels.len() == width * height {
                Some(PixelBuffer { width, height, pixels })
            } else {
                None
            }
        } else {
            None
        }
    }

    /// Reads the color at column `x`, row `y`.
    pub fn get_pixel(&self, x: usize, y: usize) -> (r: Rgb)
        requires
            self.wf(),
            x < self.width,
            y < self.height,
        ensures
            r == self.spec_pixel(x as int, y as int),
    {
        proof {
            assert(y * self.width + x < self.width * self.height && y * self.width
                <= 100_000_000) by (nonlinear_arith)
                requires
                    x < self.width,
                    y < self.height,
                    self.width <= 10_000,
                    self.height <= 10_000,
            ;
        }
        self.pixels[y * self.width + x]
    }
}

/// Sum of the red channel over a sequence of colors.
pub open spec fn sum_r(s: Seq<Rgb>) -> int
    decreases s.len(),
{
    if s.len() == 0 {
        0
    } else {
        sum_r(s.drop_last()) + s.last().r
    }
}

/// Sum of the green channel over a sequence of colors.
pub open spec fn sum_g(s: Seq<Rgb>) -> int
    decreases s.len(),
{
    if s.len() == 0 {
        0
    } else {
        sum_g(s.drop_last()) + s.last().g
    }
}

/// Sum of the blue channel over a sequence of colors.
pub open spec fn sum_b(s: Seq<Rgb>) -> int
    decreases s.len(),
{
    if s.len() == 0 {
        0
    } else {
        sum_b(s.drop_last()) + s.last().b
    }
}

/// A channel sum over `n` colors, divided by `n` and rounded to the nearest
/// integer (half rounds up).
pub open spec fn spec_avg_channel(sum: int, n: int) -> int {
    (2 * sum + n) / (2 * n)
}

proof fn lemma_sums_bounded(s: Seq<Rgb>)
    ensures
        0 <= sum_r(s) <= 255 * s.len(),
        0 <= sum_g(s) <= 255 * s.len(),
        0 <= sum_b(s) <= 255 * s.len(),
    decreases s.len(),
{
    if s.len() > 0 {
        lemma_sums_bounded(s.drop_last());
    }
}

proof fn lemma_avg_channel_in_range(sum: int, n: int)
    requires
        1 <= n,
        0 <= sum <= 255 * n,
    ensures
        0 <= spec_avg_channel(sum, n) <= 255,
{
    let q = spec_avg_channel(sum, n);
    lemma_fundamental_div_mod(2 * sum + n, 2 * n);
    if q >= 256 {
        lemma_mul_inequality(256, q, 2 * n);
    }
    if q < 0 {
        lemma_mul_inequality(q, -1, 2 * n);
    }
}

/// The color whose channels are the rounded channel-wise averages of `s`,
/// or `None` when `s` is empty.
pub open spec fn spec_average_rgb(s: Seq<Rgb>) -> Option<Rgb> {
    if s.len() == 0 {
        None
    } else {
        Some(
            Rgb {
                r: spec_avg_channel(sum_r(s), s.len() as int) as u8,
                g: spec_avg_channel(sum_g(s), s.len() as int) as u8,
                b: spec_avg_channel(sum_b(s), s.len() as int) as u8,
            },
        )
    }
}

/// Channel-wise rounded average of a list of colors; `None` when the list
/// is empty.
pub fn get_average_rgb(pixels: &Vec<Rgb>) -> (r: Option<Rgb>)
    requires
        pixels@.len() <= 100_000_000,
    ensures
        r == spec_average_rgb(pixels@),
{
    let n: usize = pixels.len();
    if n == 0 {
        return None;
    }
    let mut sr: u64 = 0;
    let mut sg: u64 = 0;
    let mut sb: u64 = 0;
    let mut i: usize = 0;
    while i < n
        invariant
            n == pixels@.len() <= 100_000_000,
            0 <= i <= n,
            sr == sum_r(pixels@.take(i as int)),
            sg == sum_g(pixels@.take(i as int)),
            sb == sum_b(pixels@.take(i as int)),
        decreases n - i,
    {
        proof {
            lemma_sums_bounded(pixels@.take(i as int));
            assert(pixels@.take(i as int).len() == i);
            assert(pixels@.take(i + 1).drop_last() =~= pixels@.take(i as int));
            assert(pixels@.take(i + 1).last() == pixels@[i as int]);
        }
        let p = pixels[i];
        sr = sr + p.r as u64;
        sg = sg + p.g as u64;
        sb = sb + p.b as u64;
        i = i + 1;
    }
    proof {
        assert(pixels@.take(n as int) =~= pixels@);
        lemma_sums_bounded(pixels@);
        lemma_avg_channel_in_range(sr as int, n as int);
        lemma_avg_channel_in_range(sg as int, n as int);
        lemma_avg_channel_in_range(sb as int, n as int);
    }
    let nn: u64 = n as u64;
    let qr: u64 = (2 * sr + nn) / (2 * nn);
    let qg: u64 = (2 * sg + nn) / (2 * nn);
    let qb: u64 = (2 * sb + nn) / (2 * nn);
    Some(Rgb { r: qr as u8, g: qg as u8, b: qb as u8 })
}

/// The milli-pixel coordinates of the `i`-th sample between `p1` and `p2`,
/// where `d` is the milli-pixel distance between the two points.
pub open spec fn spec_sample_xy(p1: Point, dx: int, dy: int, d: int, i: int) -> (int, int) {
    (p1.x + round_div(i * 1000 * dx, d), p1.y + round_div(i * 1000 * dy, d))
}

/// Rounds a milli-pixel coordinate to the nearest whole pixel; meaningful
/// for `v >= -500` only, which the sampler checks first.
pub open spec fn spec_px(v: int) -> int {
    (v + 500) / 1000
}

/// The milli-pixel coordinates `(sx, sy)` round to a cell inside `buf`.
pub open spec fn sample_valid(buf: PixelBuffer, sx: int, sy: int) -> bool {
    &&& -500 <= sx
    &&& -500 <= sy
    &&& spec_px(sx) < buf.width
    &&& spec_px(sy) < buf.height
}

/// The in-bounds samples among the first `n` coordinates stepped from `p1`
/// toward `p2`, in step order.
pub open spec fn spec_samples(buf: PixelBuffer, p1: Point, p2: Point, n: int) -> Seq<Rgb>
    decreases n,
{
    if n <= 0 {
        Seq::empty()
    } else {
        let prev = spec_samples(buf, p1, p2, n - 1);
        let d = spec_dist(p1, p2);
        let xy = spec_sample_xy(p1, p2.x - p1.x, p2.y - p1.y, d, n - 1);
        if sample_valid(buf, xy.0, xy.1) {
            prev.push(buf.spec_pixel(spec_px(xy.0), spec_px(xy.1)))
        } else {
            prev
        }
    }
}

/// How many whole-pixel steps the sampler takes between `p1` and `p2`.
pub open spec fn spec_num_samples(p1: Point, p2: Point) -> int {
    spec_dist(p1, p2) / 1000
}

/// What `get_average_rgb_between_points` returns: the rounded average color
/// of the valid samples on the segment, or `None` when none was valid.
pub open spec fn spec_average_between(buf: PixelBuffer, p1: Point, p2: Point) -> Option<Rgb> {
    spec_average_rgb(spec_samples(buf, p1, p2, spec_num_samples(p1, p2)))
}

proof fn lemma_abs_le_isqrt(dx: int, dy: int, d: int)
    requires
        crate::fixed::is_isqrt(dx * dx + dy * dy, d),
    ensures
        -d <= dx <= d,
        -d <= dy <= d,
{
    assert(dx * dx <= dx * dx + dy * dy && dy * dy <= dx * dx + dy * dy) by (nonlinear_arith);
    if dx > d {
        lemma_mul_inequality(d + 1, dx, d + 1);
        lemma_mul_inequality(d + 1, dx, dx);
    }
    if dx < -d {
        lemma_mul_inequality(d + 1, -dx, d + 1);
        lemma_mul_inequality(d + 1, -dx, -dx);
        assert((-dx) * (-dx) == dx * dx) by (nonlinear_arith);
    }
    if dy > d {
        lemma_mul_inequality(d + 1, dy, d + 1);
        lemma_mul_inequality(d + 1, dy, dy);
    }
    if dy < -d {
        lemma_mul_inequality(d + 1, -dy, d + 1);
        lemma_mul_inequality(d + 1, -dy, -dy);
        assert((-dy) * (-dy) == dy * dy) by (nonlinear_arith);
    }
}

/// Averages the colors of the buffer cells lying on the segment from `p1`
/// to `p2`, skipping cells outside the buffer; `None` when every cell on
/// the segment was outside (the "empty sample" case the walker recovers
/// from).
pub fn get_average_rgb_between_points(source: &PixelBuffer, p1: &Point, p2: &Point) -> (r: Option<
    Rgb,
>)
    requires
        source.wf(),
        in_coord_range(*p1),
        in_coord_range(*p2),
    ensures
        r == spec_average_between(*source, *p1, *p2),
{
    let d: i64 = p1.dist(p2);
    let dx: i64 = p2.x - p1.x;
    let dy: i64 = p2.y - p1.y;
    proof {
        lemma_abs_le_isqrt(dx as int, dy as int, d as int);
    }
    let n: u64 = (d as u64) / 1000;
    let mut samples: Vec<Rgb> = Vec::new();
    let mut i: u64 = 0;
    while i < n
        invariant
            source.wf(),
            in_coord_range(*p1),
            in_coord_range(*p2),
            d == spec_dist(*p1, *p2),
            0 <= d <= 3_000_000_000,
            dx == p2.x - p1.x,
            dy == p2.y - p1.y,
            -d <= dx <= d,
            -d <= dy <= d,
            n == spec_num_samples(*p1, *p2),
            n <= 3_000_000,
            0 <= i <= n,
            samples@ == spec_samples(*source, *p1, *p2, i as int),
            samples@.len() <= i,
        decreases n - i,
    {
        let a: i64 = (i * 1000) as i64;
        proof {
            lemma_mul_abs_bound(a as int, dx as int, d as int);
            lemma_mul_abs_bound(a as int, dy as int, d as int);
            lemma_round_div_bound(a as int * dx as int, d as int, a as int);
            lemma_round_div_bound(a as int * dy as int, d as int, a as int);
        }
        let off_x: i64 = mul_div_round(a, dx, d);
        let off_y: i64 = mul_div_round(a, dy, d);
        let sx: i64 = p1.x + off_x;
        let sy: i64 = p1.y + off_y;
        if sx >= -500 && sy >= -500 {
            let px: u64 = ((sx + 500) as u64) / 1000;
            let py: u64 = ((sy + 500) as u64) / 1000;
            if px < source.width as u64 && py < source.height as u64 {
                let c = source.get_pixel(px as usize, py as usize);
                samples.push(c);
            }
        }
        i = i + 1;
    }
    get_average_rgb(&samples)
}

} // verus!
