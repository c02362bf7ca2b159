//! The spiral walker: owns the configuration, walks an Archimedean spiral
//! in fixed angular steps, samples the image across a short probe segment
//! at each step, turns the sampled luminance into a line thickness and
//! emits the inner and outer edge of the contour.
//!
//! Angles advance by 3 milli-radians per step; the unit direction vector
//! `(cos, sin)` is carried in nano-units (scaled by a billion) and advanced
//! by one fixed rotation per step, clamped to the unit range. The radius at
//! step `k` is exactly `growth_rate * theta`, held in micro-pixels, so its
//! growth and the terminal condition are exact integer facts.

use vstd::prelude::*;
use vstd::arithmetic::div_mod::{
    lemma_div_is_ordered, lemma_div_pos_is_pos, lemma_fundamental_div_mod,
    lemma_fundamental_div_mod_converse,
};
use vstd::arithmetic::mul::{lemma_mul_inequality, lemma_mul_is_associative};
use crate::fixed::{
    lemma_mul_abs_bound, lemma_round_div_bound, mul_div_round, round_div, round_div_i64,
};
use crate::geometry::{Point, in_coord_range, spec_dist};
use crate::sampler::{
    PixelBuffer, Rgb, get_average_rgb_between_points, spec_average_between,
};

verus! {

/// Scale of the unit direction vector: `TRIG_ONE` stands for 1.0.
pub const TRIG_ONE: i64 = 1_000_000_000;

/// `cos(0.003)` in nano-units: the per-step rotation of the direction.
pub const COS_STEP: i64 = 999_995_500;

/// `sin(0.003)` in nano-units.
pub const SIN_STEP: i64 = 2_999_996;

/// Length of the luminance probe segment: 7 pixels, in milli-pixels. Also
/// the thickest line the walker emits.
pub const SAMPLE_LENGTH: i64 = 7000;

/// The thinnest line the walker emits: 1 pixel, in milli-pixels.
pub const MIN_LENGTH: i64 = 1000;

/// Margin kept between the spiral and the canvas edge under the `Contain`
/// crop policy: 5 pixels, in milli-pixels.
pub const GUTTER: i64 = 5000;

/// Largest growth rate the fixed-point arithmetic supports, in
/// milli-pixels per radian.
pub const GROWTH_LIMIT: i64 = 1_000_000_000;

/// Largest origin coordinate magnitude the fixed-point arithmetic
/// supports, in milli-pixels.
pub const ORIGIN_LIMIT: i64 = 400_000_000;

/// Largest canvas size the fixed-point arithmetic supports, in
/// milli-pixels.
pub const SIZE_LIMIT: i64 = 1_000_000;

/// How the spiral's maximum radius is bounded relative to the canvas.
#[derive(Clone, Copy, Debug, PartialEq, Eq, Structural)]
pub enum Crop {
    /// The spiral stays on the canvas: radius at most half the canvas side
    /// minus a gutter, regardless of origin.
    Contain,
    /// The spiral covers the canvas: radius up to the farthest canvas
    /// corner from the origin.
    Overflow,
}

/// Why a walk was refused.
#[derive(Clone, Copy, Debug, PartialEq, Eq, Structural)]
pub enum SwirlError {
    /// The configuration cannot be walked: growth rate not positive, or a
    /// parameter outside the range the fixed-point arithmetic supports.
    InvalidConfiguration,
}

/// Perceptual luminance of a color, `0.299 R + 0.587 G + 0.114 B` in
/// integer thousandths, rounded to the nearest integer; in `0 ..= 255`.
pub open spec fn spec_luma(c: Rgb) -> int {
    (299 * c.r + 587 * c.g + 114 * c.b + 500) / 1000
}

/// Perceptual luminance of a color.
pub fn luma(c: Rgb) -> (r: u8)
    ensures
        r == spec_luma(c),
{
    let n: u32 = 299 * c.r as u32 + 587 * c.g as u32 + 114 * c.b as u32 + 500;
    proof {
        lemma_div_is_ordered(n as int, 255_500, 1000);
    }
    (n / 1000) as u8
}

/// Thickness before clamping: `(255 - luma) / 255` of the probe length,
/// rounded to the nearest milli-pixel.
pub open spec fn spec_raw_length(l: int) -> int {
    round_div((255 - l) * 7000, 255)
}

/// The thickness emitted for luminance `l`: the raw mapping, mirrored when
/// `invert` is set, clamped below at one pixel.
pub open spec fn spec_length(l: int, invert: bool) -> int {
    let base = spec_raw_length(l);
    let v = if invert {
        7000 - base
    } else {
        base
    };
    if v < 1000 {
        1000
    } else {
        v
    }
}

proof fn lemma_raw_length_range(l: int)
    requires
        0 <= l <= 255,
    ensures
        0 <= spec_raw_length(l) <= 7000,
{
    let a = (255 - l) * 7000;
    assert(0 <= a <= 1_785_000);
    lemma_fundamental_div_mod_converse(255int * 7000 + 127, 255, 7000, 127);
    lemma_div_is_ordered(a + 127, 255int * 7000 + 127, 255);
    lemma_div_pos_is_pos(a + 127, 255);
}

/// Maps a sampled luminance to the emitted line thickness in milli-pixels:
/// darker means thicker (mirrored when `invert` is set), and the result is
/// clamped to `MIN_LENGTH ..= SAMPLE_LENGTH`.
pub fn luma_to_length(l: u8, invert: bool) -> (r: i64)
    ensures
        r == spec_length(l as int, invert),
        MIN_LENGTH <= r <= SAMPLE_LENGTH,
{
    proof {
        lemma_raw_length_range(l as int);
    }
    let base: i64 = round_div_i64((255 - l as i64) * 7000, 255);
    let v: i64 = if invert {
        7000 - base
    } else {
        base
    };
    if v < 1000 {
        1000
    } else {
        v
    }
}

/// The thickness mapping is monotone: a darker sample never draws a
/// thinner line than a brighter one (the mirrored mapping reverses the
/// direction).
pub proof fn lemma_length_monotone(l1: int, l2: int)
    requires
        0 <= l1 <= l2 <= 255,
    ensures
        spec_length(l2, false) <= spec_length(l1, false),
        spec_length(l1, true) <= spec_length(l2, true),
{
    lemma_div_is_ordered((255 - l2) * 7000 + 127, (255 - l1) * 7000 + 127, 255);
    lemma_div_pos_is_pos((255 - l2) * 7000 + 127, 255);
}

/// The emitted thickness is clamped: between one pixel and the probe
/// length, for every luminance and either inversion setting.
pub proof fn lemma_length_clamped(l: int, invert: bool)
    requires
        0 <= l <= 255,
    ensures
        MIN_LENGTH <= spec_length(l, invert) <= SAMPLE_LENGTH,
{
    lemma_raw_length_range(l);
}

/// The spiral walker's configuration: crop policy, origin, growth rate,
/// inversion flag, canvas size, and the pixel buffer it samples. Built
/// once, read-only during the walk.
pub struct Swirlr {
    pub crop: Crop,
    pub origin_x: i64,
    pub origin_y: i64,
    pub source: PixelBuffer,
    pub output_size: i64,
    pub growth_rate: i64,
    pub invert: bool,
}

/// The larger of two values.
pub open spec fn spec_max2(a: int, b: int) -> int {
    if a >= b {
        a
    } else {
        b
    }
}

impl Swirlr {
    /// A walker over `source` with the default configuration: a spiral
    /// overflowing a 500-pixel canvas from its center, growth rate 1.2
    /// pixels per radian, not inverted.
    pub fn new(source: PixelBuffer) -> (r: Swirlr)
        ensures
            r.crop == Crop::Overflow,
            r.origin_x == 250_000,
            r.origin_y == 250_000,
            r.output_size == 500_000,
            r.growth_rate == 1200,
            r.invert == false,
            r.source == source,
    {
        Swirlr {
            crop: Crop::Overflow,
            source,
            output_size: 500_000,
            origin_x: 250_000,
            origin_y: 250_000,
            growth_rate: 1200,
            invert: false,
        }
    }

    pub fn set_crop(self, crop: Crop) -> (r: Swirlr)
        ensures
            r == (Swirlr { crop, ..self }),
    {
        Swirlr { crop, ..self }
    }

    pub fn set_origin(self, x: i64, y: i64) -> (r: Swirlr)
        ensures
            r == (Swirlr { origin_x: x, origin_y: y, ..self }),
    {
        Swirlr { origin_x: x, origin_y: y, ..self }
    }

    pub fn set_growth_rate(self, growth_rate: i64) -> (r: Swirlr)
        ensures
            r == (Swirlr { growth_rate, ..self }),
    {
        Swirlr { growth_rate, ..self }
    }

    pub fn set_invert(self, invert: bool) -> (r: Swirlr)
        ensures
            r == (Swirlr { invert, ..self }),
    {
        Swirlr { invert, ..self }
    }

    /// The configuration can be walked: positive growth rate, and every
    /// parameter within the range the fixed-point arithmetic supports,
    /// over a well-formed pixel buffer.
    pub open spec fn valid_config(self) -> bool {
        &&& 0 < self.growth_rate <= GROWTH_LIMIT
        &&& -ORIGIN_LIMIT <= self.origin_x <= ORIGIN_LIMIT
        &&& -ORIGIN_LIMIT <= self.origin_y <= ORIGIN_LIMIT
        &&& 0 <= self.output_size <= SIZE_LIMIT
        &&& self.source.wf()
    }

    /// The largest radius the spiral may reach, per the active crop
    /// policy, in milli-pixels.
    pub open spec fn spec_max_radius(self) -> int {
        match self.crop {
            Crop::Contain => self.output_size / 2 - GUTTER,
            Crop::Overflow => {
                let o = Point { x: self.origin_x, y: self.origin_y };
                let d1 = spec_dist(o, Point { x: 0, y: 0 });
                let d2 = spec_dist(o, Point { x: self.output_size, y: 0 });
                let d3 = spec_dist(o, Point { x: self.output_size, y: self.output_size });
                let d4 = spec_dist(o, Point { x: 0, y: self.output_size });
                spec_max2(spec_max2(d1, d2), spec_max2(d3, d4))
            },
        }
    }

    /// Computes the maximum spiral radius: half the canvas minus the
    /// gutter under `Contain`, the distance from the origin to the
    /// farthest canvas corner under `Overflow`.
    pub fn max_radius(&self) -> (r: i64)
        requires
            -ORIGIN_LIMIT <= self.origin_x <= ORIGIN_LIMIT,
            -ORIGIN_LIMIT <= self.origin_y <= ORIGIN_LIMIT,
            0 <= self.output_size <= SIZE_LIMIT,
        ensures
            r == self.spec_max_radius(),
            -GUTTER <= r <= 600_000_000,
    {
        match self.crop {
            Crop::Contain => (self.output_size as u64 / 2) as i64 - GUTTER,
            Crop::Overflow => {
                let o = Point { x: self.origin_x, y: self.origin_y };
                let size = self.output_size;
                let d1 = o.dist(&Point { x: 0, y: 0 });
                let d2 = o.dist(&Point { x: size, y: 0 });
                let d3 = o.dist(&Point { x: size, y: size });
                let d4 = o.dist(&Point { x: 0, y: size });
                proof {
                    lemma_corner_dist_bound(o, Point { x: 0, y: 0 }, d1 as int);
                    lemma_corner_dist_bound(o, Point { x: size, y: 0 }, d2 as int);
                    lemma_corner_dist_bound(o, Point { x: size, y: size }, d3 as int);
                    lemma_corner_dist_bound(o, Point { x: 0, y: size }, d4 as int);
                }
                let mut m = d1;
                if d2 > m {
                    m = d2;
                }
                let m34 = if d4 > d3 {
                    d4
                } else {
                    d3
                };
                if m34 > m {
                    m = m34;
                }
                m
            },
        }
    }
}

/// Clamps a nano-unit value to the unit range.
pub open spec fn clamp_trig(v: int) -> int {
    if v > TRIG_ONE as int {
        TRIG_ONE as int
    } else if v < -(TRIG_ONE as int) {
        -(TRIG_ONE as int)
    } else {
        v
    }
}

/// One rotation of the direction vector by the fixed angular step.
pub open spec fn rot_next(c: int, s: int) -> (int, int) {
    (
        clamp_trig(round_div(c * (COS_STEP as int) - s * (SIN_STEP as int), TRIG_ONE as int)),
        clamp_trig(round_div(s * (COS_STEP as int) + c * (SIN_STEP as int), TRIG_ONE as int)),
    )
}

/// The unit direction vector after `k` angular steps, in nano-units.
pub open spec fn cs_at(k: nat) -> (int, int)
    decreases k,
{
    if k == 0 {
        (TRIG_ONE as int, 0)
    } else {
        let p = cs_at((k - 1) as nat);
        rot_next(p.0, p.1)
    }
}

/// The spiral radius after `k` steps, in micro-pixels: exactly the growth
/// rate times the angle walked.
pub open spec fn spec_radius_micro(growth: int, k: int) -> int {
    3 * growth * k
}

/// How many steps the walk emits before the radius reaches `crop_micro`.
pub open spec fn spec_steps_of(growth: int, crop_micro: int) -> nat {
    if growth >= 1 && crop_micro >= 1 {
        ((crop_micro - 1) / (3 * growth)) as nat
    } else {
        0
    }
}

/// The radius is monotonically non-decreasing in the step count.
pub proof fn lemma_radius_monotone(growth: int, k1: int, k2: int)
    requires
        0 <= growth,
        0 <= k1 <= k2,
    ensures
        spec_radius_micro(growth, k1) <= spec_radius_micro(growth, k2),
{
    lemma_mul_inequality(k1, k2, 3 * growth);
    assert(k1 * (3 * growth) == 3 * growth * k1) by (nonlinear_arith);
    assert(k2 * (3 * growth) == 3 * growth * k2) by (nonlinear_arith);
}

/// The walk terminates exactly when the radius reaches the bound: every
/// emitted step's radius is below `crop_micro`, and the first step past
/// the step count would reach it.
pub proof fn lemma_walk_terminates(growth: int, crop_micro: int)
    requires
        1 <= growth,
    ensures
        forall|k: int|
            1 <= k <= spec_steps_of(growth, crop_micro) ==> spec_radius_micro(growth, k)
                < crop_micro,
        spec_radius_micro(growth, spec_steps_of(growth, crop_micro) as int + 1) >= crop_micro,
{
    let n = spec_steps_of(growth, crop_micro) as int;
    if crop_micro >= 1 {
        lemma_fundamental_div_mod(crop_micro - 1, 3 * growth);
        lemma_mod_bound_local(crop_micro - 1, 3 * growth);
        assert(crop_micro - 1 == 3 * growth * n + (crop_micro - 1) % (3 * growth));
        assert(3 * growth * (n + 1) == 3 * growth * n + 3 * growth) by (nonlinear_arith);
        assert forall|k: int| 1 <= k <= n implies spec_radius_micro(growth, k)
            < crop_micro by {
            lemma_radius_monotone(growth, k, n);
        }
    } else {
        assert(3 * growth * (0 + 1) == 3 * growth) by (nonlinear_arith);
    }
}

proof fn lemma_mod_bound_local(x: int, d: int)
    requires
        0 < d,
    ensures
        0 <= x % d < d,
{
}

/// While the loop condition holds, the next step is still within the walk.
proof fn lemma_step_in_range(growth: int, crop_micro: int, k: int)
    requires
        1 <= growth,
        0 <= k,
        (k + 1) * 3 * growth < crop_micro,
    ensures
        k + 1 <= spec_steps_of(growth, crop_micro),
{
    assert((k + 1) * 3 * growth == 3 * growth * (k + 1)) by (nonlinear_arith);
    assert(3 * growth * (k + 1) >= 1) by (nonlinear_arith)
        requires
            0 <= k,
            1 <= growth,
    ;
    assert(crop_micro >= 2);
    assert(3 * growth * (k + 1) <= crop_micro - 1);
    lemma_div_is_ordered(3 * growth * (k + 1), crop_micro - 1, 3 * growth);
    vstd::arithmetic::div_mod::lemma_div_multiples_vanish(k + 1, 3 * growth);
}

/// When the loop condition fails, the walk has taken all its steps.
proof fn lemma_step_exit(growth: int, crop_micro: int, k: int)
    requires
        1 <= growth,
        0 <= k <= spec_steps_of(growth, crop_micro),
        (k + 1) * 3 * growth >= crop_micro,
    ensures
        k == spec_steps_of(growth, crop_micro),
{
    let n = spec_steps_of(growth, crop_micro) as int;
    if k < n {
        lemma_walk_terminates(growth, crop_micro);
        assert(spec_radius_micro(growth, k + 1) < crop_micro);
        assert((k + 1) * 3 * growth == 3 * growth * (k + 1)) by (nonlinear_arith);
    }
}

proof fn lemma_center_offset_bound(r_micro: int, t: int)
    requires
        0 <= r_micro,
        -1_000_000_000 <= t <= 1_000_000_000,
    ensures
        -(r_micro / 1000 + 1) <= round_div(r_micro * t, 1_000_000_000_000) <= r_micro / 1000
            + 1,
{
    let q = r_micro / 1000;
    lemma_fundamental_div_mod(r_micro, 1000);
    lemma_mod_bound_local(r_micro, 1000);
    assert((q + 1) * 1000 == 1000 * q + 1000) by (nonlinear_arith);
    assert((q + 1) * 1000 >= r_micro + 1);
    lemma_mul_abs_bound(r_micro, t, 1_000_000_000);
    lemma_mul_inequality(r_micro, (q + 1) * 1000, 1_000_000_000);
    lemma_mul_is_associative(q + 1, 1000, 1_000_000_000);
    lemma_div_pos_is_pos(r_micro, 1000);
    lemma_round_div_bound(r_micro * t, 1_000_000_000_000, q + 1);
}

/// Advances the direction vector by one angular step, clamped to the unit
/// range.
fn rot_step(c: i64, s: i64) -> (r: (i64, i64))
    requires
        -TRIG_ONE <= c <= TRIG_ONE,
        -TRIG_ONE <= s <= TRIG_ONE,
    ensures
        (r.0 as int, r.1 as int) == rot_next(c as int, s as int),
        -TRIG_ONE <= r.0 <= TRIG_ONE,
        -TRIG_ONE <= r.1 <= TRIG_ONE,
{
    proof {
        lemma_mul_abs_bound(COS_STEP as int, c as int, TRIG_ONE as int);
        lemma_mul_abs_bound(SIN_STEP as int, s as int, TRIG_ONE as int);
        lemma_mul_abs_bound(COS_STEP as int, s as int, TRIG_ONE as int);
        lemma_mul_abs_bound(SIN_STEP as int, c as int, TRIG_ONE as int);
        assert(c as int * (COS_STEP as int) == COS_STEP as int * (c as int)) by (nonlinear_arith);
        assert(s as int * (SIN_STEP as int) == SIN_STEP as int * (s as int)) by (nonlinear_arith);
        assert(s as int * (COS_STEP as int) == COS_STEP as int * (s as int)) by (nonlinear_arith);
        assert(c as int * (SIN_STEP as int) == SIN_STEP as int * (c as int)) by (nonlinear_arith);
    }
    let t1: i64 = c * COS_STEP - s * SIN_STEP;
    let t2: i64 = s * COS_STEP + c * SIN_STEP;
    let nc0: i64 = round_div_i64(t1, TRIG_ONE);
    let ns0: i64 = round_div_i64(t2, TRIG_ONE);
    let nc: i64 = if nc0 > TRIG_ONE {
        TRIG_ONE
    } else if nc0 < -TRIG_ONE {
        -TRIG_ONE
    } else {
        nc0
    };
    let ns: i64 = if ns0 > TRIG_ONE {
        TRIG_ONE
    } else if ns0 < -TRIG_ONE {
        -TRIG_ONE
    } else {
        ns0
    };
    (nc, ns)
}

/// The integer coordinate pairs of a point sequence.
pub open spec fn as_ints(s: Seq<Point>) -> Seq<(int, int)> {
    s.map(|i: int, p: Point| (p.x as int, p.y as int))
}

proof fn lemma_as_ints_push(s: Seq<Point>, p: Point)
    ensures
        as_ints(s.push(p)) == as_ints(s).push((p.x as int, p.y as int)),
{
    assert(as_ints(s.push(p)) =~= as_ints(s).push((p.x as int, p.y as int)));
}

proof fn lemma_seq_add_push(a: Seq<(int, int)>, b: Seq<(int, int)>, x: (int, int))
    ensures
        (a + b).push(x) == a + b.push(x),
{
    assert((a + b).push(x) =~= a + b.push(x));
}

proof fn lemma_reverse_step(s: Seq<(int, int)>, j: int)
    requires
        0 <= j < s.len(),
    ensures
        s.skip(j).reverse() == s.skip(j + 1).reverse().push(s[j]),
{
    assert(s.skip(j).reverse() =~= s.skip(j + 1).reverse().push(s[j]));
}

impl Swirlr {
    /// The spiral centerline at step `k` with direction `(c, s)`, in
    /// milli-pixels: the origin plus the radius along the direction.
    pub open spec fn spec_center(self, k: int, c: int, s: int) -> (int, int) {
        (
            self.origin_x + round_div(
                spec_radius_micro(self.growth_rate as int, k) * c,
                1_000_000_000_000,
            ),
            self.origin_y + round_div(
                spec_radius_micro(self.growth_rate as int, k) * s,
                1_000_000_000_000,
            ),
        )
    }

    /// One step of the walk at step `k` with direction `(c, s)`: the
    /// emitted inner and outer contour points and the thickness used,
    /// where `prev` is the thickness of the step before, reused when the
    /// probe found no in-bounds pixel.
    ///
    /// The probe and the emitted pair are offset along the spiral bearing
    /// `(cos, sin)` itself, not along a geometric normal to the curve;
    /// that asymmetry is part of the intended look and must stay.
    #[verifier::opaque]
    pub open spec fn spec_step(self, k: int, c: int, s: int, prev: int) -> (
        (int, int),
        (int, int),
        int,
    ) {
        let ctr = self.spec_center(k, c, s);
        let px = round_div(3500 * c, TRIG_ONE as int);
        let py = round_div(3500 * s, TRIG_ONE as int);
        let pa = Point { x: (ctr.0 - px) as i64, y: (ctr.1 - py) as i64 };
        let pb = Point { x: (ctr.0 + px) as i64, y: (ctr.1 + py) as i64 };
        let len = match spec_average_between(self.source, pa, pb) {
            Some(cval) => spec_length(spec_luma(cval), self.invert),
            None => prev,
        };
        let ox = round_div(len * c, 2_000_000_000);
        let oy = round_div(len * s, 2_000_000_000);
        ((ctr.0 - ox, ctr.1 - oy), (ctr.0 + ox, ctr.1 + oy), len)
    }

    /// The accumulated walk after `k` steps: inner edge points, outer edge
    /// points, and the thickness of the last step.
    pub open spec fn walk_state(self, k: nat) -> (Seq<(int, int)>, Seq<(int, int)>, int)
        decreases k,
    {
        if k == 0 {
            (Seq::empty(), Seq::empty(), MIN_LENGTH as int)
        } else {
            let prev = self.walk_state((k - 1) as nat);
            let cs = cs_at(k);
            let st = self.spec_step(k as int, cs.0, cs.1, prev.2);
            (prev.0.push(st.0), prev.1.push(st.1), st.2)
        }
    }

    /// How many steps this configuration walks.
    pub open spec fn spec_num_steps(self) -> nat {
        spec_steps_of(self.growth_rate as int, self.spec_max_radius() * 1000)
    }

    /// The full contour: the inner edge in walk order, then the outer edge
    /// reversed, as integer milli-pixel coordinate pairs.
    pub open spec fn spec_points(self) -> Seq<(int, int)> {
        let w = self.walk_state(self.spec_num_steps());
        w.0 + w.1.reverse()
    }

    /// Computes one walk step at step `km` with direction `(c, s)`: probes
    /// the buffer, maps the sampled luminance to a thickness (`prev` when
    /// the probe found no pixel), and returns the emitted inner and outer
    /// contour points with the thickness used.
    fn spiral_step(&self, km: i64, c: i64, s: i64, prev: i64) -> (r: (Point, Point, i64))
        requires
            self.valid_config(),
            1 <= km,
            0 <= (km as int) * 3 * (self.growth_rate as int) <= 600_000_000_000,
            -TRIG_ONE <= c <= TRIG_ONE,
            -TRIG_ONE <= s <= TRIG_ONE,
            MIN_LENGTH <= prev <= SAMPLE_LENGTH,
        ensures
            ({
                let st = self.spec_step(km as int, c as int, s as int, prev as int);
                &&& (r.0.x as int, r.0.y as int) == st.0
                &&& (r.1.x as int, r.1.y as int) == st.1
                &&& r.2 == st.2
            }),
            MIN_LENGTH <= r.2 <= SAMPLE_LENGTH,
            in_coord_range(r.0),
            in_coord_range(r.1),
    {
        let growth: i64 = self.growth_rate;
        proof {
            assert(km as int * 3 <= 600_000_000_000) by (nonlinear_arith)
                requires
                    1 <= growth as int,
                    1 <= km as int,
                    (km as int) * 3 * (growth as int) <= 600_000_000_000,
            ;
        }
        let r_micro: i64 = km * 3 * growth;
        proof {
            lemma_center_offset_bound(r_micro as int, c as int);
            lemma_center_offset_bound(r_micro as int, s as int);
            lemma_div_is_ordered(r_micro as int, 600_000_000_000, 1000);
        }
        let cox: i64 = mul_div_round(r_micro, c, 1_000_000_000_000);
        let coy: i64 = mul_div_round(r_micro, s, 1_000_000_000_000);
        let cx: i64 = self.origin_x + cox;
        let cy: i64 = self.origin_y + coy;
        proof {
            lemma_mul_abs_bound(3500, c as int, TRIG_ONE as int);
            lemma_mul_abs_bound(3500, s as int, TRIG_ONE as int);
            lemma_round_div_bound(3500 * c as int, TRIG_ONE as int, 3500);
            lemma_round_div_bound(3500 * s as int, TRIG_ONE as int, 3500);
        }
        let pox: i64 = mul_div_round(3500, c, TRIG_ONE);
        let poy: i64 = mul_div_round(3500, s, TRIG_ONE);
        let pa = Point { x: cx - pox, y: cy - poy };
        let pb = Point { x: cx + pox, y: cy + poy };
        let avg = get_average_rgb_between_points(&self.source, &pa, &pb);
        let len: i64 = match avg {
            Some(cval) => luma_to_length(luma(cval), self.invert),
            None => prev,
        };
        proof {
            lemma_mul_abs_bound(len as int, c as int, TRIG_ONE as int);
            lemma_mul_abs_bound(len as int, s as int, TRIG_ONE as int);
            lemma_mul_inequality(len as int, 7000, TRIG_ONE as int);
            lemma_round_div_bound(len as int * c as int, 2_000_000_000, 3500);
            lemma_round_div_bound(len as int * s as int, 2_000_000_000, 3500);
        }
        let lox: i64 = mul_div_round(len, c, 2_000_000_000);
        let loy: i64 = mul_div_round(len, s, 2_000_000_000);
        let p1 = Point { x: cx - lox, y: cy - loy };
        let p2 = Point { x: cx + lox, y: cy + loy };
        proof {
            reveal(Swirlr::spec_step);
            let ctr = self.spec_center(km as int, c as int, s as int);
            assert(km as int * 3 * (growth as int) == spec_radius_micro(
                growth as int,
                km as int,
            )) by (nonlinear_arith);
            assert(cx as int == ctr.0);
            assert(cy as int == ctr.1);
            let st = self.spec_step(km as int, c as int, s as int, prev as int);
            assert(pa == (Point {
                x: (ctr.0 - round_div(3500 * c as int, TRIG_ONE as int)) as i64,
                y: (ctr.1 - round_div(3500 * s as int, TRIG_ONE as int)) as i64,
            }));
            assert(pb == (Point {
                x: (ctr.0 + round_div(3500 * c as int, TRIG_ONE as int)) as i64,
                y: (ctr.1 + round_div(3500 * s as int, TRIG_ONE as int)) as i64,
            }));
            assert(len as int == st.2);
        }
        (p1, p2, len)
    }

    /// Walks the spiral over the source buffer and returns the canvas size
    /// and the contour points: the inner edge in walk order followed by
    /// the outer edge reversed. An invalid configuration is rejected
    /// before any sampling.
    #[verifier::rlimit(100)]
    pub fn get_points(&self) -> (r: Result<(i64, Vec<Point>), SwirlError>)
        ensures
            match r {
                Ok(res) => {
                    &&& self.valid_config()
                    &&& res.0 == self.output_size
                    &&& as_ints(res.1@) == self.spec_points()
                    &&& res.1@.len() == 2 * self.spec_num_steps()
                    &&& forall|i: int|
                        0 <= i < res.1@.len() ==> in_coord_range(#[trigger] res.1@[i])
                },
                Err(e) => {
                    &&& !self.valid_config()
                    &&& e == SwirlError::InvalidConfiguration
                },
            },
    {
        if !(self.growth_rate >= 1 && self.growth_rate <= GROWTH_LIMIT && self.origin_x
            >= -ORIGIN_LIMIT && self.origin_x <= ORIGIN_LIMIT && self.origin_y >= -ORIGIN_LIMIT
            && self.origin_y <= ORIGIN_LIMIT && self.output_size >= 0 && self.output_size
            <= SIZE_LIMIT && self.source.width <= 10_000 && self.source.height <= 10_000) {
            return Err(SwirlError::InvalidConfiguration);
        }
        proof {
            assert(self.source.width * self.source.height <= 100_000_000) by (nonlinear_arith)
                requires
                    self.source.width <= 10_000,
                    self.source.height <= 10_000,
            ;
        }
        if self.source.pixels.len() != self.source.width * self.source.height {
            return Err(SwirlError::InvalidConfiguration);
        }
        let growth: i64 = self.growth_rate;
        let crop: i64 = self.max_radius();
        let crop_micro: i64 = crop * 1000;
        let g3: i64 = 3 * growth;
        let ghost n = self.spec_num_steps();
        let mut inner: Vec<Point> = Vec::new();
        let mut outer: Vec<Point> = Vec::new();
        let mut prev: i64 = MIN_LENGTH;
        let mut c: i64 = TRIG_ONE;
        let mut s: i64 = 0;
        let mut k: i64 = 0;
        let mut r_next: i64 = g3;
        while r_next < crop_micro
            invariant
                self.valid_config(),
                growth == self.growth_rate,
                crop == self.spec_max_radius(),
                -GUTTER <= crop <= 600_000_000,
                crop_micro == crop * 1000,
                g3 == 3 * growth,
                n == self.spec_num_steps(),
                0 <= k,
                k <= n,
                k <= 600_000_000_000,
                r_next == spec_radius_micro(growth as int, k as int + 1),
                3 <= r_next <= 610_000_000_000,
                (c as int, s as int) == cs_at(k as nat),
                -TRIG_ONE <= c <= TRIG_ONE,
                -TRIG_ONE <= s <= TRIG_ONE,
                MIN_LENGTH <= prev <= SAMPLE_LENGTH,
                inner@.len() == k,
                outer@.len() == k,
                as_ints(inner@) == self.walk_state(k as nat).0,
                as_ints(outer@) == self.walk_state(k as nat).1,
                prev == self.walk_state(k as nat).2,
                forall|i: int| 0 <= i < k ==> in_coord_range(#[trigger] inner@[i]),
                forall|i: int| 0 <= i < k ==> in_coord_range(#[trigger] outer@[i]),
            decreases n - k,
        {
            proof {
                assert((k as int + 1) * 3 * (growth as int) == spec_radius_micro(
                    growth as int,
                    k as int + 1,
                )) by (nonlinear_arith);
                lemma_step_in_range(growth as int, crop_micro as int, k as int);
                assert(k as int + 1 <= 600_000_000_000) by (nonlinear_arith)
                    requires
                        (k as int + 1) * 3 * (growth as int) < 600_000_000_001,
                        1 <= growth as int,
                        0 <= k as int,
                ;
            }
            let ghost k0 = k as nat;
            let ghost prev0 = prev as int;
            let km: i64 = k + 1;
            let cs = rot_step(c, s);
            c = cs.0;
            s = cs.1;
            proof {
                assert(cs_at(km as nat) == rot_next(cs_at(k0).0, cs_at(k0).1));
                assert((c as int, s as int) == cs_at(km as nat));
            }
            let st = self.spiral_step(km, c, s, prev);
            let ghost inner0 = inner@;
            let ghost outer0 = outer@;
            inner.push(st.0);
            outer.push(st.1);
            prev = st.2;
            k = km;
            proof {
                let stp = self.spec_step(km as int, c as int, s as int, prev0);
                assert(self.walk_state(km as nat).0 == self.walk_state(k0).0.push(stp.0));
                assert(self.walk_state(km as nat).1 == self.walk_state(k0).1.push(stp.1));
                assert(self.walk_state(km as nat).2 == stp.2);
                lemma_as_ints_push(inner0, st.0);
                lemma_as_ints_push(outer0, st.1);
            }
            proof {
                assert(km as int * 3 * (growth as int) + 3 * (growth as int) == (km as int + 1)
                    * 3 * (growth as int)) by (nonlinear_arith);
                assert(km as int * 3 * (growth as int) == spec_radius_micro(
                    growth as int,
                    km as int,
                )) by (nonlinear_arith);
                assert((km as int + 1) * 3 * (growth as int) == spec_radius_micro(
                    growth as int,
                    km as int + 1,
                )) by (nonlinear_arith);
            }
            r_next = r_next + g3;
        }
        proof {
            assert((k as int + 1) * 3 * (growth as int) == spec_radius_micro(
                growth as int,
                k as int + 1,
            )) by (nonlinear_arith);
            lemma_step_exit(growth as int, crop_micro as int, k as int);
        }
        let ghost w = self.walk_state(n);
        let mut points: Vec<Point> = inner;
        let mut j: usize = outer.len();
        proof {
            assert(w.1.skip(j as int).reverse() =~= Seq::<(int, int)>::empty());
            assert(as_ints(points@) =~= w.0 + w.1.skip(j as int).reverse());
        }
        while j > 0
            invariant
                0 <= j <= n,
                outer@.len() == n,
                w == self.walk_state(n),
                as_ints(outer@) == w.1,
                w.0.len() == n,
                w.1.len() == n,
                points@.len() == n + (n - j),
                as_ints(points@) == w.0 + w.1.skip(j as int).reverse(),
                forall|i: int| 0 <= i < outer@.len() ==> in_coord_range(#[trigger] outer@[i]),
                forall|i: int| 0 <= i < points@.len() ==> in_coord_range(#[trigger] points@[i]),
            decreases j,
        {
            j = j - 1;
            let p = outer[j];
            let ghost points0 = points@;
            points.push(p);
            proof {
                lemma_reverse_step(w.1, j as int);
                lemma_as_ints_push(points0, p);
                lemma_seq_add_push(w.0, w.1.skip(j as int + 1).reverse(), w.1[j as int]);
            }
        }
        proof {
            assert(w.1.skip(0) =~= w.1);
            assert(as_ints(points@) == self.spec_points());
        }
        Ok((self.output_size, points))
    }
}

/// Under the `Contain` policy a 500-pixel canvas always yields a maximum
/// radius of 245 pixels (half the canvas minus the 5-pixel gutter),
/// regardless of the origin.
pub proof fn lemma_contain_radius(w: Swirlr)
    requires
        w.crop is Contain,
        w.output_size == 500_000,
    ensures
        w.spec_max_radius() == 245_000,
{
}

/// Under the `Overflow` policy with the origin at the center of a
/// 500-pixel canvas, the maximum radius is the center-to-corner distance,
/// about 353.55 pixels (353,553 milli-pixels).
pub proof fn lemma_overflow_center_radius(w: Swirlr)
    requires
        w.crop is Overflow,
        w.origin_x == 250_000,
        w.origin_y == 250_000,
        w.output_size == 500_000,
    ensures
        w.spec_max_radius() == 353_553,
{
    let o = Point { x: 250_000, y: 250_000 };
    assert(250_000int * 250_000 + 250_000int * 250_000 == 125_000_000_000) by (nonlinear_arith);
    assert((-250_000int) * (-250_000) == 250_000int * 250_000) by (nonlinear_arith);
    assert(353_553int * 353_553 <= 125_000_000_000 < 353_554int * 353_554) by (nonlinear_arith);
    assert(crate::fixed::is_isqrt(125_000_000_000, 353_553));
    crate::fixed::lemma_isqrt_is(crate::geometry::sq_dist(o, Point { x: 0, y: 0 }), 353_553);
    crate::fixed::lemma_isqrt_is(
        crate::geometry::sq_dist(o, Point { x: 500_000, y: 0 }),
        353_553,
    );
    crate::fixed::lemma_isqrt_is(
        crate::geometry::sq_dist(o, Point { x: 500_000, y: 500_000 }),
        353_553,
    );
    crate::fixed::lemma_isqrt_is(
        crate::geometry::sq_dist(o, Point { x: 0, y: 500_000 }),
        353_553,
    );
}

proof fn lemma_corner_dist_bound(o: Point, c: Point, d: int)
    requires
        crate::fixed::is_isqrt(crate::geometry::sq_dist(o, c), d),
        -ORIGIN_LIMIT <= o.x <= ORIGIN_LIMIT,
        -ORIGIN_LIMIT <= o.y <= ORIGIN_LIMIT,
        0 <= c.x <= SIZE_LIMIT,
        0 <= c.y <= SIZE_LIMIT,
    ensures
        0 <= d <= 600_000_000,
{
    let dx = c.x - o.x;
    let dy = c.y - o.y;
    assert(dx * dx + dy * dy < 600_000_001 * 600_000_001) by (nonlinear_arith)
        requires
            -401_000_000 <= dx <= 401_000_000,
            -401_000_000 <= dy <= 401_000_000,
    ;
    crate::fixed::lemma_isqrt_lt(dx * dx + dy * dy, d, 600_000_001);
}

} // verus!
