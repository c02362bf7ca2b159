use swirlr::contour::reduce;
use swirlr::sampler::{PixelBuffer, Rgb};
use swirlr::swirlr::{Crop, Swirlr, SwirlError};

fn uniform_buffer(level: u8) -> PixelBuffer {
    PixelBuffer::new(500, 500, vec![Rgb { r: level, g: level, b: level }; 250_000]).unwrap()
}

#[test]
fn overflow_radius_from_center_reaches_the_corners() {
    // distance from (250, 250) to a corner: 250 * sqrt(2) = 353.553 px
    let w = Swirlr::new(uniform_buffer(0));
    assert_eq!(w.max_radius(), 353_553);
}

#[test]
fn overflow_radius_tracks_the_farthest_corner() {
    let w = Swirlr::new(uniform_buffer(0)).set_origin(0, 0);
    // the farthest corner is (500, 500): 500 * sqrt(2) = 707.106 px
    assert_eq!(w.max_radius(), 707_106);
}

#[test]
fn contain_radius_ignores_origin() {
    let w = Swirlr::new(uniform_buffer(0)).set_crop(Crop::Contain);
    assert_eq!(w.max_radius(), 245_000);
    let w2 = Swirlr::new(uniform_buffer(0)).set_crop(Crop::Contain).set_origin(17_000, -9_000);
    assert_eq!(w2.max_radius(), 245_000);
    let w3 = Swirlr::new(uniform_buffer(0)).set_crop(Crop::Contain).set_origin(400_000_000, 0);
    assert_eq!(w3.max_radius(), 245_000);
}

#[test]
fn zero_growth_rate_is_rejected() {
    let w = Swirlr::new(uniform_buffer(0)).set_growth_rate(0);
    assert_eq!(w.get_points().unwrap_err(), SwirlError::InvalidConfiguration);
}

#[test]
fn negative_growth_rate_is_rejected() {
    let w = Swirlr::new(uniform_buffer(0)).set_growth_rate(-1_200);
    assert_eq!(w.get_points().unwrap_err(), SwirlError::InvalidConfiguration);
}

#[test]
fn builder_defaults_walk() {
    let w = Swirlr::new(uniform_buffer(128));
    let (size, points) = w.get_points().unwrap();
    assert_eq!(size, 500_000);
    // overflow radius 353.553 px, growth 1.2: (353_553_000 - 1) / 3600 steps
    assert_eq!(points.len(), 2 * 98_209);
}

#[test]
fn black_buffer_gives_full_thickness_everywhere() {
    let w = Swirlr::new(uniform_buffer(0)).set_crop(Crop::Contain);
    let (size, points) = w.get_points().unwrap();
    assert_eq!(size, 500_000);
    // contain radius 245 px, growth 1.2: (245_000_000 - 1) / 3600 steps
    let n: usize = 68_055;
    assert_eq!(points.len(), 2 * n);
    // the contour is the inner edge then the outer edge reversed: the pair
    // at step i straddles the centerline at the probe length, 7 px
    for i in 0..n {
        let inner = &points[i];
        let outer = &points[2 * n - 1 - i];
        let gap: i64 = inner.dist(outer);
        assert!(
            (6_990..=7_010).contains(&gap),
            "pair {} has gap {} instead of about 7000",
            i,
            gap
        );
    }
}

#[test]
fn white_buffer_clamps_to_minimum_thickness() {
    let w = Swirlr::new(uniform_buffer(255)).set_crop(Crop::Contain);
    let (_, points) = w.get_points().unwrap();
    let n: usize = points.len() / 2;
    for i in 0..n {
        let gap: i64 = points[i].dist(&points[2 * n - 1 - i]);
        assert!(
            (990..=1_010).contains(&gap),
            "pair {} has gap {} instead of about 1000",
            i,
            gap
        );
    }
}

#[test]
fn inverted_white_buffer_gives_full_thickness() {
    let w = Swirlr::new(uniform_buffer(255)).set_crop(Crop::Contain).set_invert(true);
    let (_, points) = w.get_points().unwrap();
    let n: usize = points.len() / 2;
    assert!(n > 0);
    let gap: i64 = points[0].dist(&points[2 * n - 1]);
    assert!((6_990..=7_010).contains(&gap));
}

#[test]
fn walk_starts_at_the_origin() {
    let w = Swirlr::new(uniform_buffer(0)).set_crop(Crop::Contain);
    let (_, points) = w.get_points().unwrap();
    let first = &points[0];
    // the first step sits a few milli-pixels from the origin, offset by
    // half the probe length at most
    assert!((first.x - 250_000).abs() <= 5_000);
    assert!((first.y - 250_000).abs() <= 5_000);
}

#[test]
fn radius_terminates_the_walk_before_the_bound() {
    let w = Swirlr::new(uniform_buffer(0)).set_crop(Crop::Contain);
    let (_, points) = w.get_points().unwrap();
    let origin = swirlr::geometry::Point::new(250_000, 250_000);
    for p in &points {
        // every point lies within the maximum radius plus half a probe
        assert!(origin.dist(p) <= 245_000 + 3_500 + 10);
    }
}

#[test]
fn reduced_walk_keeps_min_gap() {
    let w = Swirlr::new(uniform_buffer(0)).set_crop(Crop::Contain);
    let (_, points) = w.get_points().unwrap();
    let r = reduce(&points, 2_000);
    assert!(!r.is_empty());
    assert_eq!(r[0], points[0]);
    for pair in r.windows(2) {
        assert!(pair[0].dist(&pair[1]) > 2_000);
    }
}

#[test]
fn walk_samples_the_image_not_a_constant() {
    // left half black, right half white: thickness must differ by side
    let mut pixels = Vec::with_capacity(250_000);
    for y in 0..500usize {
        for x in 0..500usize {
            let level = if x < 250 { 0 } else { 255 };
            pixels.push(Rgb { r: level, g: level, b: level });
        }
        let _ = y;
    }
    let buf = PixelBuffer::new(500, 500, pixels).unwrap();
    let w = Swirlr::new(buf).set_crop(Crop::Contain);
    let (_, points) = w.get_points().unwrap();
    let n: usize = points.len() / 2;
    let mut saw_thick = false;
    let mut saw_thin = false;
    for i in 0..n {
        let gap: i64 = points[i].dist(&points[2 * n - 1 - i]);
        if gap > 6_500 {
            saw_thick = true;
        }
        if gap < 1_500 {
            saw_thin = true;
        }
    }
    assert!(saw_thick && saw_thin);
}
