use swirlr::contour::reduce;
use swirlr::geometry::Point;
use swirlr::sampler::{get_average_rgb, get_average_rgb_between_points, PixelBuffer, Rgb};
use swirlr::swirlr::{luma, luma_to_length};

fn px(r: u8, g: u8, b: u8) -> Rgb {
    Rgb { r, g, b }
}

#[test]
fn dist_zero_for_same_point() {
    let a = Point::new(123_456, -78_900);
    assert_eq!(a.dist(&a), 0);
}

#[test]
fn dist_symmetric() {
    let a = Point::new(0, 0);
    let b = Point::new(3_000, 4_000);
    assert_eq!(a.dist(&b), 5_000);
    assert_eq!(b.dist(&a), 5_000);
    let c = Point::new(-250_000, 17);
    assert_eq!(a.dist(&c), c.dist(&a));
}

#[test]
fn dist_rounds_down() {
    let a = Point::new(0, 0);
    let b = Point::new(1_000, 1_000);
    // sqrt(2) * 1000 = 1414.2..., floored to a whole milli-pixel
    assert_eq!(a.dist(&b), 1_414);
}

#[test]
fn buffer_rejects_wrong_pixel_count() {
    assert!(PixelBuffer::new(2, 2, vec![px(0, 0, 0); 3]).is_none());
    assert!(PixelBuffer::new(10_001, 1, vec![px(0, 0, 0); 10_001]).is_none());
    assert!(PixelBuffer::new(2, 2, vec![px(0, 0, 0); 4]).is_some());
}

#[test]
fn buffer_pixel_lookup_is_row_major() {
    let pixels = vec![px(1, 1, 1), px(2, 2, 2), px(3, 3, 3), px(4, 4, 4)];
    let buf = PixelBuffer::new(2, 2, pixels).unwrap();
    assert_eq!(buf.get_pixel(0, 0), px(1, 1, 1));
    assert_eq!(buf.get_pixel(1, 0), px(2, 2, 2));
    assert_eq!(buf.get_pixel(0, 1), px(3, 3, 3));
    assert_eq!(buf.get_pixel(1, 1), px(4, 4, 4));
}

#[test]
fn average_of_no_pixels_is_none() {
    assert_eq!(get_average_rgb(&vec![]), None);
}

#[test]
fn average_rounds_each_channel() {
    let avg = get_average_rgb(&vec![px(10, 20, 31), px(20, 40, 50)]).unwrap();
    // (31 + 50) / 2 = 40.5 rounds up
    assert_eq!(avg, px(15, 30, 41));
}

#[test]
fn segment_average_samples_along_the_segment() {
    let pixels = vec![px(10, 20, 30), px(20, 40, 50), px(0, 0, 0), px(0, 0, 0)];
    let buf = PixelBuffer::new(2, 2, pixels).unwrap();
    let p1 = Point::new(0, 0);
    let p2 = Point::new(2_000, 0);
    let avg = get_average_rgb_between_points(&buf, &p1, &p2).unwrap();
    assert_eq!(avg, px(15, 30, 40));
}

#[test]
fn segment_average_skips_outside_and_may_be_empty() {
    let buf = PixelBuffer::new(2, 2, vec![px(9, 9, 9); 4]).unwrap();
    // every sample coordinate lies left of the buffer
    let p1 = Point::new(-5_000, 0);
    let p2 = Point::new(-3_000, 0);
    assert_eq!(get_average_rgb_between_points(&buf, &p1, &p2), None);
    // a zero-length segment has no samples either
    let o = Point::new(500, 500);
    assert_eq!(get_average_rgb_between_points(&buf, &o, &o), None);
}

#[test]
fn luma_weights_channels() {
    assert_eq!(luma(px(0, 0, 0)), 0);
    assert_eq!(luma(px(255, 255, 255)), 255);
    // 0.299 of pure red: (299 * 255 + 500) / 1000
    assert_eq!(luma(px(255, 0, 0)), 76);
}

#[test]
fn thickness_maps_black_to_full_and_white_to_minimum() {
    assert_eq!(luma_to_length(0, false), 7_000);
    assert_eq!(luma_to_length(255, false), 1_000);
    assert_eq!(luma_to_length(76, false), 4_914);
}

#[test]
fn thickness_is_monotone_and_clamped() {
    let mut last: i64 = i64::MAX;
    for l in 0..=255u8 {
        let v: i64 = luma_to_length(l, false);
        assert!(v <= last, "thickness must not grow with luminance");
        assert!((1_000..=7_000).contains(&v));
        last = v;
    }
    let mut last_inv: i64 = i64::MIN;
    for l in 0..=255u8 {
        let v: i64 = luma_to_length(l, true);
        assert!(v >= last_inv, "inverted thickness must not shrink with luminance");
        assert!((1_000..=7_000).contains(&v));
        last_inv = v;
    }
}

#[test]
fn thickness_inverted_mirrors() {
    assert_eq!(luma_to_length(0, true), 1_000);
    assert_eq!(luma_to_length(255, true), 7_000);
}

#[test]
fn reduce_keeps_first_and_filters_close_points() {
    let points = vec![
        Point::new(0, 0),
        Point::new(1_000, 0),
        Point::new(3_000, 0),
        Point::new(3_500, 0),
        Point::new(9_000, 0),
    ];
    let r = reduce(&points, 2_000);
    assert_eq!(r, vec![Point::new(0, 0), Point::new(3_000, 0), Point::new(9_000, 0)]);
}

#[test]
fn reduce_of_empty_is_empty() {
    let r = reduce(&vec![], 2_000);
    assert!(r.is_empty());
}

#[test]
fn reduce_adjacent_gaps_exceed_threshold() {
    let mut points = Vec::new();
    for i in 0..500i64 {
        points.push(Point::new(i * 700, (i % 7) * 300));
    }
    let r = reduce(&points, 2_000);
    assert!(!r.is_empty());
    assert_eq!(r[0], points[0]);
    for w in r.windows(2) {
        assert!(w[0].dist(&w[1]) > 2_000);
    }
}
