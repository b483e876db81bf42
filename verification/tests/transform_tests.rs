use chart_geometry::extent::Point;
use chart_geometry::soundings::{depth_in_feet, label_text};
use chart_geometry::transform::{normalize, NormalizeError};

fn mercator(lon: f64, lat: f64, scale: (u32, u32)) -> (f64, f64) {
    let pi = std::f64::consts::PI;
    let (width, height) = scale;
    let x = (width as f64 * (lon + 180.0) / 360.0) % (width as f64 + width as f64 / 2.0);
    let lat_rad = lat * pi / 180.0;
    let n = ((pi / 4.0) + (lat_rad / 2.0)).tan().ln();
    let y = (height as f64 / 2.0) - (width as f64 * n / (2.0 * pi));
    (x, y)
}

fn on_grid(p: (f64, f64)) -> Point {
    Point { x: (p.0 * 1_000_000.0).round() as i64, y: (p.1 * 1_000_000.0).round() as i64 }
}

#[test]
fn top_left_corner_maps_to_origin() {
    let top_left = Point { x: 100, y: 200 };
    let bottom_right = Point { x: 500, y: 900 };
    assert_eq!(normalize(top_left, top_left, bottom_right, (800, 600)), Ok((0, 0)));
}

#[test]
fn bottom_right_corner_maps_to_far_corner() {
    let top_left = Point { x: 100, y: 200 };
    let bottom_right = Point { x: 500, y: 900 };
    assert_eq!(normalize(bottom_right, top_left, bottom_right, (800, 600)), Ok((800, 600)));
}

#[test]
fn four_corners_of_a_box() {
    let top_left = Point { x: -50, y: -70 };
    let bottom_right = Point { x: 50, y: 30 };
    let scale = (1000, 500);
    assert_eq!(normalize(Point { x: -50, y: -70 }, top_left, bottom_right, scale), Ok((0, 0)));
    assert_eq!(normalize(Point { x: 50, y: -70 }, top_left, bottom_right, scale), Ok((1000, 0)));
    assert_eq!(normalize(Point { x: -50, y: 30 }, top_left, bottom_right, scale), Ok((0, 500)));
    assert_eq!(normalize(Point { x: 50, y: 30 }, top_left, bottom_right, scale), Ok((1000, 500)));
}

#[test]
fn corner_order_does_not_matter() {
    let a = Point { x: 0, y: 0 };
    let b = Point { x: 10, y: 20 };
    let c = Point { x: 0, y: 20 };
    let d = Point { x: 10, y: 0 };
    let p = Point { x: 3, y: 5 };
    let expected = Ok((30, 50));
    assert_eq!(normalize(p, a, b, (100, 200)), expected);
    assert_eq!(normalize(p, b, a, (100, 200)), expected);
    assert_eq!(normalize(p, c, d, (100, 200)), expected);
    assert_eq!(normalize(p, d, c, (100, 200)), expected);
}

#[test]
fn interior_point_is_interpolated() {
    let a = Point { x: 0, y: 0 };
    let b = Point { x: 10, y: 10 };
    assert_eq!(normalize(Point { x: 5, y: 5 }, a, b, (100, 200)), Ok((50, 100)));
    assert_eq!(normalize(Point { x: 1, y: 9 }, a, b, (100, 200)), Ok((10, 180)));
}

#[test]
fn products_are_rounded_down() {
    let a = Point { x: 0, y: 0 };
    let b = Point { x: 3, y: 3 };
    // across: 1 * 10 / 3 = 3; down: 10 - (2 * 10 / 3) = 10 - 6 = 4
    assert_eq!(normalize(Point { x: 1, y: 1 }, a, b, (10, 10)), Ok((3, 4)));
}

#[test]
fn degenerate_box_is_an_error() {
    let p = Point { x: 5, y: 5 };
    assert_eq!(
        normalize(p, Point { x: 5, y: 0 }, Point { x: 5, y: 10 }, (100, 100)),
        Err(NormalizeError::DegenerateExtent)
    );
    assert_eq!(
        normalize(p, Point { x: 0, y: 5 }, Point { x: 10, y: 5 }, (100, 100)),
        Err(NormalizeError::DegenerateExtent)
    );
    assert_eq!(normalize(p, p, p, (100, 100)), Err(NormalizeError::DegenerateExtent));
}

#[test]
fn point_outside_the_box_is_an_error() {
    let a = Point { x: 0, y: 0 };
    let b = Point { x: 10, y: 10 };
    assert_eq!(normalize(Point { x: 11, y: 5 }, a, b, (100, 100)), Err(NormalizeError::OutsideExtent));
    assert_eq!(normalize(Point { x: 5, y: -1 }, a, b, (100, 100)), Err(NormalizeError::OutsideExtent));
}

#[test]
fn widest_box_and_screen_do_not_overflow() {
    let a = Point { x: i64::MIN, y: i64::MIN };
    let b = Point { x: i64::MAX, y: i64::MAX };
    let scale = (u32::MAX, u32::MAX);
    assert_eq!(normalize(b, a, b, scale), Ok((u32::MAX, u32::MAX)));
    assert_eq!(normalize(a, a, b, scale), Ok((0, 0)));
    assert_eq!(normalize(Point { x: i64::MAX, y: i64::MIN }, a, b, scale), Ok((u32::MAX, 0)));
}

#[test]
fn zero_screen_maps_everything_to_origin() {
    let a = Point { x: 0, y: 0 };
    let b = Point { x: 10, y: 10 };
    assert_eq!(normalize(Point { x: 7, y: 2 }, a, b, (0, 0)), Ok((0, 0)));
}

#[test]
fn sounding_is_projected_normalized_and_labelled() {
    let scale = (4096, 2048);
    let point = on_grid(mercator(-87.3, 30.4, scale));
    let corner_a = on_grid(mercator(-87.3, 30.375, scale));
    let corner_b = on_grid(mercator(-87.225, 30.45, scale));
    let at = normalize(point, corner_a, corner_b, scale).unwrap();
    assert!(at.0 <= scale.0);
    assert!(at.1 <= scale.1);
    assert_eq!(at.0, 0);
    let feet = depth_in_feet(5000);
    assert_eq!(feet, 16);
    assert_eq!(label_text(feet), "16");
}
