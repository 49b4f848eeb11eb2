use std::cmp::Ordering;
use std::collections::hash_map::DefaultHasher;
use std::collections::HashMap;
use std::hash::{Hash, Hasher};
use terrain_heightmap::point::{axis_gap, Point, TOLERANCE};

/// Snaps a coordinate to the grid: the nearest whole number of steps of one
/// ten-billionth.
fn snap_to_grid(v: f64) -> i64 {
    (v * 1e10).round() as i64
}

fn hash_of_point(p: &Point) -> u64 {
    let mut hasher = DefaultHasher::new();
    p.hash(&mut hasher);
    hasher.finish()
}

#[test]
fn from_xy_keeps_both_coordinates() {
    let p = Point::from_xy(-7, 12);
    assert_eq!(p.x(), -7);
    assert_eq!(p.y(), 12);
    assert_eq!(p, Point { x: -7, y: 12 });
}

#[test]
fn axis_gap_is_the_distance_in_either_direction() {
    assert_eq!(axis_gap(3, 10), 7);
    assert_eq!(axis_gap(10, 3), 7);
    assert_eq!(axis_gap(-4, -4), 0);
    assert_eq!(axis_gap(i64::MIN, i64::MAX), u64::MAX);
    assert_eq!(axis_gap(i64::MAX, i64::MIN), u64::MAX);
}

#[test]
fn tolerance_is_one_grid_step() {
    assert_eq!(TOLERANCE, 1);
}

#[test]
fn cmp_is_equal_on_the_same_grid_node() {
    let p = Point::from_xy(5, 5);
    let q = Point::from_xy(5, 5);
    assert_eq!(p.cmp(&q), Ordering::Equal);
}

#[test]
fn cmp_is_less_when_closer_along_x() {
    let p = Point::from_xy(0, 0);
    let q = Point::from_xy(1, 3);
    assert_eq!(p.cmp(&q), Ordering::Less);
    assert_eq!(q.cmp(&p), Ordering::Less);
}

#[test]
fn cmp_is_greater_when_not_closer_along_x() {
    let p = Point::from_xy(0, 0);
    assert_eq!(p.cmp(&Point::from_xy(3, 1)), Ordering::Greater);
    assert_eq!(p.cmp(&Point::from_xy(2, 2)), Ordering::Greater);
    assert_eq!(p.cmp(&Point::from_xy(1, 0)), Ordering::Greater);
    assert_eq!(p.cmp(&Point::from_xy(0, 1)), Ordering::Less);
}

#[test]
fn cmp_copes_with_the_ends_of_the_grid() {
    let low = Point::from_xy(i64::MIN, 0);
    let high = Point::from_xy(i64::MAX, 1);
    assert_eq!(low.cmp(&high), Ordering::Greater);
    assert_eq!(high.cmp(&low), Ordering::Greater);
}

#[test]
fn key_puts_the_coordinates_side_by_side() {
    assert_eq!(Point::from_xy(i64::MIN, i64::MIN).key(), 0);
    assert_eq!(Point::from_xy(i64::MIN, i64::MIN + 1).key(), 1);
    assert_eq!(Point::from_xy(i64::MIN + 1, i64::MIN).key(), 1u128 << 64);
    assert_eq!(Point::from_xy(0, 0).key(), (1u128 << 127) + (1u128 << 63));
    assert_eq!(Point::from_xy(i64::MAX, i64::MAX).key(), u128::MAX);
}

#[test]
fn key_tells_points_apart() {
    let a = Point::from_xy(1, 2);
    let b = Point::from_xy(2, 1);
    let c = Point::from_xy(1, 2);
    assert_ne!(a.key(), b.key());
    assert_eq!(a.key(), c.key());
}

#[test]
fn coordinates_within_tolerance_are_one_key() {
    let first_x: f64 = 1.0;
    let second_x: f64 = 1.0 + 1e-12;
    let first_y: f64 = 250.125;
    let second_y: f64 = 250.125 - 2e-12;
    assert_ne!(first_x.to_bits(), second_x.to_bits());
    assert_ne!(first_y.to_bits(), second_y.to_bits());
    assert!((first_x - second_x).abs() < 1e-10);
    assert!((first_y - second_y).abs() < 1e-10);

    let p = Point::from_xy(snap_to_grid(first_x), snap_to_grid(first_y));
    let q = Point::from_xy(snap_to_grid(second_x), snap_to_grid(second_y));
    assert_eq!(p, q);
    assert_eq!(p.cmp(&q), Ordering::Equal);
    assert_eq!(hash_of_point(&p), hash_of_point(&q));
    assert_eq!(p.key(), q.key());

    let mut table: HashMap<Point, usize> = HashMap::new();
    table.insert(p, 3);
    assert_eq!(table.get(&q), Some(&3));
}

#[test]
fn coordinates_a_step_apart_are_two_keys() {
    let p = Point::from_xy(snap_to_grid(1.0), snap_to_grid(2.0));
    let q = Point::from_xy(snap_to_grid(1.0 + 1e-10), snap_to_grid(2.0));
    assert_ne!(p, q);
    assert_ne!(p.cmp(&q), Ordering::Equal);
    assert_ne!(p.key(), q.key());
}
