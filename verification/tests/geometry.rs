use jaguars::geometry::aa_rectangle::AARectangle;
use jaguars::geometry::circle::Circle;
use jaguars::geometry::edge::Edge;
use jaguars::geometry::geo_enums::GeoPosition;
use jaguars::geometry::numeric::{integer_sqrt, integer_sqrt_ceil};
use jaguars::geometry::point::Point;

#[test]
fn integer_sqrt_rounds_down() {
    assert_eq!(integer_sqrt(0), 0);
    assert_eq!(integer_sqrt(1), 1);
    assert_eq!(integer_sqrt(2), 1);
    assert_eq!(integer_sqrt(24), 4);
    assert_eq!(integer_sqrt(25), 5);
    assert_eq!(integer_sqrt(26), 5);
    assert_eq!(integer_sqrt(u64::MAX), 4_294_967_295);
}

#[test]
fn integer_sqrt_ceil_rounds_up() {
    assert_eq!(integer_sqrt_ceil(0), 0);
    assert_eq!(integer_sqrt_ceil(1), 1);
    assert_eq!(integer_sqrt_ceil(2), 2);
    assert_eq!(integer_sqrt_ceil(25), 5);
    assert_eq!(integer_sqrt_ceil(26), 6);
    assert_eq!(integer_sqrt_ceil(5000), 71);
}

#[test]
fn point_distances() {
    let a = Point(0, 0);
    let b = Point(3, 4);
    assert_eq!(a.sq_distance(&b), 25);
    assert_eq!(a.distance(&b), 5);
    assert_eq!(a.distance(&Point(1, 1)), 1);
    assert_eq!(Point(-1_073_741_824, -1_073_741_824).sq_distance(&Point(1_073_741_824, 1_073_741_824)), 1u64 << 63);
    assert!(Point(1_073_741_824, 0).is_in_range());
    assert!(!Point(1_073_741_825, 0).is_in_range());
}

#[test]
fn circle_distance_from_border() {
    let c = Circle { center: Point(0, 0), radius: 10 };
    assert_eq!(c.distance_from_border(&Point(3, 4)), (GeoPosition::Interior, 5));
    assert_eq!(c.distance_from_border(&Point(30, 40)), (GeoPosition::Exterior, 40));
    assert_eq!(c.distance_from_border(&Point(10, 0)), (GeoPosition::Interior, 0));
    // just outside: the side is exact, the distance is rounded down
    assert_eq!(c.distance_from_border(&Point(10, 1)), (GeoPosition::Exterior, 0));
    assert_eq!(c.distance_from_border(&Point(0, 0)), (GeoPosition::Interior, 10));
}

#[test]
fn circle_within_another() {
    let outer = Circle { center: Point(0, 0), radius: 10 };
    assert!(Circle { center: Point(3, 4), radius: 5 }.is_within(&outer));
    assert!(!Circle { center: Point(3, 4), radius: 6 }.is_within(&outer));
    assert!(!Circle { center: Point(0, 0), radius: 11 }.is_within(&outer));
    assert!(outer.is_within(&outer));
}

#[test]
fn rectangle_measures() {
    let r = AARectangle::new(0, 0, 50, 50).unwrap();
    assert_eq!(r.width(), 50);
    assert_eq!(r.height(), 50);
    assert_eq!(r.centroid(), Point(25, 25));
    // half of sqrt(5000) = 35.36, rounded up
    assert_eq!(r.half_diagonal(), 36);
    assert!(r.contains(&Point(50, 0)));
    assert!(!r.contains(&Point(51, 0)));
    assert_eq!(AARectangle::new(-3, -3, 0, 4).unwrap().centroid(), Point(-2, 0));
    assert_eq!(AARectangle::new(5, 0, 4, 1), None);
    assert_eq!(AARectangle::new(0, 0, 1_073_741_825, 1), None);
}

#[test]
fn edge_distances() {
    let e = Edge::new(Point(0, 0), Point(10, 0));
    assert_eq!(e.sq_distance_to(&Point(5, 3)), 9);
    assert_eq!(e.distance_to(&Point(5, 3)), 3);
    assert_eq!(e.sq_distance_to(&Point(-3, 4)), 25);
    assert_eq!(e.sq_distance_to(&Point(13, 4)), 25);
    let slanted = Edge::new(Point(0, 0), Point(10, 10));
    // the foot of the perpendicular is (5, 5): squared distance 50
    assert_eq!(slanted.sq_distance_to(&Point(10, 0)), 50);
    assert_eq!(slanted.distance_to(&Point(10, 0)), 7);
    // squared distance 1/2, rounded down
    assert_eq!(slanted.sq_distance_to(&Point(1, 0)), 0);
    assert!(!slanted.contains(&Point(1, 0)));
    assert!(slanted.contains(&Point(3, 3)));
    assert!(!slanted.contains(&Point(11, 11)));
    assert!(slanted.is_within_reach(&Point(10, 0), 8));
    assert!(!slanted.is_within_reach(&Point(10, 0), 7));
}

#[test]
fn edge_intersections() {
    let a = Edge::new(Point(0, 0), Point(10, 10));
    assert!(a.intersects(&Edge::new(Point(0, 10), Point(10, 0))));
    assert!(!a.intersects(&Edge::new(Point(0, 1), Point(9, 10))));
    // touching at an end point
    assert!(a.intersects(&Edge::new(Point(10, 10), Point(20, 0))));
    // collinear, overlapping and apart
    assert!(a.intersects(&Edge::new(Point(5, 5), Point(15, 15))));
    assert!(!a.intersects(&Edge::new(Point(11, 11), Point(15, 15))));
}
