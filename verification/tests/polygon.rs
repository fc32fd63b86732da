use jaguars::error::CDEError;
use jaguars::geometry::aa_rectangle::AARectangle;
use jaguars::geometry::circle::Circle;
use jaguars::geometry::geo_enums::GeoPosition;
use jaguars::geometry::point::Point;
use jaguars::geometry::simple_polygon::SimplePolygon;
use jaguars::geometry::sp_surrogate::SPSurrogate;

fn disk(x: i64, y: i64, radius: u64) -> Circle {
    Circle { center: Point(x, y), radius }
}

fn one_pole(x: i64, y: i64, radius: u64) -> SPSurrogate {
    SPSurrogate::new(vec![disk(x, y, radius)], disk(x, y, radius)).unwrap()
}

fn rectangle(x0: i64, y0: i64, x1: i64, y1: i64) -> SimplePolygon {
    let radius = std::cmp::min(x1 - x0, y1 - y0) / 2;
    SimplePolygon::new(
        vec![Point(x0, y0), Point(x1, y0), Point(x1, y1), Point(x0, y1)],
        one_pole((x0 + x1) / 2, (y0 + y1) / 2, radius as u64),
    )
    .unwrap()
}

#[test]
fn surrogate_accepts_poles_within_the_bounding_circle() {
    let poles = vec![disk(0, 0, 5), disk(6, 0, 3), disk(0, 7, 2)];
    let surrogate = SPSurrogate::new(poles.clone(), disk(0, 0, 9)).unwrap();
    assert_eq!(surrogate.poles(), &poles);
    assert_eq!(surrogate.poles_bounding_circle(), disk(0, 0, 9));
    let copy = surrogate.clone();
    assert_eq!(copy.poles(), &poles);
}

#[test]
fn surrogate_refuses_an_empty_pole_list() {
    assert_eq!(SPSurrogate::new(vec![], disk(0, 0, 9)).err(), Some(CDEError::InvalidInput));
}

#[test]
fn surrogate_refuses_a_pole_that_sticks_out() {
    let poles = vec![disk(0, 0, 5), disk(6, 0, 4)];
    assert_eq!(SPSurrogate::new(poles, disk(0, 0, 9)).err(), Some(CDEError::InvalidInput));
}

#[test]
fn surrogate_refuses_poles_out_of_order() {
    let poles = vec![disk(0, 0, 2), disk(1, 0, 3)];
    assert_eq!(SPSurrogate::new(poles, disk(0, 0, 9)).err(), Some(CDEError::InvalidInput));
}

#[test]
fn surrogate_refuses_circles_out_of_range() {
    assert_eq!(
        SPSurrogate::new(vec![disk(0, 0, 1)], disk(0, 0, 2_147_483_649)).err(),
        Some(CDEError::InvalidInput)
    );
    assert_eq!(
        SPSurrogate::new(vec![disk(1_073_741_825, 0, 1)], disk(1_073_741_824, 0, 5)).err(),
        Some(CDEError::InvalidInput)
    );
}

#[test]
fn polygon_refuses_degenerate_rings() {
    let two = vec![Point(0, 0), Point(1, 1)];
    assert_eq!(SimplePolygon::new(two, one_pole(0, 0, 1)).err(), Some(CDEError::InvalidInput));
    let flat = vec![Point(0, 0), Point(5, 5), Point(10, 10)];
    assert_eq!(SimplePolygon::new(flat, one_pole(0, 0, 1)).err(), Some(CDEError::InvalidInput));
    let far = vec![Point(0, 0), Point(1_073_741_825, 0), Point(0, 5)];
    assert_eq!(SimplePolygon::new(far, one_pole(0, 0, 1)).err(), Some(CDEError::InvalidInput));
}

#[test]
fn polygon_bounding_box_and_area() {
    let triangle = SimplePolygon::new(
        vec![Point(-2, 1), Point(8, 3), Point(4, 9)],
        one_pole(3, 4, 1),
    )
    .unwrap();
    assert_eq!(triangle.bbox(), AARectangle { x_min: -2, y_min: 1, x_max: 8, y_max: 9 });
    assert_eq!(triangle.number_of_points(), 3);
    // (10, 2) x (6, 8) = 80 - 12
    assert_eq!(triangle.area2(), 68);
    let clockwise = SimplePolygon::new(
        vec![Point(4, 9), Point(8, 3), Point(-2, 1)],
        one_pole(3, 4, 1),
    )
    .unwrap();
    assert_eq!(clockwise.area2(), -68);
    assert_eq!(rectangle(0, 0, 10, 4).area2(), 80);
}

#[test]
fn polygon_contains_points() {
    let square = rectangle(0, 0, 10, 10);
    assert!(square.contains_point(&Point(5, 5)));
    assert!(square.contains_point(&Point(0, 0)));
    assert!(square.contains_point(&Point(10, 5)));
    assert!(square.contains_point(&Point(3, 10)));
    assert!(!square.contains_point(&Point(11, 5)));
    assert!(!square.contains_point(&Point(-1, 0)));
    assert!(!square.contains_point(&Point(5, 11)));
    // a ray through a vertex
    let diamond = SimplePolygon::new(
        vec![Point(0, 5), Point(5, 0), Point(10, 5), Point(5, 10)],
        one_pole(5, 5, 3),
    )
    .unwrap();
    assert!(diamond.contains_point(&Point(1, 5)));
    assert!(diamond.contains_point(&Point(5, 5)));
    assert!(!diamond.contains_point(&Point(-1, 5)));
    assert!(!diamond.contains_point(&Point(1, 1)));
    assert!(!diamond.contains_point(&Point(0, 0)));
    assert!(!diamond.contains_point(&Point(0, 10)));
}

#[test]
fn polygon_distance_from_border() {
    let square = rectangle(0, 0, 1000, 1000);
    assert_eq!(square.distance_from_border(&Point(150, 150)), (GeoPosition::Interior, 150));
    assert_eq!(square.distance_from_border(&Point(700, 500)), (GeoPosition::Interior, 300));
    assert_eq!(square.distance_from_border(&Point(1000, 500)), (GeoPosition::Interior, 0));
    assert_eq!(square.distance_from_border(&Point(1030, 1040)), (GeoPosition::Exterior, 50));
    assert_eq!(square.distance_from_border(&Point(-7, 500)), (GeoPosition::Exterior, 7));
}

#[test]
fn polygons_collide() {
    let a = rectangle(0, 0, 10, 10);
    assert!(a.collides_with(&rectangle(5, 5, 15, 15)));
    assert!(!a.collides_with(&rectangle(11, 0, 20, 10)));
    // touching along an edge counts
    assert!(a.collides_with(&rectangle(10, 0, 20, 10)));
    // one inside the other, borders apart
    assert!(a.collides_with(&rectangle(2, 2, 4, 4)));
    assert!(rectangle(2, 2, 4, 4).collides_with(&a));
    assert!(!a.crosses_border_of(&rectangle(2, 2, 4, 4)));
}

#[test]
fn polygon_lies_within_another() {
    let bin = rectangle(0, 0, 1000, 1000);
    assert!(rectangle(100, 100, 300, 300).lies_within(&bin));
    assert!(!rectangle(950, 500, 1150, 700).lies_within(&bin));
    assert!(!rectangle(1100, 100, 1200, 200).lies_within(&bin));
    // touching the border from inside is not within
    assert!(!rectangle(0, 100, 200, 300).lies_within(&bin));
    assert!(!bin.lies_within(&rectangle(100, 100, 300, 300)));
}

#[test]
fn polygon_and_circle() {
    let square = rectangle(0, 0, 100, 100);
    assert!(square.collides_with_circle(&disk(50, 50, 10)));
    assert!(square.holds_circle(&disk(50, 50, 10)));
    assert!(!square.border_reaches(&disk(50, 50, 49)));
    assert!(square.border_reaches(&disk(50, 50, 50)));
    assert!(!square.holds_circle(&disk(50, 50, 50)));
    assert!(square.collides_with_circle(&disk(110, 50, 10)));
    assert!(!square.collides_with_circle(&disk(111, 50, 10)));
    assert!(!square.holds_circle(&disk(200, 200, 10)));
    // beside a corner: 7 away on each axis is 9.9 away
    assert!(square.collides_with_circle(&disk(107, 107, 10)));
    assert!(!square.collides_with_circle(&disk(108, 108, 10)));
}

#[test]
fn polygon_clone_is_equal() {
    let square = rectangle(0, 0, 100, 100);
    let copy = square.clone();
    assert_eq!(copy.points(), square.points());
    assert_eq!(copy.bbox(), square.bbox());
    assert_eq!(copy.surrogate().poles(), square.surrogate().poles());
}

#[test]
fn polygon_refuses_rings_that_touch_or_cross_themselves() {
    let pole = || one_pole(0, 0, 1);
    // two edges cross; the ring encloses an area all the same
    let crossing = vec![Point(0, 0), Point(10, 0), Point(0, 10), Point(10, 10), Point(5, 20)];
    assert_eq!(SimplePolygon::new(crossing, pole()).err(), Some(CDEError::InvalidInput));
    // an edge that folds back on the one before
    let spike = vec![Point(0, 0), Point(10, 0), Point(5, 0), Point(5, 5)];
    assert_eq!(SimplePolygon::new(spike, pole()).err(), Some(CDEError::InvalidInput));
    // a vertex twice in a row
    let stutter = vec![Point(0, 0), Point(0, 0), Point(10, 0), Point(0, 10)];
    assert_eq!(SimplePolygon::new(stutter, pole()).err(), Some(CDEError::InvalidInput));
    // a vertex twice, apart
    let pinched = vec![Point(0, 0), Point(10, 0), Point(5, 5), Point(10, 10), Point(0, 10), Point(5, 5)];
    assert_eq!(SimplePolygon::new(pinched, pole()).err(), Some(CDEError::InvalidInput));
    // a vertex on the edge across
    let leaning = vec![Point(0, 0), Point(10, 0), Point(10, 10), Point(5, 0), Point(0, 10)];
    assert_eq!(SimplePolygon::new(leaning, pole()).err(), Some(CDEError::InvalidInput));
    // concave, and simple
    let notch = vec![Point(0, 0), Point(10, 0), Point(10, 10), Point(5, 1), Point(0, 10)];
    let notch = SimplePolygon::new(notch, pole()).unwrap();
    assert_eq!(notch.area2(), 110);
    assert!(!notch.contains_point(&Point(5, 5)));
    assert!(notch.contains_point(&Point(5, 1)));
    assert!(notch.contains_point(&Point(2, 3)));
}
