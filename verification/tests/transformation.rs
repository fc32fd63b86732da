use jaguars::error::CDEError;
use jaguars::geometry::circle::Circle;
use jaguars::geometry::d_transformation::DTransformation;
use jaguars::geometry::point::Point;
use jaguars::geometry::simple_polygon::SimplePolygon;
use jaguars::geometry::sp_surrogate::SPSurrogate;
use jaguars::geometry::transformation::{normalize, Transformation};

fn ring(points: Vec<Point>, pole: Circle) -> SimplePolygon {
    SimplePolygon::new(points, SPSurrogate::new(vec![pole], pole).unwrap()).unwrap()
}

#[test]
fn quarter_turns_are_normalized() {
    assert_eq!(normalize(0), 0);
    assert_eq!(normalize(1), 1);
    assert_eq!(normalize(4), 0);
    assert_eq!(normalize(7), 3);
    assert_eq!(normalize(-1), 3);
    assert_eq!(normalize(-4), 0);
    assert_eq!(normalize(-5), 3);
    assert_eq!(normalize(-6), 2);
    assert_eq!(normalize(i64::MAX), 3);
    assert_eq!(normalize(i64::MIN), 0);
}

#[test]
fn rotations_turn_counter_clockwise() {
    let p = Point(3, 1);
    assert_eq!(Transformation::from_rotation(0).transform_point(&p), Some(Point(3, 1)));
    assert_eq!(Transformation::from_rotation(1).transform_point(&p), Some(Point(-1, 3)));
    assert_eq!(Transformation::from_rotation(2).transform_point(&p), Some(Point(-3, -1)));
    assert_eq!(Transformation::from_rotation(3).transform_point(&p), Some(Point(1, -3)));
    assert_eq!(Transformation::from_rotation(-1).transform_point(&p), Some(Point(1, -3)));
    assert_eq!(Transformation::from_rotation(5).transform_point(&p), Some(Point(-1, 3)));
}

#[test]
fn rotation_comes_before_translation() {
    let t = Transformation::from_rotation(1).translate((10, 20)).unwrap();
    assert_eq!(t, Transformation { quarter_turns: 1, tx: 10, ty: 20 });
    assert_eq!(t.transform_point(&Point(3, 1)), Some(Point(9, 23)));
    let u = Transformation::from_translation((10, 20)).unwrap().rotate(1);
    assert_eq!(u, Transformation { quarter_turns: 1, tx: -20, ty: 10 });
    assert_eq!(u.transform_point(&Point(3, 1)), Some(Point(-21, 13)));
    assert_eq!(Transformation::empty().transform_point(&Point(3, 1)), Some(Point(3, 1)));
}

#[test]
fn matrix_of_a_transformation() {
    let t = Transformation::from_rotation(1).translate((10, 20)).unwrap();
    assert_eq!(t.matrix(), [[0, -1, 10], [1, 0, 20]]);
    assert_eq!(Transformation::empty().matrix(), [[1, 0, 0], [0, 1, 0]]);
    assert_eq!(Transformation::from_rotation(2).matrix(), [[-1, 0, 0], [0, -1, 0]]);
    assert_eq!(Transformation::from_rotation(3).matrix(), [[0, 1, 0], [-1, 0, 0]]);
}

#[test]
fn transformations_compose() {
    let a = Transformation::from_rotation(1).translate((10, 20)).unwrap();
    let b = Transformation::from_rotation(2).translate((-5, 7)).unwrap();
    let both = a.transform(&b).unwrap();
    assert_eq!(both, Transformation { quarter_turns: 3, tx: -15, ty: -13 });
    for p in [Point(0, 0), Point(3, 1), Point(-40, 17)] {
        let step = b.transform_point(&a.transform_point(&p).unwrap());
        assert_eq!(both.transform_point(&p), step);
    }
    assert_eq!(a.transform(&Transformation::empty()), Some(a));
    assert_eq!(Transformation::empty().transform(&a), Some(a));
}

#[test]
fn inverse_undoes() {
    for rotation in 0..4 {
        let t = Transformation::from_rotation(rotation).translate((10, -20)).unwrap();
        let back = t.inverse();
        assert_eq!(t.transform(&back), Some(Transformation::empty()));
        assert_eq!(back.transform(&t), Some(Transformation::empty()));
        assert_eq!(back.transform_point(&t.transform_point(&Point(3, 1)).unwrap()), Some(Point(3, 1)));
    }
    let t = Transformation::from_rotation(1).translate((10, -20)).unwrap();
    assert_eq!(t.inverse(), Transformation { quarter_turns: 3, tx: 20, ty: 10 });
}

#[test]
fn translations_are_bounded() {
    let limit = 2_147_483_648;
    assert!(Transformation::from_translation((limit, -limit)).is_some());
    assert_eq!(Transformation::from_translation((limit + 1, 0)), None);
    assert_eq!(Transformation::from_translation((0, -limit - 1)), None);
    let far = Transformation::from_translation((limit, 0)).unwrap();
    assert_eq!(far.translate((1, 0)), None);
    assert_eq!(far.transform(&far), None);
    assert!(far.translate((-1, 0)).is_some());
    assert_eq!(far.translate((i64::MAX, i64::MAX)), None);
    assert!(far.is_valid());
    assert!(!Transformation { quarter_turns: 4, tx: 0, ty: 0 }.is_valid());
    assert!(!Transformation { quarter_turns: 0, tx: limit + 1, ty: 0 }.is_valid());
}

#[test]
fn images_stay_within_range() {
    let t = Transformation::from_translation((100, 0)).unwrap();
    assert_eq!(t.transform_point(&Point(1_073_741_724, 5)), Some(Point(1_073_741_824, 5)));
    assert_eq!(t.transform_point(&Point(1_073_741_725, 5)), None);
    assert_eq!(t.transform_point(&Point(i64::MAX, i64::MIN)), None);
    assert_eq!(Transformation::from_rotation(1).transform_point(&Point(0, i64::MIN)), None);
}

#[test]
fn decomposed_transformations() {
    let d = DTransformation::new(1, (10, 20));
    assert_eq!(d.rotation(), 1);
    assert_eq!(d.translation(), (10, 20));
    assert_eq!(d.rotation, 1);
    assert_eq!((d.translation_x, d.translation_y), (10, 20));
    assert!(d.is_valid());
    assert!(!DTransformation::new(0, (2_147_483_649, 0)).is_valid());
    let none = DTransformation::empty();
    assert_eq!(none.rotation(), 0);
    assert_eq!(none.translation(), (0, 0));
    assert_eq!(none.compose(), Transformation::empty());
    assert_eq!(none, DTransformation::new(0, (0, 0)));
    assert_ne!(d, DTransformation::new(1, (10, 21)));
    assert_ne!(d, DTransformation::new(5, (10, 20)));
}

#[test]
fn composing_and_decomposing() {
    let d = DTransformation::new(1, (10, 20));
    let t = d.compose();
    assert_eq!(t, Transformation::from_rotation(1).translate((10, 20)).unwrap());
    assert_eq!(t, Transformation::from_dt(&d));
    assert_eq!(t.decompose(), d);
    assert_eq!(DTransformation::from(t), d);
    let back: DTransformation = t.into();
    assert_eq!(back, d);
    // the decomposed form of a transformation holds a rotation from 0 to 3
    let wound = DTransformation::new(-3, (10, 20));
    assert_eq!(wound.compose(), t);
    assert_eq!(wound.compose().decompose(), d);
    assert_eq!(DTransformation::new(6, (0, 0)).compose().decompose(), DTransformation::new(2, (0, 0)));
}

#[test]
fn circles_are_transformed() {
    let c = Circle { center: Point(3, 1), radius: 7 };
    let t = Transformation::from_rotation(1).translate((10, 20)).unwrap();
    assert_eq!(c.transform_clone(&t), Some(Circle { center: Point(9, 23), radius: 7 }));
    let far = Transformation::from_translation((2_147_483_648, 0)).unwrap();
    assert_eq!(c.transform_clone(&far), None);
}

#[test]
fn surrogates_are_transformed() {
    let poles = vec![Circle { center: Point(0, 0), radius: 5 }, Circle { center: Point(6, 0), radius: 3 }];
    let surrogate = SPSurrogate::new(poles, Circle { center: Point(2, 0), radius: 7 }).unwrap();
    let t = Transformation::from_rotation(1).translate((10, 20)).unwrap();
    let moved = surrogate.transform_clone(&t).unwrap();
    assert_eq!(
        moved.poles(),
        &vec![Circle { center: Point(10, 20), radius: 5 }, Circle { center: Point(10, 26), radius: 3 }]
    );
    assert_eq!(moved.poles_bounding_circle(), Circle { center: Point(10, 22), radius: 7 });
    // the second pole would leave the range
    let far = Transformation::from_translation((1_073_741_820, 0)).unwrap();
    assert_eq!(surrogate.transform_clone(&far).err(), Some(CDEError::InvalidInput));
    let near = Transformation::from_translation((1_073_741_818, 0)).unwrap();
    assert!(surrogate.transform_clone(&near).is_ok());
}

#[test]
fn polygons_are_transformed() {
    let shape = ring(
        vec![Point(0, 0), Point(100, 0), Point(100, 300), Point(0, 300)],
        Circle { center: Point(50, 150), radius: 50 },
    );
    let t = Transformation::from_rotation(1).translate((700, 500)).unwrap();
    let moved = shape.transform_clone(&t).unwrap();
    assert_eq!(moved.points(), &vec![Point(700, 500), Point(700, 600), Point(400, 600), Point(400, 500)]);
    assert_eq!(moved.surrogate().poles(), &vec![Circle { center: Point(550, 550), radius: 50 }]);
    assert_eq!((moved.bbox().x_min, moved.bbox().x_max), (400, 700));
    assert_eq!((moved.bbox().y_min, moved.bbox().y_max), (500, 600));
    // a rigid transformation keeps the area and the sense of the ring
    assert_eq!(moved.area2(), shape.area2());
    assert_eq!(shape.transform_clone(&Transformation::empty()).unwrap().points(), shape.points());
    let far = Transformation::from_translation((1_073_741_800, 0)).unwrap();
    assert_eq!(shape.transform_clone(&far).err(), Some(CDEError::InvalidInput));
}
