use jaguars::collision_detection::cd_engine::{
    shape_collides_with, surrogate_collides_with, CDEConfig, CDEngine, SPSurrogateConfig,
};
use jaguars::collision_detection::hazard::Hazard;
use jaguars::collision_detection::hazard_entity::HazardEntity;
use jaguars::entities::placed_item::PlacedItemUID;
use jaguars::collision_detection::hazard_filter::{
    get_irrelevant_hazard_entities, BinHazardFilter, EntityHazardFilter, HazardFilter, QZHazardFilter,
};
use jaguars::collision_detection::proximity::Proximity;
use jaguars::error::CDEError;
use jaguars::geometry::aa_rectangle::AARectangle;
use jaguars::geometry::circle::Circle;
use jaguars::geometry::d_transformation::DTransformation;
use jaguars::geometry::geo_enums::GeoPosition;
use jaguars::geometry::point::Point;
use jaguars::geometry::simple_polygon::SimplePolygon;
use jaguars::geometry::sp_surrogate::SPSurrogate;
use jaguars::geometry::transformation::Transformation;

fn quad(x0: i64, y0: i64, x1: i64, y1: i64) -> SimplePolygon {
    let radius = std::cmp::min(x1 - x0, y1 - y0) / 2;
    let pole = Circle { center: Point((x0 + x1) / 2, (y0 + y1) / 2), radius: radius as u64 };
    SimplePolygon::new(
        vec![Point(x0, y0), Point(x1, y0), Point(x1, y1), Point(x0, y1)],
        SPSurrogate::new(vec![pole], pole).unwrap(),
    )
    .unwrap()
}

fn config(hpg_n_cells_target: usize) -> CDEConfig {
    CDEConfig {
        hpg_n_cells_target,
        surrogate: SPSurrogateConfig { n_ff_poles: 1, n_ff_piers: 0, pole_coverage_goal: 900 },
    }
}

/// An engine over a square bin with its outer border as the one static hazard.
fn engine(side: i64, n_cells: usize) -> CDEngine {
    let bin = Hazard::new(HazardEntity::BinOuter, quad(0, 0, side, side)).unwrap();
    CDEngine::new(AARectangle::new(0, 0, side, side).unwrap(), vec![bin], config(n_cells)).unwrap()
}

fn uid(item_id: usize, x: i64, y: i64) -> PlacedItemUID {
    PlacedItemUID { item_id, d_transf: DTransformation::new(0, (x, y)) }
}

fn closest(cde: &CDEngine) -> Vec<(Proximity, HazardEntity)> {
    cde.haz_prox_grid().cells().iter().map(|cell| *cell.universal_hazard_proximity()).collect()
}

#[test]
fn empty_bin_one_square_item() {
    // a bin of 10 by 10 and an item of 2 by 2 at (1, 1), in hundredths
    let mut cde = engine(1000, 100);
    let item = quad(100, 100, 300, 300);
    assert!(!cde.surrogate_collides(item.surrogate(), &Transformation::empty(), &[]));
    assert!(!cde.shape_collides(&item, &[]));
    assert!(!cde.placement_collides(&item, &[]));
    let handle = cde.register_item(uid(0, 100, 100), item).unwrap();
    assert_eq!(handle.entity, HazardEntity::PlacedItem { id: uid(0, 100, 100) });
    let cell = cde.haz_prox_grid().query(&Point(150, 150));
    assert_eq!(cell.universal_hazard_proximity().1, handle.entity);
    // 70 from the center of the pole of radius 100
    assert_eq!(cell.universal_hazard_proximity().0, Proximity::new(GeoPosition::Interior, 30));
    assert_eq!(cde.dynamic_hazards().len(), 1);
    assert_eq!(*cde.dynamic_hazards()[0].entity(), handle.entity);
    // a cell far off still has the bin as its closest hazard
    let far = cde.haz_prox_grid().query(&Point(950, 950));
    assert_eq!(*far.universal_hazard_proximity(), (Proximity::new(GeoPosition::Exterior, 50), HazardEntity::BinOuter));
}

#[test]
fn boundary_rejection() {
    let cde = engine(1000, 100);
    // an item of 2 by 2 at (9.5, 5): a corner lies outside of the bin
    let item = quad(950, 500, 1150, 700);
    assert!(cde.shape_collides(&item, &[]));
    assert!(cde.placement_collides(&item, &[]));
    // all of it outside
    assert!(cde.shape_collides(&quad(1100, 100, 1200, 200), &[]));
    // touching the border from inside
    assert!(cde.shape_collides(&quad(0, 400, 200, 600), &[]));
    assert!(!cde.shape_collides(&quad(1, 400, 201, 600), &[]));
    // the bin may be passed over
    assert!(!cde.shape_collides(&item, &[HazardEntity::BinOuter]));
}

#[test]
fn register_deregister_round_trip() {
    let mut cde = engine(1000, 100);
    cde.register_item(uid(0, 100, 100), quad(100, 100, 300, 300)).unwrap();
    let with_a = closest(&cde);
    let b = cde.register_item(uid(1, 250, 350), quad(250, 350, 650, 750)).unwrap();
    let with_both = closest(&cde);
    assert_ne!(with_a, with_both);
    cde.deregister_item(b).unwrap();
    assert_eq!(closest(&cde), with_a);
    assert_eq!(cde.dynamic_hazards().len(), 1);
    assert_eq!(*cde.dynamic_hazards()[0].entity(), HazardEntity::PlacedItem { id: uid(0, 100, 100) });
}

#[test]
fn round_trip_on_an_empty_bin() {
    let mut cde = engine(1000, 25);
    let empty = closest(&cde);
    let a = cde.register_item(uid(0, 100, 100), quad(100, 100, 300, 300)).unwrap();
    assert_ne!(closest(&cde), empty);
    cde.deregister_item(a).unwrap();
    assert_eq!(closest(&cde), empty);
    assert_eq!(cde.dynamic_hazards().len(), 0);
    for cell in cde.haz_prox_grid().cells() {
        assert_eq!(cell.universal_hazard_proximity(), cell.static_uni_haz_prox());
    }
}

#[test]
fn deregister_moves_the_last_hazard_into_the_gap() {
    let mut cde = engine(1000, 25);
    let a = cde.register_item(uid(0, 100, 100), quad(100, 100, 200, 200)).unwrap();
    let b = cde.register_item(uid(1, 300, 300), quad(300, 300, 400, 400)).unwrap();
    let c = cde.register_item(uid(2, 600, 600), quad(600, 600, 700, 700)).unwrap();
    cde.deregister_item(a).unwrap();
    let order: Vec<HazardEntity> = cde.dynamic_hazards().iter().map(|h| *h.entity()).collect();
    assert_eq!(order, vec![c.entity, b.entity]);
    assert_eq!(cde.position_of(&c.entity), Some(0));
    assert_eq!(cde.position_of(&b.entity), Some(1));
    assert_eq!(cde.position_of(&a.entity), None);
    // the grid accounts for the two that remain, and for nothing else; where the two are
    // equally close to a cell, either may be named
    let mut fresh = engine(1000, 25);
    fresh.register_item(uid(2, 600, 600), quad(600, 600, 700, 700)).unwrap();
    fresh.register_item(uid(1, 300, 300), quad(300, 300, 400, 400)).unwrap();
    let distances = |cde: &CDEngine| -> Vec<Proximity> { closest(cde).iter().map(|c| c.0).collect() };
    assert_eq!(distances(&cde), distances(&fresh));
    for (cell, other) in closest(&cde).iter().zip(closest(&fresh)) {
        assert!(cell.1 == other.1 || (cell.1 != a.entity && other.1 != a.entity));
    }
}

#[test]
fn filter_ignores_self() {
    let mut cde = engine(1000, 100);
    let handle = cde.register_item(uid(0, 100, 100), quad(100, 100, 300, 300)).unwrap();
    // the same item, moved by half its width: the new footprint overlaps the old one
    let moved = quad(200, 100, 400, 300);
    assert!(cde.shape_collides(&moved, &[]));
    assert!(cde.surrogate_collides(moved.surrogate(), &Transformation::empty(), &[]));
    assert!(!cde.shape_collides(&moved, &[handle.entity]));
    assert!(!cde.surrogate_collides(moved.surrogate(), &Transformation::empty(), &[handle.entity]));
    assert!(!cde.placement_collides(&moved, &[handle.entity]));
    // passing over another entity does not help
    assert!(cde.shape_collides(&moved, &[HazardEntity::PlacedItem { id: uid(0, 100, 101) }]));
}

#[test]
fn poles_miss_what_the_polygon_catches() {
    let mut cde = engine(1000, 100);
    cde.register_item(uid(0, 100, 100), quad(100, 100, 300, 300)).unwrap();
    // the two squares share a corner region; the pole of the second stays clear of the first
    let second = quad(290, 290, 490, 490);
    assert!(!cde.surrogate_collides(second.surrogate(), &Transformation::empty(), &[]));
    assert!(cde.shape_collides(&second, &[]));
    assert!(cde.placement_collides(&second, &[]));
    // apart
    let third = quad(310, 310, 510, 510);
    assert!(!cde.placement_collides(&third, &[]));
}

#[test]
fn registration_is_refused() {
    let mut cde = engine(1000, 100);
    cde.register_item(uid(0, 100, 100), quad(100, 100, 300, 300)).unwrap();
    let before = closest(&cde);
    // the same placement twice
    assert_eq!(
        cde.register_item(uid(0, 100, 100), quad(100, 100, 300, 300)).err(),
        Some(CDEError::InvalidInput)
    );
    // a dynamic hazard that forbids its outside
    let outer = Hazard::new(HazardEntity::BinOuter, quad(0, 0, 500, 500)).unwrap();
    assert_eq!(cde.register_hazard(outer), Err(CDEError::UnsupportedConfiguration));
    // a hazard of the bin
    let hole = Hazard::new(HazardEntity::BinHole { id: 3 }, quad(600, 600, 700, 700)).unwrap();
    assert_eq!(cde.register_hazard(hole), Err(CDEError::InvalidInput));
    let zone = Hazard::new(HazardEntity::QualityZoneInferior { quality: 1, id: 0 }, quad(600, 600, 700, 700)).unwrap();
    assert_eq!(cde.register_hazard(zone), Err(CDEError::InvalidInput));
    assert_eq!(cde.dynamic_hazards().len(), 1);
    assert_eq!(closest(&cde), before);
    // taking out what is not there
    assert_eq!(
        cde.deregister_hazard(HazardEntity::PlacedItem { id: uid(5, 0, 0) }),
        Err(CDEError::InvalidInput)
    );
    assert_eq!(cde.deregister_hazard(HazardEntity::BinOuter), Err(CDEError::InvalidInput));
    assert_eq!(cde.activate_hazard(HazardEntity::BinOuter), Err(CDEError::InvalidInput));
    assert_eq!(cde.deactivate_hazard(HazardEntity::BinOuter), Err(CDEError::InvalidInput));
    assert_eq!(closest(&cde), before);
}

#[test]
fn engine_is_refused() {
    let bbox = AARectangle::new(0, 0, 1000, 1000).unwrap();
    let bin = || Hazard::new(HazardEntity::BinOuter, quad(0, 0, 1000, 1000)).unwrap();
    assert_eq!(CDEngine::new(bbox, vec![bin()], config(0)).err(), Some(CDEError::InvalidInput));
    let item = Hazard::new(HazardEntity::PlacedItem { id: uid(0, 0, 0) }, quad(10, 10, 20, 20)).unwrap();
    assert_eq!(CDEngine::new(bbox, vec![bin(), item], config(4)).err(), Some(CDEError::InvalidInput));
    let flat = AARectangle { x_min: 0, y_min: 5, x_max: 10, y_max: 5 };
    assert_eq!(CDEngine::new(flat, vec![bin()], config(4)).err(), Some(CDEError::InvalidInput));
    let cde = CDEngine::new(bbox, vec![bin()], config(4)).unwrap();
    assert_eq!(cde.bbox(), bbox);
    assert_eq!(cde.config(), config(4));
    assert_eq!(cde.static_hazards().len(), 1);
    assert_eq!(cde.dynamic_hazards().len(), 0);
    assert_eq!(cde.hpg_cell_radius(), 354);
}

#[test]
fn switched_off_hazards_are_passed_over() {
    let mut cde = engine(1000, 100);
    let empty = closest(&cde);
    let a = cde.register_item(uid(0, 100, 100), quad(100, 100, 300, 300)).unwrap();
    let with_a = closest(&cde);
    let overlapping = quad(200, 200, 400, 400);
    assert!(cde.shape_collides(&overlapping, &[]));

    cde.deactivate_hazard(a.entity).unwrap();
    assert!(!cde.shape_collides(&overlapping, &[]));
    assert!(!cde.surrogate_collides(overlapping.surrogate(), &Transformation::empty(), &[]));
    assert_eq!(closest(&cde), empty);
    assert_eq!(cde.dynamic_hazards().len(), 1);
    assert!(!cde.dynamic_hazards()[0].is_active());
    // once more changes nothing
    cde.deactivate_hazard(a.entity).unwrap();
    assert_eq!(closest(&cde), empty);
    // a switched-off hazard stays registered
    assert_eq!(
        cde.register_item(uid(0, 100, 100), quad(100, 100, 300, 300)).err(),
        Some(CDEError::InvalidInput)
    );

    cde.activate_hazard(a.entity).unwrap();
    assert!(cde.shape_collides(&overlapping, &[]));
    assert_eq!(closest(&cde), with_a);
    assert!(cde.dynamic_hazards()[0].is_active());
    cde.activate_hazard(a.entity).unwrap();
    assert_eq!(closest(&cde), with_a);

    // removed while switched off
    cde.deactivate_hazard(a.entity).unwrap();
    cde.deregister_item(a).unwrap();
    assert_eq!(closest(&cde), empty);
    assert_eq!(cde.dynamic_hazards().len(), 0);
}

#[test]
fn clone_is_independent() {
    let mut first = engine(1000, 100);
    first.register_item(uid(0, 100, 100), quad(100, 100, 300, 300)).unwrap();
    let snapshot = closest(&first);
    let mut copy = first.clone();
    assert_eq!(closest(&copy), snapshot);
    assert_eq!(copy.dynamic_hazards().len(), 1);

    let b = copy.register_item(uid(1, 600, 600), quad(600, 600, 800, 800)).unwrap();
    assert_eq!(closest(&first), snapshot);
    assert_eq!(first.dynamic_hazards().len(), 1);
    assert!(!first.shape_collides(&quad(650, 650, 700, 700), &[]));
    assert!(copy.shape_collides(&quad(650, 650, 700, 700), &[]));

    first.deregister_hazard(HazardEntity::PlacedItem { id: uid(0, 100, 100) }).unwrap();
    assert_eq!(copy.dynamic_hazards().len(), 2);
    assert!(copy.shape_collides(&quad(150, 150, 250, 250), &[]));
    assert!(!first.shape_collides(&quad(150, 150, 250, 250), &[]));
    copy.deregister_item(b).unwrap();
    assert_eq!(closest(&copy), snapshot);
}

#[test]
fn same_operations_same_grid() {
    let run = || {
        let mut cde = engine(1000, 64);
        let a = cde.register_item(uid(0, 100, 100), quad(100, 100, 300, 300)).unwrap();
        cde.register_item(uid(1, 500, 500), quad(500, 500, 900, 600)).unwrap();
        cde.register_item(uid(2, 20, 700), quad(20, 700, 120, 980)).unwrap();
        cde.deregister_item(a).unwrap();
        cde.deactivate_hazard(HazardEntity::PlacedItem { id: uid(2, 20, 700) }).unwrap();
        cde
    };
    let first = run();
    let second = run();
    assert_eq!(closest(&first), closest(&second));
    for (a, b) in first.haz_prox_grid().cells().iter().zip(second.haz_prox_grid().cells()) {
        assert_eq!(a.bbox(), b.bbox());
        assert_eq!(a.static_uni_haz_prox(), b.static_uni_haz_prox());
        assert_eq!(a.qz_haz_prox(), b.qz_haz_prox());
        assert_eq!(a.value(), b.value());
    }
}

#[test]
fn every_cell_knows_its_closest_hazard() {
    let mut cde = engine(1000, 100);
    let shapes = [quad(100, 100, 300, 300), quad(500, 500, 900, 600), quad(20, 700, 120, 980)];
    for (i, shape) in shapes.iter().enumerate() {
        cde.register_item(uid(i, 0, 0), shape.clone()).unwrap();
    }
    for cell in cde.haz_prox_grid().cells() {
        let mut expected = cell.static_uni_haz_prox().0;
        for shape in &shapes {
            let pole = shape.surrogate().poles()[0];
            let (position, distance) = pole.distance_from_border(&cell.centroid());
            expected = expected.min(Proximity::new(position, distance));
        }
        assert_eq!(cell.universal_hazard_proximity().0, expected);
        assert!(cell.universal_hazard_proximity().0 <= cell.static_uni_haz_prox().0);
    }
}

#[test]
fn all_hazards_lists_static_then_dynamic() {
    let hole = Hazard::new(HazardEntity::BinHole { id: 0 }, quad(800, 800, 900, 900)).unwrap();
    let bin = Hazard::new(HazardEntity::BinOuter, quad(0, 0, 1000, 1000)).unwrap();
    let mut cde =
        CDEngine::new(AARectangle::new(0, 0, 1000, 1000).unwrap(), vec![bin, hole], config(16)).unwrap();
    cde.register_item(uid(0, 100, 100), quad(100, 100, 300, 300)).unwrap();
    let all: Vec<HazardEntity> = cde.all_hazards().iter().map(|h| *h.entity()).collect();
    assert_eq!(
        all,
        vec![HazardEntity::BinOuter, HazardEntity::BinHole { id: 0 }, HazardEntity::PlacedItem { id: uid(0, 100, 100) }]
    );
    // the hole is a hazard for shapes and for cells
    assert!(cde.shape_collides(&quad(850, 850, 870, 870), &[]));
    assert!(!cde.shape_collides(&quad(850, 850, 870, 870), &[HazardEntity::BinHole { id: 0 }]));
    let in_hole = cde.haz_prox_grid().query(&Point(850, 850));
    assert_eq!(in_hole.universal_hazard_proximity().1, HazardEntity::BinHole { id: 0 });
}

#[test]
fn quality_zones_can_be_filtered_out() {
    let zone = |quality: usize, id: usize, x: i64| {
        Hazard::new(HazardEntity::QualityZoneInferior { quality, id }, quad(x, 0, x + 100, 1000)).unwrap()
    };
    let bin = Hazard::new(HazardEntity::BinOuter, quad(0, 0, 1000, 1000)).unwrap();
    let statics = vec![bin, zone(2, 0, 100), zone(5, 1, 400), zone(7, 2, 700)];
    let cde = CDEngine::new(AARectangle::new(0, 0, 1000, 1000).unwrap(), statics, config(16)).unwrap();
    let filter = QZHazardFilter { cutoff_quality: 5 };
    assert!(!filter.is_irrelevant(&HazardEntity::BinOuter));
    assert!(!filter.is_irrelevant(&HazardEntity::QualityZoneInferior { quality: 4, id: 0 }));
    assert!(filter.is_irrelevant(&HazardEntity::QualityZoneInferior { quality: 5, id: 0 }));
    let ignore = get_irrelevant_hazard_entities(&filter, &cde.all_hazards());
    assert_eq!(
        ignore,
        vec![
            HazardEntity::QualityZoneInferior { quality: 5, id: 1 },
            HazardEntity::QualityZoneInferior { quality: 7, id: 2 }
        ]
    );
    // an item of quality 5 may lie in the zones of quality 5 and 7, not in that of quality 2
    assert!(!cde.shape_collides(&quad(420, 100, 480, 200), &ignore));
    assert!(!cde.shape_collides(&quad(720, 100, 780, 200), &ignore));
    assert!(cde.shape_collides(&quad(120, 100, 180, 200), &ignore));
    assert!(cde.shape_collides(&quad(420, 100, 480, 200), &[]));
    // zones are no universal hazards: the cells keep the bin as their closest one
    for cell in cde.haz_prox_grid().cells() {
        assert_eq!(cell.universal_hazard_proximity().1, HazardEntity::BinOuter);
    }
    assert_eq!(get_irrelevant_hazard_entities(&QZHazardFilter { cutoff_quality: 10 }, &cde.all_hazards()), vec![]);
}

#[test]
fn collisions_with_a_list_of_hazards() {
    let hazards = vec![
        Hazard::new(HazardEntity::BinHole { id: 0 }, quad(0, 0, 100, 100)).unwrap(),
        Hazard::new(HazardEntity::BinHole { id: 1 }, quad(200, 0, 300, 100)).unwrap(),
    ];
    let shape = quad(250, 50, 280, 80);
    assert!(shape_collides_with(&shape, &hazards, &[]));
    assert!(!shape_collides_with(&shape, &hazards, &[HazardEntity::BinHole { id: 1 }]));
    assert!(shape_collides_with(&shape, &hazards, &[HazardEntity::BinHole { id: 0 }]));
    assert!(!shape_collides_with(&shape, &[], &[]));
    assert!(surrogate_collides_with(shape.surrogate(), &hazards, &[]));
    assert!(!surrogate_collides_with(shape.surrogate(), &hazards, &[HazardEntity::BinHole { id: 1 }]));
    assert!(!surrogate_collides_with(quad(120, 20, 180, 80).surrogate(), &hazards, &[]));
}

#[test]
fn surrogate_is_tested_where_the_transformation_puts_it() {
    let mut cde = engine(1000, 100);
    cde.register_item(uid(0, 100, 100), quad(100, 100, 300, 300)).unwrap();
    // the shape of an item before it is placed: a square of 200 at the origin
    let base = quad(0, 0, 200, 200);
    let put = |rotation: i64, x: i64, y: i64| Transformation::from_rotation(rotation).translate((x, y)).unwrap();
    // at the origin the pole touches the border of the bin
    assert!(cde.surrogate_collides(base.surrogate(), &Transformation::empty(), &[]));
    assert!(cde.surrogate_collides(base.surrogate(), &put(0, 150, 150), &[]));
    assert!(!cde.surrogate_collides(base.surrogate(), &put(0, 400, 400), &[]));
    // a quarter turn moves the square to the left of the origin: its pole lies around
    // (-100, 100) before the translation
    assert!(!cde.surrogate_collides(base.surrogate(), &put(0, 400, 100), &[]));
    assert!(cde.surrogate_collides(base.surrogate(), &put(1, 400, 100), &[]));
    assert!(!cde.surrogate_collides(base.surrogate(), &put(1, 400, 400), &[]));
    assert!(!cde.surrogate_collides(base.surrogate(), &put(1, 700, 400), &[]));
    // beyond the range of the coordinates
    assert!(cde.surrogate_collides(base.surrogate(), &put(0, 1_073_741_800, 0), &[HazardEntity::BinOuter]));
    assert!(!cde.surrogate_collides(base.surrogate(), &put(0, 1_073_741_000, 0), &[HazardEntity::BinOuter]));
}

#[test]
fn round_trip_may_name_another_of_equally_close_hazards() {
    let mut cde = engine(1000, 100);
    let owner = |cde: &CDEngine| *cde.haz_prox_grid().query(&Point(150, 150)).universal_hazard_proximity();
    // one pole, 50 away from (150, 150)
    let a = cde.register_item(uid(0, 100, 200), quad(100, 200, 200, 300)).unwrap();
    // two poles, the nearer one 50 away as well, in a wide circle that is only 40 away
    let poles = vec![
        Circle { center: Point(250, 150), radius: 50 },
        Circle { center: Point(450, 150), radius: 50 },
    ];
    let surrogate = SPSurrogate::new(poles, Circle { center: Point(350, 150), radius: 160 }).unwrap();
    let shape = SimplePolygon::new(
        vec![Point(200, 100), Point(500, 100), Point(500, 200), Point(200, 200)],
        surrogate,
    )
    .unwrap();
    let b = cde.register_item(uid(1, 200, 100), shape).unwrap();
    // the first of the two keeps the cell
    assert_eq!(owner(&cde), (Proximity::new(GeoPosition::Exterior, 50), a.entity));
    let x = cde.register_item(uid(2, 140, 140), quad(140, 140, 160, 160)).unwrap();
    assert_eq!(owner(&cde), (Proximity::new(GeoPosition::Interior, 10), x.entity));
    cde.deregister_item(x).unwrap();
    // the distance is what it was; the hazard with the closer circle was looked at first
    assert_eq!(owner(&cde), (Proximity::new(GeoPosition::Exterior, 50), b.entity));
}

#[test]
fn filters_pass_over_what_they_say() {
    let item = HazardEntity::PlacedItem { id: uid(0, 1, 1) };
    let other = HazardEntity::PlacedItem { id: uid(0, 1, 2) };
    let zone = HazardEntity::QualityZoneInferior { quality: 4, id: 0 };
    let hole = HazardEntity::BinHole { id: 0 };
    let bin = BinHazardFilter;
    assert!(bin.is_irrelevant(&HazardEntity::BinOuter));
    assert!(bin.is_irrelevant(&hole));
    assert!(bin.is_irrelevant(&zone));
    assert!(!bin.is_irrelevant(&item));
    let own = EntityHazardFilter { entities: vec![item, hole] };
    assert!(own.is_irrelevant(&item));
    assert!(own.is_irrelevant(&hole));
    assert!(!own.is_irrelevant(&other));
    assert!(!own.is_irrelevant(&HazardEntity::BinOuter));
    assert!(!EntityHazardFilter { entities: vec![] }.is_irrelevant(&item));

    let mut cde = engine(1000, 100);
    let handle = cde.register_item(uid(0, 1, 1), quad(100, 100, 300, 300)).unwrap();
    assert_eq!(handle.entity, item);
    assert_eq!(get_irrelevant_hazard_entities(&own, &cde.all_hazards()), vec![item]);
    assert_eq!(get_irrelevant_hazard_entities(&bin, &cde.all_hazards()), vec![HazardEntity::BinOuter]);
}

#[test]
fn active_hazards_leave_out_what_is_switched_off() {
    let mut cde = engine(1000, 100);
    let a = cde.register_item(uid(0, 100, 100), quad(100, 100, 300, 300)).unwrap();
    let b = cde.register_item(uid(1, 500, 500), quad(500, 500, 700, 700)).unwrap();
    let names = |hazards: Vec<Hazard>| -> Vec<HazardEntity> { hazards.iter().map(|h| *h.entity()).collect() };
    assert_eq!(names(cde.active_hazards()), vec![HazardEntity::BinOuter, a.entity, b.entity]);
    cde.deactivate_hazard(a.entity).unwrap();
    assert_eq!(names(cde.active_hazards()), vec![HazardEntity::BinOuter, b.entity]);
    assert_eq!(names(cde.all_hazards()), vec![HazardEntity::BinOuter, a.entity, b.entity]);
    assert_eq!(cde.bin_bbox(), AARectangle::new(0, 0, 1000, 1000).unwrap());
    assert_eq!(cde.bin_bbox(), cde.bbox());
}
