use jaguars::collision_detection::hazard::Hazard;
use jaguars::collision_detection::hazard_entity::HazardEntity;
use jaguars::entities::placed_item::PlacedItemUID;
use jaguars::collision_detection::hp_cell::{
    distance_to_surrogate_poles_border, HPCell, HPCellUpdate,
};
use jaguars::collision_detection::proximity::Proximity;
use jaguars::error::CDEError;
use jaguars::geometry::aa_rectangle::AARectangle;
use jaguars::geometry::circle::Circle;
use jaguars::geometry::d_transformation::DTransformation;
use jaguars::geometry::geo_enums::GeoPosition;
use jaguars::geometry::point::Point;
use jaguars::geometry::simple_polygon::SimplePolygon;
use jaguars::geometry::sp_surrogate::SPSurrogate;
use jaguars::N_QUALITIES;

fn boxed(x0: i64, y0: i64, x1: i64, y1: i64) -> SimplePolygon {
    let radius = std::cmp::min(x1 - x0, y1 - y0) / 2;
    let pole = Circle { center: Point((x0 + x1) / 2, (y0 + y1) / 2), radius: radius as u64 };
    SimplePolygon::new(
        vec![Point(x0, y0), Point(x1, y0), Point(x1, y1), Point(x0, y1)],
        SPSurrogate::new(vec![pole], pole).unwrap(),
    )
    .unwrap()
}

fn bin_outer(side: i64) -> Hazard {
    Hazard::new(HazardEntity::BinOuter, boxed(0, 0, side, side)).unwrap()
}

fn item_entity(item_id: usize, x: i64, y: i64) -> HazardEntity {
    HazardEntity::PlacedItem { id: PlacedItemUID { item_id, d_transf: DTransformation::new(0, (x, y)) } }
}

/// A placed item whose surrogate is one pole of the given radius around (x, y).
fn item_around(item_id: usize, x: i64, y: i64, radius: i64) -> Hazard {
    Hazard::new(item_entity(item_id, x, y), boxed(x - radius, y - radius, x + radius, y + radius)).unwrap()
}

fn exterior(d: u64) -> Proximity {
    Proximity::new(GeoPosition::Exterior, d)
}

fn interior(d: u64) -> Proximity {
    Proximity::new(GeoPosition::Interior, d)
}

#[test]
fn cell_of_an_empty_bin() {
    let cell = HPCell::new(AARectangle::new(100, 100, 200, 200).unwrap(), &[bin_outer(1000)]);
    assert_eq!(cell.centroid(), Point(150, 150));
    assert_eq!(*cell.bbox(), AARectangle::new(100, 100, 200, 200).unwrap());
    // half of sqrt(2) * 100, rounded up
    assert_eq!(cell.radius(), 71);
    assert_eq!(*cell.static_uni_haz_prox(), (exterior(150), HazardEntity::BinOuter));
    assert_eq!(*cell.universal_hazard_proximity(), (exterior(150), HazardEntity::BinOuter));
    assert_eq!(cell.bin_haz_prox(), exterior(150));
    assert_eq!(cell.qz_haz_prox(), [Proximity::default(); N_QUALITIES]);
}

#[test]
fn cell_without_hazards_sees_nothing() {
    let cell = HPCell::new(AARectangle::new(0, 0, 10, 10).unwrap(), &[]);
    assert_eq!(*cell.universal_hazard_proximity(), (Proximity::default(), HazardEntity::BinOuter));
    assert_eq!(cell.value(), (u64::MAX as u128) * (u64::MAX as u128));
}

#[test]
fn cell_in_a_hole_is_inside_a_hazard() {
    let hole = Hazard::new(HazardEntity::BinHole { id: 0 }, boxed(400, 400, 600, 600)).unwrap();
    let statics = [bin_outer(1000), hole];
    let inside = HPCell::new(AARectangle::new(450, 450, 550, 550).unwrap(), &statics);
    assert_eq!(*inside.static_uni_haz_prox(), (interior(100), HazardEntity::BinHole { id: 0 }));
    let beside = HPCell::new(AARectangle::new(600, 450, 700, 550).unwrap(), &statics);
    assert_eq!(*beside.static_uni_haz_prox(), (exterior(50), HazardEntity::BinHole { id: 0 }));
    let outside_the_bin = HPCell::new(AARectangle::new(1000, 0, 1100, 100).unwrap(), &statics);
    assert_eq!(*outside_the_bin.static_uni_haz_prox(), (interior(50), HazardEntity::BinOuter));
}

#[test]
fn cell_keeps_the_first_of_equally_close_static_hazards() {
    let left = Hazard::new(HazardEntity::BinHole { id: 7 }, boxed(0, 0, 100, 100)).unwrap();
    let right = Hazard::new(HazardEntity::BinHole { id: 8 }, boxed(200, 0, 300, 100)).unwrap();
    let cell = HPCell::new(AARectangle::new(140, 40, 160, 60).unwrap(), &[left, right]);
    assert_eq!(*cell.static_uni_haz_prox(), (exterior(50), HazardEntity::BinHole { id: 7 }));
}

#[test]
fn quality_zone_scales_the_value() {
    // a bin of 10 by 10 with a zone of quality 3 over x in [5, 10], in hundredths
    let zone = Hazard::new(
        HazardEntity::QualityZoneInferior { quality: 3, id: 0 },
        SimplePolygon::new(
            vec![Point(500, 0), Point(1000, 0), Point(1000, 1000), Point(500, 1000)],
            SPSurrogate::new(
                vec![Circle { center: Point(750, 500), radius: 250 }],
                Circle { center: Point(750, 500), radius: 250 },
            )
            .unwrap(),
        )
        .unwrap(),
    )
    .unwrap();
    let statics = [bin_outer(1000), zone];
    let cell = HPCell::new(AARectangle::new(650, 450, 750, 550).unwrap(), &statics);
    assert_eq!(cell.centroid(), Point(700, 500));
    let zones = cell.qz_haz_prox();
    assert_eq!(zones[3], interior(200));
    for q in 0..N_QUALITIES {
        if q != 3 {
            assert_eq!(zones[q], Proximity::default());
        }
    }
    // the zone is no universal hazard
    assert_eq!(*cell.universal_hazard_proximity(), (exterior(300), HazardEntity::BinOuter));
    assert_eq!(cell.value(), 300 * 300 * 3 / 10);
    // a cell beside the zone is worth its full area
    let beside = HPCell::new(AARectangle::new(250, 450, 350, 550).unwrap(), &statics);
    assert_eq!(beside.qz_haz_prox()[3], exterior(200));
    assert_eq!(beside.value(), 300 * 300);
}

#[test]
fn closest_quality_zone_of_each_class() {
    let zone = |quality: usize, id: usize, x0: i64, x1: i64| {
        Hazard::new(HazardEntity::QualityZoneInferior { quality, id }, boxed(x0, 0, x1, 1000)).unwrap()
    };
    let statics = [zone(2, 0, 0, 100), zone(2, 1, 300, 400), zone(5, 2, 150, 250)];
    let cell = HPCell::new(AARectangle::new(190, 490, 210, 510).unwrap(), &statics);
    let zones = cell.qz_haz_prox();
    assert_eq!(zones[2], exterior(100));
    assert_eq!(zones[5], interior(50));
    assert_eq!(cell.hazard_proximity(None), interior(50));
    assert_eq!(cell.hazard_proximity(Some(5)), exterior(100));
    assert_eq!(cell.hazard_proximity(Some(6)), interior(50));
    assert_eq!(cell.hazard_proximity(Some(2)), Proximity::default());
    assert_eq!(cell.hazard_proximity(Some(0)), Proximity::default());
    assert_eq!(cell.hazard_proximity(Some(N_QUALITIES)), interior(50));
}

#[test]
fn hazard_refuses_a_quality_out_of_range() {
    let entity = HazardEntity::QualityZoneInferior { quality: N_QUALITIES, id: 0 };
    assert_eq!(Hazard::new(entity, boxed(0, 0, 10, 10)).err(), Some(CDEError::InvalidInput));
    let entity = HazardEntity::QualityZoneInferior { quality: N_QUALITIES - 1, id: 0 };
    assert!(Hazard::new(entity, boxed(0, 0, 10, 10)).is_ok());
}

#[test]
fn register_hazard_reports_what_it_did() {
    // a bin of 100 by 100 in four cells of 50 by 50
    let mut cell = HPCell::new(AARectangle::new(50, 50, 100, 100).unwrap(), &[bin_outer(100)]);
    assert_eq!(cell.centroid(), Point(75, 75));
    assert_eq!(cell.radius(), 36);
    assert_eq!(*cell.universal_hazard_proximity(), (exterior(25), HazardEntity::BinOuter));

    // a tiny hazard in the far corner: 104 from the center, less its radius
    let tiny = item_around(0, 1, 1, 1);
    assert_eq!(cell.register_hazard(&tiny), HPCellUpdate::Boundary);
    assert_eq!(*cell.universal_hazard_proximity(), (exterior(25), HazardEntity::BinOuter));

    // 97 = 25 + 2 * 36 is not beyond the boundary, 98 is
    let at_97 = item_around(1, 75, 75 - 98, 1);
    assert_eq!(cell.register_hazard(&at_97), HPCellUpdate::Unaffected);
    let at_98 = item_around(2, 75, 75 - 99, 1);
    assert_eq!(cell.register_hazard(&at_98), HPCellUpdate::Boundary);

    // as close as the closest so far changes nothing
    let at_25 = item_around(3, 75, 49, 1);
    assert_eq!(cell.register_hazard(&at_25), HPCellUpdate::Unaffected);
    assert_eq!(*cell.universal_hazard_proximity(), (exterior(25), HazardEntity::BinOuter));

    let at_4 = item_around(4, 70, 75, 1);
    assert_eq!(cell.register_hazard(&at_4), HPCellUpdate::Affected);
    assert_eq!(*cell.universal_hazard_proximity(), (exterior(4), item_entity(4, 70, 75)));
    assert_eq!(cell.bin_haz_prox(), exterior(25));

    let over = item_around(5, 75, 80, 20);
    assert_eq!(cell.register_hazard(&over), HPCellUpdate::Affected);
    assert_eq!(*cell.universal_hazard_proximity(), (interior(15), item_entity(5, 75, 80)));
}

#[test]
fn register_hazards_finds_the_closest_in_any_order() {
    let hazards = vec![
        item_around(0, 900, 900, 50),
        item_around(1, 200, 150, 20),
        item_around(2, 150, 400, 100),
        item_around(3, 100, 150, 30),
    ];
    let fresh = || HPCell::new(AARectangle::new(100, 100, 200, 200).unwrap(), &[bin_outer(1000)]);
    // (150, 150): item 1 is at 50 - 20 = 30; item 3 at 50 - 30 = 20; item 2 at 250 - 100 = 150
    let mut batch = fresh();
    batch.register_hazards(&hazards);
    assert_eq!(*batch.universal_hazard_proximity(), (exterior(20), item_entity(3, 100, 150)));
    let mut one_by_one = fresh();
    for hazard in &hazards {
        one_by_one.register_hazard(hazard);
    }
    assert_eq!(one_by_one.universal_hazard_proximity(), batch.universal_hazard_proximity());
    let mut reversed: Vec<Hazard> = hazards.iter().rev().cloned().collect();
    let mut backwards = fresh();
    backwards.register_hazards(&reversed);
    assert_eq!(backwards.universal_hazard_proximity().0, exterior(20));
    // a hazard that is switched off is passed over
    reversed[0].deactivate();
    let mut without = fresh();
    without.register_hazards(&reversed);
    assert_eq!(*without.universal_hazard_proximity(), (exterior(30), item_entity(1, 200, 150)));
    // nothing to register
    let mut untouched = fresh();
    untouched.register_hazards(&[]);
    assert_eq!(*untouched.universal_hazard_proximity(), (exterior(150), HazardEntity::BinOuter));
}

#[test]
fn register_hazards_is_not_fooled_by_a_wide_bounding_circle() {
    // the circle around the poles of `wide` is closer than the poles themselves
    let poles = vec![
        Circle { center: Point(400, 150), radius: 10 },
        Circle { center: Point(800, 150), radius: 10 },
    ];
    let surrogate = SPSurrogate::new(poles, Circle { center: Point(600, 150), radius: 400 }).unwrap();
    let shape = SimplePolygon::new(
        vec![Point(390, 140), Point(810, 140), Point(810, 160), Point(390, 160)],
        surrogate,
    )
    .unwrap();
    let wide = Hazard::new(item_entity(0, 600, 150), shape).unwrap();
    let near = item_around(1, 150, 300, 50);
    let mut cell = HPCell::new(AARectangle::new(100, 100, 200, 200).unwrap(), &[bin_outer(1000)]);
    cell.register_hazards(&[wide, near]);
    // wide: bounding circle at 450 - 400 = 50, poles at 250 - 10 = 240; near: 150 - 50 = 100
    assert_eq!(*cell.universal_hazard_proximity(), (exterior(100), item_entity(1, 150, 300)));
}

#[test]
fn deregister_hazards_falls_back_and_accounts_anew() {
    let a = item_around(0, 100, 150, 30);
    let b = item_around(1, 200, 150, 20);
    let mut cell = HPCell::new(AARectangle::new(100, 100, 200, 200).unwrap(), &[bin_outer(1000)]);
    cell.register_hazards(&[a.clone(), b.clone()]);
    assert_eq!(*cell.universal_hazard_proximity(), (exterior(20), item_entity(0, 100, 150)));

    // the closest hazard stays: nothing happens
    let update = cell.deregister_hazards(&[item_entity(1, 200, 150)], &[a.clone()]);
    assert_eq!(update, HPCellUpdate::Unaffected);
    assert_eq!(*cell.universal_hazard_proximity(), (exterior(20), item_entity(0, 100, 150)));

    // the closest hazard goes: the other one takes over
    let mut cell = HPCell::new(AARectangle::new(100, 100, 200, 200).unwrap(), &[bin_outer(1000)]);
    cell.register_hazards(&[a.clone(), b.clone()]);
    let update = cell.deregister_hazards(&[item_entity(0, 100, 150)], &[b.clone()]);
    assert_eq!(update, HPCellUpdate::Affected);
    assert_eq!(*cell.universal_hazard_proximity(), (exterior(30), item_entity(1, 200, 150)));

    // both go: back to the bin
    let update = cell.deregister_hazards(&[item_entity(0, 100, 150), item_entity(1, 200, 150)], &[]);
    assert_eq!(update, HPCellUpdate::Affected);
    assert_eq!(*cell.universal_hazard_proximity(), (exterior(150), HazardEntity::BinOuter));

    // nothing named
    assert_eq!(cell.deregister_hazards(&[], &[]), HPCellUpdate::Unaffected);
}

#[test]
fn dynamic_proximity_never_exceeds_static() {
    let mut cell = HPCell::new(AARectangle::new(100, 100, 200, 200).unwrap(), &[bin_outer(1000)]);
    let hazards = [item_around(0, 100, 150, 30), item_around(1, 700, 700, 20)];
    assert!(cell.universal_hazard_proximity().0 <= cell.static_uni_haz_prox().0);
    cell.register_hazards(&hazards);
    assert!(cell.universal_hazard_proximity().0 <= cell.static_uni_haz_prox().0);
    cell.deregister_hazards(&[item_entity(0, 100, 150)], &hazards[1..]);
    assert!(cell.universal_hazard_proximity().0 <= cell.static_uni_haz_prox().0);
    assert_eq!(cell.universal_hazard_proximity().0, cell.static_uni_haz_prox().0);
}

#[test]
fn value_of_a_cell() {
    let mut zones = [Proximity::default(); N_QUALITIES];
    assert_eq!(HPCell::calculate_value(exterior(300), zones), 90_000);
    assert_eq!(HPCell::calculate_value(interior(300), zones), 90_000);
    zones[3] = interior(1);
    assert_eq!(HPCell::calculate_value(exterior(300), zones), 27_000);
    // 49 * 3 / 10, rounded down
    assert_eq!(HPCell::calculate_value(exterior(7), zones), 14);
    zones[7] = interior(5);
    assert_eq!(HPCell::calculate_value(exterior(300), zones), 27_000);
    zones[1] = interior(0);
    assert_eq!(HPCell::calculate_value(exterior(300), zones), 9_000);
    zones[0] = interior(0);
    assert_eq!(HPCell::calculate_value(exterior(300), zones), 0);
    // a zone outside of which the center lies does not count
    let mut outside = [Proximity::default(); N_QUALITIES];
    outside[2] = exterior(0);
    assert_eq!(HPCell::calculate_value(exterior(300), outside), 90_000);
    // no overflow at the farthest proximity
    let max = u64::MAX as u128;
    assert_eq!(HPCell::calculate_value(Proximity::default(), outside), max * max);
    outside[9] = interior(1);
    assert_eq!(HPCell::calculate_value(Proximity::default(), outside), max * max / 10 * 9 + (max * max % 10) * 9 / 10);
}

#[test]
fn value_loss_of_a_cell() {
    let cell = HPCell::new(AARectangle::new(50, 50, 100, 100).unwrap(), &[bin_outer(100)]);
    // closest so far: outside at 25; radius 36
    assert_eq!(cell.value(), 625);
    assert_eq!(cell.value_loss(exterior(10)), (Some(525), HPCellUpdate::Affected));
    assert_eq!(cell.value_loss(exterior(0)), (Some(625), HPCellUpdate::Affected));
    // deep inside a hazard the value grows with the depth
    assert_eq!(cell.value_loss(interior(40)), (Some(625 - 1600), HPCellUpdate::Affected));
    assert_eq!(cell.value_loss(exterior(25)), (None, HPCellUpdate::Unaffected));
    assert_eq!(cell.value_loss(exterior(97)), (None, HPCellUpdate::Unaffected));
    assert_eq!(cell.value_loss(exterior(98)), (None, HPCellUpdate::Boundary));
    assert_eq!(cell.value_loss(Proximity::default()), (None, HPCellUpdate::Boundary));
    // the loss at the farthest proximity is held within the signed integers
    let blank = HPCell::new(AARectangle::new(50, 50, 100, 100).unwrap(), &[]);
    assert_eq!(blank.value_loss(exterior(5)), (Some(i128::MAX), HPCellUpdate::Affected));
    assert_eq!(blank.value_loss(Proximity::default()), (None, HPCellUpdate::Unaffected));
}

#[test]
fn distance_to_the_closest_pole() {
    let cell = HPCell::new(AARectangle::new(100, 100, 200, 200).unwrap(), &[bin_outer(1000)]);
    let poles = vec![
        Circle { center: Point(150, 450), radius: 100 },
        Circle { center: Point(180, 190), radius: 20 },
        Circle { center: Point(500, 500), radius: 20 },
    ];
    // (150, 150) to (180, 190) is 50
    assert_eq!(distance_to_surrogate_poles_border(&cell, &poles), exterior(30));
    let around = vec![Circle { center: Point(160, 150), radius: 40 }, Circle { center: Point(150, 150), radius: 5 }];
    assert_eq!(distance_to_surrogate_poles_border(&cell, &around), interior(30));
}

#[test]
fn cell_clone_is_independent() {
    let mut cell = HPCell::new(AARectangle::new(50, 50, 100, 100).unwrap(), &[bin_outer(100)]);
    let copy = cell.clone();
    cell.register_hazard(&item_around(4, 70, 75, 1));
    assert_eq!(*copy.universal_hazard_proximity(), (exterior(25), HazardEntity::BinOuter));
    assert_eq!(*cell.universal_hazard_proximity(), (exterior(4), item_entity(4, 70, 75)));
}
