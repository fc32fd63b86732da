use jaguars::collision_detection::cd_engine::{CDEConfig, SPSurrogateConfig};
use jaguars::collision_detection::hazard_entity::HazardEntity;
use jaguars::collision_detection::hazard_filter::QZHazardFilter;
use jaguars::entities::bin::Bin;
use jaguars::entities::instance::SPInstance;
use jaguars::entities::item::Item;
use jaguars::entities::layout::Layout;
use jaguars::entities::placed_item::{PlacedItem, PlacedItemUID};
use jaguars::entities::placing_option::{LayoutIndex, PlacingOption};
use jaguars::entities::problems::strip_packing::SPProblem;
use jaguars::error::CDEError;
use jaguars::geometry::aa_rectangle::AARectangle;
use jaguars::geometry::circle::Circle;
use jaguars::geometry::d_transformation::DTransformation;
use jaguars::geometry::point::Point;
use jaguars::geometry::simple_polygon::SimplePolygon;
use jaguars::geometry::sp_surrogate::SPSurrogate;

fn settings(hpg_n_cells_target: usize) -> CDEConfig {
    CDEConfig {
        hpg_n_cells_target,
        surrogate: SPSurrogateConfig { n_ff_poles: 1, n_ff_piers: 0, pole_coverage_goal: 900 },
    }
}

/// A rectangle with its lower left corner at the origin, with the largest centered circle as pole.
fn block(width: i64, height: i64) -> SimplePolygon {
    let pole = Circle {
        center: Point(width / 2, height / 2),
        radius: (std::cmp::min(width, height) / 2) as u64,
    };
    SimplePolygon::new(
        vec![Point(0, 0), Point(width, 0), Point(width, height), Point(0, height)],
        SPSurrogate::new(vec![pole], pole).unwrap(),
    )
    .unwrap()
}

/// Two squares of 200 and one rectangle of 100 by 300, for a strip of height 1000.
fn instance() -> SPInstance {
    let items = vec![(Item::new(0, block(200, 200), None), 2), (Item::new(1, block(100, 300), None), 1)];
    SPInstance::new(items, 1000).unwrap()
}

fn at(item_id: usize, rotation: i64, x: i64, y: i64) -> PlacingOption {
    PlacingOption::new(LayoutIndex::Existing(0), item_id, DTransformation::new(rotation, (x, y)))
}

fn uid_at(item_id: usize, rotation: i64, x: i64, y: i64) -> PlacedItemUID {
    PlacedItemUID { item_id, d_transf: DTransformation::new(rotation, (x, y)) }
}

fn placed_uids(problem: &SPProblem) -> Vec<PlacedItemUID> {
    problem.layout().placed_items().iter().map(|p| *p.uid()).collect()
}

/// The three items placed apart from each other; the rectangle lies on its side.
fn packed() -> SPProblem {
    let mut problem = SPProblem::new(instance(), 1000, settings(100)).unwrap();
    problem.place_item(&at(0, 0, 100, 100)).unwrap();
    problem.place_item(&at(0, 0, 400, 100)).unwrap();
    problem.place_item(&at(1, 1, 700, 500)).unwrap();
    problem
}

#[test]
fn items_carry_their_filter() {
    let plain = Item::new(0, block(10, 10), None);
    assert_eq!(plain.id(), 0);
    assert_eq!(plain.base_quality(), None);
    assert_eq!(plain.hazard_filter(), None);
    let picky = Item::new(3, block(10, 10), Some(4));
    assert_eq!(picky.id(), 3);
    assert_eq!(picky.base_quality(), Some(4));
    assert_eq!(picky.hazard_filter(), Some(QZHazardFilter { cutoff_quality: 4 }));
    assert_eq!(picky.shape().points(), block(10, 10).points());
    assert_eq!(picky.clone().hazard_filter(), picky.hazard_filter());
}

#[test]
fn instance_is_refused() {
    let item = |id: usize| Item::new(id, block(10, 10), None);
    assert_eq!(SPInstance::new(vec![(item(0), 1)], 0).err(), Some(CDEError::InvalidInput));
    assert_eq!(SPInstance::new(vec![(item(0), 1)], 1_073_741_825).err(), Some(CDEError::InvalidInput));
    assert_eq!(SPInstance::new(vec![(item(1), 1)], 10).err(), Some(CDEError::InvalidInput));
    assert_eq!(SPInstance::new(vec![(item(0), 1), (item(0), 1)], 10).err(), Some(CDEError::InvalidInput));
    assert_eq!(SPInstance::new(vec![(item(0), 0x8000_0000)], 10).err(), Some(CDEError::InvalidInput));
    let instance = SPInstance::new(vec![(item(0), 0x7fff_ffff), (item(1), 0)], 10).unwrap();
    assert_eq!(instance.n_items(), 2);
    assert_eq!(instance.item_qty(0), 0x7fff_ffff);
    assert_eq!(instance.item_qty(1), 0);
    assert_eq!(instance.item(1).id(), 1);
    assert_eq!(instance.strip_height(), 10);
    assert!(SPInstance::new(vec![], 10).is_ok());
}

#[test]
fn bin_from_a_strip() {
    let bin = Bin::from_strip(7, 600, 1000, settings(60)).unwrap();
    assert_eq!(bin.id(), 7);
    assert_eq!(bin.outer().points(), &vec![Point(0, 0), Point(600, 0), Point(600, 1000), Point(0, 1000)]);
    assert_eq!(bin.outer().surrogate().poles(), &vec![Circle { center: Point(300, 500), radius: 300 }]);
    assert_eq!(bin.bbox(), AARectangle::new(0, 0, 600, 1000).unwrap());
    assert_eq!(bin.base_cde().static_hazards().len(), 1);
    assert_eq!(*bin.base_cde().static_hazards()[0].entity(), HazardEntity::BinOuter);
    assert_eq!(bin.base_cde().dynamic_hazards().len(), 0);
    assert_eq!(bin.base_cde().config(), settings(60));
    assert_eq!(bin.base_cde().haz_prox_grid().cell_size(), 100);
    assert_eq!(Bin::from_strip(0, 0, 1000, settings(60)).err(), Some(CDEError::InvalidInput));
    assert_eq!(Bin::from_strip(0, 600, 0, settings(60)).err(), Some(CDEError::InvalidInput));
    assert_eq!(Bin::from_strip(0, 600, 1000, settings(0)).err(), Some(CDEError::InvalidInput));
    assert_eq!(Bin::from_strip(0, 1_073_741_825, 1000, settings(60)).err(), Some(CDEError::InvalidInput));
    assert!(Bin::from_strip(0, 1, 1, settings(1)).is_ok());
}

#[test]
fn placed_item_lies_where_it_was_put() {
    let item = Item::new(1, block(100, 300), Some(2));
    let d_transf = DTransformation::new(1, (700, 500));
    let placed = PlacedItem::new(&item, d_transf).unwrap();
    assert_eq!(*placed.uid(), PlacedItemUID { item_id: 1, d_transf });
    assert_eq!(placed.item_id(), 1);
    assert_eq!(*placed.d_transformation(), d_transf);
    assert_eq!(placed.hazard_filter(), Some(QZHazardFilter { cutoff_quality: 2 }));
    assert_eq!(placed.shape().points(), &vec![Point(700, 500), Point(700, 600), Point(400, 600), Point(400, 500)]);
    let far = DTransformation::new(0, (1_073_741_800, 0));
    assert_eq!(PlacedItem::new(&item, far).err(), Some(CDEError::InvalidInput));
}

#[test]
fn layout_places_and_removes() {
    let mut layout = Layout::new(3, Bin::from_strip(3, 1000, 1000, settings(100)).unwrap());
    assert_eq!(layout.id(), 3);
    assert!(layout.is_empty());
    let square = Item::new(0, block(200, 200), None);
    let here = DTransformation::new(0, (100, 100));
    let there = DTransformation::new(0, (500, 500));
    layout.place_item(&square, &here).unwrap();
    layout.place_item(&square, &there).unwrap();
    assert!(!layout.is_empty());
    assert_eq!(layout.placed_items().len(), 2);
    assert_eq!(layout.cde().dynamic_hazards().len(), 2);
    assert!(layout.cde().shape_collides(&block(200, 200), &[]));
    // the same item in the same place
    assert_eq!(layout.place_item(&square, &here), Err(CDEError::InvalidInput));
    // beyond the range of the coordinates
    assert_eq!(layout.place_item(&square, &DTransformation::new(0, (1_073_741_800, 0))), Err(CDEError::InvalidInput));
    assert_eq!(layout.placed_items().len(), 2);

    let snapshot = layout.create_layout_snapshot();
    layout.remove_item(&PlacedItemUID { item_id: 0, d_transf: here }).unwrap();
    assert_eq!(layout.placed_items().len(), 1);
    assert_eq!(*layout.placed_items()[0].uid(), PlacedItemUID { item_id: 0, d_transf: there });
    assert_eq!(*layout.cde().dynamic_hazards()[0].entity(), HazardEntity::PlacedItem { id: PlacedItemUID { item_id: 0, d_transf: there } });
    assert_eq!(layout.remove_item(&PlacedItemUID { item_id: 0, d_transf: here }), Err(CDEError::InvalidInput));
    assert_eq!(snapshot.placed_items().len(), 2);
    layout.restore(&snapshot);
    assert_eq!(layout.placed_items().len(), 2);
    assert_eq!(layout.cde().dynamic_hazards().len(), 2);
    assert_eq!(layout.bin().id(), 3);
}

#[test]
fn new_problem_misses_everything() {
    let problem = SPProblem::new(instance(), 1000, settings(100)).unwrap();
    assert_eq!(problem.strip_width(), 1000);
    assert_eq!(problem.strip_height(), 1000);
    assert_eq!(problem.missing_item_qtys(), &vec![2, 1]);
    assert_eq!(problem.included_item_qtys(), vec![0, 0]);
    assert_eq!(problem.bin_qtys(), vec![0]);
    assert!(!problem.empty_layout_has_stock(0));
    assert_eq!(problem.layout().id(), 0);
    assert!(problem.layout().is_empty());
    assert_eq!(problem.layout().cde().bbox(), AARectangle::new(0, 0, 1000, 1000).unwrap());
    assert_eq!(problem.instance().n_items(), 2);
    assert_eq!(SPProblem::new(instance(), 0, settings(100)).err(), Some(CDEError::InvalidInput));
    assert_eq!(SPProblem::new(instance(), 1000, settings(0)).err(), Some(CDEError::InvalidInput));
}

#[test]
fn placing_and_removing_is_counted() {
    let mut problem = packed();
    assert_eq!(problem.missing_item_qtys(), &vec![0, 0]);
    assert_eq!(problem.included_item_qtys(), vec![2, 1]);
    assert_eq!(placed_uids(&problem), vec![uid_at(0, 0, 100, 100), uid_at(0, 0, 400, 100), uid_at(1, 1, 700, 500)]);
    // one copy more than asked for
    problem.place_item(&at(1, 0, 800, 100)).unwrap();
    assert_eq!(problem.missing_item_qtys(), &vec![0, -1]);
    assert_eq!(problem.included_item_qtys(), vec![2, 2]);
    // refused: nothing changes
    assert_eq!(problem.place_item(&at(1, 0, 800, 100)), Err(CDEError::InvalidInput));
    assert_eq!(problem.missing_item_qtys(), &vec![0, -1]);

    problem.remove_item(LayoutIndex::Existing(0), &uid_at(0, 0, 100, 100)).unwrap();
    assert_eq!(problem.missing_item_qtys(), &vec![1, -1]);
    assert_eq!(placed_uids(&problem), vec![uid_at(1, 0, 800, 100), uid_at(0, 0, 400, 100), uid_at(1, 1, 700, 500)]);
    assert_eq!(
        problem.remove_item(LayoutIndex::Existing(0), &uid_at(0, 0, 100, 100)),
        Err(CDEError::InvalidInput)
    );
    assert_eq!(problem.missing_item_qtys(), &vec![1, -1]);
}

#[test]
fn fitting_the_strip() {
    let mut problem = packed();
    // the rectangle on its side reaches to 700
    assert_eq!(problem.fit_strip_width(), Ok(()));
    assert_eq!(problem.strip_width(), 701);
    assert_eq!(problem.strip_height(), 1000);
    assert_eq!(problem.layout().id(), 1);
    assert_eq!(problem.layout().bin().id(), 1);
    assert_eq!(problem.layout().cde().bbox(), AARectangle::new(0, 0, 701, 1000).unwrap());
    assert_eq!(placed_uids(&problem), vec![uid_at(0, 0, 100, 100), uid_at(0, 0, 400, 100), uid_at(1, 1, 700, 500)]);
    assert_eq!(problem.missing_item_qtys(), &vec![0, 0]);
    // once more changes the number of the layout only
    assert_eq!(problem.fit_strip_width(), Ok(()));
    assert_eq!(problem.strip_width(), 701);
    assert_eq!(problem.layout().id(), 2);
}

#[test]
fn fitting_an_empty_strip() {
    let mut problem = SPProblem::new(instance(), 1000, settings(100)).unwrap();
    assert_eq!(problem.fit_strip_width(), Ok(()));
    assert_eq!(problem.strip_width(), 1);
    assert_eq!(problem.missing_item_qtys(), &vec![2, 1]);
}

#[test]
fn narrowing_the_strip_drops_what_does_not_fit() {
    let mut problem = packed();
    assert_eq!(problem.modify_strip_width(650), Ok(()));
    assert_eq!(problem.strip_width(), 650);
    assert_eq!(placed_uids(&problem), vec![uid_at(0, 0, 100, 100), uid_at(0, 0, 400, 100)]);
    assert_eq!(problem.missing_item_qtys(), &vec![0, 1]);
    assert_eq!(problem.layout().cde().dynamic_hazards().len(), 2);
    // an item that touches the new border does not fit either
    assert_eq!(problem.modify_strip_width(600), Ok(()));
    assert_eq!(placed_uids(&problem), vec![uid_at(0, 0, 100, 100)]);
    assert_eq!(problem.missing_item_qtys(), &vec![1, 1]);
    assert_eq!(problem.modify_strip_width(2000), Ok(()));
    assert_eq!(placed_uids(&problem), vec![uid_at(0, 0, 100, 100)]);
    assert_eq!(problem.layout().id(), 3);
    // no strip of that width
    assert_eq!(problem.modify_strip_width(0), Err(CDEError::InvalidInput));
    assert_eq!(problem.strip_width(), 2000);
    assert_eq!(problem.layout().id(), 3);
    assert_eq!(placed_uids(&problem), vec![uid_at(0, 0, 100, 100)]);
}

#[test]
fn fitting_reports_an_item_that_is_lost() {
    let mut problem = SPProblem::new(instance(), 1000, settings(100)).unwrap();
    // the second square overlaps the first one: placing does not look for collisions
    problem.place_item(&at(0, 0, 100, 100)).unwrap();
    problem.place_item(&at(0, 0, 150, 150)).unwrap();
    assert_eq!(problem.fit_strip_width(), Err(CDEError::InvariantViolation));
    assert_eq!(problem.strip_width(), 351);
    assert_eq!(placed_uids(&problem), vec![uid_at(0, 0, 100, 100)]);
    assert_eq!(problem.missing_item_qtys(), &vec![1, 1]);
}

#[test]
fn fitting_is_refused_where_nothing_reaches_the_strip() {
    let mut problem = SPProblem::new(instance(), 1000, settings(100)).unwrap();
    problem.place_item(&at(0, 0, -500, 100)).unwrap();
    assert_eq!(problem.fit_strip_width(), Err(CDEError::InvalidInput));
    assert_eq!(problem.strip_width(), 1000);
    assert_eq!(problem.layout().id(), 0);
    assert_eq!(placed_uids(&problem), vec![uid_at(0, 0, -500, 100)]);
}

#[test]
fn items_that_may_lie_in_a_zone_pass_it_over() {
    let items = vec![(Item::new(0, block(200, 200), Some(3)), 1)];
    let mut problem = SPProblem::new(SPInstance::new(items, 1000).unwrap(), 1000, settings(100)).unwrap();
    problem.place_item(&at(0, 0, 100, 100)).unwrap();
    assert_eq!(problem.modify_strip_width(500), Ok(()));
    assert_eq!(placed_uids(&problem), vec![uid_at(0, 0, 100, 100)]);
}

#[test]
fn solutions_are_snapshots() {
    let mut problem = packed();
    let first = problem.create_solution(&None);
    assert_eq!(first.id(), 1);
    assert_eq!(first.layout_snapshots().len(), 1);
    assert_eq!(first.layout_snapshots()[0].placed_items().len(), 3);
    assert_eq!(first.placed_item_qtys(), &vec![2, 1]);
    assert_eq!(first.target_item_qtys(), &vec![2, 1]);
    assert_eq!(first.bin_qtys(), &vec![0]);
    assert!(first.is_complete());

    problem.remove_item(LayoutIndex::Existing(0), &uid_at(1, 1, 700, 500)).unwrap();
    problem.modify_strip_width(650).unwrap();
    let second = problem.create_solution(&Some(first));
    assert_eq!(second.id(), 2);
    assert_eq!(second.placed_item_qtys(), &vec![2, 0]);
    assert!(!second.is_complete());
    assert_eq!(problem.next_solution_id(), 3);

    let first = packed().create_solution(&None);
    problem.restore_to_solution(&first);
    assert_eq!(problem.strip_width(), 1000);
    assert_eq!(problem.missing_item_qtys(), &vec![0, 0]);
    assert_eq!(placed_uids(&problem), vec![uid_at(0, 0, 100, 100), uid_at(0, 0, 400, 100), uid_at(1, 1, 700, 500)]);
    assert_eq!(problem.layout().cde().dynamic_hazards().len(), 3);
    problem.restore_to_solution(&second);
    assert_eq!(problem.strip_width(), 650);
    assert_eq!(problem.missing_item_qtys(), &vec![0, 1]);
    assert_eq!(problem.layout().placed_items().len(), 2);
    assert_eq!(problem.create_solution(&None).id(), 4);
}

#[test]
fn problem_clone_is_independent() {
    let mut problem = packed();
    let copy = problem.clone();
    problem.remove_item(LayoutIndex::Existing(0), &uid_at(0, 0, 100, 100)).unwrap();
    problem.modify_strip_width(650).unwrap();
    assert_eq!(copy.strip_width(), 1000);
    assert_eq!(copy.missing_item_qtys(), &vec![0, 0]);
    assert_eq!(copy.layout().placed_items().len(), 3);
    assert_eq!(copy.layout().cde().dynamic_hazards().len(), 3);
    assert_eq!(problem.layout().placed_items().len(), 1);
}

#[test]
fn room_is_found_where_nothing_is_in_the_way() {
    let mut problem = SPProblem::new(instance(), 1000, settings(100)).unwrap();
    let shape = problem.room_for(0, &DTransformation::new(0, (100, 100))).unwrap();
    assert_eq!(shape.points(), &vec![Point(100, 100), Point(300, 100), Point(300, 300), Point(100, 300)]);
    // touching the border of the strip
    assert!(problem.room_for(0, &DTransformation::new(0, (0, 100))).is_none());
    assert!(problem.room_for(0, &DTransformation::new(0, (800, 100))).is_none());
    assert!(problem.room_for(0, &DTransformation::new(0, (799, 100))).is_some());
    // turned, the rectangle lies to the left of where it is put
    assert!(problem.room_for(1, &DTransformation::new(1, (200, 100))).is_none());
    assert!(problem.room_for(1, &DTransformation::new(1, (400, 100))).is_some());
    // no transformation of the lattice
    assert!(problem.room_for(0, &DTransformation::new(0, (2_147_483_649, 0))).is_none());
    problem.place_item(&at(0, 0, 100, 100)).unwrap();
    assert!(problem.room_for(0, &DTransformation::new(0, (100, 100))).is_none());
    assert!(problem.room_for(0, &DTransformation::new(0, (250, 250))).is_none());
    assert!(problem.room_for(0, &DTransformation::new(0, (300, 100))).is_none());
    assert!(problem.room_for(0, &DTransformation::new(0, (301, 100))).is_some());
    assert_eq!(problem.layout().placed_items().len(), 1);
}

#[test]
fn left_bottom_placement_takes_the_best_candidate() {
    let mut problem = SPProblem::new(instance(), 1000, settings(100)).unwrap();
    let candidates = vec![
        DTransformation::new(0, (500, 500)),
        DTransformation::new(0, (100, 300)),
        DTransformation::new(0, (100, 100)),
        DTransformation::new(0, (0, 0)),
        DTransformation::new(4, (100, 100)),
        DTransformation::new(0, (2_147_483_649, 0)),
    ];
    assert_eq!(problem.place_left_bottom(0, &candidates), Some(2));
    assert_eq!(placed_uids(&problem), vec![uid_at(0, 0, 100, 100)]);
    assert_eq!(problem.missing_item_qtys(), &vec![1, 1]);
    // the square above touches the one that was placed; the same place with four
    // quarter turns more is as good as taken
    assert_eq!(problem.place_left_bottom(0, &candidates), Some(0));
    assert_eq!(placed_uids(&problem), vec![uid_at(0, 0, 100, 100), uid_at(0, 0, 500, 500)]);
    assert_eq!(problem.missing_item_qtys(), &vec![0, 1]);
    assert_eq!(problem.place_left_bottom(0, &candidates), None);
    assert_eq!(problem.place_left_bottom(1, &[]), None);
    assert_eq!(problem.layout().placed_items().len(), 2);
    assert_eq!(problem.missing_item_qtys(), &vec![0, 1]);
    // of two candidates that reach equally far the first one is taken: upright and
    // upside down the rectangle covers the same ground
    let upright = DTransformation::new(0, (100, 650));
    let upside_down = DTransformation::new(2, (200, 950));
    assert_eq!(problem.place_left_bottom(1, &[upright, upside_down]), Some(0));
    assert_eq!(*placed_uids(&problem).last().unwrap(), uid_at(1, 0, 100, 650));
    problem.remove_item(LayoutIndex::Existing(0), &uid_at(1, 0, 100, 650)).unwrap();
    assert_eq!(problem.place_left_bottom(1, &[upside_down, upright]), Some(0));
    assert_eq!(*placed_uids(&problem).last().unwrap(), uid_at(1, 2, 200, 950));
    // at the top of the strip the rectangle would touch the border
    assert_eq!(problem.place_left_bottom(1, &[DTransformation::new(0, (300, 700))]), None);
}
