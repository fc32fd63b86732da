//! The strip packing problem: pack all items into a strip of fixed height and of a
//! width that is as small as can be.

use vstd::prelude::*;
use crate::collision_detection::cd_engine::{poles_hit_any, shape_hits_any, CDEConfig};
use crate::collision_detection::hazard::{Hazard, HazardView};
use crate::collision_detection::hazard_entity::HazardEntity;
use crate::collision_detection::hazard_filter::{
    get_irrelevant_hazard_entities,
    irrelevant_entities,
    QZHazardFilter,
};
use crate::entities::bin::{strip_bbox, strip_corners, strip_fits, Bin};
use crate::entities::instance::{InstanceView, SPInstance, MAX_QUANTITY};
use crate::entities::item::{Item, ItemView};
use crate::entities::layout::{
    hazards_of,
    lemma_placed_is_registered,
    placed_views,
    Layout,
    LayoutSnapshot,
    LayoutView,
    MAX_PLACED,
};
use crate::entities::placed_item::{
    can_be_put,
    PlacedItem,
    PlacedItemUID,
    PlacedItemView,
};
use crate::entities::placing_option::{LayoutIndex, PlacingOption};
use crate::entities::solution::{snapshot_views, Solution};
use crate::error::CDEError;
use crate::geometry::point::MAX_COORD;
use crate::geometry::simple_polygon::{
    bounding_box_of,
    lemma_bbox_is_bounding_box_of,
    PolygonView,
    SimplePolygon,
};
use crate::geometry::transformation::Transformation;
use crate::geometry::d_transformation::DTransformation;

verus! {

/// The number of copies of the item `item_id` among the first `k` placed items.
pub open spec fn count_placed(placed: Seq<PlacedItemView>, item_id: int, k: int) -> int
    decreases k,
{
    if k <= 0 {
        0
    } else {
        count_placed(placed, item_id, k - 1) + if placed[k - 1].uid.item_id == item_id {
            1int
        } else {
            0int
        }
    }
}

/// The item put where `d_transf` says.
pub open spec fn put(item: ItemView, d_transf: DTransformation) -> PlacedItemView {
    let t = d_transf.spec_compose();
    let points = t.images_of(item.shape.points);
    PlacedItemView {
        uid: PlacedItemUID { item_id: item.id, d_transf },
        shape: PolygonView {
            points,
            bbox: bounding_box_of(points),
            surrogate: item.shape.surrogate.transformed(t),
        },
        hazard_filter: item.hazard_filter,
    }
}

/// The entities that a query for `item` passes over among the hazards `all`.
pub open spec fn ignored_by(item: ItemView, all: Seq<HazardView>) -> Seq<HazardEntity> {
    match item.hazard_filter {
        Some(filter) => irrelevant_entities::<QZHazardFilter>(filter, all, all.len() as int),
        None => Seq::empty(),
    }
}

/// The item finds room where `d_transf` says, in a bin with the hazards `statics`
/// where the items `placed` lie already: neither its poles nor its polygon are where
/// a hazard that concerns it forbids them to be, it stays within coordinate range, and
/// no item lies there under the same identity.
pub open spec fn finds_room(
    item: ItemView,
    d_transf: DTransformation,
    statics: Seq<HazardView>,
    placed: Seq<PlacedItemView>,
) -> bool {
    let dynamic = hazards_of(placed);
    let ignore = ignored_by(item, statics + dynamic);
    let t = d_transf.spec_compose();
    let poles = item.shape.surrogate.transformed(t).poles;
    let points = t.images_of(item.shape.points);
    &&& item.shape.surrogate.stays_in_range(t)
    &&& !poles_hit_any(poles, statics, ignore)
    &&& !poles_hit_any(poles, dynamic, ignore)
    &&& can_be_put(item, d_transf)
    &&& !shape_hits_any(points, statics, ignore)
    &&& !shape_hits_any(points, dynamic, ignore)
    &&& !exists|i: int|
        0 <= i < placed.len() && (#[trigger] placed[i]).uid == (PlacedItemUID {
            item_id: item.id,
            d_transf,
        })
}

/// The items that lie in a bin with the hazards `statics` after the first `k`
/// placements of `uids` were tried in turn, each item being placed where it finds
/// room among those placed before it.
pub open spec fn kept_items(
    instance: InstanceView,
    statics: Seq<HazardView>,
    uids: Seq<PlacedItemUID>,
    k: int,
) -> Seq<PlacedItemView>
    decreases k,
{
    if k <= 0 {
        Seq::empty()
    } else {
        let before = kept_items(instance, statics, uids, k - 1);
        let uid = uids[k - 1];
        let item = instance.items[uid.item_id as int].0;
        if finds_room(item, uid.d_transf, statics, before) {
            before.push(put(item, uid.d_transf))
        } else {
            before
        }
    }
}

/// The highest abscissa and the highest ordinate that the item reaches where
/// `d_transf` puts it.
pub open spec fn reach_of(item: ItemView, d_transf: DTransformation) -> (int, int) {
    let bbox = put(item, d_transf).shape.bbox;
    (bbox.x_max as int, bbox.y_max as int)
}

/// The reach `a` lies to the left of the reach `b`, or as far to the left and lower.
pub open spec fn lower_left(a: (int, int), b: (int, int)) -> bool {
    a.0 < b.0 || (a.0 == b.0 && a.1 < b.1)
}

/// The item `item_id` finds room in the layout of the problem where `d_transf` says,
/// and `d_transf` is well formed.
pub open spec fn fits_at(problem: ProblemView, item_id: int, d_transf: DTransformation) -> bool {
    &&& d_transf.wf()
    &&& finds_room(
        problem.instance.items[item_id].0,
        d_transf,
        problem.layout.cde.static_hazards,
        problem.layout.placed_items,
    )
}

/// The place among the first `k` candidates of the one at which the item finds room
/// and reaches least far to the right, and of those the least high: the first one
/// where several reach equally far, and `-1` where the item finds room at none.
pub open spec fn best_candidate(
    problem: ProblemView,
    item_id: int,
    candidates: Seq<DTransformation>,
    k: int,
) -> int
    decreases k,
{
    if k <= 0 {
        -1
    } else {
        let before = best_candidate(problem, item_id, candidates, k - 1);
        let item = problem.instance.items[item_id].0;
        if fits_at(problem, item_id, candidates[k - 1]) && (before < 0 || lower_left(
            reach_of(item, candidates[k - 1]),
            reach_of(item, candidates[before]),
        )) {
            k - 1
        } else {
            before
        }
    }
}

/// The candidate that a left-bottom placement of the item takes: the best of all,
/// and none where the layout is full.
pub open spec fn left_bottom_choice(
    problem: ProblemView,
    item_id: int,
    candidates: Seq<DTransformation>,
) -> int {
    if problem.layout.placed_items.len() >= MAX_PLACED {
        -1
    } else {
        best_candidate(problem, item_id, candidates, candidates.len() as int)
    }
}

/// The identities of placed items, in their order.
pub open spec fn uids_of(placed: Seq<PlacedItemView>) -> Seq<PlacedItemUID> {
    Seq::new(placed.len(), |i: int| placed[i].uid)
}

/// The highest abscissa that one of the first `k` placed items reaches, and zero
/// where there is no item.
pub open spec fn max_x(placed: Seq<PlacedItemView>, k: int) -> int
    decreases k,
{
    if k <= 0 {
        0
    } else if k == 1 {
        placed[0].shape.bbox.x_max as int
    } else {
        let before = max_x(placed, k - 1);
        let here = placed[k - 1].shape.bbox.x_max as int;
        if here > before {
            here
        } else {
            before
        }
    }
}

/// What a strip packing problem holds, as mathematical values.
pub struct ProblemView {
    pub instance: InstanceView,
    pub layout: LayoutView,
    pub strip_height: u64,
    pub strip_width: u64,
    /// For each item the number of copies that are still to be placed; negative where
    /// more copies lie in the layout than were asked for.
    pub missing_item_qtys: Seq<isize>,
    pub solution_id_counter: usize,
}

impl ProblemView {
    /// The placed items are items of the instance, put where their identity says.
    pub open spec fn placed_from_instance(self) -> bool {
        forall|i: int|
            0 <= i < self.layout.placed_items.len() ==> {
                let placed = #[trigger] self.layout.placed_items[i];
                &&& placed.uid.item_id < self.instance.items.len()
                &&& placed.uid.d_transf.wf()
                &&& placed == put(
                    self.instance.items[placed.uid.item_id as int].0,
                    placed.uid.d_transf,
                )
            }
    }

    /// The missing quantities are the quantities asked for less those placed.
    pub open spec fn accounts(self) -> bool {
        &&& self.missing_item_qtys.len() == self.instance.items.len()
        &&& forall|id: int|
            0 <= id < self.instance.items.len() ==> (#[trigger] self.missing_item_qtys[id])
                == self.instance.items[id].1 - count_placed(
                self.layout.placed_items,
                id,
                self.layout.placed_items.len() as int,
            )
    }

    /// The layout is one in the strip of the instance, holds items of the instance,
    /// and the missing quantities account for them.
    pub open spec fn wf(self) -> bool {
        &&& self.instance.wf()
        &&& self.layout.wf()
        &&& self.strip_height == self.instance.strip_height
        &&& 1 <= self.strip_width <= MAX_COORD
        &&& self.layout.cde.bbox == strip_bbox(self.strip_width, self.strip_height)
        &&& self.placed_from_instance()
        &&& self.accounts()
    }
}

/// `after` is the problem `before` with its strip made `new_width` wide: a new layout
/// in a new bin, in which the items of the old layout were tried in turn, each one
/// being placed again where it finds room.
pub open spec fn strip_modified(before: ProblemView, new_width: u64, after: ProblemView) -> bool {
    &&& after.instance == before.instance
    &&& after.strip_height == before.strip_height
    &&& after.strip_width == new_width
    &&& after.solution_id_counter == before.solution_id_counter
    &&& after.layout.id == before.layout.id + 1
    &&& after.layout.bin.id == before.layout.id + 1
    &&& after.layout.bin.outer.points == strip_corners(new_width, before.strip_height)
    &&& after.layout.cde.config == before.layout.cde.config
    &&& after.layout.placed_items == kept_items(
        before.instance,
        after.layout.cde.static_hazards,
        uids_of(before.layout.placed_items),
        before.layout.placed_items.len() as int,
    )
}

/// `solution` is a snapshot of a problem on `instance`: one layout in a strip of the
/// instance's height, holding items of the instance, with the quantities placed.
pub open spec fn solution_fits(solution: crate::entities::solution::SolutionView, instance: InstanceView) -> bool {
    &&& solution.layout_snapshots.len() == 1
    &&& solution.placed_item_qtys.len() == instance.items.len()
    &&& exists|width: u64| #[trigger]
        restored(solution, instance, width).wf()
}

/// The problem on `instance` that `solution` is a snapshot of, in a strip of the given
/// width.
pub open spec fn restored(
    solution: crate::entities::solution::SolutionView,
    instance: InstanceView,
    width: u64,
) -> ProblemView {
    ProblemView {
        instance,
        layout: solution.layout_snapshots[0],
        strip_height: instance.strip_height,
        strip_width: width,
        missing_item_qtys: Seq::new(
            instance.items.len(),
            |id: int|
                (instance.items[id].1 - count_placed(
                    solution.layout_snapshots[0].placed_items,
                    id,
                    solution.layout_snapshots[0].placed_items.len() as int,
                )) as isize,
        ),
        solution_id_counter: 0,
    }
}

/// Strip Packing Problem
#[derive(Debug)]
pub struct SPProblem {
    instance: SPInstance,
    layout: Layout,
    strip_height: u64,
    strip_width: u64,
    missing_item_qtys: Vec<isize>,
    solution_id_counter: usize,
}

impl View for SPProblem {
    type V = ProblemView;

    closed spec fn view(&self) -> ProblemView {
        ProblemView {
            instance: self.instance@,
            layout: self.layout@,
            strip_height: self.strip_height,
            strip_width: self.strip_width,
            missing_item_qtys: self.missing_item_qtys@,
            solution_id_counter: self.solution_id_counter,
        }
    }
}

impl Clone for SPProblem {
    /// A copy that holds the same values and shares nothing with this problem.
    fn clone(&self) -> (r: SPProblem)
        ensures
            r@ == self@,
    {
        SPProblem {
            instance: self.instance.clone(),
            layout: self.layout.clone(),
            strip_height: self.strip_height,
            strip_width: self.strip_width,
            missing_item_qtys: self.missing_item_qtys.clone(),
            solution_id_counter: self.solution_id_counter,
        }
    }
}

/// For each item of the instance the number of copies asked for.
fn demanded_quantities(instance: &SPInstance) -> (r: Vec<isize>)
    requires
        instance.wf(),
    ensures
        r@.len() == instance@.items.len(),
        forall|id: int| 0 <= id < r@.len() ==> #[trigger] r@[id] == instance@.items[id].1,
{
    let mut quantities: Vec<isize> = Vec::new();
    let mut i: usize = 0;
    while i < instance.n_items()
        invariant
            0 <= i <= instance@.items.len(),
            instance.wf(),
            quantities@.len() == i,
            forall|id: int| 0 <= id < i ==> #[trigger] quantities@[id] == instance@.items[id].1,
        decreases instance@.items.len() - i,
    {
        assert(instance@.items[i as int].1 <= MAX_QUANTITY);
        quantities.push(instance.item_qty(i) as isize);
        i += 1;
    }
    quantities
}

impl SPProblem {
    pub open spec fn wf(&self) -> bool {
        self@.wf()
    }

    /// The problem on `instance` in an empty strip of the given width. It is refused
    /// where no bin can be made of such a strip.
    pub fn new(instance: SPInstance, strip_width: u64, cde_config: CDEConfig) -> (r: Result<
        SPProblem,
        CDEError,
    >)
        requires
            instance.wf(),
        ensures
            r.is_ok() == strip_fits(strip_width, instance@.strip_height, cde_config),
            r.is_err() ==> r.unwrap_err() == CDEError::InvalidInput,
            r.is_ok() ==> {
                let problem = r.unwrap()@;
                &&& problem.wf()
                &&& problem.instance == instance@
                &&& problem.strip_width == strip_width
                &&& problem.strip_height == instance@.strip_height
                &&& problem.solution_id_counter == 0
                &&& problem.layout.id == 0
                &&& problem.layout.placed_items.len() == 0
                &&& problem.layout.cde.config == cde_config
                &&& problem.layout.bin.outer.points == strip_corners(
                    strip_width,
                    instance@.strip_height,
                )
                &&& forall|id: int|
                    0 <= id < instance@.items.len() ==> #[trigger] problem.missing_item_qtys[id]
                        == instance@.items[id].1
            },
    {
        let height: u64 = instance.strip_height();
        let missing_item_qtys: Vec<isize> = demanded_quantities(&instance);
        let strip_bin: Bin = match Bin::from_strip(0, strip_width, height, cde_config) {
            Ok(bin) => bin,
            Err(e) => {
                return Err(e);
            },
        };
        let strip_height: u64 = height;
        let layout: Layout = Layout::new(0, strip_bin);
        Ok(
            SPProblem {
                instance,
                layout,
                strip_height,
                strip_width,
                missing_item_qtys,
                solution_id_counter: 0,
            },
        )
    }

    pub fn strip_height(&self) -> (r: u64)
        ensures
            r == self@.strip_height,
    {
        self.strip_height
    }

    pub fn strip_width(&self) -> (r: u64)
        ensures
            r == self@.strip_width,
    {
        self.strip_width
    }

    pub fn instance(&self) -> (r: &SPInstance)
        ensures
            r@ == self@.instance,
    {
        &self.instance
    }

    /// The one layout of the problem.
    pub fn layout(&self) -> (r: &Layout)
        ensures
            r@ == self@.layout,
    {
        &self.layout
    }

    /// For each item the number of copies that are still to be placed.
    pub fn missing_item_qtys(&self) -> (r: &Vec<isize>)
        ensures
            r@ == self@.missing_item_qtys,
    {
        &self.missing_item_qtys
    }

    /// For each item the number of copies that lie in the layout.
    pub fn included_item_qtys(&self) -> (r: Vec<usize>)
        requires
            self.wf(),
        ensures
            r@.len() == self@.instance.items.len(),
            forall|id: int|
                0 <= id < r@.len() ==> #[trigger] r@[id] == count_placed(
                    self@.layout.placed_items,
                    id,
                    self@.layout.placed_items.len() as int,
                ),
    {
        let mut included: Vec<usize> = Vec::new();
        let n: usize = self.missing_item_qtys.len();
        let mut i: usize = 0;
        while i < n
            invariant
                0 <= i <= n,
                self.wf(),
                n == self@.instance.items.len(),
                included@.len() == i,
                forall|id: int|
                    0 <= id < i ==> #[trigger] included@[id] == count_placed(
                        self@.layout.placed_items,
                        id,
                        self@.layout.placed_items.len() as int,
                    ),
            decreases n - i,
        {
            proof {
                lemma_count_bounds(
                    self@.layout.placed_items,
                    i as int,
                    self@.layout.placed_items.len() as int,
                );
                assert(self@.instance.items[i as int].1 <= MAX_QUANTITY);
                assert(self@.missing_item_qtys[i as int] == self@.instance.items[i as int].1
                    - count_placed(
                    self@.layout.placed_items,
                    i as int,
                    self@.layout.placed_items.len() as int,
                ));
            }
            let demanded: isize = self.instance.item_qty(i) as isize;
            included.push((demanded - self.missing_item_qtys[i]) as usize);
            i += 1;
        }
        included
    }

    /// A strip packing problem has no layouts in stock.
    pub fn empty_layout_has_stock(&self, _index: usize) -> (r: bool)
        ensures
            !r,
    {
        false
    }

    /// The strip is no bin of the instance: the one entry counts none.
    pub fn bin_qtys(&self) -> (r: Vec<usize>)
        ensures
            r@ == seq![0usize],
    {
        let mut quantities: Vec<usize> = Vec::new();
        quantities.push(0);
        assert(quantities@ =~= seq![0usize]);
        quantities
    }

    /// Places an item in the layout, whether or not it collides there, and counts it.
    /// It is refused where the shape of the item would leave the coordinate range,
    /// where an item lies there under that identity already, or where the layout is
    /// full.
    pub fn place_item(&mut self, i_opt: &PlacingOption) -> (r: Result<(), CDEError>)
        requires
            old(self).wf(),
            i_opt.layout_index == LayoutIndex::Existing(0),
            i_opt.item_id < old(self)@.instance.items.len(),
            i_opt.d_transf.wf(),
        ensures
            final(self).wf(),
            r.is_ok() == (can_be_put(
                old(self)@.instance.items[i_opt.item_id as int].0,
                i_opt.d_transf,
            ) && !old(self)@.layout.is_placed(
                PlacedItemUID { item_id: i_opt.item_id, d_transf: i_opt.d_transf },
            ) && old(self)@.layout.placed_items.len() < MAX_PLACED),
            r.is_err() ==> final(self)@ == old(self)@ && r.unwrap_err() == CDEError::InvalidInput,
            r.is_ok() ==> final(self)@ == (ProblemView {
                layout: final(self)@.layout,
                missing_item_qtys: old(self)@.missing_item_qtys.update(
                    i_opt.item_id as int,
                    (old(self)@.missing_item_qtys[i_opt.item_id as int] - 1) as isize,
                ),
                ..old(self)@
            }) && final(self)@.layout.id == old(self)@.layout.id && final(self)@.layout.bin == old(
                self,
            )@.layout.bin && final(self)@.layout.cde.same_bin(old(self)@.layout.cde)
                && final(self)@.layout.placed_items == old(self)@.layout.placed_items.push(
                put(old(self)@.instance.items[i_opt.item_id as int].0, i_opt.d_transf),
            ),
    {
        let item_id: usize = i_opt.item_id;
        let ghost before = self@;
        let ghost item_view = before.instance.items[item_id as int].0;
        assert(item_view.wf() && item_view.id == item_id);
        let item: &Item = self.instance.item(item_id);
        match self.layout.place_item(item, &i_opt.d_transf) {
            Ok(()) => {
                proof {
                    let placed = self@.layout.placed_items;
                    let last = placed.last();
                    lemma_bbox_is_bounding_box_of(last.shape);
                    assert(last == put(item_view, i_opt.d_transf));
                    assert(placed =~= before.layout.placed_items.push(last));
                    lemma_count_bounds(
                        before.layout.placed_items,
                        item_id as int,
                        before.layout.placed_items.len() as int,
                    );
                    assert(before.instance.items[item_id as int].1 <= MAX_QUANTITY);
                }
                let missing: isize = self.missing_item_qtys[item_id];
                self.missing_item_qtys[item_id] = missing - 1;
                proof {
                    let placed = self@.layout.placed_items;
                    assert forall|id: int| 0 <= id < self@.instance.items.len() implies (
                    #[trigger] self@.missing_item_qtys[id]) == self@.instance.items[id].1
                        - count_placed(placed, id, placed.len() as int) by {
                        lemma_count_push(before.layout.placed_items, placed.last(), id);
                    }
                    assert forall|i: int| 0 <= i < placed.len() implies {
                        let p = #[trigger] placed[i];
                        &&& p.uid.item_id < self@.instance.items.len()
                        &&& p.uid.d_transf.wf()
                        &&& p == put(self@.instance.items[p.uid.item_id as int].0, p.uid.d_transf)
                    } by {
                        if i < before.layout.placed_items.len() {
                            assert(placed[i] == before.layout.placed_items[i]);
                        }
                    }
                }
                Ok(())
            },
            Err(e) => Err(e),
        }
    }

    /// Takes an item out of the layout, and counts it as missing again.
    pub fn remove_item(&mut self, layout_index: LayoutIndex, pi_uid: &PlacedItemUID) -> (r: Result<
        (),
        CDEError,
    >)
        requires
            old(self).wf(),
            layout_index == LayoutIndex::Existing(0),
        ensures
            final(self).wf(),
            r.is_ok() == old(self)@.layout.is_placed(*pi_uid),
            r.is_err() ==> final(self)@ == old(self)@ && r.unwrap_err() == CDEError::InvalidInput,
            r.is_ok() ==> pi_uid.item_id < old(self)@.instance.items.len() && final(self)@ == (
            ProblemView {
                layout: final(self)@.layout,
                missing_item_qtys: old(self)@.missing_item_qtys.update(
                    pi_uid.item_id as int,
                    (old(self)@.missing_item_qtys[pi_uid.item_id as int] + 1) as isize,
                ),
                ..old(self)@
            }) && final(self)@.layout.id == old(self)@.layout.id && final(self)@.layout.bin == old(
                self,
            )@.layout.bin && final(self)@.layout.cde.same_bin(old(self)@.layout.cde)
                && final(self)@.layout.placed_items == old(self)@.layout.placed_items.update(
                old(self)@.layout.position_of(*pi_uid),
                old(self)@.layout.placed_items.last(),
            ).drop_last(),
    {
        let ghost before = self@;
        match self.layout.remove_item(pi_uid) {
            Ok(()) => {
                let item_id: usize = pi_uid.item_id;
                let ghost index = before.layout.position_of(*pi_uid);
                proof {
                    assert(before.layout.placed_items[index].uid.item_id < before.instance.items.len());
                    lemma_count_bounds(
                        before.layout.placed_items,
                        item_id as int,
                        before.layout.placed_items.len() as int,
                    );
                    assert(before.instance.items[item_id as int].1 <= MAX_QUANTITY);
                    lemma_count_swap_remove(before.layout.placed_items, index, item_id as int);
                    lemma_count_bounds(
                        self@.layout.placed_items,
                        item_id as int,
                        self@.layout.placed_items.len() as int,
                    );
                }
                let missing: isize = self.missing_item_qtys[item_id];
                self.missing_item_qtys[item_id] = missing + 1;
                proof {
                    let placed = self@.layout.placed_items;
                    let last = before.layout.placed_items.len() - 1;
                    assert forall|id: int| 0 <= id < self@.instance.items.len() implies (
                    #[trigger] self@.missing_item_qtys[id]) == self@.instance.items[id].1
                        - count_placed(placed, id, placed.len() as int) by {
                        lemma_count_swap_remove(before.layout.placed_items, index, id);
                    }
                    assert forall|i: int| 0 <= i < placed.len() implies {
                        let p = #[trigger] placed[i];
                        &&& p.uid.item_id < self@.instance.items.len()
                        &&& p.uid.d_transf.wf()
                        &&& p == put(self@.instance.items[p.uid.item_id as int].0, p.uid.d_transf)
                    } by {
                        if i == index {
                            assert(placed[i] == before.layout.placed_items[last]);
                        } else {
                            assert(placed[i] == before.layout.placed_items[i]);
                        }
                    }
                }
                Ok(())
            },
            Err(e) => Err(e),
        }
    }

    /// The next number for a solution.
    pub fn next_solution_id(&mut self) -> (r: usize)
        requires
            old(self)@.solution_id_counter < usize::MAX,
        ensures
            r == old(self)@.solution_id_counter + 1,
            final(self)@ == (ProblemView { solution_id_counter: r, ..old(self)@ }),
    {
        self.solution_id_counter += 1;
        self.solution_id_counter
    }

    /// A snapshot of the problem as it is.
    pub fn create_solution(&mut self, _old_solution: &Option<Solution>) -> (r: Solution)
        requires
            old(self).wf(),
            old(self)@.solution_id_counter < usize::MAX,
        ensures
            final(self)@ == (ProblemView {
                solution_id_counter: (old(self)@.solution_id_counter + 1) as usize,
                ..old(self)@
            }),
            final(self).wf(),
            r@.id == old(self)@.solution_id_counter + 1,
            r@.layout_snapshots == seq![old(self)@.layout],
            r@.bin_qtys == seq![0usize],
            r@.placed_item_qtys.len() == old(self)@.instance.items.len(),
            r@.target_item_qtys.len() == old(self)@.instance.items.len(),
            forall|id: int|
                0 <= id < old(self)@.instance.items.len() ==> #[trigger] r@.placed_item_qtys[id]
                    == count_placed(
                    old(self)@.layout.placed_items,
                    id,
                    old(self)@.layout.placed_items.len() as int,
                ) && r@.target_item_qtys[id] == old(self)@.instance.items[id].1,
            solution_fits(r@, old(self)@.instance),
    {
        let id: usize = self.next_solution_id();
        let included_item_qtys: Vec<usize> = self.included_item_qtys();
        let bin_qtys: Vec<usize> = self.bin_qtys();
        let mut layout_snapshots: Vec<LayoutSnapshot> = Vec::new();
        layout_snapshots.push(self.layout.create_layout_snapshot());
        let mut target_item_qtys: Vec<usize> = Vec::new();
        let mut i: usize = 0;
        while i < self.instance.n_items()
            invariant
                0 <= i <= self@.instance.items.len(),
                target_item_qtys@.len() == i,
                forall|id: int|
                    0 <= id < i ==> #[trigger] target_item_qtys@[id] == self@.instance.items[id].1,
            decreases self@.instance.items.len() - i,
        {
            target_item_qtys.push(self.instance.item_qty(i));
            i += 1;
        }
        proof {
            assert(snapshot_views(layout_snapshots@) =~= seq![self@.layout]);
        }
        let solution = Solution::new(
            id,
            layout_snapshots,
            included_item_qtys,
            target_item_qtys,
            bin_qtys,
        );
        proof {
            let again = restored(solution@, self@.instance, self@.strip_width);
            assert(again.missing_item_qtys =~= self@.missing_item_qtys);
            assert(again == (ProblemView { solution_id_counter: 0, ..self@ }));
            assert(again.wf());
        }
        solution
    }

    /// Goes back to the problem as it was when `solution` was taken. The strip takes
    /// the width that it had then.
    pub fn restore_to_solution(&mut self, solution: &Solution)
        requires
            old(self).wf(),
            solution_fits(solution@, old(self)@.instance),
        ensures
            final(self).wf(),
            final(self)@ == (ProblemView {
                solution_id_counter: old(self)@.solution_id_counter,
                ..restored(solution@, old(self)@.instance, final(self)@.strip_width)
            }),
    {
        let ghost instance = self@.instance;
        let ghost width = choose|width: u64| #[trigger] restored(solution@, instance, width).wf();
        let ghost target = restored(solution@, instance, width);
        let snapshots: &Vec<LayoutSnapshot> = solution.layout_snapshots();
        assert(snapshot_views(snapshots@)[0] == snapshots@[0]@);
        self.layout.restore(&snapshots[0]);
        let bbox = self.layout.cde().bbox();
        assert(bbox == strip_bbox(width, self.strip_height));
        self.strip_width = bbox.x_max as u64;
        assert(self.strip_width == width);
        let n: usize = self.missing_item_qtys.len();
        let ghost placed = self@.layout.placed_items;
        let mut i: usize = 0;
        while i < n
            invariant
                0 <= i <= n,
                n == self.missing_item_qtys@.len(),
                n == instance.items.len(),
                instance == self@.instance,
                instance.wf(),
                placed == self@.layout.placed_items,
                placed == target.layout.placed_items,
                placed.len() <= MAX_PLACED,
                solution@.placed_item_qtys.len() == n,
                self@ == (ProblemView { missing_item_qtys: self@.missing_item_qtys, ..self@ }),
                self@.layout == target.layout,
                self@.strip_width == width,
                self@.strip_height == target.strip_height,
                self@.solution_id_counter == old(self)@.solution_id_counter,
                forall|id: int|
                    0 <= id < i ==> (#[trigger] self@.missing_item_qtys[id]) == instance.items[id].1
                        - count_placed(placed, id, placed.len() as int),
            decreases n - i,
        {
            proof {
                lemma_count_bounds(placed, i as int, placed.len() as int);
                assert(instance.items[i as int].1 <= MAX_QUANTITY);
            }
            let demanded: isize = self.instance.item_qty(i) as isize;
            let included: isize = count_item(self.layout.placed_items(), i) as isize;
            self.missing_item_qtys[i] = demanded - included;
            i += 1;
        }
        proof {
            assert(self@.missing_item_qtys =~= target.missing_item_qtys);
        }
    }

    /// Gives the strip a new width: a new layout in a new bin replaces the layout,
    /// and the items of the old layout are tried in turn, each one being placed
    /// again, where it was, if it finds room there. It is refused where no bin can be
    /// made of a strip of that width.
    pub fn modify_strip_width(&mut self, new_width: u64) -> (r: Result<(), CDEError>)
        requires
            old(self).wf(),
            old(self)@.layout.id < usize::MAX,
        ensures
            final(self).wf(),
            r.is_ok() == strip_fits(new_width, old(self)@.strip_height, old(self)@.layout.cde.config),
            r.is_err() ==> final(self)@ == old(self)@ && r.unwrap_err() == CDEError::InvalidInput,
            r.is_ok() ==> strip_modified(old(self)@, new_width, final(self)@),
    {
        let ghost before = self@;
        let next_id: usize = self.layout.id() + 1;
        let config: CDEConfig = self.layout.cde().config();
        let bin: Bin = match Bin::from_strip(next_id, new_width, self.strip_height, config) {
            Ok(bin) => bin,
            Err(e) => {
                return Err(e);
            },
        };
        let old_p_uids: Vec<PlacedItemUID> = collect_uids(self.layout.placed_items());
        self.missing_item_qtys = demanded_quantities(&self.instance);
        self.layout = Layout::new(next_id, bin);
        self.strip_width = new_width;
        let ghost statics = self@.layout.cde.static_hazards;
        let ghost uids = uids_of(before.layout.placed_items);
        proof {
            assert(old_p_uids@ =~= uids);
            assert(self@.layout.placed_items =~= kept_items(before.instance, statics, uids, 0));
        }
        let n: usize = old_p_uids.len();
        let mut i: usize = 0;
        while i < n
            invariant
                0 <= i <= n,
                n == old_p_uids@.len(),
                n <= MAX_PLACED,
                old_p_uids@ == uids,
                uids == uids_of(before.layout.placed_items),
                before.wf(),
                self.wf(),
                self@ == (ProblemView {
                    layout: self@.layout,
                    missing_item_qtys: self@.missing_item_qtys,
                    strip_width: new_width,
                    ..before
                }),
                self@.layout.id == before.layout.id + 1,
                self@.layout.bin.id == before.layout.id + 1,
                self@.layout.bin.outer.points == strip_corners(new_width, before.strip_height),
                self@.layout.cde.config == before.layout.cde.config,
                self@.layout.cde.static_hazards == statics,
                self@.layout.placed_items.len() <= i,
                self@.layout.placed_items == kept_items(before.instance, statics, uids, i as int),
            decreases n - i,
        {
            let p_uid: PlacedItemUID = old_p_uids[i];
            proof {
                assert(uids[i as int] == before.layout.placed_items[i as int].uid);
                assert(p_uid.item_id < before.instance.items.len());
                assert(p_uid.d_transf.wf());
            }
            self.place_again(&p_uid);
            i += 1;
        }
        Ok(())
    }

    /// Places the item that lay in the old layout under the identity `p_uid` in the
    /// new one, if it finds room there.
    fn place_again(&mut self, p_uid: &PlacedItemUID)
        requires
            old(self).wf(),
            p_uid.item_id < old(self)@.instance.items.len(),
            p_uid.d_transf.wf(),
            old(self)@.layout.placed_items.len() < MAX_PLACED,
        ensures
            final(self).wf(),
            final(self)@ == (ProblemView {
                layout: final(self)@.layout,
                missing_item_qtys: final(self)@.missing_item_qtys,
                ..old(self)@
            }),
            final(self)@.layout.id == old(self)@.layout.id,
            final(self)@.layout.bin == old(self)@.layout.bin,
            final(self)@.layout.cde.same_bin(old(self)@.layout.cde),
            final(self)@.layout.placed_items == if finds_room(
                old(self)@.instance.items[p_uid.item_id as int].0,
                p_uid.d_transf,
                old(self)@.layout.cde.static_hazards,
                old(self)@.layout.placed_items,
            ) {
                old(self)@.layout.placed_items.push(
                    put(old(self)@.instance.items[p_uid.item_id as int].0, p_uid.d_transf),
                )
            } else {
                old(self)@.layout.placed_items
            },
    {
        let ghost before = self@;
        let ghost item_view = before.instance.items[p_uid.item_id as int].0;
        assert(item_view.wf() && item_view.id == p_uid.item_id);
        proof {
            crate::collision_detection::hazard_proximity_grid::lemma_same_frame_reflexive(
                before.layout.cde.grid,
            );
            lemma_placed_is_registered(before.layout, *p_uid);
        }
        let item: &Item = self.instance.item(p_uid.item_id);
        let all_hazards: Vec<Hazard> = self.layout.cde().all_hazards();
        let entities_to_ignore: Vec<HazardEntity> = match item.hazard_filter() {
            Some(filter) => get_irrelevant_hazard_entities(&filter, all_hazards.as_slice()),
            None => Vec::new(),
        };
        assert(entities_to_ignore@ =~= ignored_by(
            item_view,
            before.layout.cde.static_hazards + before.layout.cde.dynamic_hazards,
        ));
        let transf: Transformation = p_uid.d_transf.compose();
        if !self.layout.cde().surrogate_collides(
            item.shape().surrogate(),
            &transf,
            entities_to_ignore.as_slice(),
        ) {
            match item.shape().transform_clone(&transf) {
                Ok(transformed_shape) => {
                    if !self.layout.cde().shape_collides(
                        &transformed_shape,
                        entities_to_ignore.as_slice(),
                    ) {
                        let insert_opt = PlacingOption {
                            layout_index: LayoutIndex::Existing(0),
                            item_id: p_uid.item_id,
                            transf,
                            d_transf: p_uid.d_transf,
                        };
                        let _ = self.place_item(&insert_opt);
                    }
                },
                Err(_) => {},
            }
        }
    }

    /// Tells whether the item finds room in the layout where `d_transf` says, and
    /// hands out the shape that it has there.
    pub fn room_for(&self, item_id: usize, d_transf: &DTransformation) -> (r: Option<SimplePolygon>)
        requires
            self.wf(),
            item_id < self@.instance.items.len(),
        ensures
            r.is_some() == fits_at(self@, item_id as int, *d_transf),
            r matches Some(shape) ==> shape.wf() && shape@ == put(
                self@.instance.items[item_id as int].0,
                *d_transf,
            ).shape,
    {
        let ghost item_view = self@.instance.items[item_id as int].0;
        assert(item_view.wf() && item_view.id == item_id);
        if !d_transf.is_valid() {
            return None;
        }
        let uid = PlacedItemUID { item_id, d_transf: *d_transf };
        proof {
            lemma_placed_is_registered(self@.layout, uid);
        }
        if self.layout.cde().position_of(&HazardEntity::PlacedItem { id: uid }).is_some() {
            return None;
        }
        let item: &Item = self.instance.item(item_id);
        let all_hazards: Vec<Hazard> = self.layout.cde().all_hazards();
        let entities_to_ignore: Vec<HazardEntity> = match item.hazard_filter() {
            Some(filter) => get_irrelevant_hazard_entities(&filter, all_hazards.as_slice()),
            None => Vec::new(),
        };
        assert(entities_to_ignore@ =~= ignored_by(
            item_view,
            self@.layout.cde.static_hazards + self@.layout.cde.dynamic_hazards,
        ));
        let transf: Transformation = d_transf.compose();
        if self.layout.cde().surrogate_collides(
            item.shape().surrogate(),
            &transf,
            entities_to_ignore.as_slice(),
        ) {
            return None;
        }
        match item.shape().transform_clone(&transf) {
            Ok(transformed_shape) => {
                if self.layout.cde().shape_collides(&transformed_shape, entities_to_ignore.as_slice()) {
                    None
                } else {
                    proof {
                        lemma_bbox_is_bounding_box_of(transformed_shape@);
                    }
                    Some(transformed_shape)
                }
            },
            Err(_) => None,
        }
    }

    /// Places a copy of the item at the candidate at which it finds room and reaches
    /// least far to the right, and of those the least high, and tells which one that
    /// is. Where the item finds room at none, nothing is placed.
    pub fn place_left_bottom(&mut self, item_id: usize, candidates: &[DTransformation]) -> (r: Option<
        usize,
    >)
        requires
            old(self).wf(),
            item_id < old(self)@.instance.items.len(),
        ensures
            final(self).wf(),
            ({
                let choice = left_bottom_choice(old(self)@, item_id as int, candidates@);
                if choice < 0 {
                    &&& r is None
                    &&& final(self)@ == old(self)@
                } else {
                    &&& r == Some(choice as usize)
                    &&& choice < candidates@.len()
                    &&& final(self)@ == (ProblemView {
                        layout: final(self)@.layout,
                        missing_item_qtys: old(self)@.missing_item_qtys.update(
                            item_id as int,
                            (old(self)@.missing_item_qtys[item_id as int] - 1) as isize,
                        ),
                        ..old(self)@
                    })
                    &&& final(self)@.layout.id == old(self)@.layout.id
                    &&& final(self)@.layout.bin == old(self)@.layout.bin
                    &&& final(self)@.layout.placed_items == old(self)@.layout.placed_items.push(
                        put(old(self)@.instance.items[item_id as int].0, candidates@[choice]),
                    )
                }
            }),
    {
        if self.layout.placed_items().len() >= MAX_PLACED {
            return None;
        }
        let ghost before = self@;
        let ghost item_view = before.instance.items[item_id as int].0;
        let mut best: Option<(usize, i64, i64)> = None;
        let mut k: usize = 0;
        while k < candidates.len()
            invariant
                0 <= k <= candidates@.len(),
                self.wf(),
                self@ == before,
                item_id < before.instance.items.len(),
                item_view == before.instance.items[item_id as int].0,
                match best {
                    None => best_candidate(before, item_id as int, candidates@, k as int) == -1,
                    Some((i, x, y)) => {
                        &&& i as int == best_candidate(before, item_id as int, candidates@, k as int)
                        &&& i < k
                        &&& fits_at(before, item_id as int, candidates@[i as int])
                        &&& (x as int, y as int) == reach_of(item_view, candidates@[i as int])
                    },
                },
            decreases candidates@.len() - k,
        {
            match self.room_for(item_id, &candidates[k]) {
                Some(shape) => {
                    let bbox = shape.bbox();
                    let better: bool = match best {
                        None => true,
                        Some((_, x, y)) => bbox.x_max < x || (bbox.x_max == x && bbox.y_max < y),
                    };
                    if better {
                        best = Some((k, bbox.x_max, bbox.y_max));
                    }
                },
                None => {},
            }
            k += 1;
        }
        match best {
            None => None,
            Some((i, _, _)) => {
                let d_transf: DTransformation = candidates[i];
                let insert_opt = PlacingOption::new(LayoutIndex::Existing(0), item_id, d_transf);
                match self.place_item(&insert_opt) {
                    Ok(()) => Some(i),
                    Err(_) => {
                        proof {
                            assert(false);
                        }
                        None
                    },
                }
            },
        }
    }

    /// Narrows or widens the strip so that it ends one unit beyond the item that
    /// reaches farthest. Every item is to find its place again; where one does not,
    /// the strip is modified all the same and the failure is reported.
    pub fn fit_strip_width(&mut self) -> (r: Result<(), CDEError>)
        requires
            old(self).wf(),
            old(self)@.layout.id < usize::MAX,
        ensures
            final(self).wf(),
            ({
                let reach = max_x(
                    old(self)@.layout.placed_items,
                    old(self)@.layout.placed_items.len() as int,
                ) + 1;
                if reach >= 1 && strip_fits(
                    reach as u64,
                    old(self)@.strip_height,
                    old(self)@.layout.cde.config,
                ) {
                    &&& strip_modified(old(self)@, reach as u64, final(self)@)
                    &&& r == if final(self)@.layout.placed_items.len() == old(
                        self,
                    )@.layout.placed_items.len() {
                        Ok::<(), CDEError>(())
                    } else {
                        Err::<(), CDEError>(CDEError::InvariantViolation)
                    }
                } else {
                    &&& final(self)@ == old(self)@
                    &&& r == Err::<(), CDEError>(CDEError::InvalidInput)
                }
            }),
    {
        let placed: &Vec<PlacedItem> = self.layout.placed_items();
        let ghost views = self@.layout.placed_items;
        proof {
            assert forall|j: int| 0 <= j < views.len() implies (#[trigger] views[j]).shape.wf() by {
                assert(self@.layout.cde.dynamic_hazards[j] == views[j].hazard());
                assert(self@.layout.cde.dynamic_hazards[j].wf());
            }
        }
        let mut reach: i64 = 0;
        let mut i: usize = 0;
        while i < placed.len()
            invariant
                0 <= i <= placed@.len(),
                views == placed_views(placed@),
                forall|j: int| 0 <= j < views.len() ==> (#[trigger] views[j]).shape.wf(),
                reach as int == max_x(views, i as int),
                -MAX_COORD <= reach <= MAX_COORD,
            decreases placed@.len() - i,
        {
            assert(views[i as int] == placed@[i as int]@);
            assert(views[i as int].shape.wf());
            let x: i64 = placed[i].shape().bbox().x_max;
            if i == 0 || x > reach {
                reach = x;
            }
            i += 1;
        }
        let strip_width: i64 = reach + 1;
        let n_items_in_old_strip: usize = self.layout.placed_items().len();
        if strip_width < 1 {
            return Err(CDEError::InvalidInput);
        }
        match self.modify_strip_width(strip_width as u64) {
            Ok(()) => {
                if self.layout.placed_items().len() == n_items_in_old_strip {
                    Ok(())
                } else {
                    Err(CDEError::InvariantViolation)
                }
            },
            Err(e) => Err(e),
        }
    }
}

/// The identities of the placed items, in their order.
fn collect_uids(placed: &Vec<PlacedItem>) -> (r: Vec<PlacedItemUID>)
    ensures
        r@ == uids_of(placed_views(placed@)),
{
    let mut uids: Vec<PlacedItemUID> = Vec::new();
    let mut i: usize = 0;
    while i < placed.len()
        invariant
            0 <= i <= placed@.len(),
            uids@.len() == i,
            forall|j: int| 0 <= j < i ==> #[trigger] uids@[j] == placed@[j]@.uid,
        decreases placed@.len() - i,
    {
        uids.push(*placed[i].uid());
        i += 1;
    }
    assert(uids@ =~= uids_of(placed_views(placed@)));
    uids
}

/// The number of copies of the item `item_id` among the placed items.
fn count_item(placed: &Vec<PlacedItem>, item_id: usize) -> (r: usize)
    ensures
        r as int == count_placed(placed_views(placed@), item_id as int, placed@.len() as int),
{
    let ghost views = placed_views(placed@);
    let mut count: usize = 0;
    let mut i: usize = 0;
    while i < placed.len()
        invariant
            0 <= i <= placed@.len(),
            views == placed_views(placed@),
            count <= i,
            count as int == count_placed(views, item_id as int, i as int),
        decreases placed@.len() - i,
    {
        assert(views[i as int] == placed@[i as int]@);
        if placed[i].item_id() == item_id {
            count += 1;
        }
        i += 1;
    }
    count
}

/// There are no more copies of an item among the first `k` placed items than `k`.
pub proof fn lemma_count_bounds(placed: Seq<PlacedItemView>, item_id: int, k: int)
    requires
        0 <= k,
    ensures
        0 <= count_placed(placed, item_id, k) <= k,
    decreases k,
{
    if k > 0 {
        lemma_count_bounds(placed, item_id, k - 1);
    }
}

/// The count among the first `k` placed items depends on those items only.
pub proof fn lemma_count_prefix(a: Seq<PlacedItemView>, b: Seq<PlacedItemView>, item_id: int, k: int)
    requires
        0 <= k <= a.len(),
        k <= b.len(),
        forall|i: int| 0 <= i < k ==> a[i] == b[i],
    ensures
        count_placed(a, item_id, k) == count_placed(b, item_id, k),
    decreases k,
{
    if k > 0 {
        lemma_count_prefix(a, b, item_id, k - 1);
    }
}

/// One more placed item is one more copy of its item, and none of any other.
pub proof fn lemma_count_push(placed: Seq<PlacedItemView>, added: PlacedItemView, item_id: int)
    ensures
        count_placed(placed.push(added), item_id, placed.len() as int + 1) == count_placed(
            placed,
            item_id,
            placed.len() as int,
        ) + if added.uid.item_id == item_id {
            1int
        } else {
            0int
        },
{
    lemma_count_prefix(placed.push(added), placed, item_id, placed.len() as int);
}

/// Taking out a placed item, the last one taking its place, is one copy less of its
/// item, and as many of any other.
pub proof fn lemma_count_swap_remove(placed: Seq<PlacedItemView>, index: int, item_id: int)
    requires
        0 <= index < placed.len(),
    ensures
        count_placed(
            placed.update(index, placed.last()).drop_last(),
            item_id,
            placed.len() - 1,
        ) == count_placed(placed, item_id, placed.len() as int) - if placed[index].uid.item_id
            == item_id {
            1int
        } else {
            0int
        },
{
    let after = placed.update(index, placed.last()).drop_last();
    let last = placed.len() - 1;
    if index == last {
        lemma_count_prefix(after, placed, item_id, last);
    } else {
        lemma_count_prefix(after, placed, item_id, index);
        lemma_count_after_gap(placed, index, item_id, last);
    }
}

/// Between the gap and the end, the counts differ by the item taken out and the item
/// moved in.
proof fn lemma_count_after_gap(placed: Seq<PlacedItemView>, index: int, item_id: int, k: int)
    requires
        0 <= index < k <= placed.len() - 1,
    ensures
        count_placed(placed.update(index, placed.last()).drop_last(), item_id, k) == count_placed(
            placed,
            item_id,
            k,
        ) - (if placed[index].uid.item_id == item_id {
            1int
        } else {
            0int
        }) + (if placed.last().uid.item_id == item_id {
            1int
        } else {
            0int
        }),
    decreases k,
{
    let after = placed.update(index, placed.last()).drop_last();
    if k == index + 1 {
        lemma_count_prefix(after, placed, item_id, index);
        assert(after[index] == placed.last());
    } else {
        lemma_count_after_gap(placed, index, item_id, k - 1);
        assert(after[k - 1] == placed[k - 1]);
    }
}

/// The best candidate, where there is one, is a candidate at which the item finds room.
pub proof fn lemma_best_candidate_fits(
    problem: ProblemView,
    item_id: int,
    candidates: Seq<DTransformation>,
    k: int,
)
    requires
        0 <= k <= candidates.len(),
    ensures
        best_candidate(problem, item_id, candidates, k) >= -1,
        ({
            let best = best_candidate(problem, item_id, candidates, k);
            best >= 0 ==> best < k && fits_at(problem, item_id, candidates[best])
        }),
    decreases k,
{
    if k > 0 {
        lemma_best_candidate_fits(problem, item_id, candidates, k - 1);
    }
}

/// Where the item finds room at a candidate, there is a best candidate, and the item
/// does not reach less far to the right at the former, nor as far and less high.
pub proof fn lemma_best_candidate_least(
    problem: ProblemView,
    item_id: int,
    candidates: Seq<DTransformation>,
    k: int,
    j: int,
)
    requires
        0 <= j < k <= candidates.len(),
        0 <= item_id < problem.instance.items.len(),
        fits_at(problem, item_id, candidates[j]),
    ensures
        ({
            let best = best_candidate(problem, item_id, candidates, k);
            let item = problem.instance.items[item_id].0;
            &&& 0 <= best < k
            &&& !lower_left(reach_of(item, candidates[j]), reach_of(item, candidates[best]))
        }),
    decreases k,
{
    lemma_best_candidate_fits(problem, item_id, candidates, k - 1);
    if j < k - 1 {
        lemma_best_candidate_least(problem, item_id, candidates, k - 1, j);
    }
}

} // verus!
