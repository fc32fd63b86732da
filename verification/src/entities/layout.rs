//! Layouts: a bin with the items placed in it.

use vstd::prelude::*;
use crate::collision_detection::cd_engine::{
    deregisters,
    registers,
    registration_refusal,
    CDEView,
    CDEngine,
};
use crate::collision_detection::hazard::HazardView;
use crate::collision_detection::hazard_entity::HazardEntity;
use crate::entities::bin::{Bin, BinView};
use crate::entities::item::Item;
use crate::entities::placed_item::{can_be_put, is_put, PlacedItem, PlacedItemUID, PlacedItemView};
use crate::error::CDEError;
use crate::geometry::d_transformation::DTransformation;

verus! {

/// Largest number of items in a layout.
pub const MAX_PLACED: usize = 0x7fff_ffff;

/// The hazards that placed items are to each other, in the order of the items.
pub open spec fn hazards_of(placed: Seq<PlacedItemView>) -> Seq<HazardView> {
    Seq::new(placed.len(), |i: int| placed[i].hazard())
}

/// The views of a sequence of placed items, in the same order.
pub open spec fn placed_views(placed: Seq<PlacedItem>) -> Seq<PlacedItemView> {
    Seq::new(placed.len(), |i: int| placed[i]@)
}

/// What a layout holds, as mathematical values.
pub struct LayoutView {
    pub id: usize,
    pub bin: BinView,
    pub placed_items: Seq<PlacedItemView>,
    pub cde: CDEView,
}

impl LayoutView {
    /// The engine is that of the bin with the placed items registered, in their order.
    pub open spec fn wf(self) -> bool {
        &&& self.bin.wf()
        &&& self.cde.wf()
        &&& self.cde.same_bin(self.bin.base_cde)
        &&& self.placed_items.len() <= MAX_PLACED
        &&& self.cde.dynamic_hazards == hazards_of(self.placed_items)
    }

    /// An item lies in the layout under the identity `uid`.
    pub open spec fn is_placed(self, uid: PlacedItemUID) -> bool {
        exists|i: int| 0 <= i < self.placed_items.len() && (#[trigger] self.placed_items[i]).uid == uid
    }

    /// The place of the item that lies in the layout under the identity `uid`.
    pub open spec fn position_of(self, uid: PlacedItemUID) -> int {
        self.cde.position_of(HazardEntity::PlacedItem { id: uid })
    }
}

/// A layout: a bin, the items placed in it, and the engine that knows them.
#[derive(Debug)]
pub struct Layout {
    id: usize,
    bin: Bin,
    placed_items: Vec<PlacedItem>,
    cde: CDEngine,
}

impl View for Layout {
    type V = LayoutView;

    closed spec fn view(&self) -> LayoutView {
        LayoutView {
            id: self.id,
            bin: self.bin@,
            placed_items: placed_views(self.placed_items@),
            cde: self.cde@,
        }
    }
}

/// A copy of `placed` that shares nothing with it.
fn clone_placed(placed: &Vec<PlacedItem>) -> (r: Vec<PlacedItem>)
    ensures
        placed_views(r@) == placed_views(placed@),
{
    let mut copy: Vec<PlacedItem> = Vec::new();
    let mut i: usize = 0;
    while i < placed.len()
        invariant
            0 <= i <= placed@.len(),
            copy@.len() == i,
            forall|j: int| 0 <= j < i ==> (#[trigger] copy@[j])@ == placed@[j]@,
        decreases placed@.len() - i,
    {
        copy.push(placed[i].clone());
        i += 1;
    }
    assert(placed_views(copy@) =~= placed_views(placed@));
    copy
}

impl Clone for Layout {
    /// A copy that holds the same bin, items and engine, and shares nothing with this
    /// layout.
    fn clone(&self) -> (r: Layout)
        ensures
            r@ == self@,
    {
        Layout {
            id: self.id,
            bin: self.bin.clone(),
            placed_items: clone_placed(&self.placed_items),
            cde: self.cde.clone(),
        }
    }
}

/// A layout as it was at some time, to go back to.
#[derive(Debug)]
pub struct LayoutSnapshot {
    id: usize,
    bin: Bin,
    placed_items: Vec<PlacedItem>,
    cde: CDEngine,
}

impl View for LayoutSnapshot {
    type V = LayoutView;

    closed spec fn view(&self) -> LayoutView {
        LayoutView {
            id: self.id,
            bin: self.bin@,
            placed_items: placed_views(self.placed_items@),
            cde: self.cde@,
        }
    }
}

impl Clone for LayoutSnapshot {
    /// A copy that holds the same values.
    fn clone(&self) -> (r: LayoutSnapshot)
        ensures
            r@ == self@,
    {
        LayoutSnapshot {
            id: self.id,
            bin: self.bin.clone(),
            placed_items: clone_placed(&self.placed_items),
            cde: self.cde.clone(),
        }
    }
}

impl LayoutSnapshot {
    pub fn id(&self) -> (r: usize)
        ensures
            r == self@.id,
    {
        self.id
    }

    pub fn placed_items(&self) -> (r: &Vec<PlacedItem>)
        ensures
            placed_views(r@) == self@.placed_items,
    {
        &self.placed_items
    }

    pub fn bin(&self) -> (r: &Bin)
        ensures
            r@ == self@.bin,
    {
        &self.bin
    }
}

impl Layout {
    pub open spec fn wf(&self) -> bool {
        self@.wf()
    }

    /// The empty layout in `bin`.
    pub fn new(id: usize, bin: Bin) -> (r: Layout)
        requires
            bin.wf(),
        ensures
            r.wf(),
            r@ == (LayoutView { id, bin: bin@, placed_items: Seq::empty(), cde: bin@.base_cde }),
    {
        let cde: CDEngine = bin.base_cde().clone();
        let placed_items: Vec<PlacedItem> = Vec::new();
        proof {
            assert(placed_views(placed_items@) =~= Seq::<PlacedItemView>::empty());
            assert(hazards_of(Seq::<PlacedItemView>::empty()) =~= cde@.dynamic_hazards);
            crate::collision_detection::hazard_proximity_grid::lemma_same_frame_reflexive(cde@.grid);
        }
        Layout { id, bin, placed_items, cde }
    }

    /// Puts `item` into the layout where `d_transf` says, whether or not it collides
    /// there. It is refused where the shape of the item would leave the coordinate
    /// range, where an item lies there under that identity already, or where the
    /// layout is full.
    pub fn place_item(&mut self, item: &Item, d_transf: &DTransformation) -> (r: Result<(), CDEError>)
        requires
            old(self).wf(),
            item.wf(),
            d_transf.wf(),
        ensures
            final(self).wf(),
            r.is_ok() == (can_be_put(item@, *d_transf) && !old(self)@.is_placed(
                PlacedItemUID { item_id: item@.id, d_transf: *d_transf },
            ) && old(self)@.placed_items.len() < MAX_PLACED),
            r.is_err() ==> final(self)@ == old(self)@ && r.unwrap_err() == CDEError::InvalidInput,
            r.is_ok() ==> {
                &&& final(self)@.id == old(self)@.id
                &&& final(self)@.bin == old(self)@.bin
                &&& final(self)@.placed_items.len() == old(self)@.placed_items.len() + 1
                &&& final(self)@.placed_items.drop_last() == old(self)@.placed_items
                &&& is_put(final(self)@.placed_items.last(), item@, *d_transf)
                &&& registers(
                    old(self)@.cde,
                    final(self)@.placed_items.last().hazard(),
                    final(self)@.cde,
                )
            },
    {
        if self.placed_items.len() >= MAX_PLACED {
            return Err(CDEError::InvalidInput);
        }
        let placed: PlacedItem = match PlacedItem::new(item, *d_transf) {
            Ok(placed) => placed,
            Err(e) => {
                return Err(e);
            },
        };
        let ghost before = self@;
        proof {
            lemma_placed_is_registered(before, placed@.uid);
        }
        match self.cde.register_item(*placed.uid(), placed.shape().clone()) {
            Ok(_) => {
                let ghost view = placed@;
                self.placed_items.push(placed);
                proof {
                    assert(self@.placed_items =~= before.placed_items.push(view));
                    assert(self@.placed_items.drop_last() =~= before.placed_items);
                    assert(hazards_of(self@.placed_items) =~= self@.cde.dynamic_hazards);
                    lemma_same_bin_transitive(self@.cde, before.cde, before.bin.base_cde);
                }
                Ok(())
            },
            Err(e) => Err(e),
        }
    }

    /// Takes out of the layout the item that lies there under the identity `uid`; the
    /// last item takes its place.
    pub fn remove_item(&mut self, uid: &PlacedItemUID) -> (r: Result<(), CDEError>)
        requires
            old(self).wf(),
        ensures
            final(self).wf(),
            r.is_ok() == old(self)@.is_placed(*uid),
            r.is_err() ==> final(self)@ == old(self)@ && r.unwrap_err() == CDEError::InvalidInput,
            r.is_ok() ==> {
                let index = old(self)@.position_of(*uid);
                &&& 0 <= index < old(self)@.placed_items.len()
                &&& old(self)@.placed_items[index].uid == *uid
                &&& final(self)@.id == old(self)@.id
                &&& final(self)@.bin == old(self)@.bin
                &&& final(self)@.placed_items == old(self)@.placed_items.update(
                    index,
                    old(self)@.placed_items.last(),
                ).drop_last()
                &&& deregisters(old(self)@.cde, index, final(self)@.cde)
            },
    {
        let entity = HazardEntity::PlacedItem { id: *uid };
        let ghost before = self@;
        proof {
            lemma_placed_is_registered(before, *uid);
        }
        let index: usize = match self.cde.position_of(&entity) {
            Some(index) => index,
            None => {
                return Err(CDEError::InvalidInput);
            },
        };
        proof {
            assert(before.cde.dynamic_hazards[index as int] == before.placed_items[index as int].hazard());
        }
        match self.cde.deregister_hazard(entity) {
            Ok(()) => {
                let ghost chosen = before.cde.position_of(entity);
                proof {
                    assert(before.cde.dynamic_hazards[chosen] == before.placed_items[chosen].hazard());
                }
                let _ = self.placed_items.swap_remove(index);
                proof {
                    assert(before.cde.dynamic_hazards[chosen].entity == entity);
                    assert(before.cde.dynamic_hazards[index as int].entity == entity);
                    if chosen < index {
                        assert(before.cde.dynamic_hazards[chosen].entity
                            != before.cde.dynamic_hazards[index as int].entity);
                    } else if index < chosen {
                        assert(before.cde.dynamic_hazards[index as int].entity
                            != before.cde.dynamic_hazards[chosen].entity);
                    }
                    assert(self@.placed_items =~= before.placed_items.update(
                        chosen,
                        before.placed_items.last(),
                    ).drop_last());
                    assert(hazards_of(self@.placed_items) =~= self@.cde.dynamic_hazards);
                    lemma_same_bin_transitive(self@.cde, before.cde, before.bin.base_cde);
                }
                Ok(())
            },
            Err(e) => Err(e),
        }
    }

    pub fn id(&self) -> (r: usize)
        ensures
            r == self@.id,
    {
        self.id
    }

    pub fn bin(&self) -> (r: &Bin)
        ensures
            r@ == self@.bin,
    {
        &self.bin
    }

    /// The items that lie in the layout.
    pub fn placed_items(&self) -> (r: &Vec<PlacedItem>)
        ensures
            placed_views(r@) == self@.placed_items,
    {
        &self.placed_items
    }

    /// The engine of the layout.
    pub fn cde(&self) -> (r: &CDEngine)
        ensures
            r@ == self@.cde,
    {
        &self.cde
    }

    pub fn is_empty(&self) -> (r: bool)
        ensures
            r == (self@.placed_items.len() == 0),
    {
        self.placed_items.len() == 0
    }

    /// The layout as it is, to go back to.
    pub fn create_layout_snapshot(&self) -> (r: LayoutSnapshot)
        ensures
            r@ == self@,
    {
        LayoutSnapshot {
            id: self.id,
            bin: self.bin.clone(),
            placed_items: clone_placed(&self.placed_items),
            cde: self.cde.clone(),
        }
    }

    /// Goes back to the layout as it was when `snapshot` was taken.
    pub fn restore(&mut self, snapshot: &LayoutSnapshot)
        ensures
            final(self)@ == snapshot@,
    {
        self.id = snapshot.id;
        self.bin = snapshot.bin.clone();
        self.placed_items = clone_placed(&snapshot.placed_items);
        self.cde = snapshot.cde.clone();
    }
}

/// An item lies in a layout under an identity exactly where the engine has a hazard
/// registered for it.
pub proof fn lemma_placed_is_registered(layout: LayoutView, uid: PlacedItemUID)
    requires
        layout.wf(),
    ensures
        layout.is_placed(uid) == layout.cde.is_registered(HazardEntity::PlacedItem { id: uid }),
        registration_refusal(layout.cde, HazardEntity::PlacedItem { id: uid }) is None
            == !layout.is_placed(uid),
{
    let entity = HazardEntity::PlacedItem { id: uid };
    if layout.is_placed(uid) {
        let i = choose|i: int|
            0 <= i < layout.placed_items.len() && (#[trigger] layout.placed_items[i]).uid == uid;
        assert(layout.cde.dynamic_hazards[i] == layout.placed_items[i].hazard());
        assert(layout.cde.dynamic_hazards[i].entity == entity);
    }
    if layout.cde.is_registered(entity) {
        let i = choose|i: int|
            0 <= i < layout.cde.dynamic_hazards.len() && (#[trigger] layout.cde.dynamic_hazards[i]).entity
                == entity;
        assert(layout.cde.dynamic_hazards[i] == layout.placed_items[i].hazard());
        assert(layout.placed_items[i].uid == uid);
    }
}

/// An engine that shares its bin with one that shares its bin with a third shares its
/// bin with the third.
pub proof fn lemma_same_bin_transitive(a: CDEView, b: CDEView, c: CDEView)
    requires
        a.same_bin(b),
        b.same_bin(c),
    ensures
        a.same_bin(c),
{
    assert forall|i: int| 0 <= i < a.grid.cells.len() implies (#[trigger] a.grid.cells[i])
        == (crate::collision_detection::hp_cell::HPCellView {
        uni_haz_prox: a.grid.cells[i].uni_haz_prox,
        ..c.grid.cells[i]
    }) by {
        assert(a.grid.cells[i] == (crate::collision_detection::hp_cell::HPCellView {
            uni_haz_prox: a.grid.cells[i].uni_haz_prox,
            ..b.grid.cells[i]
        }));
        assert(b.grid.cells[i] == (crate::collision_detection::hp_cell::HPCellView {
            uni_haz_prox: b.grid.cells[i].uni_haz_prox,
            ..c.grid.cells[i]
        }));
    }
}

} // verus!
