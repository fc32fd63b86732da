//! The instances of the strip packing problem.

use vstd::prelude::*;
use crate::entities::item::{Item, ItemView};
use crate::error::CDEError;
use crate::geometry::point::MAX_COORD;

verus! {

/// Largest number of copies of an item that an instance can ask for.
pub const MAX_QUANTITY: usize = 0x7fff_ffff;

/// What an instance holds, as mathematical values.
pub struct InstanceView {
    /// The items, each with the number of copies to be packed.
    pub items: Seq<(ItemView, usize)>,
    pub strip_height: u64,
}

impl InstanceView {
    /// The strip has a height within coordinate range; the items are well formed,
    /// each is numbered by its place, and of each at most `MAX_QUANTITY` copies are
    /// asked for.
    pub open spec fn wf(self) -> bool {
        &&& 1 <= self.strip_height <= MAX_COORD
        &&& forall|i: int|
            0 <= i < self.items.len() ==> {
                let entry = #[trigger] self.items[i];
                &&& entry.0.wf()
                &&& entry.0.id == i
                &&& entry.1 <= MAX_QUANTITY
            }
    }
}

/// The views of a sequence of items with their quantities, in the same order.
pub open spec fn item_views(items: Seq<(Item, usize)>) -> Seq<(ItemView, usize)> {
    Seq::new(items.len(), |i: int| (items[i].0@, items[i].1))
}

/// An instance of the strip packing problem: items to be packed, each in a number of
/// copies, and the height of the strip to pack them in.
#[derive(Debug)]
pub struct SPInstance {
    items: Vec<(Item, usize)>,
    strip_height: u64,
}

impl View for SPInstance {
    type V = InstanceView;

    closed spec fn view(&self) -> InstanceView {
        InstanceView { items: item_views(self.items@), strip_height: self.strip_height }
    }
}

impl Clone for SPInstance {
    /// A copy that holds the same items.
    fn clone(&self) -> (r: SPInstance)
        ensures
            r@ == self@,
    {
        let mut items: Vec<(Item, usize)> = Vec::new();
        let mut i: usize = 0;
        while i < self.items.len()
            invariant
                0 <= i <= self.items@.len(),
                items@.len() == i,
                forall|j: int|
                    0 <= j < i ==> (#[trigger] items@[j]).0@ == self.items@[j].0@ && items@[j].1
                        == self.items@[j].1,
            decreases self.items@.len() - i,
        {
            let entry: &(Item, usize) = &self.items[i];
            items.push((entry.0.clone(), entry.1));
            i += 1;
        }
        assert(item_views(items@) =~= item_views(self.items@));
        SPInstance { items, strip_height: self.strip_height }
    }
}

impl SPInstance {
    pub open spec fn wf(&self) -> bool {
        self@.wf()
    }

    /// The instance with the given items and strip height. It is refused where the
    /// height is zero or beyond coordinate range, where an item is not numbered by
    /// its place, or where too many copies of an item are asked for.
    pub fn new(items: Vec<(Item, usize)>, strip_height: u64) -> (r: Result<SPInstance, CDEError>)
        requires
            forall|i: int| 0 <= i < items@.len() ==> (#[trigger] items@[i]).0.wf(),
        ensures
            r.is_ok() == (InstanceView { items: item_views(items@), strip_height }).wf(),
            r.is_ok() ==> r.unwrap()@ == (InstanceView { items: item_views(items@), strip_height }),
            r.is_err() ==> r.unwrap_err() == CDEError::InvalidInput,
    {
        if strip_height < 1 || strip_height > MAX_COORD as u64 {
            return Err(CDEError::InvalidInput);
        }
        let ghost views = item_views(items@);
        let mut i: usize = 0;
        while i < items.len()
            invariant
                0 <= i <= items@.len(),
                views == item_views(items@),
                forall|j: int| 0 <= j < items@.len() ==> (#[trigger] items@[j]).0.wf(),
                forall|j: int|
                    0 <= j < i ==> {
                        let entry = #[trigger] views[j];
                        &&& entry.0.wf()
                        &&& entry.0.id == j
                        &&& entry.1 <= MAX_QUANTITY
                    },
            decreases items@.len() - i,
        {
            let entry: &(Item, usize) = &items[i];
            assert(views[i as int] == (items@[i as int].0@, items@[i as int].1));
            if entry.0.id() != i || entry.1 > MAX_QUANTITY {
                return Err(CDEError::InvalidInput);
            }
            i += 1;
        }
        Ok(SPInstance { items, strip_height })
    }

    /// The item with the given number.
    pub fn item(&self, id: usize) -> (r: &Item)
        requires
            id < self@.items.len(),
        ensures
            r@ == self@.items[id as int].0,
    {
        &self.items[id].0
    }

    /// The number of copies of the item to be packed.
    pub fn item_qty(&self, id: usize) -> (r: usize)
        requires
            id < self@.items.len(),
        ensures
            r == self@.items[id as int].1,
    {
        self.items[id].1
    }

    /// The number of different items.
    pub fn n_items(&self) -> (r: usize)
        ensures
            r == self@.items.len(),
    {
        self.items.len()
    }

    pub fn strip_height(&self) -> (r: u64)
        ensures
            r == self@.strip_height,
    {
        self.strip_height
    }
}

} // verus!
