//! Solutions: what a problem looked like at some time.

use vstd::prelude::*;
use crate::entities::layout::{LayoutSnapshot, LayoutView};

verus! {

/// What a solution holds, as mathematical values.
pub struct SolutionView {
    pub id: usize,
    pub layout_snapshots: Seq<LayoutView>,
    /// For each item the number of copies placed.
    pub placed_item_qtys: Seq<usize>,
    /// For each item the number of copies asked for.
    pub target_item_qtys: Seq<usize>,
    /// For each bin the number of copies in use.
    pub bin_qtys: Seq<usize>,
}

/// The views of a sequence of snapshots, in the same order.
pub open spec fn snapshot_views(snapshots: Seq<LayoutSnapshot>) -> Seq<LayoutView> {
    Seq::new(snapshots.len(), |i: int| snapshots[i]@)
}

/// A snapshot of a problem: its layouts, and how many copies of each item lie in them.
#[derive(Debug)]
pub struct Solution {
    id: usize,
    layout_snapshots: Vec<LayoutSnapshot>,
    placed_item_qtys: Vec<usize>,
    target_item_qtys: Vec<usize>,
    bin_qtys: Vec<usize>,
}

impl View for Solution {
    type V = SolutionView;

    closed spec fn view(&self) -> SolutionView {
        SolutionView {
            id: self.id,
            layout_snapshots: snapshot_views(self.layout_snapshots@),
            placed_item_qtys: self.placed_item_qtys@,
            target_item_qtys: self.target_item_qtys@,
            bin_qtys: self.bin_qtys@,
        }
    }
}

impl Solution {
    pub fn new(
        id: usize,
        layout_snapshots: Vec<LayoutSnapshot>,
        placed_item_qtys: Vec<usize>,
        target_item_qtys: Vec<usize>,
        bin_qtys: Vec<usize>,
    ) -> (r: Solution)
        ensures
            r@ == (SolutionView {
                id,
                layout_snapshots: snapshot_views(layout_snapshots@),
                placed_item_qtys: placed_item_qtys@,
                target_item_qtys: target_item_qtys@,
                bin_qtys: bin_qtys@,
            }),
    {
        Solution { id, layout_snapshots, placed_item_qtys, target_item_qtys, bin_qtys }
    }

    pub fn id(&self) -> (r: usize)
        ensures
            r == self@.id,
    {
        self.id
    }

    pub fn layout_snapshots(&self) -> (r: &Vec<LayoutSnapshot>)
        ensures
            snapshot_views(r@) == self@.layout_snapshots,
    {
        &self.layout_snapshots
    }

    pub fn placed_item_qtys(&self) -> (r: &Vec<usize>)
        ensures
            r@ == self@.placed_item_qtys,
    {
        &self.placed_item_qtys
    }

    pub fn target_item_qtys(&self) -> (r: &Vec<usize>)
        ensures
            r@ == self@.target_item_qtys,
    {
        &self.target_item_qtys
    }

    pub fn bin_qtys(&self) -> (r: &Vec<usize>)
        ensures
            r@ == self@.bin_qtys,
    {
        &self.bin_qtys
    }

    /// Tells whether every copy asked for is placed.
    pub fn is_complete(&self) -> (r: bool)
        requires
            self@.placed_item_qtys.len() == self@.target_item_qtys.len(),
        ensures
            r == forall|i: int|
                0 <= i < self@.placed_item_qtys.len() ==> #[trigger] self@.placed_item_qtys[i]
                    >= self@.target_item_qtys[i],
    {
        let mut i: usize = 0;
        while i < self.placed_item_qtys.len()
            invariant
                0 <= i <= self.placed_item_qtys@.len(),
                self.placed_item_qtys@.len() == self.target_item_qtys@.len(),
                forall|j: int|
                    0 <= j < i ==> #[trigger] self.placed_item_qtys@[j] >= self.target_item_qtys@[j],
            decreases self.placed_item_qtys@.len() - i,
        {
            if self.placed_item_qtys[i] < self.target_item_qtys[i] {
                assert(!(self@.placed_item_qtys[i as int] >= self@.target_item_qtys[i as int]));
                return false;
            }
            i += 1;
        }
        true
    }
}

} // verus!
