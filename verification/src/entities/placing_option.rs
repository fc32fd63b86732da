//! Where an item could be placed.

use vstd::prelude::*;
use crate::geometry::d_transformation::DTransformation;
use crate::geometry::transformation::Transformation;

verus! {

/// Names a layout of a problem: one that is in use, or one that is still empty.
#[derive(Clone, Copy, Debug, PartialEq, Eq, Hash, Structural)]
pub enum LayoutIndex {
    Existing(usize),
    Empty(usize),
}

/// A place for an item: the layout, the item, and the transformation that puts the
/// item there, in applied and in decomposed form.
#[derive(Clone, Copy, Debug, PartialEq, Eq, Hash, Structural)]
pub struct PlacingOption {
    pub layout_index: LayoutIndex,
    pub item_id: usize,
    pub transf: Transformation,
    pub d_transf: DTransformation,
}

impl PlacingOption {
    /// The decomposed transformation is well formed, and the applied one is the one
    /// that it stands for.
    pub open spec fn wf(self) -> bool {
        &&& self.d_transf.wf()
        &&& self.transf == self.d_transf.spec_compose()
    }

    /// The option to place the item in the layout where `d_transf` says.
    pub fn new(layout_index: LayoutIndex, item_id: usize, d_transf: DTransformation) -> (r:
        PlacingOption)
        requires
            d_transf.wf(),
        ensures
            r == (PlacingOption { layout_index, item_id, transf: d_transf.spec_compose(), d_transf }),
            r.wf(),
    {
        PlacingOption { layout_index, item_id, transf: d_transf.compose(), d_transf }
    }
}

} // verus!
