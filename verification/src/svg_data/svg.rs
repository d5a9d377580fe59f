//! One parsed SVG document: a flat tree of tags.

use vstd::prelude::*;

use crate::flat_tree::FlatTree;
use crate::svg_data::tag::Tag;

verus! {

/// A parsed document.  The root is node 0.
#[derive(Debug)]
pub struct SVG {
    pub tags: FlatTree<Tag>,
}

impl SVG {
    /// A well-formed tree of well-formed tags, with a root.
    pub open spec fn wf(&self) -> bool {
        &&& self.tags.wf()
        &&& self.tags.nbs().len() >= 1
        &&& forall|i: int|
            0 <= i < self.tags.vals().len() ==> (#[trigger] self.tags.vals()[i]).wf()
    }

    /// The number of nodes.
    pub fn node_count(&self) -> (r: usize)
        ensures
            r == self.tags.nbs().len(),
    {
        self.tags.count()
    }
}

} // verus!
