//! A flat tree that pairs the neighbour table with one value per node.

use vstd::prelude::*;

use crate::flat_tree::index::Index;
use crate::flat_tree::index::Neighbors;
use crate::flat_tree::index::is_child_list;
use crate::flat_tree::index::spec_next_sibling;
use crate::flat_tree::index::spec_parent;
use crate::flat_tree::index::table_wf;
use crate::flat_tree::index::spec_prev_sibling;

verus! {

/// A tree stored as one value vector plus a neighbour table; index `i` of
/// the table describes the node holding value `i`.
#[derive(Debug)]
pub struct FlatTree<A> {
    pub(crate) index: Index,
    pub(crate) values: Vec<A>,
}

impl<A> FlatTree<A> {
    /// The values, in document order.
    pub open(crate) spec fn vals(&self) -> Seq<A> {
        self.values@
    }

    /// The neighbour table.
    pub open(crate) spec fn nbs(&self) -> Seq<Neighbors<usize>> {
        self.index.nbs()
    }

    /// One value per table entry, and a well-formed table.
    pub open(crate) spec fn wf(&self) -> bool {
        &&& self.index.wf()
        &&& self.values@.len() == self.index.nbs().len()
    }

    pub(crate) fn from_parts(index: Index, values: Vec<A>) -> (r: FlatTree<A>)
        ensures
            r.nbs() == index.nbs(),
            r.vals() == values@,
    {
        FlatTree { index, values }
    }

    /// The number of nodes.
    pub fn count(&self) -> (r: usize)
        ensures
            r == self.nbs().len(),
    {
        self.index.len()
    }

    /// The value at `index`, if it exists.
    pub fn get(&self, index: usize) -> (r: Option<&A>)
        ensures
            match r {
                Some(a) => index < self.vals().len() && *a == self.vals()[index as int],
                None => index >= self.vals().len(),
            },
    {
        if index < self.values.len() {
            Some(&self.values[index])
        } else {
            None
        }
    }

    /// The neighbour table itself.
    pub fn get_index(&self) -> (r: &Index)
        ensures
            r.nbs() == self.nbs(),
            r.wf() == table_wf(self.nbs()),
    {
        &self.index
    }

    /// All neighbour entries.
    pub fn all_neighbors(&self) -> (r: &Vec<Neighbors<usize>>)
        ensures
            r@ == self.nbs(),
    {
        self.index.all_neighbors()
    }

    /// The indices of the children of `index`, in document order.
    pub fn child_indices(&self, index: usize) -> (r: Vec<usize>)
        requires
            self.wf(),
        ensures
            is_child_list(self.nbs(), index as int, r@),
    {
        self.index.children(index)
    }

    /// The values of the children of `index`, in document order.
    pub fn children(&self, index: usize) -> (r: Vec<&A>)
        requires
            self.wf(),
        ensures
            exists|ix: Seq<usize>|
                is_child_list(self.nbs(), index as int, ix) && r@.len() == ix.len() && (forall|
                    k: int,
                |
                    0 <= k < ix.len() ==> *(#[trigger] r@[k]) == self.vals()[ix[k] as int]),
    {
        let indices = self.index.children(index);
        let mut r: Vec<&A> = Vec::new();
        let mut i: usize = 0;
        while i < indices.len()
            invariant
                self.wf(),
                i <= indices@.len(),
                r@.len() == i,
                is_child_list(self.nbs(), index as int, indices@),
                forall|k: int| 0 <= k < i ==> *(#[trigger] r@[k]) == self.vals()[indices@[k] as int],
            decreases indices@.len() - i,
        {
            let j = indices[i];
            r.push(&self.values[j]);
            i = i + 1;
        }
        r
    }

    /// The parent's value, if `index` has a parent.
    pub fn parent(&self, index: usize) -> (r: Option<&A>)
        requires
            self.wf(),
        ensures
            match r {
                Some(a) => spec_parent(self.nbs(), index as int) is Some && *a == self.vals()[
                    spec_parent(self.nbs(), index as int)->0 as int
                ],
                None => spec_parent(self.nbs(), index as int) is None,
            },
    {
        match self.index.parent(index) {
            Some(p) => {
                proof {
                    assert(crate::flat_tree::index::node_wf(self.nbs(), index as int));
                }
                Some(&self.values[p])
            },
            None => None,
        }
    }

    /// The next sibling's value, if any.
    pub fn next_sibling(&self, index: usize) -> (r: Option<&A>)
        requires
            self.wf(),
        ensures
            match r {
                Some(a) => spec_next_sibling(self.nbs(), index as int) is Some && *a
                    == self.vals()[spec_next_sibling(self.nbs(), index as int)->0 as int],
                None => spec_next_sibling(self.nbs(), index as int) is None,
            },
    {
        match self.index.next_sibling(index) {
            Some(s) => {
                proof {
                    assert(crate::flat_tree::index::node_wf(self.nbs(), index as int));
                }
                Some(&self.values[s])
            },
            None => None,
        }
    }

    /// The previous sibling's value, if any.
    pub fn prev_sibling(&self, index: usize) -> (r: Option<&A>)
        requires
            self.wf(),
        ensures
            match r {
                Some(a) => spec_prev_sibling(self.nbs(), index as int) is Some && *a
                    == self.vals()[spec_prev_sibling(self.nbs(), index as int)->0 as int],
                None => spec_prev_sibling(self.nbs(), index as int) is None,
            },
    {
        match self.index.prev_sibling(index) {
            Some(q) => {
                proof {
                    assert(crate::flat_tree::index::node_wf(self.nbs(), index as int));
                }
                Some(&self.values[q])
            },
            None => None,
        }
    }
}

/// Builds a flat tree from open/close/empty element events, carrying the
/// node values alongside the neighbour table.
pub struct Builder<A> {
    pub(crate) index_builder: crate::flat_tree::index::Builder,
    pub(crate) values: Vec<A>,
}

impl<A> Builder<A> {
    pub open(crate) spec fn vals(&self) -> Seq<A> {
        self.values@
    }

    pub open(crate) spec fn nbs(&self) -> Seq<Neighbors<usize>> {
        self.index_builder.nbs()
    }

    pub open(crate) spec fn stack(&self) -> Seq<usize> {
        self.index_builder.stack()
    }

    pub open(crate) spec fn count(&self) -> int {
        self.index_builder.count()
    }

    /// The most recently closed element at the current depth, whose next
    /// sibling link is patched when the next element opens beside it.
    pub open(crate) spec fn last_sib(&self) -> Option<usize> {
        self.index_builder.last_sib()
    }

    pub open(crate) spec fn wf(&self) -> bool {
        &&& self.index_builder.wf()
        &&& self.values@.len() == self.index_builder.count()
    }

    pub fn new() -> (r: Builder<A>)
        ensures
            r.wf(),
            r.count() == 0,
            r.stack().len() == 0,
            r.last_sib() is None,
    {
        Builder { index_builder: crate::flat_tree::index::Builder::new(), values: Vec::new() }
    }

    /// The value at `index`, if it exists yet.
    pub fn get(&self, index: usize) -> (r: Option<&A>)
        ensures
            match r {
                Some(a) => index < self.vals().len() && *a == self.vals()[index as int],
                None => index >= self.vals().len(),
            },
    {
        if index < self.values.len() {
            Some(&self.values[index])
        } else {
            None
        }
    }

    /// Replaces the value at `index`.
    pub fn set_value(&mut self, index: usize, v: A)
        requires
            index < old(self).vals().len(),
        ensures
            final(self).vals() == old(self).vals().update(index as int, v),
            final(self).nbs() == old(self).nbs(),
            final(self).stack() == old(self).stack(),
            final(self).wf() == old(self).wf(),
    {
        self.values[index] = v;
    }

    /// Opens an element holding `el`; returns its index.  The new node's
    /// parent is the innermost open element, its previous sibling is the
    /// last element closed at this depth (whose next-sibling link is patched
    /// to the new node), and every other entry is unchanged.
    #[verifier::rlimit(50)]
    pub fn start_element(&mut self, el: A) -> (my_index: usize)
        requires
            old(self).wf(),
            old(self).count() < usize::MAX,
        ensures
            final(self).wf(),
            my_index == old(self).count(),
            final(self).count() == old(self).count() + 1,
            final(self).vals() == old(self).vals().push(el),
            final(self).stack() == old(self).stack().push(my_index),
            final(self).nbs()[my_index as int].parent == (if old(self).stack().len() > 0 {
                Some(old(self).stack()[old(self).stack().len() - 1])
            } else {
                Option::<usize>::None
            }),
            final(self).nbs()[my_index as int].prev_sibling == old(self).last_sib(),
            final(self).nbs()[my_index as int].next_sibling is None,
            final(self).last_sib() is None,
            forall|i: int|
                0 <= i < old(self).count() && old(self).last_sib() != Some(i as usize)
                    ==> final(self).nbs()[i] == old(self).nbs()[i],
            match old(self).last_sib() {
                Some(l) => final(self).nbs()[l as int].me == old(self).nbs()[l as int].me
                    && final(self).nbs()[l as int].parent == old(self).nbs()[l as int].parent
                    && final(self).nbs()[l as int].prev_sibling == old(self).nbs()[
                    l as int
                ].prev_sibling && final(self).nbs()[l as int].next_sibling == Some(my_index),
                None => true,
            },
    {
        self.values.push(el);
        self.index_builder.start_element()
    }

    /// Closes the innermost open element; returns its index.
    pub fn end_element(&mut self) -> (r: usize)
        requires
            old(self).wf(),
            old(self).stack().len() > 0,
        ensures
            final(self).wf(),
            final(self).vals() == old(self).vals(),
            final(self).count() == old(self).count(),
            final(self).stack() == old(self).stack().drop_last(),
            r == old(self).stack()[old(self).stack().len() - 1],
            final(self).nbs() == old(self).nbs(),
            final(self).last_sib() == Some(r),
    {
        self.index_builder.end_element()
    }

    /// Opens and immediately closes an element holding `el`; returns its
    /// index.  The neighbour links are created exactly as by
    /// [`Builder::start_element`], and the new node becomes the last sibling
    /// at the current depth.
    #[verifier::rlimit(50)]
    pub fn start_end_element(&mut self, el: A) -> (my_index: usize)
        requires
            old(self).wf(),
            old(self).count() < usize::MAX,
        ensures
            final(self).wf(),
            my_index == old(self).count(),
            final(self).count() == old(self).count() + 1,
            final(self).vals() == old(self).vals().push(el),
            final(self).stack() == old(self).stack(),
            final(self).nbs()[my_index as int].parent == (if old(self).stack().len() > 0 {
                Some(old(self).stack()[old(self).stack().len() - 1])
            } else {
                Option::<usize>::None
            }),
            final(self).nbs()[my_index as int].prev_sibling == old(self).last_sib(),
            final(self).nbs()[my_index as int].next_sibling is None,
            final(self).last_sib() == Some(my_index),
            forall|i: int|
                0 <= i < old(self).count() && old(self).last_sib() != Some(i as usize)
                    ==> final(self).nbs()[i] == old(self).nbs()[i],
            match old(self).last_sib() {
                Some(l) => final(self).nbs()[l as int].me == old(self).nbs()[l as int].me
                    && final(self).nbs()[l as int].parent == old(self).nbs()[l as int].parent
                    && final(self).nbs()[l as int].prev_sibling == old(self).nbs()[
                    l as int
                ].prev_sibling && final(self).nbs()[l as int].next_sibling == Some(my_index),
                None => true,
            },
    {
        self.values.push(el);
        self.index_builder.start_end_element()
    }

    /// Finishes building.
    pub fn build(self) -> (r: FlatTree<A>)
        requires
            self.wf(),
        ensures
            r.wf(),
            r.nbs() == self.nbs(),
            r.vals() == self.vals(),
    {
        FlatTree { index: self.index_builder.build(), values: self.values }
    }
}

} // verus!
