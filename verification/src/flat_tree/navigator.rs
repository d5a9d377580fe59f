//! Navigators over a flat tree: a position plus a borrow of the tree, with
//! the usual parent / child / sibling moves.

use vstd::prelude::*;

use crate::flat_tree::index::is_child_list;
use crate::flat_tree::index::spec_first_child;
use crate::flat_tree::index::spec_next_sibling;
use crate::flat_tree::index::spec_parent;
use crate::flat_tree::index::spec_prev_sibling;
use crate::flat_tree::tree::FlatTree;

verus! {

/// A position inside a borrowed flat tree.
pub struct Navigator<'a, A> {
    pub(crate) tree: &'a FlatTree<A>,
    pub(crate) pos: usize,
}

impl<'a, A> Navigator<'a, A> {
    pub open(crate) spec fn spec_tree(&self) -> &'a FlatTree<A> {
        self.tree
    }

    pub open(crate) spec fn position(&self) -> int {
        self.pos as int
    }

    /// A navigator at position `pos` of `tree`.
    pub fn new(tree: &'a FlatTree<A>, pos: usize) -> (r: Navigator<'a, A>)
        ensures
            r.spec_tree() == tree,
            r.position() == pos,
    {
        Navigator { tree, pos }
    }

    fn new_at_pos(&self, new_pos: usize) -> (r: Navigator<'a, A>)
        ensures
            r.spec_tree() == self.spec_tree(),
            r.position() == new_pos,
    {
        Navigator { tree: self.tree, pos: new_pos }
    }

    /// The value at the current position.
    pub fn get(&self) -> (r: &'a A)
        requires
            self.position() < self.spec_tree().vals().len(),
        ensures
            *r == self.spec_tree().vals()[self.position()],
    {
        self.tree.get(self.pos).unwrap()
    }

    /// The current position.
    pub fn get_pos(&self) -> (r: usize)
        ensures
            r == self.position(),
    {
        self.pos
    }

    /// A navigator at the parent, if any.
    pub fn parent(&self) -> (r: Option<Navigator<'a, A>>)
        ensures
            match r {
                Some(n) => n.spec_tree() == self.spec_tree() && Some(n.position() as usize)
                    == spec_parent(self.spec_tree().nbs(), self.position()),
                None => spec_parent(self.spec_tree().nbs(), self.position()) is None,
            },
    {
        match self.tree.get_index().parent(self.pos) {
            Some(i) => Some(self.new_at_pos(i)),
            None => None,
        }
    }

    /// Navigators at all children, in document order.
    pub fn children(&self) -> (r: Vec<Navigator<'a, A>>)
        requires
            self.spec_tree().wf(),
        ensures
            is_child_list(
                self.spec_tree().nbs(),
                self.position(),
                r@.map_values(|n: Navigator<'a, A>| n.position() as usize),
            ),
            forall|k: int| 0 <= k < r@.len() ==> (#[trigger] r@[k]).spec_tree() == self.spec_tree(),
    {
        let indices = self.tree.get_index().children(self.pos);
        let mut r: Vec<Navigator<'a, A>> = Vec::new();
        let mut i: usize = 0;
        while i < indices.len()
            invariant
                i <= indices@.len(),
                r@.len() == i,
                forall|k: int| 0 <= k < i ==> (#[trigger] r@[k]).pos == indices@[k],
                forall|k: int| 0 <= k < i ==> (#[trigger] r@[k]).spec_tree() == self.spec_tree(),
                is_child_list(self.spec_tree().nbs(), self.position(), indices@),
            decreases indices@.len() - i,
        {
            r.push(self.new_at_pos(indices[i]));
            i = i + 1;
        }
        proof {
            assert(r@.map_values(|n: Navigator<'a, A>| n.position() as usize) =~= indices@);
        }
        r
    }

    /// A navigator at the first child, if any.
    pub fn first_child(&self) -> (r: Option<Navigator<'a, A>>)
        ensures
            match r {
                Some(n) => n.spec_tree() == self.spec_tree() && Some(n.position() as usize)
                    == spec_first_child(self.spec_tree().nbs(), self.position()),
                None => spec_first_child(self.spec_tree().nbs(), self.position()) is None,
            },
    {
        match self.tree.get_index().first_child(self.pos) {
            Some(i) => Some(self.new_at_pos(i)),
            None => None,
        }
    }

    /// A navigator at the next sibling, if any.
    pub fn next_sibling(&self) -> (r: Option<Navigator<'a, A>>)
        ensures
            match r {
                Some(n) => n.spec_tree() == self.spec_tree() && Some(n.position() as usize)
                    == spec_next_sibling(self.spec_tree().nbs(), self.position()),
                None => spec_next_sibling(self.spec_tree().nbs(), self.position()) is None,
            },
    {
        match self.tree.get_index().next_sibling(self.pos) {
            Some(i) => Some(self.new_at_pos(i)),
            None => None,
        }
    }

    /// A navigator at the previous sibling, if any.
    pub fn prev_sibling(&self) -> (r: Option<Navigator<'a, A>>)
        ensures
            match r {
                Some(n) => n.spec_tree() == self.spec_tree() && Some(n.position() as usize)
                    == spec_prev_sibling(self.spec_tree().nbs(), self.position()),
                None => spec_prev_sibling(self.spec_tree().nbs(), self.position()) is None,
            },
    {
        match self.tree.get_index().prev_sibling(self.pos) {
            Some(i) => Some(self.new_at_pos(i)),
            None => None,
        }
    }
}

/// A navigator that carries a second, parallel value table (for per-node
/// side data such as identifiers or fingerprints).
pub struct NavigatorWithValues<'a, A, B> {
    pub(crate) base: Navigator<'a, A>,
    pub(crate) values: &'a Vec<B>,
}

impl<'a, A, B> NavigatorWithValues<'a, A, B> {
    pub open(crate) spec fn spec_tree(&self) -> &'a FlatTree<A> {
        self.base.spec_tree()
    }

    pub open(crate) spec fn extra(&self) -> Seq<B> {
        self.values@
    }

    pub open(crate) spec fn position(&self) -> int {
        self.base.position()
    }

    /// Pairs a navigator with a side-value table.
    pub fn from_iterator(base: Navigator<'a, A>, values: &'a Vec<B>) -> (r: NavigatorWithValues<
        'a,
        A,
        B,
    >)
        ensures
            r.spec_tree() == base.spec_tree(),
            r.position() == base.position(),
            r.extra() == values@,
    {
        NavigatorWithValues { base, values }
    }

    /// The same pairing, at another position.
    pub fn at_pos(&self, index: usize) -> (r: NavigatorWithValues<'a, A, B>)
        ensures
            r.spec_tree() == self.spec_tree(),
            r.position() == index,
            r.extra() == self.extra(),
    {
        NavigatorWithValues { base: self.base.new_at_pos(index), values: self.values }
    }

    /// The current position.
    pub fn get_pos(&self) -> (r: usize)
        ensures
            r == self.position(),
    {
        self.base.get_pos()
    }

    /// The tree value at the current position.
    pub fn get_main(&self) -> (r: &'a A)
        requires
            self.position() < self.spec_tree().vals().len(),
        ensures
            *r == self.spec_tree().vals()[self.position()],
    {
        self.base.get()
    }

    /// The side value at the current position.
    pub fn get_extra(&self) -> (r: &'a B)
        requires
            self.position() < self.extra().len(),
        ensures
            *r == self.extra()[self.position()],
    {
        &self.values[self.base.get_pos()]
    }

    /// At the parent, if any.
    pub fn parent(&self) -> (r: Option<NavigatorWithValues<'a, A, B>>)
        ensures
            match r {
                Some(n) => n.spec_tree() == self.spec_tree() && n.extra() == self.extra() && Some(
                    n.position() as usize,
                ) == spec_parent(self.spec_tree().nbs(), self.position()),
                None => spec_parent(self.spec_tree().nbs(), self.position()) is None,
            },
    {
        match self.base.parent() {
            Some(v) => Some(NavigatorWithValues { base: v, values: self.values }),
            None => None,
        }
    }

    /// At the first child, if any.
    pub fn first_child(&self) -> (r: Option<NavigatorWithValues<'a, A, B>>)
        ensures
            match r {
                Some(n) => n.spec_tree() == self.spec_tree() && n.extra() == self.extra() && Some(
                    n.position() as usize,
                ) == spec_first_child(self.spec_tree().nbs(), self.position()),
                None => spec_first_child(self.spec_tree().nbs(), self.position()) is None,
            },
    {
        match self.base.first_child() {
            Some(v) => Some(NavigatorWithValues { base: v, values: self.values }),
            None => None,
        }
    }

    /// At every child, in document order.
    pub fn children(&self) -> (r: Vec<NavigatorWithValues<'a, A, B>>)
        requires
            self.spec_tree().wf(),
        ensures
            is_child_list(
                self.spec_tree().nbs(),
                self.position(),
                r@.map_values(|n: NavigatorWithValues<'a, A, B>| n.position() as usize),
            ),
            forall|k: int|
                0 <= k < r@.len() ==> (#[trigger] r@[k]).spec_tree() == self.spec_tree()
                    && r@[k].extra() == self.extra(),
    {
        let base_children = self.base.children();
        let mut r: Vec<NavigatorWithValues<'a, A, B>> = Vec::new();
        let mut i: usize = 0;
        while i < base_children.len()
            invariant
                i <= base_children@.len(),
                r@.len() == i,
                forall|k: int| 0 <= k < i ==> (#[trigger] r@[k]).base.pos == base_children@[k].pos,
                forall|k: int|
                    0 <= k < i ==> (#[trigger] r@[k]).spec_tree() == self.spec_tree()
                        && r@[k].extra() == self.extra(),
                forall|k: int|
                    0 <= k < base_children@.len() ==> (#[trigger] base_children@[k]).spec_tree()
                        == self.spec_tree(),
                is_child_list(
                    self.spec_tree().nbs(),
                    self.position(),
                    base_children@.map_values(|n: Navigator<'a, A>| n.position() as usize),
                ),
            decreases base_children@.len() - i,
        {
            let pos = base_children[i].get_pos();
            r.push(self.at_pos(pos));
            i = i + 1;
        }
        proof {
            assert(r@.map_values(|n: NavigatorWithValues<'a, A, B>| n.position() as usize)
                =~= base_children@.map_values(|n: Navigator<'a, A>| n.position() as usize));
        }
        r
    }

    /// At the next sibling, if any.
    pub fn next_sibling(&self) -> (r: Option<NavigatorWithValues<'a, A, B>>)
        ensures
            match r {
                Some(n) => n.spec_tree() == self.spec_tree() && n.extra() == self.extra() && Some(
                    n.position() as usize,
                ) == spec_next_sibling(self.spec_tree().nbs(), self.position()),
                None => spec_next_sibling(self.spec_tree().nbs(), self.position()) is None,
            },
    {
        match self.base.next_sibling() {
            Some(v) => Some(NavigatorWithValues { base: v, values: self.values }),
            None => None,
        }
    }
}

} // verus!
