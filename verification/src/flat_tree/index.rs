//! The neighbour table of a flat tree, and the builder that fills it from
//! open/close/empty element events.

use vstd::prelude::*;

verus! {

/// The neighbours of one node.  In the table of an [`Index`] the type
/// parameter is `usize`; `me` then holds the node's own index.
#[derive(Debug, Clone, Copy, PartialEq)]
pub struct Neighbors<A> {
    pub me: Option<A>,
    pub parent: Option<A>,
    pub next_sibling: Option<A>,
    pub prev_sibling: Option<A>,
}

/// Well-formedness of one entry of a neighbour table.
///
/// Parents come before their children, the sibling pointers of adjacent
/// siblings agree and point forward, and a node without a previous sibling is
/// the first child of its parent (or the very first root).
pub open spec fn node_wf(nbs: Seq<Neighbors<usize>>, i: int) -> bool {
    &&& nbs[i].me == Some(i as usize)
    &&& match nbs[i].parent {
        Some(p) => p < i,
        None => true,
    }
    &&& match nbs[i].prev_sibling {
        Some(q) => {
            &&& q < i
            &&& nbs[q as int].parent == nbs[i].parent
            &&& nbs[q as int].next_sibling == Some(i as usize)
        },
        None => match nbs[i].parent {
            Some(p) => i == p + 1,
            None => i == 0,
        },
    }
    &&& match nbs[i].next_sibling {
        Some(s) => {
            &&& i < s < nbs.len()
            &&& nbs[s as int].parent == nbs[i].parent
            &&& nbs[s as int].prev_sibling == Some(i as usize)
        },
        None => true,
    }
}

/// Well-formedness of a whole neighbour table.
pub open spec fn table_wf(nbs: Seq<Neighbors<usize>>) -> bool {
    forall|i: int| 0 <= i < nbs.len() ==> #[trigger] node_wf(nbs, i)
}

/// The parent entry of `i`, or `None` when `i` is out of range.
pub open spec fn spec_parent(nbs: Seq<Neighbors<usize>>, i: int) -> Option<usize> {
    if 0 <= i < nbs.len() {
        nbs[i].parent
    } else {
        None
    }
}

/// The previous sibling entry of `i`, or `None` when `i` is out of range.
pub open spec fn spec_prev_sibling(nbs: Seq<Neighbors<usize>>, i: int) -> Option<usize> {
    if 0 <= i < nbs.len() {
        nbs[i].prev_sibling
    } else {
        None
    }
}

/// The next sibling entry of `i`, or `None` when `i` is out of range.
pub open spec fn spec_next_sibling(nbs: Seq<Neighbors<usize>>, i: int) -> Option<usize> {
    if 0 <= i < nbs.len() {
        nbs[i].next_sibling
    } else {
        None
    }
}

/// The first child of `i`: node `i + 1`, exactly when it exists and `i` is
/// its parent.
pub open spec fn spec_first_child(nbs: Seq<Neighbors<usize>>, i: int) -> Option<usize> {
    if i + 1 < nbs.len() && nbs[i + 1].parent == Some(i as usize) {
        Some((i + 1) as usize)
    } else {
        None
    }
}

/// What a vector of child indices of `parent` must look like: every entry is
/// a child of `parent`, entries are strictly increasing (document order), and
/// every child of `parent` appears.
pub open spec fn is_child_list(nbs: Seq<Neighbors<usize>>, parent: int, r: Seq<usize>) -> bool {
    &&& forall|k: int|
        0 <= k < r.len() ==> (#[trigger] r[k]) < nbs.len() && nbs[r[k] as int].parent == Some(
            parent as usize,
        )
    &&& forall|k: int| 0 <= k < r.len() - 1 ==> (#[trigger] r[k]) < r[k + 1]
    &&& forall|j: int|
        0 <= j < nbs.len() && (#[trigger] nbs[j].parent) == Some(parent as usize) ==> r.contains(
            j as usize,
        )
}

/// The canonical child list of `parent`: all indices whose parent entry
/// names it, in ascending order.
pub open spec fn spec_children(nbs: Seq<Neighbors<usize>>, parent: int) -> Seq<usize> {
    Seq::new(nbs.len() as nat, |i: int| i as usize).filter(
        |j: usize| nbs[j as int].parent == Some(parent as usize),
    )
}

/// In a strictly increasing list the head is the least member.
proof fn lemma_head_least(a: Seq<usize>)
    requires
        a.len() > 0,
        forall|k: int| 0 <= k < a.len() - 1 ==> (#[trigger] a[k]) < a[k + 1],
    ensures
        forall|k: int| 0 <= k < a.len() ==> a[0] <= #[trigger] a[k],
{
    assert forall|k: int| 0 <= k < a.len() implies a[0] <= #[trigger] a[k] by {
        lemma_adjacent_increasing(a, 0, k);
    }
}

/// Dropping the shared head of two strictly increasing lists keeps one a
/// subset of the other.
proof fn lemma_tail_subset(a: Seq<usize>, b: Seq<usize>)
    requires
        a.len() > 0,
        b.len() > 0,
        a[0] == b[0],
        forall|k: int| 0 <= k < a.len() - 1 ==> (#[trigger] a[k]) < a[k + 1],
        forall|k: int| 0 <= k < b.len() - 1 ==> (#[trigger] b[k]) < b[k + 1],
        forall|x: usize| a.contains(x) ==> b.contains(x),
    ensures
        forall|x: usize| a.drop_first().contains(x) ==> b.drop_first().contains(x),
{
    lemma_head_least(a);
    lemma_head_least(b);
    assert forall|x: usize| a.drop_first().contains(x) implies b.drop_first().contains(x) by {
        let a2 = a.drop_first();
        let b2 = b.drop_first();
        let k = choose|k: int| 0 <= k < a2.len() && a2[k] == x;
        assert(a[k + 1] == x);
        assert(a.contains(x));
        assert(b.contains(x));
        let k2 = choose|k2: int| 0 <= k2 < b.len() && b[k2] == x;
        assert(a[0] < a[k + 1]) by {
            lemma_adjacent_increasing(a, 0, k + 1);
            assert(a[k] < a[k + 1]);
            assert(a[0] <= a[k]);
        }
        assert(x != b[0]);
        assert(k2 != 0);
        assert(b2[k2 - 1] == x);
    }
}

/// Dropping the head of a strictly increasing list keeps it strictly
/// increasing.
proof fn lemma_tail_increasing(a: Seq<usize>)
    requires
        a.len() > 0,
        forall|k: int| 0 <= k < a.len() - 1 ==> (#[trigger] a[k]) < a[k + 1],
    ensures
        forall|k: int|
            0 <= k < a.drop_first().len() - 1 ==> (#[trigger] a.drop_first()[k])
                < a.drop_first()[k + 1],
{
    assert forall|k: int|
        0 <= k < a.drop_first().len() - 1 implies (#[trigger] a.drop_first()[k])
        < a.drop_first()[k + 1] by {
        assert(a.drop_first()[k] == a[k + 1]);
        assert(a.drop_first()[k + 1] == a[k + 2]);
    }
}

/// Two strictly increasing index lists with the same members are equal.
proof fn lemma_increasing_unique(a: Seq<usize>, b: Seq<usize>)
    requires
        forall|k: int| 0 <= k < a.len() - 1 ==> (#[trigger] a[k]) < a[k + 1],
        forall|k: int| 0 <= k < b.len() - 1 ==> (#[trigger] b[k]) < b[k + 1],
        forall|x: usize| a.contains(x) <==> b.contains(x),
    ensures
        a == b,
    decreases a.len(),
{
    if a.len() == 0 {
        if b.len() > 0 {
            assert(b.contains(b[0]));
            assert(a.contains(b[0]));
        }
        assert(a =~= b);
    } else if b.len() == 0 {
        assert(a.contains(a[0]));
        assert(b.contains(a[0]));
    } else {
        lemma_head_least(a);
        lemma_head_least(b);
        assert(a.contains(a[0]));
        assert(b.contains(b[0]));
        assert(b.contains(a[0]));
        assert(a.contains(b[0]));
        let ka = choose|k: int| 0 <= k < b.len() && b[k] == a[0];
        let kb = choose|k: int| 0 <= k < a.len() && a[k] == b[0];
        assert(b[0] <= b[ka]);
        assert(a[0] <= a[kb]);
        assert(a[0] == b[0]);
        lemma_tail_subset(a, b);
        lemma_tail_subset(b, a);
        lemma_tail_increasing(a);
        lemma_tail_increasing(b);
        lemma_increasing_unique(a.drop_first(), b.drop_first());
        assert(a.len() == b.len());
        assert forall|i: int| 0 <= i < a.len() implies a[i] == b[i] by {
            if i > 0 {
                assert(a.drop_first()[i - 1] == a[i]);
                assert(b.drop_first()[i - 1] == b[i]);
            }
        }
        assert(a =~= b);
    }
}

/// A complete, ordered child list is the canonical one.
pub proof fn lemma_child_list_canonical(nbs: Seq<Neighbors<usize>>, parent: int, r: Seq<usize>)
    requires
        table_wf(nbs),
        is_child_list(nbs, parent, r),
        nbs.len() <= usize::MAX,
    ensures
        r == spec_children(nbs, parent),
{
    let c = spec_children(nbs, parent);
    let pred = |j: usize| nbs[j as int].parent == Some(parent as usize);
    let base = Seq::new(nbs.len() as nat, |i: int| i as usize);
    lemma_filter_increasing(base, pred);
    assert forall|x: usize| r.contains(x) implies c.contains(x) by {
        let k = choose|k: int| 0 <= k < r.len() && r[k] == x;
        assert(x < nbs.len() && nbs[x as int].parent == Some(parent as usize));
        assert(base[x as int] == x);
        base.lemma_filter_contains(pred, x as int);
    }
    assert forall|x: usize| c.contains(x) implies r.contains(x) by {
        let k = choose|k: int| 0 <= k < c.len() && c[k] == x;
        base.lemma_filter_pred(pred, k);
        lemma_filter_elems_from(base, pred, k);
        assert(nbs[x as int].parent == Some(parent as usize));
        assert(x < nbs.len());
        assert(r.contains(x));
    }
    lemma_increasing_unique(r, c);
}

/// Filtering an ascending index list keeps it ascending, and its elements
/// come from the original list.
proof fn lemma_filter_increasing(s: Seq<usize>, pred: spec_fn(usize) -> bool)
    requires
        forall|i: int, j: int| 0 <= i < j < s.len() ==> (#[trigger] s[i]) < (#[trigger] s[j]),
    ensures
        forall|k: int|
            0 <= k < s.filter(pred).len() - 1 ==> (#[trigger] s.filter(pred)[k]) < s.filter(
                pred,
            )[k + 1],
    decreases s.len(),
{
    reveal(Seq::filter);
    if s.len() > 0 {
        assert forall|i: int, j: int| 0 <= i < j < s.drop_last().len() implies (#[trigger] s.drop_last()[i]) < (#[trigger] s.drop_last()[j]) by {
            assert(s.drop_last()[i] == s[i]);
            assert(s.drop_last()[j] == s[j]);
        }
        lemma_filter_increasing(s.drop_last(), pred);
        let out = s.filter(pred);
        let sub = s.drop_last().filter(pred);
        if pred(s.last()) {
            assert(out == sub.push(s.last()));
            assert forall|k: int| 0 <= k < out.len() - 1 implies (#[trigger] out[k]) < out[k
                + 1] by {
                if k + 1 < out.len() - 1 {
                    assert(out[k] == sub[k] && out[k + 1] == sub[k + 1]);
                } else {
                    // the last element is the original's last, larger than
                    // every earlier element
                    assert(out[k] == sub[k]);
                    lemma_filter_elems_from(s.drop_last(), pred, k);
                    let src = choose|t: int|
                        0 <= t < s.drop_last().len() && s.drop_last()[t] == sub[k];
                    assert(s[src] == sub[k]);
                    assert(s[src] < s[s.len() - 1]);
                }
            }
        } else {
            assert(out == sub);
        }
    }
}

/// Every element of a filtered list occurs in the original.
proof fn lemma_filter_elems_from(s: Seq<usize>, pred: spec_fn(usize) -> bool, k: int)
    requires
        0 <= k < s.filter(pred).len(),
    ensures
        exists|t: int| 0 <= t < s.len() && s[t] == s.filter(pred)[k],
    decreases s.len(),
{
    reveal(Seq::filter);
    if s.len() > 0 {
        let out = s.filter(pred);
        let sub = s.drop_last().filter(pred);
        if pred(s.last()) {
            if k < out.len() - 1 {
                lemma_filter_elems_from(s.drop_last(), pred, k);
                let t = choose|t: int| 0 <= t < s.drop_last().len() && s.drop_last()[t] == sub[k];
                assert(s[t] == out[k]);
            } else {
                assert(s[s.len() - 1] == out[k]);
            }
        } else {
            lemma_filter_elems_from(s.drop_last(), pred, k);
            let t = choose|t: int| 0 <= t < s.drop_last().len() && s.drop_last()[t] == sub[k];
            assert(s[t] == out[k]);
        }
    }
}

/// A chain as collected by [`Index::children`]: starts at `parent + 1`,
/// follows the `next_sibling` links, and stops at a node with no next
/// sibling.
pub open spec fn is_sibling_chain(nbs: Seq<Neighbors<usize>>, parent: int, r: Seq<usize>) -> bool {
    &&& forall|k: int|
        0 <= k < r.len() ==> (#[trigger] r[k]) < nbs.len() && nbs[r[k] as int].parent == Some(
            parent as usize,
        )
    &&& (r.len() == 0 ==> spec_first_child(nbs, parent) is None)
    &&& (r.len() > 0 ==> r[0] == parent + 1)
    &&& forall|k: int|
        0 <= k < r.len() - 1 ==> nbs[(#[trigger] r[k]) as int].next_sibling == Some(r[k + 1])
    &&& (r.len() > 0 ==> nbs[r[r.len() - 1] as int].next_sibling is None)
}

/// Every child of `parent` appears in a complete sibling chain of `parent`.
proof fn lemma_child_in_chain(nbs: Seq<Neighbors<usize>>, parent: int, r: Seq<usize>, j: int)
    requires
        table_wf(nbs),
        is_sibling_chain(nbs, parent, r),
        0 <= parent <= usize::MAX,
        parent < nbs.len(),
        0 <= j < nbs.len(),
        nbs[j].parent == Some(parent as usize),
    ensures
        r.contains(j as usize),
    decreases j,
{
    assert(node_wf(nbs, j));
    match nbs[j].prev_sibling {
        None => {
            // j is the first child, so the chain is not empty and starts at j
            assert(j == parent + 1);
            assert(spec_first_child(nbs, parent) is Some);
            assert(r.len() > 0);
            assert(r[0] == j as usize);
            assert(r.contains(j as usize));
        },
        Some(q) => {
            assert(node_wf(nbs, q as int));
            lemma_child_in_chain(nbs, parent, r, q as int);
            let k = choose|k: int| 0 <= k < r.len() && r[k] == q;
            // q has a next sibling (namely j), so it is not the chain's last
            assert(nbs[q as int].next_sibling == Some(j as usize));
            assert(k < r.len() - 1);
            assert(r[k + 1] == j as usize);
            assert(r.contains(j as usize));
        },
    }
}

/// In a sequence whose adjacent entries increase, earlier entries are
/// smaller.
proof fn lemma_adjacent_increasing(s: Seq<usize>, a: int, b: int)
    requires
        forall|k: int| 0 <= k < s.len() - 1 ==> (#[trigger] s[k]) < s[k + 1],
        0 <= a <= b < s.len(),
    ensures
        s[a] <= s[b],
    decreases b - a,
{
    if a < b {
        lemma_adjacent_increasing(s, a, b - 1);
        assert(s[b - 1] < s[b]);
    }
}

/// The neighbour table of a tree: one [`Neighbors`] entry per node.
#[derive(Debug)]
pub struct Index {
    pub(crate) neighbors: Vec<Neighbors<usize>>,
}

impl Index {
    /// The table as a sequence.
    pub open(crate) spec fn nbs(&self) -> Seq<Neighbors<usize>> {
        self.neighbors@
    }

    /// The number of nodes.
    pub open(crate) spec fn count(&self) -> int {
        self.neighbors@.len() as int
    }

    /// The table is well formed.
    pub open(crate) spec fn wf(&self) -> bool {
        table_wf(self.nbs())
    }

    fn new(neighbors: Vec<Neighbors<usize>>) -> (r: Index)
        ensures
            r.nbs() == neighbors@,
    {
        Index { neighbors }
    }

    pub(crate) fn all_neighbors(&self) -> (r: &Vec<Neighbors<usize>>)
        ensures
            r@ == self.nbs(),
    {
        &self.neighbors
    }

    /// How many nodes the table holds.
    pub fn len(&self) -> (r: usize)
        ensures
            r == self.count(),
    {
        self.neighbors.len()
    }

    /// The parent of `index`, if any.
    pub fn parent(&self, index: usize) -> (r: Option<usize>)
        ensures
            r == spec_parent(self.nbs(), index as int),
    {
        if index < self.neighbors.len() {
            self.neighbors[index].parent
        } else {
            None
        }
    }

    /// The first child of `index`: the node at `index + 1`, exactly when that
    /// node exists and has `index` as its parent.
    pub fn first_child(&self, index: usize) -> (r: Option<usize>)
        ensures
            r == spec_first_child(self.nbs(), index as int),
    {
        let n = self.neighbors.len();
        if index < n && index + 1 < n {
            match self.neighbors[index + 1].parent {
                Some(p) => if p == index {
                    Some(index + 1)
                } else {
                    None
                },
                None => None,
            }
        } else {
            None
        }
    }

    /// The previous sibling of `index`, if any.
    pub fn prev_sibling(&self, index: usize) -> (r: Option<usize>)
        ensures
            r == spec_prev_sibling(self.nbs(), index as int),
    {
        if index < self.neighbors.len() {
            self.neighbors[index].prev_sibling
        } else {
            None
        }
    }

    /// The next sibling of `index`, if any.
    pub fn next_sibling(&self, index: usize) -> (r: Option<usize>)
        ensures
            r == spec_next_sibling(self.nbs(), index as int),
    {
        if index < self.neighbors.len() {
            self.neighbors[index].next_sibling
        } else {
            None
        }
    }

    /// All children of `index`, in document order.
    pub fn children(&self, index: usize) -> (r: Vec<usize>)
        requires
            self.wf(),
        ensures
            is_child_list(self.nbs(), index as int, r@),
            is_sibling_chain(self.nbs(), index as int, r@),
    {
        let _n: usize = self.neighbors.len();
        let mut res: Vec<usize> = Vec::new();
        let mut cur: Option<usize> = self.first_child(index);
        while cur.is_some()
            invariant
                self.wf(),
                forall|k: int|
                    0 <= k < res@.len() ==> (#[trigger] res@[k]) < self.nbs().len()
                        && self.nbs()[res@[k] as int].parent == Some(index),
                forall|k: int| 0 <= k < res@.len() - 1 ==> (#[trigger] res@[k]) < res@[k + 1],
                res@.len() == 0 ==> cur == spec_first_child(self.nbs(), index as int),
                res@.len() > 0 ==> res@[0] == index + 1,
                forall|k: int|
                    0 <= k < res@.len() - 1 ==> self.nbs()[(#[trigger] res@[k]) as int].next_sibling
                        == Some(res@[k + 1]),
                res@.len() > 0 ==> cur == self.nbs()[res@[res@.len() - 1] as int].next_sibling,
                match cur {
                    Some(c) => c < self.nbs().len() && self.nbs()[c as int].parent == Some(index)
                        && (res@.len() > 0 ==> res@[res@.len() - 1] < c),
                    None => true,
                },
            decreases (if cur is Some {
                self.nbs().len() - cur->0
            } else {
                0int
            }),
        {
            let c = cur.unwrap();
            proof {
                assert(node_wf(self.nbs(), c as int));
            }
            res.push(c);
            cur = self.next_sibling(c);
        }
        proof {
            assert(is_sibling_chain(self.nbs(), index as int, res@));
            assert forall|j: int|
                0 <= j < self.nbs().len() && (#[trigger] self.nbs()[j].parent) == Some(
                    index,
                ) implies res@.contains(j as usize) by {
                assert(node_wf(self.nbs(), j));
                lemma_child_in_chain(self.nbs(), index as int, res@, j);
            }
        }
        res
    }
}

/// Walks through an index without owning it.
pub struct Navigator<'a> {
    pub(crate) index: &'a Index,
    pub(crate) pos: usize,
}

impl<'a> Navigator<'a> {
    pub open(crate) spec fn table(&self) -> Seq<Neighbors<usize>> {
        self.index.nbs()
    }

    pub open(crate) spec fn position(&self) -> int {
        self.pos as int
    }

    pub open(crate) spec fn table_wf(&self) -> bool {
        self.index.wf()
    }

    fn new(index: &'a Index, pos: usize) -> (r: Navigator<'a>)
        ensures
            r.table() == index.nbs(),
            r.position() == pos,
            r.table_wf() == index.wf(),
    {
        Navigator { index, pos }
    }

    fn moved(&self, new_pos: usize) -> (r: Navigator<'a>)
        ensures
            r.table() == self.table(),
            r.position() == new_pos,
            r.table_wf() == self.table_wf(),
    {
        Navigator { index: self.index, pos: new_pos }
    }

    /// A navigator at the parent, if any.
    pub fn parent(&self) -> (r: Option<Navigator<'a>>)
        ensures
            match r {
                Some(n) => n.table() == self.table() && n.table_wf() == self.table_wf() && Some(
                    n.position() as usize,
                ) == spec_parent(self.table(), self.position()),
                None => spec_parent(self.table(), self.position()) is None,
            },
    {
        match self.index.parent(self.pos) {
            Some(p) => Some(self.moved(p)),
            None => None,
        }
    }

    /// Navigators at all children, in document order.
    pub fn children(&self) -> (r: Vec<Navigator<'a>>)
        requires
            self.table_wf(),
        ensures
            is_child_list(
                self.table(),
                self.position(),
                r@.map_values(|n: Navigator<'a>| n.position() as usize),
            ),
            forall|k: int|
                0 <= k < r@.len() ==> (#[trigger] r@[k]).table() == self.table()
                    && r@[k].table_wf(),
    {
        let indices = self.index.children(self.pos);
        let mut r: Vec<Navigator<'a>> = Vec::new();
        let mut i: usize = 0;
        while i < indices.len()
            invariant
                i <= indices@.len(),
                r@.len() == i,
                forall|k: int| 0 <= k < i ==> (#[trigger] r@[k]).pos == indices@[k],
                forall|k: int|
                    0 <= k < i ==> (#[trigger] r@[k]).table() == self.table() && r@[k].table_wf()
                        == self.table_wf(),
                self.table_wf(),
                is_child_list(self.table(), self.position(), indices@),
            decreases indices@.len() - i,
        {
            r.push(self.moved(indices[i]));
            i = i + 1;
        }
        proof {
            assert(r@.map_values(|n: Navigator<'a>| n.position() as usize) =~= indices@);
        }
        r
    }

    /// A navigator at the previous sibling, if any.
    pub fn prev_sibling(&self) -> (r: Option<Navigator<'a>>)
        ensures
            match r {
                Some(n) => n.table() == self.table() && n.table_wf() == self.table_wf() && Some(
                    n.position() as usize,
                ) == spec_prev_sibling(self.table(), self.position()),
                None => spec_prev_sibling(self.table(), self.position()) is None,
            },
    {
        match self.index.prev_sibling(self.pos) {
            Some(p) => Some(self.moved(p)),
            None => None,
        }
    }

    /// A navigator at the next sibling, if any.
    pub fn next_sibling(&self) -> (r: Option<Navigator<'a>>)
        ensures
            match r {
                Some(n) => n.table() == self.table() && n.table_wf() == self.table_wf() && Some(
                    n.position() as usize,
                ) == spec_next_sibling(self.table(), self.position()),
                None => spec_next_sibling(self.table(), self.position()) is None,
            },
    {
        match self.index.next_sibling(self.pos) {
            Some(p) => Some(self.moved(p)),
            None => None,
        }
    }
}

/// Builds a neighbour table from open/close/empty element events.
pub struct Builder {
    pub(crate) parents_stack: Vec<usize>,
    pub(crate) last_sibling: Option<usize>,
    pub(crate) cur_neighbors: Vec<Neighbors<usize>>,
}

impl Builder {
    pub open(crate) spec fn nbs(&self) -> Seq<Neighbors<usize>> {
        self.cur_neighbors@
    }

    pub open(crate) spec fn stack(&self) -> Seq<usize> {
        self.parents_stack@
    }

    pub open(crate) spec fn count(&self) -> int {
        self.cur_neighbors@.len() as int
    }

    pub open(crate) spec fn last_sib(&self) -> Option<usize> {
        self.last_sibling
    }

    /// The builder invariant: the table built so far is well formed, the
    /// stack holds the still-open elements from the outside in, and
    /// `last_sibling` is the most recently closed element at the current
    /// depth.
    pub open(crate) spec fn wf(&self) -> bool {
        let nbs = self.nbs();
        let stack = self.stack();
        &&& table_wf(nbs)
        &&& forall|k: int| 0 <= k < stack.len() ==> (#[trigger] stack[k]) < nbs.len()
        &&& forall|k: int|
            0 <= k < stack.len() ==> nbs[(#[trigger] stack[k]) as int].next_sibling is None
        &&& forall|k: int| 0 <= k < stack.len() - 1 ==> (#[trigger] stack[k]) < stack[k + 1]
        &&& forall|k: int|
            0 < k < stack.len() ==> nbs[(#[trigger] stack[k]) as int].parent == Some(stack[k - 1])
        &&& (stack.len() > 0 ==> nbs[stack[0] as int].parent is None)
        &&& match self.last_sibling {
            Some(l) => {
                &&& l < nbs.len()
                &&& nbs[l as int].next_sibling is None
                &&& nbs[l as int].parent == (if stack.len() > 0 {
                    Some(stack[stack.len() - 1])
                } else {
                    Option::<usize>::None
                })
                &&& (stack.len() > 0 ==> stack[stack.len() - 1] < l)
            },
            None => {
                if stack.len() > 0 {
                    stack[stack.len() - 1] + 1 == nbs.len()
                } else {
                    nbs.len() == 0
                }
            },
        }
    }

    pub fn new() -> (r: Builder)
        ensures
            r.wf(),
            r.count() == 0,
            r.stack().len() == 0,
            r.last_sib() is None,
    {
        Builder { cur_neighbors: Vec::new(), parents_stack: Vec::new(), last_sibling: None }
    }

    /// Opens an element: appends a node whose parent is the innermost open
    /// element and pushes it on the stack.  Returns the new node's index.
    pub fn start_element(&mut self) -> (my_index: usize)
        requires
            old(self).wf(),
            old(self).count() < usize::MAX,
        ensures
            final(self).wf(),
            my_index == old(self).count(),
            final(self).count() == old(self).count() + 1,
            final(self).stack() == old(self).stack().push(my_index),
            final(self).nbs()[my_index as int].parent == (if old(self).stack().len() > 0 {
                Some(old(self).stack()[old(self).stack().len() - 1])
            } else {
                Option::<usize>::None
            }),
            final(self).nbs()[my_index as int].prev_sibling == old(self).last_sib(),
            final(self).nbs()[my_index as int].next_sibling is None,
            final(self).last_sib() is None,
            forall|i: int|
                0 <= i < old(self).count() && old(self).last_sib() != Some(i as usize)
                    ==> final(self).nbs()[i] == old(self).nbs()[i],
            match old(self).last_sib() {
                Some(l) => final(self).nbs()[l as int].me == old(self).nbs()[l as int].me
                    && final(self).nbs()[l as int].parent == old(self).nbs()[l as int].parent
                    && final(self).nbs()[l as int].prev_sibling == old(self).nbs()[
                    l as int
                ].prev_sibling && final(self).nbs()[l as int].next_sibling == Some(my_index),
                None => true,
            },
    {
        let my_index = self.push_node();
        self.parents_stack.push(my_index);
        self.last_sibling = None;
        proof {
            let nbs = self.nbs();
            let stack = self.stack();
            assert forall|k: int| 0 <= k < stack.len() - 1 implies (#[trigger] stack[k]) < stack[k
                + 1] by {
                if k < stack.len() - 2 {
                    assert(old(self).stack()[k] < old(self).stack()[k + 1]);
                }
            }
        }
        my_index
    }

    /// Closes the innermost open element.  It becomes the last sibling at
    /// the depth above, and its index is returned.
    pub fn end_element(&mut self) -> (r: usize)
        requires
            old(self).wf(),
            old(self).stack().len() > 0,
        ensures
            final(self).wf(),
            final(self).nbs() == old(self).nbs(),
            final(self).count() == old(self).count(),
            final(self).stack() == old(self).stack().drop_last(),
            r == old(self).stack()[old(self).stack().len() - 1],
            final(self).last_sib() == Some(r),
    {
        let p = self.parents_stack.pop().unwrap();
        self.last_sibling = Some(p);
        proof {
            let stack = old(self).stack();
            if stack.len() > 1 {
                assert(stack[stack.len() - 2] < stack[stack.len() - 1]);
            }
            assert(final(self).stack() =~= stack.drop_last());
        }
        p
    }

    /// Opens and immediately closes an element (an empty element).  Returns
    /// its index.
    pub fn start_end_element(&mut self) -> (my_index: usize)
        requires
            old(self).wf(),
            old(self).count() < usize::MAX,
        ensures
            final(self).wf(),
            my_index == old(self).count(),
            final(self).count() == old(self).count() + 1,
            final(self).stack() == old(self).stack(),
            final(self).nbs()[my_index as int].parent == (if old(self).stack().len() > 0 {
                Some(old(self).stack()[old(self).stack().len() - 1])
            } else {
                Option::<usize>::None
            }),
            final(self).last_sib() == Some(my_index),
            final(self).nbs()[my_index as int].prev_sibling == old(self).last_sib(),
            final(self).nbs()[my_index as int].next_sibling is None,
            forall|i: int|
                0 <= i < old(self).count() && old(self).last_sib() != Some(i as usize)
                    ==> final(self).nbs()[i] == old(self).nbs()[i],
            match old(self).last_sib() {
                Some(l) => final(self).nbs()[l as int].me == old(self).nbs()[l as int].me
                    && final(self).nbs()[l as int].parent == old(self).nbs()[l as int].parent
                    && final(self).nbs()[l as int].prev_sibling == old(self).nbs()[
                    l as int
                ].prev_sibling && final(self).nbs()[l as int].next_sibling == Some(my_index),
                None => true,
            },
    {
        let my_index = self.push_node();
        self.last_sibling = Some(my_index);
        my_index
    }

    /// Appends the new node and patches the sibling link; shared by
    /// `start_element` and `start_end_element`.
    fn push_node(&mut self) -> (my_index: usize)
        requires
            old(self).wf(),
            old(self).count() < usize::MAX,
        ensures
            my_index == old(self).count(),
            final(self).count() == old(self).count() + 1,
            final(self).stack() == old(self).stack(),
            final(self).last_sib() == old(self).last_sib(),
            table_wf(final(self).nbs()),
            final(self).nbs()[my_index as int].me == Some(my_index),
            final(self).nbs()[my_index as int].parent == (if old(self).stack().len() > 0 {
                Some(old(self).stack()[old(self).stack().len() - 1])
            } else {
                Option::<usize>::None
            }),
            final(self).nbs()[my_index as int].next_sibling is None,
            final(self).nbs()[my_index as int].prev_sibling == old(self).last_sib(),
            forall|i: int|
                0 <= i < old(self).count() && old(self).last_sib() != Some(i as usize)
                    ==> final(self).nbs()[i] == old(self).nbs()[i],
            match old(self).last_sib() {
                Some(l) => final(self).nbs()[l as int].me == old(self).nbs()[l as int].me && final(self).nbs()[l as int].parent == old(self).nbs()[l as int].parent && final(self).nbs()[l as int].prev_sibling == old(self).nbs()[l as int].prev_sibling && final(self).nbs()[l as int].next_sibling == Some(my_index),
                None => true,
            },
            // the new node keeps the stack invariants usable by the callers
            forall|k: int|
                0 <= k < old(self).stack().len() ==> final(self).nbs()[(#[trigger] old(
                    self,
                ).stack()[k]) as int].next_sibling is None,
    {
        let my_index = self.cur_neighbors.len();
        let parent: Option<usize> = if self.parents_stack.len() > 0 {
            Some(self.parents_stack[self.parents_stack.len() - 1])
        } else {
            None
        };
        self.cur_neighbors.push(
            Neighbors {
                me: Some(my_index),
                parent,
                next_sibling: None,
                prev_sibling: self.last_sibling,
            },
        );
        if self.last_sibling.is_some() {
            let ls = self.last_sibling.unwrap();
            let old_nb = self.cur_neighbors[ls];
            self.cur_neighbors[ls] = Neighbors {
                me: old_nb.me,
                parent: old_nb.parent,
                next_sibling: Some(my_index),
                prev_sibling: old_nb.prev_sibling,
            };
        }
        proof {
            let nbs = self.nbs();
            let prev = old(self).nbs();
            let stack = old(self).stack();
            // the patched sibling is never on the stack: stack entries have no
            // next sibling recorded, and the patch target had none either but
            // lies beyond the innermost open element
            if stack.len() > 0 {
                let top = stack[stack.len() - 1];
                assert(node_wf(prev, top as int));
                assert forall|k: int| 0 <= k < stack.len() implies (#[trigger] stack[k])
                    <= top by {
                    lemma_adjacent_increasing(stack, k, stack.len() - 1);
                }
            }
            assert forall|i: int| 0 <= i < nbs.len() implies #[trigger] node_wf(nbs, i) by {
                if i < prev.len() {
                    assert(node_wf(prev, i));
                    match prev[i].prev_sibling {
                        Some(q) => {
                            assert(node_wf(prev, q as int));
                        },
                        None => {},
                    }
                    match prev[i].next_sibling {
                        Some(s) => {
                            assert(node_wf(prev, s as int));
                        },
                        None => {},
                    }
                } else {
                    assert(i == my_index);
                    match old(self).last_sib() {
                        Some(l) => {
                            assert(node_wf(prev, l as int));
                        },
                        None => {},
                    }
                }
            }
        }
        my_index
    }

    /// Finishes building; the well-formed neighbour table is handed over.
    pub fn build(self) -> (r: Index)
        requires
            self.wf(),
        ensures
            r.wf(),
            r.nbs() == self.nbs(),
    {
        Index::new(self.cur_neighbors)
    }
}

} // verus!
