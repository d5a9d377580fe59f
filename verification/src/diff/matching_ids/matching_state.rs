//! How one element was matched (or left unmatched) between the two
//! documents.

use vstd::prelude::*;

use crate::diff::matching_ids::generator::MatchingIdGenerator;
use crate::svg_data::TreeHash;

verus! {

/// The matching state of one element.
///
/// A *matched* state carries the shared identifier, both indices and three
/// outcomes of the baseline digest comparisons; an *unmatched* state
/// carries the identifier and the index on its own side only.
#[derive(Debug, Clone)]
pub struct MatchingState {
    pub matching_id: String,
    pub origin_index: Option<usize>,
    pub target_index: Option<usize>,
    pub no_changes: bool,
    pub subtree_changes: bool,
    pub internal_changes: bool,
    pub no_match: bool,
}

impl MatchingState {
    /// The identifier, as stored in the `id` attribute of the element.
    pub fn get_id(&self) -> (r: String)
        ensures
            r@ == self.matching_id@,
    {
        self.matching_id.clone()
    }

    /// An equal state (the one shared by both sides of a pair).
    pub fn duplicate(&self) -> (r: MatchingState)
        ensures
            r == *self,
    {
        MatchingState {
            matching_id: self.matching_id.clone(),
            origin_index: self.origin_index,
            target_index: self.target_index,
            no_changes: self.no_changes,
            subtree_changes: self.subtree_changes,
            internal_changes: self.internal_changes,
            no_match: self.no_match,
        }
    }

    /// The state of a matched pair: the three change flags come from the
    /// three baseline digest comparisons, and the identifier is the
    /// origin's own `id` attribute when it has one, else a fresh one.
    pub fn new(
        g: &mut MatchingIdGenerator,
        origin_index: usize,
        target_index: usize,
        hash: &TreeHash,
        o_hash: &TreeHash,
        default_id: Option<String>,
    ) -> (r: MatchingState)
        requires
            old(g).counter() < u64::MAX,
        ensures
            final(g).prefix_view() == old(g).prefix_view(),
            final(g).counter() == old(g).counter() + (if default_id is Some {
                0int
            } else {
                1int
            }),
            r.matching_id@ == (match default_id {
                Some(d) => d@,
                None => crate::diff::matching_ids::generator::gen_id(
                    old(g).prefix_view(),
                    old(g).counter(),
                ),
            }),
            r.origin_index == Some(origin_index),
            r.target_index == Some(target_index),
            r.no_changes == (hash.all == o_hash.all),
            r.subtree_changes == (hash.all_subtrees != o_hash.all_subtrees),
            r.internal_changes == (hash.all_without_subtrees != o_hash.all_without_subtrees),
            !r.no_match,
    {
        let no_changes = hash.eq_all(o_hash);
        let subtree_changes = !hash.eq_all_subtrees(o_hash);
        let internal_changes = !hash.eq_all_without_subtrees(o_hash);
        MatchingState {
            matching_id: g.next(default_id),
            origin_index: Some(origin_index),
            target_index: Some(target_index),
            no_changes,
            subtree_changes,
            internal_changes,
            no_match: false,
        }
    }

    /// The state of an element with no partner on the other side.
    pub fn new_unmatched(
        index: usize,
        is_origin: bool,
        g: &mut MatchingIdGenerator,
        default_id: Option<String>,
    ) -> (r: MatchingState)
        requires
            old(g).counter() < u64::MAX,
        ensures
            final(g).prefix_view() == old(g).prefix_view(),
            final(g).counter() == old(g).counter() + (if default_id is Some {
                0int
            } else {
                1int
            }),
            r.matching_id@ == (match default_id {
                Some(d) => d@,
                None => crate::diff::matching_ids::generator::gen_id(
                    old(g).prefix_view(),
                    old(g).counter(),
                ),
            }),
            r.origin_index == (if is_origin {
                Some(index)
            } else {
                Option::<usize>::None
            }),
            r.target_index == (if is_origin {
                Option::<usize>::None
            } else {
                Some(index)
            }),
            r.no_match,
            !r.no_changes,
            !r.subtree_changes,
            !r.internal_changes,
    {
        MatchingState {
            matching_id: g.next(default_id),
            no_changes: false,
            origin_index: if is_origin {
                Some(index)
            } else {
                None
            },
            target_index: if is_origin {
                None
            } else {
                Some(index)
            },
            subtree_changes: false,
            internal_changes: false,
            no_match: true,
        }
    }

    /// The elements are identical, subtrees included.
    pub fn full_match(&self) -> (r: bool)
        ensures
            r == self.no_changes,
    {
        self.no_changes
    }

    /// Something below the element differs between the sides.
    pub fn changes_in_subtree(&self) -> (r: bool)
        ensures
            r == self.subtree_changes,
    {
        self.subtree_changes
    }

    /// The element itself (attributes or text) differs between the sides.
    pub fn changes_in_node(&self) -> (r: bool)
        ensures
            r == self.internal_changes,
    {
        self.internal_changes
    }

    /// The element has no partner.
    pub fn is_unmatched(&self) -> (r: bool)
        ensures
            r == self.no_match,
    {
        self.no_match
    }

    /// The index on the target side, if the element exists there.
    pub fn get_target_index(&self) -> (r: Option<usize>)
        ensures
            r == self.target_index,
    {
        self.target_index
    }

    /// The index on the origin side, if the element exists there.
    pub fn get_origin_index(&self) -> (r: Option<usize>)
        ensures
            r == self.origin_index,
    {
        self.origin_index
    }
}

} // verus!
