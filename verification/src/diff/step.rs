//! One step of an edit script.  The consumer replays the steps in order;
//! the phase order (adds, removes, moves, changes) is part of the external
//! contract.

use vstd::prelude::*;

use crate::diff::hashmap_diff::HashMapDiff;

verus! {

/// Removal of an identified node.
#[derive(Debug, Clone)]
pub struct RemoveDiff {
    pub id: String,
    pub parent_id: String,
    pub prev_child_id: Option<String>,
    pub next_child_id: Option<String>,
}

/// Insertion of a serialised subtree under a parent, between two siblings.
#[derive(Debug, Clone)]
pub struct AddDiff {
    pub svg: String,
    pub id: String,
    pub parent_id: String,
    pub prev_child_id: Option<String>,
    pub next_child_id: Option<String>,
}

/// Reordering of an identified node to a new position.
#[derive(Debug, Clone)]
pub struct MoveDiff {
    pub id: String,
    pub new_parent_id: String,
    pub new_prev_child_id: Option<String>,
    pub new_next_child_id: Option<String>,
}

/// One attribute that changed value.
#[derive(Debug, Clone)]
pub struct ChangedProperty {
    pub prop: String,
    pub start: String,
    pub end: String,
}

/// One attribute that was added or removed.
#[derive(Debug, Clone)]
pub struct Property {
    pub prop: String,
    pub value: String,
}

/// The attribute delta of one matched node.
#[derive(Debug, Clone)]
pub struct ChangePropertiesDiff {
    pub id: String,
    pub adds: Vec<Property>,
    pub removes: Vec<Property>,
    pub changes: Vec<ChangedProperty>,
}

/// The new character data of one matched node.
#[derive(Debug, Clone)]
pub struct ChangeTextDiff {
    pub id: String,
    pub new_text: String,
}

/// One typed edit step.
#[derive(Debug, Clone)]
pub enum DiffStep {
    Remove(RemoveDiff),
    Add(AddDiff),
    ChangeProperties(ChangePropertiesDiff),
    ChangeText(ChangeTextDiff),
    Move(MoveDiff),
}

/// The phase a step belongs to: adds come first, then removes, then moves,
/// then the two kinds of changes.
pub open spec fn step_rank(s: DiffStep) -> int {
    match s {
        DiffStep::Add(_) => 0,
        DiffStep::Remove(_) => 1,
        DiffStep::Move(_) => 2,
        DiffStep::ChangeProperties(_) => 3,
        DiffStep::ChangeText(_) => 3,
    }
}

/// The fixed phase order of an edit script: every add before every remove,
/// every remove before every move, every move before every change.
pub open spec fn phase_order(steps: Seq<DiffStep>) -> bool {
    forall|a: int, b: int|
        0 <= a < b < steps.len() ==> step_rank(#[trigger] steps[a]) <= step_rank(
            #[trigger] steps[b],
        )
}

impl DiffStep {
    /// A remove step from its position fields.
    pub fn remove(id: String, parent_id: String, prev: Option<String>, next: Option<String>) -> (r:
        DiffStep)
        ensures
            r == DiffStep::Remove(
                RemoveDiff { id, parent_id, prev_child_id: prev, next_child_id: next },
            ),
    {
        DiffStep::Remove(RemoveDiff { id, parent_id, prev_child_id: prev, next_child_id: next })
    }

    /// An add step from the serialised subtree and its position fields.
    pub fn add(
        svg: String,
        id: String,
        parent_id: String,
        prev: Option<String>,
        next: Option<String>,
    ) -> (r: DiffStep)
        ensures
            r == DiffStep::Add(
                AddDiff { svg, id, parent_id, prev_child_id: prev, next_child_id: next },
            ),
    {
        DiffStep::Add(AddDiff { svg, id, parent_id, prev_child_id: prev, next_child_id: next })
    }

    /// A move step from its new position fields.
    pub fn move_element(id: String, parent_id: String, prev: Option<String>, next: Option<String>)
        -> (r: DiffStep)
        ensures
            r == DiffStep::Move(
                MoveDiff {
                    id,
                    new_parent_id: parent_id,
                    new_prev_child_id: prev,
                    new_next_child_id: next,
                },
            ),
    {
        DiffStep::Move(
            MoveDiff {
                id,
                new_parent_id: parent_id,
                new_prev_child_id: prev,
                new_next_child_id: next,
            },
        )
    }

    /// A text-change step.
    pub fn text_change(id: String, new_text: String) -> (r: DiffStep)
        ensures
            r == DiffStep::ChangeText(ChangeTextDiff { id, new_text }),
    {
        DiffStep::ChangeText(ChangeTextDiff { id, new_text })
    }

    /// A property-change step from an attribute delta: deleted keys become
    /// `removes`, new keys become `adds`, and keys with different values
    /// become `changes` carrying the serialised value before and after.
    pub fn change(id: String, delta: &HashMapDiff) -> (r: DiffStep)
        ensures
            r is ChangeProperties,
            r->ChangeProperties_0.id == id,
            r->ChangeProperties_0.adds@.len() == delta.adds@.len(),
            r->ChangeProperties_0.removes@.len() == delta.deletes@.len(),
            r->ChangeProperties_0.changes@.len() == delta.changes@.len(),
            forall|t: int|
                0 <= t < delta.adds@.len() ==> (#[trigger] r->ChangeProperties_0.adds@[t]).prop@
                    == delta.adds@[t].0@ && r->ChangeProperties_0.adds@[t].value@
                    == delta.adds@[t].1@,
            forall|t: int|
                0 <= t < delta.deletes@.len() ==> (#[trigger] r->ChangeProperties_0.removes@[t]).prop@
                    == delta.deletes@[t].0@ && r->ChangeProperties_0.removes@[t].value@
                    == delta.deletes@[t].1@,
            forall|t: int|
                0 <= t < delta.changes@.len() ==> (#[trigger] r->ChangeProperties_0.changes@[t]).prop@
                    == delta.changes@[t].0@ && r->ChangeProperties_0.changes@[t].start@
                    == delta.changes@[t].1@ && r->ChangeProperties_0.changes@[t].end@
                    == delta.changes@[t].2@,
    {
        let mut adds: Vec<Property> = Vec::new();
        let mut i: usize = 0;
        while i < delta.adds.len()
            invariant
                i <= delta.adds@.len(),
                adds@.len() == i,
                forall|t: int|
                    0 <= t < i ==> (#[trigger] adds@[t]).prop@ == delta.adds@[t].0@
                        && adds@[t].value@ == delta.adds@[t].1@,
            decreases delta.adds@.len() - i,
        {
            adds.push(
                Property { prop: delta.adds[i].0.clone(), value: delta.adds[i].1.clone() },
            );
            i = i + 1;
        }
        let mut removes: Vec<Property> = Vec::new();
        let mut j: usize = 0;
        while j < delta.deletes.len()
            invariant
                j <= delta.deletes@.len(),
                removes@.len() == j,
                forall|t: int|
                    0 <= t < j ==> (#[trigger] removes@[t]).prop@ == delta.deletes@[t].0@
                        && removes@[t].value@ == delta.deletes@[t].1@,
            decreases delta.deletes@.len() - j,
        {
            removes.push(
                Property { prop: delta.deletes[j].0.clone(), value: delta.deletes[j].1.clone() },
            );
            j = j + 1;
        }
        let mut changes: Vec<ChangedProperty> = Vec::new();
        let mut k: usize = 0;
        while k < delta.changes.len()
            invariant
                k <= delta.changes@.len(),
                changes@.len() == k,
                forall|t: int|
                    0 <= t < k ==> (#[trigger] changes@[t]).prop@ == delta.changes@[t].0@
                        && changes@[t].start@ == delta.changes@[t].1@ && changes@[t].end@
                        == delta.changes@[t].2@,
            decreases delta.changes@.len() - k,
        {
            changes.push(
                ChangedProperty {
                    prop: delta.changes[k].0.clone(),
                    start: delta.changes[k].1.clone(),
                    end: delta.changes[k].2.clone(),
                },
            );
            k = k + 1;
        }
        DiffStep::ChangeProperties(ChangePropertiesDiff { id, adds, removes, changes })
    }

    /// Whether this is an add step.
    pub fn is_add(&self) -> (r: bool)
        ensures
            r == (*self is Add),
    {
        match self {
            DiffStep::Add(_) => true,
            _ => false,
        }
    }

    /// Whether this is a remove step.
    pub fn is_remove(&self) -> (r: bool)
        ensures
            r == (*self is Remove),
    {
        match self {
            DiffStep::Remove(_) => true,
            _ => false,
        }
    }

    /// Whether this is a property-change step.
    pub fn is_change(&self) -> (r: bool)
        ensures
            r == (*self is ChangeProperties),
    {
        match self {
            DiffStep::ChangeProperties(_) => true,
            _ => false,
        }
    }

    /// Whether this is a text-change step.
    pub fn is_text_change(&self) -> (r: bool)
        ensures
            r == (*self is ChangeText),
    {
        match self {
            DiffStep::ChangeText(_) => true,
            _ => false,
        }
    }

    /// Whether this is a move step.
    pub fn is_move(&self) -> (r: bool)
        ensures
            r == (*self is Move),
    {
        match self {
            DiffStep::Move(_) => true,
            _ => false,
        }
    }
}

} // verus!
