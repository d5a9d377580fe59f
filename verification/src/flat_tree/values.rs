//! A plain value table indexed like a flat tree: one entry per node.

use vstd::prelude::*;

verus! {

/// Per-node side values, indexed by node index.
#[derive(Debug)]
pub struct Values<A> {
    pub(crate) values: Vec<A>,
}

impl<A> Values<A> {
    pub open(crate) spec fn vals(&self) -> Seq<A> {
        self.values@
    }

    /// The value at `index`, if it exists.
    pub fn get(&self, index: usize) -> (r: Option<&A>)
        ensures
            match r {
                Some(a) => index < self.vals().len() && *a == self.vals()[index as int],
                None => index >= self.vals().len(),
            },
    {
        if index < self.values.len() {
            Some(&self.values[index])
        } else {
            None
        }
    }

    /// Wraps a vector of per-node values.
    pub fn from_vec(v: Vec<A>) -> (r: Values<A>)
        ensures
            r.vals() == v@,
    {
        Values { values: v }
    }
}

} // verus!
