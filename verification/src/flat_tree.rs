//! An array-backed rose tree.
//!
//! Nodes are stored in one indexed sequence in document order; a parallel
//! neighbour table gives, per index, the parent / previous-sibling /
//! next-sibling indices.  The root is index 0, the parent of a node has a
//! smaller index than the node, and the first child of a non-leaf node `i` is
//! always `i + 1`.

pub mod index;
pub mod navigator;
pub mod tree;
pub mod values;

pub use index::Neighbors as FlatTreeNeighbors;
pub use navigator::Navigator;
pub use navigator::NavigatorWithValues;
pub use tree::Builder as FlatTreeBuilder;
pub use tree::FlatTree;
