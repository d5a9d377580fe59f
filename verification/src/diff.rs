//! Matching state between two documents: the identifier generator and the
//! per-element matching states that the edit-script builder consumes.

pub mod hashmap_diff;
pub mod matching;
pub mod matching_ids;
pub mod step;

pub use hashmap_diff::HashMapDiff;
pub use matching::get_matching_ids;
pub use matching_ids::MatchingState;
pub use step::DiffStep;
