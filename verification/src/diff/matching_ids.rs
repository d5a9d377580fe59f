//! Creation and handling of matching identifiers.
//!
//! A matching identifier records which element of the origin document was
//! matched to which element of the target document.

pub mod generator;
pub mod matching_state;

pub use generator::MatchingIdGenerator;
pub use matching_state::MatchingState;
