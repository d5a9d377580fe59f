//! Configuration of the matching pipeline: the rule set and its priorities.

pub mod matching_rules;

pub use matching_rules::MatchingRule;
pub use matching_rules::MatchingRules;

use vstd::prelude::*;

verus! {

/// The whole configuration; today only the matching rules.
#[derive(Debug)]
pub struct Config {
    pub matching: MatchingRules,
}

impl Default for Config {
    /// The built-in rule set with its default priorities.
    fn default() -> (r: Config)
        ensures
            matching_rules::rule::is_default_rules(r.matching.rules@),
            r.matching.priorities@.len() == 6,
            r.matching.priorities@[0]@ == "next_is_same_text"@,
            r.matching.priorities@[1]@ == "all"@,
            r.matching.priorities@[2]@ == "with_reorder"@,
            r.matching.priorities@[3]@ == "without_attr"@,
            r.matching.priorities@[4]@ == "without_text"@,
            r.matching.priorities@[5]@ == "only_tag"@,
    {
        Config { matching: MatchingRules::default() }
    }
}

} // verus!
