//! The rule set used for matching, with the priority order in which rules
//! are tried.

pub mod rule;

pub use rule::MatchingAttrRule;
pub use rule::MatchingRule;

use vstd::prelude::*;

verus! {

/// The configured rules and the rule names in matching priority order.
#[derive(Debug)]
pub struct MatchingRules {
    pub rules: Vec<MatchingRule>,
    pub priorities: Vec<String>,
}

impl Default for MatchingRules {
    /// The built-in rules, tried in the order `next_is_same_text`, `all`,
    /// `with_reorder`, `without_attr`, `without_text`, `only_tag`.
    fn default() -> (r: MatchingRules)
        ensures
            rule::is_default_rules(r.rules@),
            r.priorities@.len() == 6,
            r.priorities@[0]@ == "next_is_same_text"@,
            r.priorities@[1]@ == "all"@,
            r.priorities@[2]@ == "with_reorder"@,
            r.priorities@[3]@ == "without_attr"@,
            r.priorities@[4]@ == "without_text"@,
            r.priorities@[5]@ == "only_tag"@,
    {
        let mut priorities: Vec<String> = Vec::new();
        priorities.push("next_is_same_text".to_owned());
        priorities.push("all".to_owned());
        priorities.push("with_reorder".to_owned());
        priorities.push("without_attr".to_owned());
        priorities.push("without_text".to_owned());
        priorities.push("only_tag".to_owned());
        MatchingRules { rules: MatchingRule::default_rules(), priorities }
    }
}

} // verus!
