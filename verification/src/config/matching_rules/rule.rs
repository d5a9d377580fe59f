//! One matching rule: a declarative description of what counts as equal
//! when two elements are fingerprinted.

use vstd::prelude::*;

use crate::svg_data::tag::Tag;
use crate::text::cmp_chars;
use crate::text::chars_of;
use crate::text::cp_eq;

verus! {

/// Which attributes take part in a rule's fingerprint.
#[derive(Debug)]
pub struct MatchingAttrRule {
    /// When set, only these attribute names take part.
    pub included_attr: Option<Vec<String>>,
    /// These attribute names never take part.
    pub exclude_attr: Vec<String>,
    /// When false, the positional attributes `x`, `y`, `cx`, `cy` are left
    /// out and a path's leading absolute move is ignored.
    pub with_pos: bool,
    /// When false, the style attributes `fill` and `stroke` are left out.
    pub with_style: bool,
}

/// One rule: for the matching elements it applies to, the fingerprint folds
/// the tag name, optionally the text, optionally the children (under a rule
/// of their own, sorted or in order), the surviving attributes, and
/// optionally a sibling's digest.
#[derive(Debug)]
pub struct MatchingRule {
    pub name: String,
    pub apply_to_tags: Option<Vec<String>>,
    pub dont_apply_to_tags: Vec<String>,
    pub attr: Option<MatchingAttrRule>,
    pub include_text: bool,
    pub recursive: bool,
    pub childrens_rule: Option<String>,
    pub sort_children: bool,
    pub prev_sibling_rule: Option<String>,
    pub next_sibling_rule: Option<String>,
}

/// Membership in a name list, by code points.
pub open spec fn in_names(names: Seq<String>, k: Seq<char>) -> bool {
    exists|i: int| 0 <= i < names.len() && cp_eq((#[trigger] names[i])@, k)
}

/// Whether the rule is defined for a tag of this name.
pub open spec fn spec_applies_to_tag(r: &MatchingRule, name: Seq<char>) -> bool {
    &&& match r.apply_to_tags {
        Some(inc) => in_names(inc@, name),
        None => true,
    }
    &&& !in_names(r.dont_apply_to_tags@, name)
}

/// Whether the attribute named `attr` is left out of the rule's
/// fingerprint.  Without an attribute filter no attribute takes part.
pub open spec fn spec_attr_is_excluded(r: &MatchingRule, attr: Seq<char>) -> bool {
    match r.attr {
        None => true,
        Some(ar) => {
            ||| in_names(ar.exclude_attr@, attr)
            ||| (!ar.with_pos && (cp_eq(attr, "x"@) || cp_eq(attr, "y"@) || cp_eq(attr, "cx"@)
                || cp_eq(attr, "cy"@)))
            ||| (!ar.with_style && (cp_eq(attr, "fill"@) || cp_eq(attr, "stroke"@)))
            ||| (match ar.included_attr {
                Some(inc) => !in_names(inc@, attr),
                None => false,
            })
        },
    }
}

/// Whether the attribute named `attr` takes part in the rule's fingerprint.
pub open spec fn spec_attr_included(r: &MatchingRule, attr: Seq<char>) -> bool {
    !spec_attr_is_excluded(r, attr)
}

/// An attribute filter that lets every attribute take part.
pub open spec fn is_plain_attr_filter(a: MatchingAttrRule) -> bool {
    &&& a.included_attr is None
    &&& a.exclude_attr@.len() == 0
    &&& a.with_pos
    &&& a.with_style
}

/// A default rule of the reorder-insensitive family: applies to every tag,
/// recursive with sorted children under its own name, no sibling rules;
/// `with_attr` says whether attributes take part (through a plain filter)
/// and `with_text` whether the text does.
pub open spec fn is_reorder_rule(
    r: MatchingRule,
    name: Seq<char>,
    with_attr: bool,
    with_text: bool,
) -> bool {
    &&& r.name@ == name
    &&& r.apply_to_tags is None
    &&& r.dont_apply_to_tags@.len() == 0
    &&& (if with_attr {
        r.attr is Some && is_plain_attr_filter(r.attr->0)
    } else {
        r.attr is None
    })
    &&& r.include_text == with_text
    &&& r.recursive
    &&& r.childrens_rule is None
    &&& r.sort_children
    &&& r.prev_sibling_rule is None
    &&& r.next_sibling_rule is None
}

/// The `next_is_same_text` default rule: local text only (no attributes, no
/// descendants), defined only where the next sibling carries a digest under
/// `same_text_in_text` — a rule name no default rule defines, so this rule
/// never yields a digest under the default rule set.
pub open spec fn is_next_is_same_text_rule(r: MatchingRule) -> bool {
    &&& r.name@ == "next_is_same_text"@
    &&& r.apply_to_tags is None
    &&& r.dont_apply_to_tags@.len() == 0
    &&& r.attr is Some
    &&& r.attr->0.included_attr is Some
    &&& r.attr->0.included_attr->0@.len() == 0
    &&& r.attr->0.exclude_attr@.len() == 0
    &&& r.attr->0.with_pos
    &&& r.attr->0.with_style
    &&& r.include_text
    &&& !r.recursive
    &&& r.childrens_rule is None
    &&& !r.sort_children
    &&& r.prev_sibling_rule is None
    &&& r.next_sibling_rule is Some
    &&& r.next_sibling_rule->0@ == "same_text_in_text"@
}

/// The default configured rule list, rule by rule.
pub open spec fn is_default_rules(rs: Seq<MatchingRule>) -> bool {
    &&& rs.len() == 5
    &&& is_next_is_same_text_rule(rs[0])
    &&& is_reorder_rule(rs[1], "with_reorder"@, true, true)
    &&& is_reorder_rule(rs[2], "without_attr"@, false, true)
    &&& is_reorder_rule(rs[3], "without_text"@, true, false)
    &&& is_reorder_rule(rs[4], "only_tag"@, false, false)
}

/// Does some list entry equal `k` by code points?
pub fn names_contain(names: &Vec<String>, k: &Vec<char>) -> (r: bool)
    ensures
        r == in_names(names@, k@),
{
    let n = names.len();
    let mut i: usize = 0;
    while i < n
        invariant
            i <= n,
            n == names@.len(),
            forall|j: int| 0 <= j < i ==> !cp_eq((#[trigger] names@[j])@, k@),
        decreases n - i,
    {
        let cs = chars_of(names[i].as_str());
        if cmp_chars(&cs, k) == 0 {
            return true;
        }
        i = i + 1;
    }
    false
}

impl MatchingRule {
    /// The built-in `all` rule: everything counts, children in order.
    pub fn new_all_rule() -> (r: MatchingRule)
        ensures
            r.name@ == "all"@,
            r.apply_to_tags is None,
            r.dont_apply_to_tags@.len() == 0,
            r.attr is Some,
            r.attr->0.included_attr is None,
            r.attr->0.exclude_attr@.len() == 0,
            r.attr->0.with_pos,
            r.attr->0.with_style,
            r.include_text,
            r.recursive,
            r.childrens_rule is None,
            !r.sort_children,
            r.prev_sibling_rule is None,
            r.next_sibling_rule is None,
    {
        MatchingRule {
            name: "all".to_owned(),
            apply_to_tags: None,
            dont_apply_to_tags: Vec::new(),
            attr: Some(
                MatchingAttrRule {
                    included_attr: None,
                    exclude_attr: Vec::new(),
                    with_pos: true,
                    with_style: true,
                },
            ),
            include_text: true,
            recursive: true,
            childrens_rule: None,
            sort_children: false,
            prev_sibling_rule: None,
            next_sibling_rule: None,
        }
    }

    /// The baseline rule for a node on its own: everything local counts, no
    /// descendants.  (It keeps the name `all`, as the original rule set
    /// does.)
    pub fn new_all_without_subtrees_rule() -> (r: MatchingRule)
        ensures
            r.name@ == "all"@,
            r.apply_to_tags is None,
            r.dont_apply_to_tags@.len() == 0,
            r.attr is Some,
            r.attr->0.included_attr is None,
            r.attr->0.exclude_attr@.len() == 0,
            r.attr->0.with_pos,
            r.attr->0.with_style,
            r.include_text,
            !r.recursive,
            r.childrens_rule is None,
            !r.sort_children,
            r.prev_sibling_rule is None,
            r.next_sibling_rule is None,
    {
        MatchingRule {
            name: "all".to_owned(),
            apply_to_tags: None,
            dont_apply_to_tags: Vec::new(),
            attr: Some(
                MatchingAttrRule {
                    included_attr: None,
                    exclude_attr: Vec::new(),
                    with_pos: true,
                    with_style: true,
                },
            ),
            include_text: true,
            recursive: false,
            childrens_rule: None,
            sort_children: false,
            prev_sibling_rule: None,
            next_sibling_rule: None,
        }
    }

    /// The baseline rule for the subtree below a node: attribute-agnostic
    /// and textless locally, children under their `all` digests, in order.
    pub fn new_all_subtrees_rule() -> (r: MatchingRule)
        ensures
            r.name@ == "all_children"@,
            r.apply_to_tags is None,
            r.dont_apply_to_tags@.len() == 0,
            r.attr is None,
            !r.include_text,
            r.recursive,
            r.childrens_rule is Some,
            r.childrens_rule->0@ == "all"@,
            !r.sort_children,
            r.prev_sibling_rule is None,
            r.next_sibling_rule is None,
    {
        MatchingRule {
            name: "all_children".to_owned(),
            apply_to_tags: None,
            dont_apply_to_tags: Vec::new(),
            attr: None,
            include_text: false,
            recursive: true,
            childrens_rule: Some("all".to_owned()),
            sort_children: false,
            prev_sibling_rule: None,
            next_sibling_rule: None,
        }
    }

    /// The default configured rules, in declaration order:
    /// `next_is_same_text`, `with_reorder`, `without_attr`, `without_text`,
    /// `only_tag`.
    pub fn default_rules() -> (r: Vec<MatchingRule>)
        ensures
            is_default_rules(r@),
    {
        let mut rules: Vec<MatchingRule> = Vec::new();
        rules.push(
            MatchingRule {
                name: "next_is_same_text".to_owned(),
                apply_to_tags: None,
                dont_apply_to_tags: Vec::new(),
                attr: Some(
                    MatchingAttrRule {
                        included_attr: Some(Vec::new()),
                        exclude_attr: Vec::new(),
                        with_pos: true,
                        with_style: true,
                    },
                ),
                include_text: true,
                recursive: false,
                childrens_rule: None,
                sort_children: false,
                prev_sibling_rule: None,
                next_sibling_rule: Some("same_text_in_text".to_owned()),
            },
        );
        rules.push(
            MatchingRule {
                name: "with_reorder".to_owned(),
                apply_to_tags: None,
                dont_apply_to_tags: Vec::new(),
                attr: Some(
                    MatchingAttrRule {
                        included_attr: None,
                        exclude_attr: Vec::new(),
                        with_pos: true,
                        with_style: true,
                    },
                ),
                include_text: true,
                recursive: true,
                childrens_rule: None,
                sort_children: true,
                prev_sibling_rule: None,
                next_sibling_rule: None,
            },
        );
        rules.push(
            MatchingRule {
                name: "without_attr".to_owned(),
                apply_to_tags: None,
                dont_apply_to_tags: Vec::new(),
                attr: None,
                include_text: true,
                recursive: true,
                childrens_rule: None,
                sort_children: true,
                prev_sibling_rule: None,
                next_sibling_rule: None,
            },
        );
        rules.push(
            MatchingRule {
                name: "without_text".to_owned(),
                apply_to_tags: None,
                dont_apply_to_tags: Vec::new(),
                attr: Some(
                    MatchingAttrRule {
                        included_attr: None,
                        exclude_attr: Vec::new(),
                        with_pos: true,
                        with_style: true,
                    },
                ),
                include_text: false,
                recursive: true,
                childrens_rule: None,
                sort_children: true,
                prev_sibling_rule: None,
                next_sibling_rule: None,
            },
        );
        rules.push(
            MatchingRule {
                name: "only_tag".to_owned(),
                apply_to_tags: None,
                dont_apply_to_tags: Vec::new(),
                attr: None,
                include_text: false,
                recursive: true,
                childrens_rule: None,
                sort_children: true,
                prev_sibling_rule: None,
                next_sibling_rule: None,
            },
        );
        rules
    }

    /// Whether this rule is defined for `tag`.
    pub fn applies_to_tag(&self, tag: &Tag) -> (r: bool)
        ensures
            r == spec_applies_to_tag(self, tag.name@),
    {
        let name = chars_of(tag.name.as_str());
        let inc_ok = match &self.apply_to_tags {
            Some(inc) => names_contain(inc, &name),
            None => true,
        };
        if !inc_ok {
            return false;
        }
        !names_contain(&self.dont_apply_to_tags, &name)
    }

    /// Whether the attribute named `attr` is left out of this rule's
    /// fingerprint.
    pub fn attr_is_excluded(&self, attr: &Vec<char>) -> (r: bool)
        ensures
            r == spec_attr_is_excluded(self, attr@),
    {
        match &self.attr {
            None => true,
            Some(ar) => {
                if names_contain(&ar.exclude_attr, attr) {
                    return true;
                }
                if !ar.with_pos {
                    let x = chars_of("x");
                    let y = chars_of("y");
                    let cx = chars_of("cx");
                    let cy = chars_of("cy");
                    if cmp_chars(attr, &x) == 0 || cmp_chars(attr, &y) == 0 || cmp_chars(
                        attr,
                        &cx,
                    ) == 0 || cmp_chars(attr, &cy) == 0 {
                        return true;
                    }
                }
                if !ar.with_style {
                    let fill = chars_of("fill");
                    let stroke = chars_of("stroke");
                    if cmp_chars(attr, &fill) == 0 || cmp_chars(attr, &stroke) == 0 {
                        return true;
                    }
                }
                match &ar.included_attr {
                    Some(inc) => !names_contain(inc, attr),
                    None => false,
                }
            },
        }
    }

    /// The indices of the attributes of `tag` that take part in this rule's
    /// fingerprint, in the stored (sorted) order.
    pub fn included_attr_indices(&self, tag: &Tag) -> (r: Vec<usize>)
        ensures
            r@ == Seq::new(tag.args@.len() as nat, |i: int| i as usize).filter(
                |i: usize| spec_attr_included(self, tag.args@[i as int].0@),
            ),
    {
        let n = tag.args.len();
        let mut r: Vec<usize> = Vec::new();
        let mut i: usize = 0;
        proof {
            assert(Seq::new(0nat, |i: int| i as usize).filter(
                |i: usize| spec_attr_included(self, tag.args@[i as int].0@),
            ) =~= Seq::<usize>::empty());
        }
        while i < n
            invariant
                i <= n,
                n == tag.args@.len(),
                r@ == Seq::new(i as nat, |k: int| k as usize).filter(
                    |k: usize| spec_attr_included(self, tag.args@[k as int].0@),
                ),
            decreases n - i,
        {
            let key = chars_of(tag.args[i].0.as_str());
            let excluded = self.attr_is_excluded(&key);
            proof {
                let pre = Seq::new(i as nat, |k: int| k as usize);
                let cur = Seq::new((i + 1) as nat, |k: int| k as usize);
                assert(cur.drop_last() =~= pre);
                assert(cur.last() == i as usize);
                assert(cur.filter(|k: usize| spec_attr_included(self, tag.args@[k as int].0@))
                    == (if spec_attr_included(self, tag.args@[i as int].0@) {
                    pre.filter(|k: usize| spec_attr_included(self, tag.args@[k as int].0@)).push(
                        i as usize,
                    )
                } else {
                    pre.filter(|k: usize| spec_attr_included(self, tag.args@[k as int].0@))
                })) by {
                    reveal(Seq::filter);
                }
            }
            if !excluded {
                r.push(i);
                proof {
                    assert(r@ =~= Seq::new((i + 1) as nat, |k: int| k as usize).filter(
                        |k: usize| spec_attr_included(self, tag.args@[k as int].0@),
                    ));
                }
            } else {
                proof {
                    assert(r@ =~= Seq::new((i + 1) as nat, |k: int| k as usize).filter(
                        |k: usize| spec_attr_included(self, tag.args@[k as int].0@),
                    ));
                }
            }
            i = i + 1;
        }
        proof {
            assert(Seq::new(n as nat, |k: int| k as usize) =~= Seq::new(
                tag.args@.len() as nat,
                |i: int| i as usize,
            ));
        }
        r
    }
}

} // verus!
