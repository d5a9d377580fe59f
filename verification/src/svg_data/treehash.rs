//! Per-node fingerprints: for every node a family of 64-bit digests, one
//! per rule, computed bottom-up over the tree.

use vstd::prelude::*;

use crate::config::MatchingRule;
use crate::config::matching_rules::rule::spec_applies_to_tag;
use crate::config::matching_rules::rule::spec_attr_included;
use crate::hasher::FNV_OFFSET;
use crate::hasher::Fnv;
use crate::hasher::fnv_fold;
use crate::hasher::fnv_update;
use crate::hasher::le_bytes;
use crate::svg_data::attributes::att_bytes;
use crate::svg_data::tag::Tag;
use crate::text::chars_of;
use crate::text::cmp_chars;
use crate::text::cp_eq;

verus! {

/// The fingerprints of one node: the three baseline digests and one digest
/// per configured rule that is defined for the node.
#[derive(Debug, Clone)]
pub struct TreeHash {
    pub all: u64,
    pub all_subtrees: u64,
    pub all_without_subtrees: u64,
    pub rules: Vec<(String, u64)>,
}

/// The digest stored under a rule name, if any (first match by code
/// points).
pub open spec fn rules_lookup(rules: Seq<(String, u64)>, name: Seq<char>) -> Option<u64>
    decreases rules.len(),
{
    if rules.len() == 0 {
        None
    } else if cp_eq(rules[0].0@, name) {
        Some(rules[0].1)
    } else {
        rules_lookup(rules.drop_first(), name)
    }
}

/// The named baseline digests are stored in the rule map under their names.
pub open spec fn th_wf(th: TreeHash) -> bool {
    &&& rules_lookup(th.rules@, "all"@) == Some(th.all)
    &&& rules_lookup(th.rules@, "all_subtrees"@) == Some(th.all_subtrees)
    &&& rules_lookup(th.rules@, "all_without_subtrees"@) == Some(th.all_without_subtrees)
}

/// A sibling's digest under a rule name.
pub open spec fn sibling_value(sib: Option<TreeHash>, name: Seq<char>) -> Option<u64> {
    match sib {
        Some(th) => rules_lookup(th.rules@, name),
        None => None,
    }
}

/// Insertion into a sorted digest list.
pub open spec fn insert_sorted(x: u64, s: Seq<u64>) -> Seq<u64>
    decreases s.len(),
{
    if s.len() == 0 {
        seq![x]
    } else if x <= s[0] {
        seq![x] + s
    } else {
        seq![s[0]] + insert_sorted(x, s.drop_first())
    }
}

/// The digests in ascending order.
pub open spec fn sort_u64(s: Seq<u64>) -> Seq<u64>
    decreases s.len(),
{
    if s.len() == 0 {
        Seq::empty()
    } else {
        insert_sorted(s[0], sort_u64(s.drop_first()))
    }
}

/// The `all`-family digests of the children, under the rule the children
/// are evaluated with; `None` when some child lacks that digest.
pub open spec fn child_digests(children: Seq<TreeHash>, rule_name: Seq<char>) -> Option<Seq<u64>>
    decreases children.len(),
{
    if children.len() == 0 {
        Some(Seq::empty())
    } else {
        match rules_lookup(children[0].rules@, rule_name) {
            Some(v) => match child_digests(children.drop_first(), rule_name) {
                Some(rest) => Some(seq![v] + rest),
                None => None,
            },
            None => None,
        }
    }
}

/// Folding a list of digests into the hasher state.
pub open spec fn fold_u64s(h: u64, vs: Seq<u64>) -> u64
    decreases vs.len(),
{
    if vs.len() == 0 {
        h
    } else {
        fold_u64s(fnv_fold(h, le_bytes(vs[0])), vs.drop_first())
    }
}

/// Folding the surviving attributes (by index) into the hasher state: for
/// each, the value's bytes under the rule's modifiers, then the name.
pub open spec fn fold_attrs(h: u64, tag: Tag, idx: Seq<usize>, with_pos: bool, with_style: bool) -> u64
    decreases idx.len(),
{
    if idx.len() == 0 {
        h
    } else {
        let i = idx[0] as int;
        let h1 = fnv_fold(h, att_bytes(tag.args@[i].1, with_pos));
        let h2 = fnv_fold(h1, vstd::utf8::encode_utf8(tag.args@[i].0@));
        let h3 = fnv_update(h2, 0xff);
        fold_attrs(h3, tag, idx.drop_first(), with_pos, with_style)
    }
}

/// The digest of one node under one rule, from its tag, its children's
/// fingerprints and its siblings' fingerprints; `None` when the rule is not
/// defined for the node.  The digest is a pure function of these inputs.
pub open spec fn spec_calc_hash(
    rule: &MatchingRule,
    tag: Tag,
    children: Seq<TreeHash>,
    prev_sibling: Option<TreeHash>,
    next_sibling: Option<TreeHash>,
) -> Option<u64> {
    if !spec_applies_to_tag(rule, tag.name@) {
        None
    } else {
        let h0 = FNV_OFFSET;
        let p = match rule.prev_sibling_rule {
            Some(pr) => match sibling_value(prev_sibling, pr@) {
                Some(v) => Some(fnv_fold(h0, le_bytes(v))),
                None => None,
            },
            None => Some(h0),
        };
        match p {
            None => None,
            Some(h1) => {
                let q = match rule.next_sibling_rule {
                    Some(nr) => match sibling_value(next_sibling, nr@) {
                        Some(v) => Some(fnv_fold(h1, le_bytes(v))),
                        None => None,
                    },
                    None => Some(h1),
                };
                match q {
                    None => None,
                    Some(h2) => {
                        let h3 = fnv_update(
                            fnv_fold(h2, vstd::utf8::encode_utf8(tag.name@)),
                            0xff,
                        );
                        let h4 = if rule.include_text {
                            fnv_update(
                                fnv_fold(h3, vstd::utf8::encode_utf8(tag.text@)),
                                0xff,
                            )
                        } else {
                            h3
                        };
                        let cr = match rule.childrens_rule {
                            Some(c) => c@,
                            None => rule.name@,
                        };
                        let c = if rule.recursive {
                            match child_digests(children, cr) {
                                Some(vs) => Some(
                                    fold_u64s(
                                        h4,
                                        if rule.sort_children {
                                            sort_u64(vs)
                                        } else {
                                            vs
                                        },
                                    ),
                                ),
                                None => None,
                            }
                        } else {
                            Some(h4)
                        };
                        match c {
                            None => None,
                            Some(h5) => {
                                let idx = Seq::new(
                                    tag.args@.len() as nat,
                                    |i: int| i as usize,
                                ).filter(|i: usize| spec_attr_included(rule, tag.args@[i as int].0@));
                                let (wp, ws) = match rule.attr {
                                    Some(ar) => (ar.with_pos, ar.with_style),
                                    None => (true, true),
                                };
                                Some(fold_attrs(h5, tag, idx, wp, ws))
                            },
                        }
                    },
                }
            },
        }
    }
}

impl TreeHash {
    /// Equal `all` digests: the subtrees are equal in every aspect, in
    /// order.
    pub fn eq_all(&self, o: &TreeHash) -> (r: bool)
        ensures
            r == (self.all == o.all),
    {
        self.all == o.all
    }

    /// Equal `all_subtrees` digests: the children below both nodes are
    /// equal.
    pub fn eq_all_subtrees(&self, o: &TreeHash) -> (r: bool)
        ensures
            r == (self.all_subtrees == o.all_subtrees),
    {
        self.all_subtrees == o.all_subtrees
    }

    /// Equal `all_without_subtrees` digests: the nodes themselves (name,
    /// text, attributes) are equal.
    pub fn eq_all_without_subtrees(&self, o: &TreeHash) -> (r: bool)
        ensures
            r == (self.all_without_subtrees == o.all_without_subtrees),
    {
        self.all_without_subtrees == o.all_without_subtrees
    }

    /// Both nodes carry a digest for the named rule, and the digests are
    /// equal.
    pub fn eq_rule(&self, name: &str, o: &TreeHash) -> (r: bool)
        ensures
            r == match (rules_lookup(self.rules@, name@), rules_lookup(o.rules@, name@)) {
                (Some(a), Some(b)) => a == b,
                _ => false,
            },
    {
        let my = self.get_rule(name);
        let other = o.get_rule(name);
        match (my, other) {
            (Some(a), Some(b)) => a == b,
            _ => false,
        }
    }

    /// The digest stored under a rule name, if any.
    pub fn get_rule(&self, name: &str) -> (r: Option<u64>)
        ensures
            r == rules_lookup(self.rules@, name@),
    {
        let key = chars_of(name);
        let n = self.rules.len();
        let mut i: usize = 0;
        proof {
            assert(self.rules@.skip(0) =~= self.rules@);
        }
        while i < n
            invariant
                i <= n,
                n == self.rules@.len(),
                key@ == name@,
                rules_lookup(self.rules@, name@) == rules_lookup(
                    self.rules@.skip(i as int),
                    name@,
                ),
            decreases n - i,
        {
            let entry_key = chars_of(self.rules[i].0.as_str());
            proof {
                assert(self.rules@.skip(i as int)[0] == self.rules@[i as int]);
                assert(self.rules@.skip(i as int).drop_first() =~= self.rules@.skip(i + 1));
            }
            if cmp_chars(&entry_key, &key) == 0 {
                return Some(self.rules[i].1);
            }
            i = i + 1;
        }
        proof {
            assert(self.rules@.skip(n as int) =~= Seq::<(String, u64)>::empty());
        }
        None
    }

    /// A fingerprint with all digests zero; the value every slot starts
    /// from while the table is being built.
    pub fn empty() -> (r: TreeHash)
        ensures
            r.all == 0 && r.all_subtrees == 0 && r.all_without_subtrees == 0 && r.rules@.len()
                == 0,
    {
        TreeHash { all: 0, all_subtrees: 0, all_without_subtrees: 0, rules: Vec::new() }
    }

    /// The digest of one node under one rule; `None` when the rule is not
    /// defined for the node (a tag filter or a missing sibling or child
    /// digest).
    pub fn calc_hash(
        rule: &MatchingRule,
        tag: &Tag,
        children: &Vec<&TreeHash>,
        prev_sibling: Option<&TreeHash>,
        next_sibling: Option<&TreeHash>,
    ) -> (r: Option<u64>)
        ensures
            r == spec_calc_hash(
                rule,
                *tag,
                children@.map_values(|t: &TreeHash| *t),
                match prev_sibling {
                    Some(t) => Some(*t),
                    None => None,
                },
                match next_sibling {
                    Some(t) => Some(*t),
                    None => None,
                },
            ),
    {
        let ghost cviews = children@.map_values(|t: &TreeHash| *t);
        let ghost pview = match prev_sibling {
            Some(t) => Some(*t),
            None => None,
        };
        let ghost nview = match next_sibling {
            Some(t) => Some(*t),
            None => None,
        };
        if !rule.applies_to_tag(tag) {
            return None;
        }
        let mut hasher = Fnv::new();
        match &rule.prev_sibling_rule {
            Some(pr) => {
                let v = match prev_sibling {
                    Some(th) => th.get_rule(pr.as_str()),
                    None => None,
                };
                match v {
                    Some(v) => {
                        hasher.write_u64(v);
                    },
                    None => {
                        return None;
                    },
                }
            },
            None => {},
        }
        match &rule.next_sibling_rule {
            Some(nr) => {
                let v = match next_sibling {
                    Some(th) => th.get_rule(nr.as_str()),
                    None => None,
                };
                match v {
                    Some(v) => {
                        hasher.write_u64(v);
                    },
                    None => {
                        return None;
                    },
                }
            },
            None => {},
        }
        hasher.write_bytes(tag.name.as_str().as_bytes());
        hasher.write_u8(0xff);
        if rule.include_text {
            hasher.write_bytes(tag.text.as_str().as_bytes());
            hasher.write_u8(0xff);
        }
        if rule.recursive {
            let cr: &str = match &rule.childrens_rule {
                Some(c) => c.as_str(),
                None => rule.name.as_str(),
            };
            let vs = match collect_child_digests(children, cr) {
                Some(vs) => vs,
                None => {
                    return None;
                },
            };
            let ordered = if rule.sort_children {
                sort_digests(&vs)
            } else {
                vs
            };
            let m = ordered.len();
            let ghost ovals = ordered@;
            let ghost h4 = hasher.digest();
            let mut j: usize = 0;
            proof {
                assert(ovals.take(0) =~= Seq::<u64>::empty());
            }
            while j < m
                invariant
                    j <= m,
                    m == ordered@.len(),
                    ovals == ordered@,
                    hasher.digest() == fold_u64s(h4, ovals.take(j as int)),
                decreases m - j,
            {
                hasher.write_u64(ordered[j]);
                j = j + 1;
                proof {
                    assert(ovals.take(j as int).drop_last() =~= ovals.take(j - 1));
                    assert(ovals.take(j as int).last() == ovals[j - 1]);
                    lemma_fold_u64s_push(h4, ovals.take(j - 1), ovals[j - 1]);
                    assert(ovals.take(j - 1).push(ovals[j - 1]) =~= ovals.take(j as int));
                }
            }
            proof {
                assert(ovals.take(m as int) =~= ovals);
            }
        }
        // the surviving attributes, in stored (sorted) order
        let idx = rule.included_attr_indices(tag);
        let (wp, ws): (bool, bool) = match &rule.attr {
            Some(ar) => (ar.with_pos, ar.with_style),
            None => (true, true),
        };
        let ni = idx.len();
        let ghost ivals = idx@;
        let ghost h5 = hasher.digest();
        let mut k: usize = 0;
        let _na: usize = tag.args.len();
        proof {
            assert(ivals.take(0) =~= Seq::<usize>::empty());
            lemma_filter_elems_bound(
                Seq::new(tag.args@.len() as nat, |i: int| i as usize),
                |i: usize| spec_attr_included(rule, tag.args@[i as int].0@),
                tag.args@.len() as int,
            );
        }
        while k < ni
            invariant
                k <= ni,
                ni == idx@.len(),
                ivals == idx@,
                forall|t: int| 0 <= t < ivals.len() ==> (#[trigger] ivals[t]) < tag.args@.len(),
                wp == (match rule.attr {
                    Some(ar) => ar.with_pos,
                    None => true,
                }),
                ws == (match rule.attr {
                    Some(ar) => ar.with_style,
                    None => true,
                }),
                hasher.digest() == fold_attrs(h5, *tag, ivals.take(k as int), wp, ws),
            decreases ni - k,
        {
            let ai = idx[k];
            tag.args[ai].1.hash_with_modifier(wp, ws, &mut hasher);
            hasher.write_bytes(tag.args[ai].0.as_str().as_bytes());
            hasher.write_u8(0xff);
            k = k + 1;
            proof {
                assert(ivals.take(k as int).drop_last() =~= ivals.take(k - 1));
                assert(ivals.take(k as int).last() == ivals[k - 1]);
                lemma_fold_attrs_push(h5, *tag, ivals.take(k - 1), ivals[k - 1], wp, ws);
                assert(ivals.take(k - 1).push(ivals[k - 1]) =~= ivals.take(k as int));
            }
        }
        proof {
            assert(ivals.take(ni as int) =~= ivals);
        }
        Some(hasher.finish())
    }
}

/// Folding one more digest extends the fold at the end.
proof fn lemma_fold_u64s_push(h: u64, vs: Seq<u64>, x: u64)
    ensures
        fold_u64s(h, vs.push(x)) == fnv_fold(fold_u64s(h, vs), le_bytes(x)),
    decreases vs.len(),
{
    let t = vs.push(x);
    if vs.len() == 0 {
        assert(t[0] == x);
        assert(t.drop_first() =~= Seq::<u64>::empty());
        assert(fold_u64s(h, t) == fold_u64s(fnv_fold(h, le_bytes(x)), t.drop_first()));
        assert(fold_u64s(h, vs) == h);
    } else {
        assert(t[0] == vs[0]);
        assert(t.drop_first() =~= vs.drop_first().push(x));
        lemma_fold_u64s_push(fnv_fold(h, le_bytes(vs[0])), vs.drop_first(), x);
        assert(fold_u64s(h, t) == fold_u64s(fnv_fold(h, le_bytes(t[0])), t.drop_first()));
        assert(fold_u64s(h, vs) == fold_u64s(fnv_fold(h, le_bytes(vs[0])), vs.drop_first()));
    }
}

/// Folding one more attribute extends the fold at the end.
proof fn lemma_fold_attrs_push(h: u64, tag: Tag, idx: Seq<usize>, x: usize, wp: bool, ws: bool)
    ensures
        fold_attrs(h, tag, idx.push(x), wp, ws) == ({
            let i = x as int;
            let h1 = fnv_fold(fold_attrs(h, tag, idx, wp, ws), att_bytes(tag.args@[i].1, wp));
            let h2 = fnv_fold(h1, vstd::utf8::encode_utf8(tag.args@[i].0@));
            fnv_update(h2, 0xff)
        }),
    decreases idx.len(),
{
    let t = idx.push(x);
    if idx.len() == 0 {
        assert(t[0] == x);
        assert(t.drop_first() =~= Seq::<usize>::empty());
        let i = x as int;
        let g1 = fnv_fold(h, att_bytes(tag.args@[i].1, wp));
        let g2 = fnv_fold(g1, vstd::utf8::encode_utf8(tag.args@[i].0@));
        let g3 = fnv_update(g2, 0xff);
        assert(fold_attrs(h, tag, t, wp, ws) == fold_attrs(g3, tag, t.drop_first(), wp, ws));
        assert(fold_attrs(g3, tag, t.drop_first(), wp, ws) == g3);
        assert(fold_attrs(h, tag, idx, wp, ws) == h);
    } else {
        assert(t[0] == idx[0]);
        assert(t.drop_first() =~= idx.drop_first().push(x));
        let i0 = idx[0] as int;
        let h1 = fnv_fold(h, att_bytes(tag.args@[i0].1, wp));
        let h2 = fnv_fold(h1, vstd::utf8::encode_utf8(tag.args@[i0].0@));
        let h3 = fnv_update(h2, 0xff);
        lemma_fold_attrs_push(h3, tag, idx.drop_first(), x, wp, ws);
        assert(fold_attrs(h, tag, t, wp, ws) == fold_attrs(h3, tag, t.drop_first(), wp, ws));
        assert(fold_attrs(h, tag, idx, wp, ws) == fold_attrs(h3, tag, idx.drop_first(), wp, ws));
    }
}

/// Every element of a filtered index list stays below the bound of the
/// original list.
proof fn lemma_filter_elems_bound(s: Seq<usize>, pred: spec_fn(usize) -> bool, bound: int)
    requires
        forall|i: int| 0 <= i < s.len() ==> (#[trigger] s[i]) < bound,
    ensures
        forall|t: int|
            0 <= t < s.filter(pred).len() ==> (#[trigger] s.filter(pred)[t]) < bound,
    decreases s.len(),
{
    reveal(Seq::filter);
    if s.len() > 0 {
        assert forall|i: int| 0 <= i < s.drop_last().len() implies (#[trigger] s.drop_last()[i])
            < bound by {
            assert(s.drop_last()[i] == s[i]);
        }
        lemma_filter_elems_bound(s.drop_last(), pred, bound);
        let out = s.filter(pred);
        let sub = s.drop_last().filter(pred);
        assert forall|t: int| 0 <= t < out.len() implies (#[trigger] out[t]) < bound by {
            if pred(s.last()) {
                assert(out == sub.push(s.last()));
                if t < out.len() - 1 {
                    assert(out[t] == sub[t]);
                }
            } else {
                assert(out == sub);
            }
        }
    }
}

/// Collects the children's digests under `cr`; `None` when some child
/// lacks one.
fn collect_child_digests(children: &Vec<&TreeHash>, cr: &str) -> (r: Option<Vec<u64>>)
    ensures
        match r {
            Some(vs) => child_digests(children@.map_values(|t: &TreeHash| *t), cr@) == Some(vs@),
            None => child_digests(children@.map_values(|t: &TreeHash| *t), cr@) is None,
        },
{
    let ghost cviews = children@.map_values(|t: &TreeHash| *t);
    let mut vs: Vec<u64> = Vec::new();
    let n = children.len();
    let mut i: usize = 0;
    proof {
        assert(cviews.skip(0) =~= cviews);
        assert(child_digests(cviews, cr@) == (match child_digests(cviews.skip(0), cr@) {
            Some(rest) => Some(vs@ + rest),
            None => Option::<Seq<u64>>::None,
        })) by {
            if child_digests(cviews, cr@) is Some {
                assert(vs@ + child_digests(cviews, cr@)->0 =~= child_digests(cviews, cr@)->0);
            }
        }
    }
    while i < n
        invariant
            i <= n,
            n == children@.len(),
            cviews == children@.map_values(|t: &TreeHash| *t),
            child_digests(cviews, cr@) == (match child_digests(cviews.skip(i as int), cr@) {
                Some(rest) => Some(vs@ + rest),
                None => Option::<Seq<u64>>::None,
            }),
        decreases n - i,
    {
        proof {
            assert(cviews.skip(i as int)[0] == cviews[i as int]);
            assert(cviews.skip(i as int).drop_first() =~= cviews.skip(i + 1));
        }
        match children[i].get_rule(cr) {
            Some(v) => {
                let ghost pre = vs@;
                vs.push(v);
                proof {
                    if child_digests(cviews.skip(i + 1), cr@) is Some {
                        let rest = child_digests(cviews.skip(i + 1), cr@)->0;
                        assert(pre + (seq![v] + rest) =~= vs@ + rest);
                    }
                }
            },
            None => {
                return None;
            },
        }
        i = i + 1;
    }
    proof {
        assert(cviews.skip(n as int) =~= Seq::<TreeHash>::empty());
        assert(vs@ + Seq::<u64>::empty() =~= vs@);
    }
    Some(vs)
}

/// The digests in ascending order.
pub fn sort_digests(vs: &Vec<u64>) -> (r: Vec<u64>)
    ensures
        r@ == sort_u64(vs@),
{
    let n = vs.len();
    let mut r: Vec<u64> = Vec::new();
    let mut i: usize = n;
    proof {
        assert(vs@.skip(n as int) =~= Seq::<u64>::empty());
    }
    while i > 0
        invariant
            i <= n,
            n == vs@.len(),
            r@ == sort_u64(vs@.skip(i as int)),
        decreases i,
    {
        i = i - 1;
        proof {
            assert(vs@.skip(i as int)[0] == vs@[i as int]);
            assert(vs@.skip(i as int).drop_first() =~= vs@.skip(i + 1));
        }
        let x = vs[i];
        r = insert_digest(x, r);
    }
    proof {
        assert(vs@.skip(0) =~= vs@);
    }
    r
}

/// Inserts one digest into an ascending list.
fn insert_digest(x: u64, s: Vec<u64>) -> (r: Vec<u64>)
    ensures
        r@ == insert_sorted(x, s@),
    decreases s@.len(),
{
    if s.len() == 0 {
        let mut r: Vec<u64> = Vec::new();
        r.push(x);
        proof {
            assert(r@ =~= seq![x]);
        }
        r
    } else if x <= s[0] {
        let mut r: Vec<u64> = Vec::new();
        r.push(x);
        let mut rest = s;
        let mut k: usize = 0;
        while k < rest.len()
            invariant
                k <= rest@.len(),
                r@ == seq![x] + rest@.subrange(0, k as int),
            decreases rest@.len() - k,
        {
            r.push(rest[k]);
            k = k + 1;
            proof {
                assert(r@ =~= seq![x] + rest@.subrange(0, k as int));
            }
        }
        proof {
            assert(rest@.subrange(0, rest@.len() as int) =~= rest@);
            assert(r@ =~= seq![x] + rest@);
        }
        r
    } else {
        let mut s2 = s;
        let head = s2.remove(0);
        proof {
            assert(s2@ =~= s@.drop_first());
        }
        let tail = insert_digest(x, s2);
        let mut r: Vec<u64> = Vec::new();
        r.push(head);
        let mut k: usize = 0;
        while k < tail.len()
            invariant
                k <= tail@.len(),
                r@ == seq![head] + tail@.subrange(0, k as int),
            decreases tail@.len() - k,
        {
            r.push(tail[k]);
            k = k + 1;
            proof {
                assert(r@ =~= seq![head] + tail@.subrange(0, k as int));
            }
        }
        proof {
            assert(tail@.subrange(0, tail@.len() as int) =~= tail@);
            assert(r@ =~= seq![head] + tail@);
        }
        r
    }
}

/// The indices of all attributes.
pub open spec fn all_indices(tag: Tag) -> Seq<usize> {
    Seq::new(tag.args@.len() as nat, |i: int| i as usize)
}

/// The digest state after folding the name (and optionally the text).
pub open spec fn local_fold(tag: Tag, with_text: bool) -> u64 {
    let h3 = fnv_update(fnv_fold(FNV_OFFSET, vstd::utf8::encode_utf8(tag.name@)), 0xff);
    if with_text {
        fnv_update(fnv_fold(h3, vstd::utf8::encode_utf8(tag.text@)), 0xff)
    } else {
        h3
    }
}

/// The `all` digest: name, text, the children's `all` digests in order,
/// and every attribute.
pub open spec fn base_all_digest(tag: Tag, kid_alls: Seq<u64>) -> u64 {
    fold_attrs(fold_u64s(local_fold(tag, true), kid_alls), tag, all_indices(tag), true, true)
}

/// The `all_without_subtrees` digest: name, text and every attribute; no
/// descendants.
pub open spec fn base_without_subtrees_digest(tag: Tag) -> u64 {
    fold_attrs(local_fold(tag, true), tag, all_indices(tag), true, true)
}

/// The `all_subtrees` digest: the name and the children's `all` digests in
/// order; no text, no attributes.
pub open spec fn base_subtrees_digest(tag: Tag, kid_alls: Seq<u64>) -> u64 {
    fold_u64s(local_fold(tag, false), kid_alls)
}

/// Under `th_wf` children, the children's `all` digests are defined.
proof fn lemma_child_digests_all(children: Seq<TreeHash>)
    requires
        forall|i: int| 0 <= i < children.len() ==> th_wf(#[trigger] children[i]),
    ensures
        child_digests(children, "all"@) == Some(
            children.map_values(|t: TreeHash| t.all),
        ),
    decreases children.len(),
{
    if children.len() == 0 {
        assert(children.map_values(|t: TreeHash| t.all) =~= Seq::<u64>::empty());
    } else {
        assert(th_wf(children[0]));
        assert forall|i: int| 0 <= i < children.drop_first().len() implies th_wf(
            #[trigger] children.drop_first()[i],
        ) by {
            assert(children.drop_first()[i] == children[i + 1]);
        }
        lemma_child_digests_all(children.drop_first());
        assert(children.map_values(|t: TreeHash| t.all) =~= seq![children[0].all]
            + children.drop_first().map_values(|t: TreeHash| t.all));
    }
}

/// Filtering with an always-true predicate keeps the list.
proof fn lemma_filter_true(s: Seq<usize>, pred: spec_fn(usize) -> bool)
    requires
        forall|i: int| 0 <= i < s.len() ==> pred(#[trigger] s[i]),
    ensures
        s.filter(pred) == s,
    decreases s.len(),
{
    reveal(Seq::filter);
    if s.len() > 0 {
        assert forall|i: int| 0 <= i < s.drop_last().len() implies pred(
            #[trigger] s.drop_last()[i],
        ) by {
            assert(s.drop_last()[i] == s[i]);
        }
        lemma_filter_true(s.drop_last(), pred);
        assert(s.drop_last().push(s.last()) =~= s);
    }
}

/// Filtering with an always-false predicate empties the list.
proof fn lemma_filter_false(s: Seq<usize>, pred: spec_fn(usize) -> bool)
    requires
        forall|i: int| 0 <= i < s.len() ==> !pred(#[trigger] s[i]),
    ensures
        s.filter(pred) == Seq::<usize>::empty(),
    decreases s.len(),
{
    reveal(Seq::filter);
    if s.len() > 0 {
        assert forall|i: int| 0 <= i < s.drop_last().len() implies !pred(
            #[trigger] s.drop_last()[i],
        ) by {
            assert(s.drop_last()[i] == s[i]);
        }
        lemma_filter_false(s.drop_last(), pred);
    }
}

/// A pushed entry does not shadow earlier rule names.
proof fn lemma_rules_lookup_push(rs: Seq<(String, u64)>, p: (String, u64), k: Seq<char>)
    ensures
        rules_lookup(rs.push(p), k) == (match rules_lookup(rs, k) {
            Some(v) => Some(v),
            None => if cp_eq(p.0@, k) {
                Some(p.1)
            } else {
                None
            },
        }),
    decreases rs.len(),
{
    let t = rs.push(p);
    if rs.len() == 0 {
        assert(t[0] == p);
        assert(t.drop_first() =~= Seq::<(String, u64)>::empty());
        if cp_eq(p.0@, k) {
            assert(rules_lookup(t, k) == Some(p.1));
        } else {
            assert(rules_lookup(t, k) == rules_lookup(t.drop_first(), k));
        }
    } else {
        assert(t[0] == rs[0]);
        assert(t.drop_first() =~= rs.drop_first().push(p));
        lemma_rules_lookup_push(rs.drop_first(), p, k);
        if cp_eq(rs[0].0@, k) {
            assert(rules_lookup(t, k) == Some(rs[0].1));
            assert(rules_lookup(rs, k) == Some(rs[0].1));
        } else {
            assert(rules_lookup(t, k) == rules_lookup(t.drop_first(), k));
            assert(rules_lookup(rs, k) == rules_lookup(rs.drop_first(), k));
        }
    }
}

impl TreeHash {
    /// The three baseline digests of one node, from its tag and its
    /// children's fingerprints.
    pub fn new(tag: &Tag, children: &Vec<&TreeHash>) -> (r: TreeHash)
        requires
            forall|i: int|
                0 <= i < children@.len() ==> th_wf(*(#[trigger] children@[i])),
        ensures
            th_wf(r),
            r.all == base_all_digest(
                *tag,
                children@.map_values(|t: &TreeHash| t.all),
            ),
            r.all_without_subtrees == base_without_subtrees_digest(*tag),
            r.all_subtrees == base_subtrees_digest(
                *tag,
                children@.map_values(|t: &TreeHash| t.all),
            ),
    {
        let ghost cviews = children@.map_values(|t: &TreeHash| *t);
        proof {
            assert forall|i: int| 0 <= i < cviews.len() implies th_wf(#[trigger] cviews[i]) by {
                assert(cviews[i] == *children@[i]);
            }
            lemma_child_digests_all(cviews);
            assert(cviews.map_values(|t: TreeHash| t.all) =~= children@.map_values(
                |t: &TreeHash| t.all,
            ));
        }
        let all_rule = MatchingRule::new_all_rule();
        let aws_rule = MatchingRule::new_all_without_subtrees_rule();
        let as_rule = MatchingRule::new_all_subtrees_rule();
        proof {
            // each baseline rule applies to every tag and finds its child
            // digests, so each digest is defined
            lemma_baseline_digest(&all_rule, *tag, cviews);
            lemma_baseline_digest(&aws_rule, *tag, cviews);
            lemma_baseline_digest(&as_rule, *tag, cviews);
        }
        let all = match Self::calc_hash(&all_rule, tag, children, None, None) {
            Some(v) => v,
            None => 0,
        };
        let all_without_subtrees = match Self::calc_hash(&aws_rule, tag, children, None, None) {
            Some(v) => v,
            None => 0,
        };
        let all_subtrees = match Self::calc_hash(&as_rule, tag, children, None, None) {
            Some(v) => v,
            None => 0,
        };
        let mut rules: Vec<(String, u64)> = Vec::new();
        rules.push(("all".to_owned(), all));
        rules.push(("all_subtrees".to_owned(), all_subtrees));
        rules.push(("all_without_subtrees".to_owned(), all_without_subtrees));
        let r = TreeHash { all, all_subtrees, all_without_subtrees, rules };
        proof {
            reveal_strlit("all");
            reveal_strlit("all_subtrees");
            reveal_strlit("all_without_subtrees");
            assert(r.rules@.len() == 3);
            assert(cp_eq(r.rules@[0].0@, "all"@));
            assert(!cp_eq(r.rules@[0].0@, "all_subtrees"@));
            assert(!cp_eq(r.rules@[0].0@, "all_without_subtrees"@));
            assert(cp_eq(r.rules@[1].0@, "all_subtrees"@));
            assert(!cp_eq(r.rules@[1].0@, "all_without_subtrees"@));
            assert(cp_eq(r.rules@[2].0@, "all_without_subtrees"@));
            assert(r.rules@.drop_first()[0] == r.rules@[1]);
            assert(r.rules@.drop_first().drop_first()[0] == r.rules@[2]);
            assert(rules_lookup(r.rules@, "all"@) == Some(all));
            assert(rules_lookup(r.rules@.drop_first(), "all_subtrees"@) == Some(all_subtrees));
            assert(rules_lookup(r.rules@, "all_subtrees"@) == Some(all_subtrees));
            assert(rules_lookup(r.rules@.drop_first().drop_first(), "all_without_subtrees"@)
                == Some(all_without_subtrees));
            assert(rules_lookup(r.rules@.drop_first(), "all_without_subtrees"@) == Some(
                all_without_subtrees,
            ));
            assert(rules_lookup(r.rules@, "all_without_subtrees"@) == Some(
                all_without_subtrees,
            ));
        }
        r
    }
}

/// The three baseline rules are total: the digest is always defined, and
/// equals the corresponding base digest.
proof fn lemma_baseline_digest(rule: &MatchingRule, tag: Tag, children: Seq<TreeHash>)
    requires
        forall|i: int| 0 <= i < children.len() ==> th_wf(#[trigger] children[i]),
        rule.apply_to_tags is None,
        rule.dont_apply_to_tags@.len() == 0,
        rule.prev_sibling_rule is None,
        rule.next_sibling_rule is None,
        !rule.sort_children,
        rule.recursive ==> (match rule.childrens_rule {
            Some(c) => c@ == "all"@,
            None => rule.name@ == "all"@,
        }),
        rule.attr is Some ==> (rule.attr->0.included_attr is None
            && rule.attr->0.exclude_attr@.len() == 0 && rule.attr->0.with_pos
            && rule.attr->0.with_style),
    ensures
        spec_calc_hash(rule, tag, children, None, None) == Some(
            ({
                let h4 = local_fold(tag, rule.include_text);
                let h5 = if rule.recursive {
                    fold_u64s(h4, children.map_values(|t: TreeHash| t.all))
                } else {
                    h4
                };
                if rule.attr is Some {
                    fold_attrs(h5, tag, all_indices(tag), true, true)
                } else {
                    h5
                }
            }),
        ),
{
    assert(spec_applies_to_tag(rule, tag.name@)) by {
        assert(!crate::config::matching_rules::rule::in_names(
            rule.dont_apply_to_tags@,
            tag.name@,
        ));
    }
    lemma_child_digests_all(children);
    let pred = |i: usize| spec_attr_included(rule, tag.args@[i as int].0@);
    if rule.attr is Some {
        assert forall|i: int| 0 <= i < all_indices(tag).len() implies pred(
            #[trigger] all_indices(tag)[i],
        ) by {
            assert(!crate::config::matching_rules::rule::in_names(
                rule.attr->0.exclude_attr@,
                tag.args@[all_indices(tag)[i] as int].0@,
            ));
        }
        lemma_filter_true(all_indices(tag), pred);
    } else {
        assert forall|i: int| 0 <= i < all_indices(tag).len() implies !pred(
            #[trigger] all_indices(tag)[i],
        ) by {}
        lemma_filter_false(all_indices(tag), pred);
        assert(fold_attrs(
            (if rule.recursive {
                fold_u64s(local_fold(tag, rule.include_text), children.map_values(|t: TreeHash| t.all))
            } else {
                local_fold(tag, rule.include_text)
            }),
            tag,
            Seq::<usize>::empty(),
            true,
            true,
        ) == (if rule.recursive {
            fold_u64s(local_fold(tag, rule.include_text), children.map_values(|t: TreeHash| t.all))
        } else {
            local_fold(tag, rule.include_text)
        }));
    }
}


impl Default for TreeHash {
    /// The all-zero fingerprint, used to pre-fill the table.
    fn default() -> (r: TreeHash)
        ensures
            r.all == 0 && r.all_subtrees == 0 && r.all_without_subtrees == 0 && r.rules@.len()
                == 0,
    {
        TreeHash::empty()
    }
}

/// The children's `all` digests of node `i`, read from a fingerprint
/// table.
pub open spec fn kid_alls(
    nbs: Seq<crate::flat_tree::index::Neighbors<usize>>,
    table: Seq<TreeHash>,
    i: int,
) -> Seq<u64> {
    crate::flat_tree::index::spec_children(nbs, i).map_values(|j: usize| table[j as int].all)
}

/// The fingerprint table of a document: one entry per node with the three
/// baseline digests computed bottom-up from the node's tag and children.
pub open spec fn baseline_table(svg: &crate::svg_data::svg::SVG, table: Seq<TreeHash>) -> bool {
    &&& table.len() == svg.tags.nbs().len()
    &&& forall|i: int| 0 <= i < table.len() ==> th_wf(#[trigger] table[i])
    &&& forall|i: int|
        0 <= i < table.len() ==> (#[trigger] table[i]).all == base_all_digest(
            svg.tags.vals()[i],
            kid_alls(svg.tags.nbs(), table, i),
        )
    &&& forall|i: int|
        0 <= i < table.len() ==> (#[trigger] table[i]).all_without_subtrees
            == base_without_subtrees_digest(svg.tags.vals()[i])
    &&& forall|i: int|
        0 <= i < table.len() ==> (#[trigger] table[i]).all_subtrees == base_subtrees_digest(
            svg.tags.vals()[i],
            kid_alls(svg.tags.nbs(), table, i),
        )
}

impl TreeHash {
    /// The fingerprints of every node of a document: the three baseline
    /// digests, plus one digest per configured rule where defined.
    pub fn build_for_svg(svg: &crate::svg_data::svg::SVG, rules: &Vec<MatchingRule>) -> (r: Vec<
        TreeHash,
    >)
        requires
            svg.wf(),
        ensures
            baseline_table(svg, r@),
    {
        let n = svg.tags.count();
        let mut res: Vec<TreeHash> = Vec::new();
        let mut f: usize = 0;
        while f < n
            invariant
                f <= n,
                res@.len() == f,
            decreases n - f,
        {
            res.push(TreeHash::empty());
            f = f + 1;
        }
        let mut i: usize = n;
        while i > 0
            invariant
                i <= n,
                svg.wf(),
                n == svg.tags.nbs().len(),
                res@.len() == n,
                forall|j: int| i <= j < n ==> th_wf(#[trigger] res@[j]),
                forall|j: int|
                    i <= j < n ==> (#[trigger] res@[j]).all == base_all_digest(
                        svg.tags.vals()[j],
                        kid_alls(svg.tags.nbs(), res@, j),
                    ),
                forall|j: int|
                    i <= j < n ==> (#[trigger] res@[j]).all_without_subtrees
                        == base_without_subtrees_digest(svg.tags.vals()[j]),
                forall|j: int|
                    i <= j < n ==> (#[trigger] res@[j]).all_subtrees == base_subtrees_digest(
                        svg.tags.vals()[j],
                        kid_alls(svg.tags.nbs(), res@, j),
                    ),
            decreases i,
        {
            i = i - 1;
            let kids = svg.tags.child_indices(i);
            proof {
                crate::flat_tree::index::lemma_child_list_canonical(
                    svg.tags.nbs(),
                    i as int,
                    kids@,
                );
                assert forall|k: int| 0 <= k < kids@.len() implies i < (#[trigger] kids@[k])
                    < n by {
                    assert(crate::flat_tree::index::node_wf(svg.tags.nbs(), kids@[k] as int));
                }
            }
            let mut kid_refs: Vec<&TreeHash> = Vec::new();
            let mut k: usize = 0;
            while k < kids.len()
                invariant
                    k <= kids@.len(),
                    res@.len() == n,
                    kid_refs@.len() == k,
                    forall|t: int| 0 <= t < kids@.len() ==> i < (#[trigger] kids@[t]) < n,
                    forall|j: int| i < j < n ==> th_wf(#[trigger] res@[j]),
                    forall|t: int|
                        0 <= t < k ==> *(#[trigger] kid_refs@[t]) == res@[kids@[t] as int],
                decreases kids@.len() - k,
            {
                let j = kids[k];
                kid_refs.push(&res[j]);
                k = k + 1;
            }
            proof {
                assert forall|t: int| 0 <= t < kid_refs@.len() implies th_wf(
                    *(#[trigger] kid_refs@[t]),
                ) by {
                    assert(*kid_refs@[t] == res@[kids@[t] as int]);
                }
            }
            let tag = svg.tags.get(i).unwrap();
            let ghost krefs_alls = kid_refs@.map_values(|t: &TreeHash| t.all);
            let th = TreeHash::new(tag, &kid_refs);
            let ghost pre = res@;
            res[i] = th;
            proof {
                // the children's digests are unchanged by writing slot i
                assert(res@ == pre.update(i as int, th));
                assert(krefs_alls =~= kid_alls(
                    svg.tags.nbs(),
                    res@,
                    i as int,
                )) by {
                    assert(kids@ == crate::flat_tree::index::spec_children(
                        svg.tags.nbs(),
                        i as int,
                    ));
                }
                assert forall|j: int|
                    i <= j < n implies (#[trigger] res@[j]).all == base_all_digest(
                        svg.tags.vals()[j],
                        kid_alls(svg.tags.nbs(), res@, j),
                    ) && res@[j].all_without_subtrees == base_without_subtrees_digest(
                        svg.tags.vals()[j],
                    ) && res@[j].all_subtrees == base_subtrees_digest(
                        svg.tags.vals()[j],
                        kid_alls(svg.tags.nbs(), res@, j),
                    ) && th_wf(res@[j]) by {
                    if j == i {
                    } else {
                        assert(res@[j] == pre[j]);
                        assert(kid_alls(svg.tags.nbs(), res@, j) =~= kid_alls(
                            svg.tags.nbs(),
                            pre,
                            j,
                        )) by {
                            assert forall|t: int|
                                0 <= t < crate::flat_tree::index::spec_children(
                                    svg.tags.nbs(),
                                    j,
                                ).len() implies res@[(#[trigger] crate::flat_tree::index::spec_children(
                                svg.tags.nbs(),
                                j,
                            )[t]) as int].all == pre[crate::flat_tree::index::spec_children(
                                svg.tags.nbs(),
                                j,
                            )[t] as int].all by {
                                let c = crate::flat_tree::index::spec_children(
                                    svg.tags.nbs(),
                                    j,
                                )[t];
                                lemma_spec_children_parent(svg.tags.nbs(), j, t);
                                assert(crate::flat_tree::index::node_wf(
                                    svg.tags.nbs(),
                                    c as int,
                                ));
                                assert(c > j);
                                assert(c != i);
                            }
                        }
                    }
                }
            }
        }
        proof {
            assert(baseline_table(svg, res@));
        }
        let mut p: usize = 0;
        while p < rules.len()
            invariant
                svg.wf(),
                n == svg.tags.nbs().len(),
                res@.len() == n,
                baseline_table(svg, res@),
            decreases rules@.len() - p,
        {
            apply_rule_pass(svg, &rules[p], &mut res);
            p = p + 1;
        }
        res
    }
}

/// Every canonical child's parent entry names the parent, so the child lies
/// beyond it.
proof fn lemma_spec_children_parent(
    nbs: Seq<crate::flat_tree::index::Neighbors<usize>>,
    p: int,
    t: int,
)
    requires
        crate::flat_tree::index::table_wf(nbs),
        nbs.len() <= usize::MAX,
        0 <= t < crate::flat_tree::index::spec_children(nbs, p).len(),
    ensures
        (crate::flat_tree::index::spec_children(nbs, p)[t] as int) < nbs.len(),
        nbs[crate::flat_tree::index::spec_children(nbs, p)[t] as int].parent == Some(p as usize),
    decreases nbs.len(),
{
    let base = Seq::new(nbs.len() as nat, |i: int| i as usize);
    let pred = |j: usize| nbs[j as int].parent == Some(p as usize);
    base.lemma_filter_pred(pred, t);
    lemma_filter_elems_bound(base, pred, nbs.len() as int);
}

/// One pass of a configured rule over the whole tree, in bottom-up order:
/// where the rule's digest is defined, it is added to the node's rule map.
/// The baseline digests are untouched.
fn apply_rule_pass(svg: &crate::svg_data::svg::SVG, rule: &MatchingRule, res: &mut Vec<TreeHash>)
    requires
        svg.wf(),
        old(res)@.len() == svg.tags.nbs().len(),
        baseline_table(svg, old(res)@),
    ensures
        final(res)@.len() == old(res)@.len(),
        baseline_table(svg, final(res)@),
{
    let n = res.len();
    let mut i: usize = n;
    while i > 0
        invariant
            i <= n,
            svg.wf(),
            n == svg.tags.nbs().len(),
            res@.len() == n,
            baseline_table(svg, res@),
        decreases i,
    {
        i = i - 1;
        let kids = svg.tags.child_indices(i);
        proof {
            assert forall|k: int| 0 <= k < kids@.len() implies (#[trigger] kids@[k]) < n by {
                assert(crate::flat_tree::index::node_wf(svg.tags.nbs(), kids@[k] as int));
            }
        }
        let mut kid_refs: Vec<&TreeHash> = Vec::new();
        let mut k: usize = 0;
        while k < kids.len()
            invariant
                k <= kids@.len(),
                res@.len() == n,
                kid_refs@.len() == k,
                forall|t: int| 0 <= t < kids@.len() ==> (#[trigger] kids@[t]) < n,
            decreases kids@.len() - k,
        {
            let j = kids[k];
            kid_refs.push(&res[j]);
            k = k + 1;
        }
        let prev = match svg.tags.get_index().prev_sibling(i) {
            Some(q) => {
                proof {
                    assert(crate::flat_tree::index::node_wf(svg.tags.nbs(), i as int));
                }
                Some(&res[q])
            },
            None => None,
        };
        let next = match svg.tags.get_index().next_sibling(i) {
            Some(q) => {
                proof {
                    assert(crate::flat_tree::index::node_wf(svg.tags.nbs(), i as int));
                }
                Some(&res[q])
            },
            None => None,
        };
        let tag = svg.tags.get(i).unwrap();
        let v = TreeHash::calc_hash(rule, tag, &kid_refs, prev, next);
        match v {
            Some(v) => {
                let ghost pre = res@;
                let ghost entry_pre = res@[i as int];
                res[i].rules.push((rule.name.clone(), v));
                proof {
                    assert(res@[i as int].all == entry_pre.all);
                    assert(res@[i as int].all_subtrees == entry_pre.all_subtrees);
                    assert(res@[i as int].all_without_subtrees == entry_pre.all_without_subtrees);
                    assert(res@[i as int].rules@ == entry_pre.rules@.push(
                        (res@[i as int].rules@.last().0, v),
                    ));
                    lemma_rules_lookup_push(
                        entry_pre.rules@,
                        res@[i as int].rules@.last(),
                        "all"@,
                    );
                    lemma_rules_lookup_push(
                        entry_pre.rules@,
                        res@[i as int].rules@.last(),
                        "all_subtrees"@,
                    );
                    lemma_rules_lookup_push(
                        entry_pre.rules@,
                        res@[i as int].rules@.last(),
                        "all_without_subtrees"@,
                    );
                    assert(th_wf(res@[i as int]));
                    assert forall|j: int|
                        0 <= j < n implies th_wf(#[trigger] res@[j]) && res@[j].all
                        == base_all_digest(svg.tags.vals()[j], kid_alls(svg.tags.nbs(), res@, j))
                        && res@[j].all_without_subtrees == base_without_subtrees_digest(
                        svg.tags.vals()[j],
                    ) && res@[j].all_subtrees == base_subtrees_digest(
                        svg.tags.vals()[j],
                        kid_alls(svg.tags.nbs(), res@, j),
                    ) by {
                        assert(kid_alls(svg.tags.nbs(), res@, j) =~= kid_alls(
                            svg.tags.nbs(),
                            pre,
                            j,
                        )) by {
                            assert forall|t: int|
                                0 <= t < crate::flat_tree::index::spec_children(
                                    svg.tags.nbs(),
                                    j,
                                ).len() implies res@[(#[trigger] crate::flat_tree::index::spec_children(
                                svg.tags.nbs(),
                                j,
                            )[t]) as int].all == pre[crate::flat_tree::index::spec_children(
                                svg.tags.nbs(),
                                j,
                            )[t] as int].all by {
                                let c = crate::flat_tree::index::spec_children(
                                    svg.tags.nbs(),
                                    j,
                                )[t];
                                lemma_spec_children_parent(svg.tags.nbs(), j, t);
                            }
                        }
                        if j != i {
                            assert(res@[j] == pre[j]);
                        }
                    }
                }
            },
            None => {},
        }
    }
}

} // verus!
