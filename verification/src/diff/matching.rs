//! The matcher: assigns shared identifiers to origin/target element pairs
//! by comparing their fingerprints, in rule priority order.

use vstd::prelude::*;

use crate::config::MatchingRules;
use crate::diff::matching_ids::MatchingIdGenerator;
use crate::diff::matching_ids::MatchingState;
use crate::diff::matching_ids::generator::gen_id;
use crate::flat_tree::index::Neighbors;
use crate::flat_tree::index::spec_parent;
use crate::svg_data::TreeHash;
use crate::svg_data::attributes::SVGAttValue;
use crate::svg_data::attributes::att_str;
use crate::svg_data::svg::SVG;
use crate::svg_data::tag::Tag;
use crate::svg_data::tag::maps_to;
use crate::svg_data::treehash::baseline_table;

verus! {

/// How many slots are still unfilled.
pub open spec fn count_none<A>(s: Seq<Option<A>>) -> nat
    decreases s.len(),
{
    if s.len() == 0 {
        0
    } else {
        (if s[0] is None {
            1nat
        } else {
            0nat
        }) + count_none(s.drop_first())
    }
}

/// Filling one empty slot lowers the count by one.
proof fn lemma_count_none_update<A>(s: Seq<Option<A>>, i: int, v: Option<A>)
    requires
        0 <= i < s.len(),
        s[i] is None,
        v is Some,
    ensures
        count_none(s.update(i, v)) + 1 == count_none(s),
    decreases s.len(),
{
    if i == 0 {
        assert(s.update(0, v).drop_first() =~= s.drop_first());
    } else {
        assert(s.update(i, v).drop_first() =~= s.drop_first().update(i - 1, v));
        lemma_count_none_update(s.drop_first(), i - 1, v);
        assert(s.update(i, v)[0] == s[0]);
    }
}

/// An empty slot makes the count positive.
proof fn lemma_count_none_pos<A>(s: Seq<Option<A>>, i: int)
    requires
        0 <= i < s.len(),
        s[i] is None,
    ensures
        count_none(s) >= 1,
    decreases s.len(),
{
    if i > 0 {
        lemma_count_none_pos(s.drop_first(), i - 1);
    }
}

/// Whether `i` lies in the subtree rooted at `anc` (following parent links;
/// `anc` itself included).
pub open spec fn is_desc(nbs: Seq<Neighbors<usize>>, anc: int, i: int) -> bool
    decreases (if 0 <= i {
        i
    } else {
        0
    }),
{
    if i == anc {
        true
    } else if 0 <= i < nbs.len() && nbs[i].parent is Some && 0 <= (nbs[i].parent->0 as int) < i {
        is_desc(nbs, anc, nbs[i].parent->0 as int)
    } else {
        false
    }
}

/// Subtree membership is transitive.
pub proof fn lemma_desc_trans(nbs: Seq<Neighbors<usize>>, a: int, b: int, c: int)
    requires
        is_desc(nbs, a, b),
        is_desc(nbs, b, c),
    ensures
        is_desc(nbs, a, c),
    decreases (if 0 <= c {
        c
    } else {
        0
    }),
{
    if c != b {
        lemma_desc_trans(nbs, a, b, nbs[c].parent->0 as int);
    }
}

/// The change flags of a matched state come from comparing the three
/// baseline digests of the two sides.
pub open spec fn flags_from(s: MatchingState, a: TreeHash, b: TreeHash) -> bool {
    &&& s.no_changes == (a.all == b.all)
    &&& s.subtree_changes == (a.all_subtrees != b.all_subtrees)
    &&& s.internal_changes == (a.all_without_subtrees != b.all_without_subtrees)
}

/// The identifier is the element's own `id` attribute, serialised.
pub open spec fn is_own_id(t: Tag, id: Seq<char>) -> bool {
    exists|v: SVGAttValue| #[trigger] maps_to(t.args@, "id"@, v) && id == att_str(v)
}

/// Where an identifier comes from: the element's own `id` attribute, or the
/// generator with some counter value below `hi`.  Generated identifiers with
/// different counter values never collide
/// ([`crate::diff::matching_ids::generator::lemma_gen_id_injective`]).
pub open spec fn id_src(s: MatchingState, t: Tag, prefix: Seq<char>, hi: nat) -> bool {
    is_own_id(t, s.matching_id@) || exists|k: nat| k < hi && s.matching_id@ == gen_id(prefix, k)
}

/// Every filled slot is written only under a matched, not fully equal
/// parent: below a fully matched pair and below unmatched elements nothing
/// is written.
pub open spec fn chained(ids: Seq<Option<MatchingState>>, nbs: Seq<Neighbors<usize>>) -> bool {
    forall|i: int|
        0 < i < ids.len() && (#[trigger] ids[i]) is Some ==> {
            &&& spec_parent(nbs, i) is Some
            &&& (spec_parent(nbs, i)->0 as int) < ids.len()
            &&& ids[spec_parent(nbs, i)->0 as int] is Some
            &&& !ids[spec_parent(nbs, i)->0 as int]->0.no_match
            &&& !ids[spec_parent(nbs, i)->0 as int]->0.no_changes
        }
}

/// Everything the matching tables promise: filled slots carry their own
/// index and a traceable identifier; matched slots are cross-linked (both
/// sides hold the same state) with flags from the baseline digests; and
/// every filled slot sits under a matched, not fully equal parent.
pub open spec fn tables_ok(
    o_ids: Seq<Option<MatchingState>>,
    t_ids: Seq<Option<MatchingState>>,
    o_svg: &SVG,
    t_svg: &SVG,
    o_th: Seq<TreeHash>,
    t_th: Seq<TreeHash>,
    prefix: Seq<char>,
    hi: nat,
) -> bool {
    &&& o_ids.len() == o_svg.tags.nbs().len()
    &&& t_ids.len() == t_svg.tags.nbs().len()
    &&& o_th.len() == o_ids.len()
    &&& t_th.len() == t_ids.len()
    &&& forall|i: int|
        0 <= i < o_ids.len() && (#[trigger] o_ids[i]) is Some ==> {
            let s = o_ids[i]->0;
            &&& s.origin_index == Some(i as usize)
            &&& id_src(s, o_svg.tags.vals()[i], prefix, hi)
            &&& (if s.no_match {
                s.target_index is None
            } else {
                &&& s.target_index is Some
                &&& (s.target_index->0 as int) < t_ids.len()
                &&& t_ids[s.target_index->0 as int] == Some(s)
                &&& flags_from(s, o_th[i], t_th[s.target_index->0 as int])
            })
        }
    &&& forall|j: int|
        0 <= j < t_ids.len() && (#[trigger] t_ids[j]) is Some ==> {
            let s = t_ids[j]->0;
            &&& s.target_index == Some(j as usize)
            &&& (if s.no_match {
                &&& s.origin_index is None
                &&& id_src(s, t_svg.tags.vals()[j], prefix, hi)
            } else {
                &&& s.origin_index is Some
                &&& (s.origin_index->0 as int) < o_ids.len()
                &&& o_ids[s.origin_index->0 as int] == Some(s)
            })
        }
    &&& chained(o_ids, o_svg.tags.nbs())
    &&& chained(t_ids, t_svg.tags.nbs())
}

/// Rule monotonicity at the matcher level: below a matched pair whose `all`
/// digests agree (`no_changes` set) every slot stays empty, so no edit step
/// can arise from any node strictly inside that subtree.
pub proof fn lemma_full_match_subtree(
    ids: Seq<Option<MatchingState>>,
    nbs: Seq<Neighbors<usize>>,
    i: int,
    d: int,
)
    requires
        chained(ids, nbs),
        0 <= i < ids.len(),
        ids[i] is Some,
        ids[i]->0.no_changes,
        is_desc(nbs, i, d),
        d != i,
        0 < d < ids.len(),
    ensures
        ids[d] is None,
    decreases d,
{
    if ids[d] is Some {
        let p = spec_parent(nbs, d)->0 as int;
        assert(nbs[d].parent is Some && 0 <= (nbs[d].parent->0 as int) < d);
        assert(is_desc(nbs, i, p));
        if p == i {
            assert(!ids[p]->0.no_changes);
        } else {
            assert(0 < p) by {
                if p == 0 {
                    assert(ids[p] is Some && !ids[p]->0.no_changes);
                    assert(is_desc(nbs, i, 0));
                    assert(i == 0 || (nbs[0].parent is Some && 0 <= (nbs[0].parent->0 as int) < 0));
                    assert(i == 0);
                    assert(false);
                }
            }
            lemma_full_match_subtree(ids, nbs, i, p);
        }
    }
}

/// The identifier strings of the matching states, one per node.
pub fn states_to_ids(states: &Vec<Option<MatchingState>>) -> (r: Vec<Option<String>>)
    ensures
        r@.len() == states@.len(),
        forall|i: int|
            0 <= i < states@.len() ==> (#[trigger] r@[i]) is Some == states@[i] is Some && (
            states@[i] is Some ==> r@[i]->0@ == states@[i]->0.matching_id@),
{
    let mut r: Vec<Option<String>> = Vec::new();
    let mut i: usize = 0;
    while i < states.len()
        invariant
            i <= states@.len(),
            r@.len() == i,
            forall|k: int|
                0 <= k < i ==> (#[trigger] r@[k]) is Some == states@[k] is Some && (
                states@[k] is Some ==> r@[k]->0@ == states@[k]->0.matching_id@),
        decreases states@.len() - i,
    {
        match &states[i] {
            Some(s) => {
                r.push(Some(s.get_id()));
            },
            None => {
                r.push(None);
            },
        }
        i = i + 1;
    }
    r
}

/// The element's own `id` attribute, serialised, if it has one.
fn own_id(tag: &Tag) -> (r: Option<String>)
    requires
        tag.wf(),
    ensures
        match r {
            Some(d) => is_own_id(*tag, d@),
            None => true,
        },
{
    match tag.get_arg("id") {
        Some(v) => Some(v.to_string()),
        None => None,
    }
}

/// The first pair of still unmatched children (scanned in document order on
/// both sides) whose digests under the named rule exist and agree.
fn find_first_pair(
    o_svg: &SVG,
    t_svg: &SVG,
    o_th: &Vec<TreeHash>,
    t_th: &Vec<TreeHash>,
    o_pos: usize,
    t_pos: usize,
    o_ids: &Vec<Option<MatchingState>>,
    t_ids: &Vec<Option<MatchingState>>,
    rule_name: &str,
) -> (r: Option<(usize, usize)>)
    requires
        o_svg.wf(),
        t_svg.wf(),
        o_th@.len() == o_svg.tags.nbs().len(),
        t_th@.len() == t_svg.tags.nbs().len(),
        o_ids@.len() == o_svg.tags.nbs().len(),
        t_ids@.len() == t_svg.tags.nbs().len(),
        o_pos < o_ids@.len(),
        t_pos < t_ids@.len(),
    ensures
        match r {
            Some(p) => {
                &&& (p.0 as int) < o_ids@.len()
                &&& (p.1 as int) < t_ids@.len()
                &&& o_ids@[p.0 as int] is None
                &&& t_ids@[p.1 as int] is None
                &&& spec_parent(o_svg.tags.nbs(), p.0 as int) == Some(o_pos)
                &&& spec_parent(t_svg.tags.nbs(), p.1 as int) == Some(t_pos)
            },
            None => true,
        },
{
    let o_kids = o_svg.tags.child_indices(o_pos);
    let t_kids = t_svg.tags.child_indices(t_pos);
    let mut a: usize = 0;
    while a < o_kids.len()
        invariant
            o_svg.wf(),
            t_svg.wf(),
            o_th@.len() == o_svg.tags.nbs().len(),
            t_th@.len() == t_svg.tags.nbs().len(),
            o_ids@.len() == o_svg.tags.nbs().len(),
            t_ids@.len() == t_svg.tags.nbs().len(),
            a <= o_kids@.len(),
            crate::flat_tree::index::is_child_list(o_svg.tags.nbs(), o_pos as int, o_kids@),
            crate::flat_tree::index::is_child_list(t_svg.tags.nbs(), t_pos as int, t_kids@),
        decreases o_kids@.len() - a,
    {
        let oc = o_kids[a];
        if o_ids[oc].is_none() {
            let mut b: usize = 0;
            while b < t_kids.len()
                invariant
                    o_svg.wf(),
                    t_svg.wf(),
                    o_th@.len() == o_svg.tags.nbs().len(),
                    t_th@.len() == t_svg.tags.nbs().len(),
                    o_ids@.len() == o_svg.tags.nbs().len(),
                    t_ids@.len() == t_svg.tags.nbs().len(),
                    b <= t_kids@.len(),
                    (oc as int) < o_ids@.len(),
                    o_ids@[oc as int] is None,
                    spec_parent(o_svg.tags.nbs(), oc as int) == Some(o_pos),
                    crate::flat_tree::index::is_child_list(
                        t_svg.tags.nbs(),
                        t_pos as int,
                        t_kids@,
                    ),
                decreases t_kids@.len() - b,
            {
                let tc = t_kids[b];
                if t_ids[tc].is_none() {
                    if o_th[oc].eq_rule(rule_name, &t_th[tc]) {
                        return Some((oc, tc));
                    }
                }
                b = b + 1;
            }
        }
        a = a + 1;
    }
    None
}

/// The changed slots lie inside the subtree of `root`, and only empty
/// slots were filled.
pub open spec fn writes_confined(
    pre: Seq<Option<MatchingState>>,
    cur: Seq<Option<MatchingState>>,
    nbs: Seq<Neighbors<usize>>,
    root: int,
) -> bool {
    &&& pre.len() == cur.len()
    &&& forall|i: int| 0 <= i < pre.len() && (#[trigger] pre[i]) is Some ==> cur[i] == pre[i]
    &&& forall|i: int|
        0 <= i < pre.len() && (#[trigger] cur[i]) != pre[i] ==> pre[i] is None && is_desc(
            nbs,
            root,
            i,
        )
}

/// Confinement composes along the subtree order.
proof fn lemma_confined_trans(
    pre: Seq<Option<MatchingState>>,
    mid: Seq<Option<MatchingState>>,
    cur: Seq<Option<MatchingState>>,
    nbs: Seq<Neighbors<usize>>,
    root: int,
    sub: int,
)
    requires
        writes_confined(pre, mid, nbs, root),
        writes_confined(mid, cur, nbs, sub),
        is_desc(nbs, root, sub),
    ensures
        writes_confined(pre, cur, nbs, root),
{
    assert forall|i: int|
        0 <= i < pre.len() && (#[trigger] cur[i]) != pre[i] implies pre[i] is None && is_desc(
        nbs,
        root,
        i,
    ) by {
        if cur[i] != mid[i] {
            assert(is_desc(nbs, sub, i));
            lemma_desc_trans(nbs, root, sub, i);
            if pre[i] is Some {
                assert(mid[i] == pre[i]);
            }
        }
    }
}

/// Matches the pair `(o_pos, t_pos)`, then pairs of their still unmatched
/// children in rule priority order (recursing into each matched pair); the
/// children left over on either side become unmatched states.  Below a pair
/// whose `all` digests agree nothing further is written.
#[verifier::rlimit(100)]
fn set_matching_ids_rec(
    o_svg: &SVG,
    t_svg: &SVG,
    o_th: &Vec<TreeHash>,
    t_th: &Vec<TreeHash>,
    o_pos: usize,
    t_pos: usize,
    o_ids: &mut Vec<Option<MatchingState>>,
    t_ids: &mut Vec<Option<MatchingState>>,
    rules: &MatchingRules,
    g: &mut MatchingIdGenerator,
)
    requires
        o_svg.wf(),
        t_svg.wf(),
        o_th@.len() == o_svg.tags.nbs().len(),
        t_th@.len() == t_svg.tags.nbs().len(),
        o_pos < old(o_ids)@.len(),
        t_pos < old(t_ids)@.len(),
        old(o_ids)@[o_pos as int] is None,
        old(t_ids)@[t_pos as int] is None,
        o_pos as int == 0 || {
            &&& spec_parent(o_svg.tags.nbs(), o_pos as int) is Some
            &&& old(o_ids)@[spec_parent(o_svg.tags.nbs(), o_pos as int)->0 as int] is Some
            &&& !old(o_ids)@[spec_parent(o_svg.tags.nbs(), o_pos as int)->0 as int]->0.no_match
            &&& !old(o_ids)@[spec_parent(o_svg.tags.nbs(), o_pos as int)->0 as int]->0.no_changes
        },
        t_pos as int == 0 || {
            &&& spec_parent(t_svg.tags.nbs(), t_pos as int) is Some
            &&& old(t_ids)@[spec_parent(t_svg.tags.nbs(), t_pos as int)->0 as int] is Some
            &&& !old(t_ids)@[spec_parent(t_svg.tags.nbs(), t_pos as int)->0 as int]->0.no_match
            &&& !old(t_ids)@[spec_parent(t_svg.tags.nbs(), t_pos as int)->0 as int]->0.no_changes
        },
        old(g).counter() + count_none(old(o_ids)@) + count_none(old(t_ids)@) <= u64::MAX,
        tables_ok(
            old(o_ids)@,
            old(t_ids)@,
            o_svg,
            t_svg,
            o_th@,
            t_th@,
            old(g).prefix_view(),
            old(g).counter(),
        ),
    ensures
        final(g).prefix_view() == old(g).prefix_view(),
        old(g).counter() <= final(g).counter(),
        tables_ok(
            final(o_ids)@,
            final(t_ids)@,
            o_svg,
            t_svg,
            o_th@,
            t_th@,
            final(g).prefix_view(),
            final(g).counter(),
        ),
        writes_confined(old(o_ids)@, final(o_ids)@, o_svg.tags.nbs(), o_pos as int),
        writes_confined(old(t_ids)@, final(t_ids)@, t_svg.tags.nbs(), t_pos as int),
        final(o_ids)@[o_pos as int] is Some,
        !final(o_ids)@[o_pos as int]->0.no_match,
        final(o_ids)@[o_pos as int]->0.target_index == Some(t_pos),
        final(t_ids)@[t_pos as int] == final(o_ids)@[o_pos as int],
        o_th@[o_pos as int].all == t_th@[t_pos as int].all ==> (forall|i: int|
            0 <= i < old(o_ids)@.len() && i != o_pos ==> final(o_ids)@[i] == old(o_ids)@[i]) && (
        forall|i: int|
            0 <= i < old(t_ids)@.len() && i != t_pos ==> final(t_ids)@[i] == old(t_ids)@[i]),
        count_none(final(o_ids)@) < count_none(old(o_ids)@),
        count_none(final(t_ids)@) < count_none(old(t_ids)@),
        final(g).counter() - old(g).counter() <= (count_none(old(o_ids)@) - count_none(
            final(o_ids)@,
        )) + (count_none(old(t_ids)@) - count_none(final(t_ids)@)),
    decreases count_none(o_ids@), 0int,
{
    let ghost pre_o = o_ids@;
    let ghost pre_t = t_ids@;
    let ghost prefix = g.prefix_view();
    let ghost c0 = g.counter();
    proof {
        lemma_count_none_pos(pre_o, o_pos as int);
        lemma_count_none_pos(pre_t, t_pos as int);
    }
    let o_tag = o_svg.tags.get(o_pos).unwrap();
    let default_id = own_id(o_tag);
    let id = MatchingState::new(g, o_pos, t_pos, &o_th[o_pos], &t_th[t_pos], default_id);
    let full = id.full_match();
    let id2 = id.duplicate();
    o_ids[o_pos] = Some(id);
    t_ids[t_pos] = Some(id2);
    proof {
        lemma_count_none_update(pre_o, o_pos as int, o_ids@[o_pos as int]);
        lemma_count_none_update(pre_t, t_pos as int, t_ids@[t_pos as int]);
        assert(o_ids@ == pre_o.update(o_pos as int, o_ids@[o_pos as int]));
        assert(t_ids@ == pre_t.update(t_pos as int, t_ids@[t_pos as int]));
        assert(is_desc(o_svg.tags.nbs(), o_pos as int, o_pos as int));
        assert(is_desc(t_svg.tags.nbs(), t_pos as int, t_pos as int));
        assert(crate::flat_tree::index::node_wf(o_svg.tags.nbs(), o_pos as int));
        assert(crate::flat_tree::index::node_wf(t_svg.tags.nbs(), t_pos as int));
        lemma_tables_ok_pair_write(
            pre_o,
            pre_t,
            o_ids@,
            t_ids@,
            o_svg,
            t_svg,
            o_th@,
            t_th@,
            prefix,
            c0,
            g.counter(),
            o_pos as int,
            t_pos as int,
        );
    }
    if full {
        return ;
    }
    match_children(o_svg, t_svg, o_th, t_th, o_pos, t_pos, o_ids, t_ids, rules, g);
    proof {
        lemma_confined_trans(
            pre_o,
            pre_o.update(o_pos as int, o_ids@[o_pos as int]),
            o_ids@,
            o_svg.tags.nbs(),
            o_pos as int,
            o_pos as int,
        );
    }
    mark_unmatched_children(o_svg, t_svg, o_th, t_th, o_pos, t_pos, o_ids, t_ids, g, true);
    mark_unmatched_children(o_svg, t_svg, o_th, t_th, o_pos, t_pos, o_ids, t_ids, g, false);
}

/// Repeatedly finds and matches pairs of still unmatched children of the
/// matched pair `(o_pos, t_pos)`, one rule name at a time in priority
/// order.
#[verifier::rlimit(100)]
fn match_children(
    o_svg: &SVG,
    t_svg: &SVG,
    o_th: &Vec<TreeHash>,
    t_th: &Vec<TreeHash>,
    o_pos: usize,
    t_pos: usize,
    o_ids: &mut Vec<Option<MatchingState>>,
    t_ids: &mut Vec<Option<MatchingState>>,
    rules: &MatchingRules,
    g: &mut MatchingIdGenerator,
)
    requires
        o_svg.wf(),
        t_svg.wf(),
        o_th@.len() == o_svg.tags.nbs().len(),
        t_th@.len() == t_svg.tags.nbs().len(),
        o_pos < old(o_ids)@.len(),
        t_pos < old(t_ids)@.len(),
        old(o_ids)@[o_pos as int] is Some,
        !old(o_ids)@[o_pos as int]->0.no_match,
        !old(o_ids)@[o_pos as int]->0.no_changes,
        old(t_ids)@[t_pos as int] is Some,
        !old(t_ids)@[t_pos as int]->0.no_match,
        !old(t_ids)@[t_pos as int]->0.no_changes,
        old(g).counter() + count_none(old(o_ids)@) + count_none(old(t_ids)@) <= u64::MAX,
        tables_ok(
            old(o_ids)@,
            old(t_ids)@,
            o_svg,
            t_svg,
            o_th@,
            t_th@,
            old(g).prefix_view(),
            old(g).counter(),
        ),
    ensures
        final(g).prefix_view() == old(g).prefix_view(),
        old(g).counter() <= final(g).counter(),
        tables_ok(
            final(o_ids)@,
            final(t_ids)@,
            o_svg,
            t_svg,
            o_th@,
            t_th@,
            final(g).prefix_view(),
            final(g).counter(),
        ),
        writes_confined(old(o_ids)@, final(o_ids)@, o_svg.tags.nbs(), o_pos as int),
        writes_confined(old(t_ids)@, final(t_ids)@, t_svg.tags.nbs(), t_pos as int),
        count_none(final(o_ids)@) <= count_none(old(o_ids)@),
        count_none(final(t_ids)@) <= count_none(old(t_ids)@),
        final(g).counter() - old(g).counter() <= (count_none(old(o_ids)@) - count_none(
            final(o_ids)@,
        )) + (count_none(old(t_ids)@) - count_none(final(t_ids)@)),
    decreases count_none(o_ids@), 1int,
{
    let ghost pre_o = o_ids@;
    let ghost pre_t = t_ids@;
    let ghost prefix = g.prefix_view();
    let ghost c0 = g.counter();
    let ghost nbs_o = o_svg.tags.nbs();
    let ghost nbs_t = t_svg.tags.nbs();
    let np = rules.priorities.len();
    let mut p: usize = 0;
    while p < np
        invariant
            o_svg.wf(),
            t_svg.wf(),
            o_th@.len() == o_svg.tags.nbs().len(),
            t_th@.len() == t_svg.tags.nbs().len(),
            nbs_o == o_svg.tags.nbs(),
            nbs_t == t_svg.tags.nbs(),
            pre_o.len() == nbs_o.len(),
            pre_t.len() == nbs_t.len(),
            o_pos < pre_o.len(),
            t_pos < pre_t.len(),
            p <= np,
            np == rules.priorities@.len(),
            g.prefix_view() == prefix,
            c0 <= g.counter(),
            tables_ok(o_ids@, t_ids@, o_svg, t_svg, o_th@, t_th@, prefix, g.counter()),
            writes_confined(pre_o, o_ids@, nbs_o, o_pos as int),
            writes_confined(pre_t, t_ids@, nbs_t, t_pos as int),
            o_ids@[o_pos as int] is Some,
            !o_ids@[o_pos as int]->0.no_match,
            !o_ids@[o_pos as int]->0.no_changes,
            t_ids@[t_pos as int] is Some,
            !t_ids@[t_pos as int]->0.no_match,
            !t_ids@[t_pos as int]->0.no_changes,
            count_none(o_ids@) <= count_none(pre_o),
            count_none(t_ids@) <= count_none(pre_t),
            count_none(o_ids@) <= count_none(old(o_ids)@),
            g.counter() - c0 <= (count_none(pre_o) - count_none(o_ids@)) + (count_none(pre_t)
                - count_none(t_ids@)),
            g.counter() + count_none(o_ids@) + count_none(t_ids@) <= u64::MAX,
        decreases np - p,
    {
        let rule_name = &rules.priorities[p];
        loop
            invariant
                o_svg.wf(),
                t_svg.wf(),
                o_th@.len() == o_svg.tags.nbs().len(),
                t_th@.len() == t_svg.tags.nbs().len(),
                nbs_o == o_svg.tags.nbs(),
                nbs_t == t_svg.tags.nbs(),
                pre_o.len() == nbs_o.len(),
                pre_t.len() == nbs_t.len(),
                o_pos < pre_o.len(),
                t_pos < pre_t.len(),
                g.prefix_view() == prefix,
                c0 <= g.counter(),
                tables_ok(o_ids@, t_ids@, o_svg, t_svg, o_th@, t_th@, prefix, g.counter()),
                writes_confined(pre_o, o_ids@, nbs_o, o_pos as int),
                writes_confined(pre_t, t_ids@, nbs_t, t_pos as int),
                o_ids@[o_pos as int] is Some,
                !o_ids@[o_pos as int]->0.no_match,
                !o_ids@[o_pos as int]->0.no_changes,
                t_ids@[t_pos as int] is Some,
                !t_ids@[t_pos as int]->0.no_match,
                !t_ids@[t_pos as int]->0.no_changes,
                count_none(o_ids@) <= count_none(pre_o),
                count_none(t_ids@) <= count_none(pre_t),
                count_none(o_ids@) <= count_none(old(o_ids)@),
                g.counter() - c0 <= (count_none(pre_o) - count_none(o_ids@)) + (count_none(pre_t)
                    - count_none(t_ids@)),
                g.counter() + count_none(o_ids@) + count_none(t_ids@) <= u64::MAX,
            decreases count_none(o_ids@),
        {
            let found = find_first_pair(
                o_svg,
                t_svg,
                o_th,
                t_th,
                o_pos,
                t_pos,
                o_ids,
                t_ids,
                rule_name.as_str(),
            );
            match found {
                None => {
                    break ;
                },
                Some((oc, tc)) => {
                    let ghost loop_o = o_ids@;
                    let ghost loop_t = t_ids@;
                    proof {
                        assert(crate::flat_tree::index::node_wf(nbs_o, oc as int));
                        assert(crate::flat_tree::index::node_wf(nbs_t, tc as int));
                        assert(is_desc(nbs_o, o_pos as int, o_pos as int));
                        assert(is_desc(nbs_t, t_pos as int, t_pos as int));
                        assert(nbs_o[oc as int].parent is Some && 0 <= (nbs_o[oc as int].parent->0 as int) < oc as int);
                        assert(nbs_t[tc as int].parent is Some && 0 <= (nbs_t[tc as int].parent->0 as int) < tc as int);
                        assert(is_desc(nbs_o, o_pos as int, oc as int));
                        assert(is_desc(nbs_t, t_pos as int, tc as int));
                    }
                    set_matching_ids_rec(
                        o_svg,
                        t_svg,
                        o_th,
                        t_th,
                        oc,
                        tc,
                        o_ids,
                        t_ids,
                        rules,
                        g,
                    );
                    proof {
                        lemma_confined_trans(pre_o, loop_o, o_ids@, nbs_o, o_pos as int, oc as int);
                        lemma_confined_trans(pre_t, loop_t, t_ids@, nbs_t, t_pos as int, tc as int);
                    }
                },
            }
        }
        p = p + 1;
    }
}

/// Gives every still unmatched child of the matched node an unmatched
/// state; `on_origin` says which side is walked.
#[verifier::rlimit(100)]
fn mark_unmatched_children(
    o_svg: &SVG,
    t_svg: &SVG,
    o_th: &Vec<TreeHash>,
    t_th: &Vec<TreeHash>,
    o_pos: usize,
    t_pos: usize,
    o_ids: &mut Vec<Option<MatchingState>>,
    t_ids: &mut Vec<Option<MatchingState>>,
    g: &mut MatchingIdGenerator,
    on_origin: bool,
)
    requires
        o_svg.wf(),
        t_svg.wf(),
        o_th@.len() == o_svg.tags.nbs().len(),
        t_th@.len() == t_svg.tags.nbs().len(),
        o_pos < old(o_ids)@.len(),
        t_pos < old(t_ids)@.len(),
        ({
            let ids = if on_origin {
                old(o_ids)@
            } else {
                old(t_ids)@
            };
            let pos = if on_origin {
                o_pos as int
            } else {
                t_pos as int
            };
            &&& ids[pos] is Some
            &&& !ids[pos]->0.no_match
            &&& !ids[pos]->0.no_changes
        }),
        old(g).counter() + count_none(old(o_ids)@) + count_none(old(t_ids)@) <= u64::MAX,
        tables_ok(
            old(o_ids)@,
            old(t_ids)@,
            o_svg,
            t_svg,
            o_th@,
            t_th@,
            old(g).prefix_view(),
            old(g).counter(),
        ),
    ensures
        final(g).prefix_view() == old(g).prefix_view(),
        old(g).counter() <= final(g).counter(),
        tables_ok(
            final(o_ids)@,
            final(t_ids)@,
            o_svg,
            t_svg,
            o_th@,
            t_th@,
            final(g).prefix_view(),
            final(g).counter(),
        ),
        on_origin ==> final(t_ids)@ == old(t_ids)@ && writes_confined(
            old(o_ids)@,
            final(o_ids)@,
            o_svg.tags.nbs(),
            o_pos as int,
        ),
        !on_origin ==> final(o_ids)@ == old(o_ids)@ && writes_confined(
            old(t_ids)@,
            final(t_ids)@,
            t_svg.tags.nbs(),
            t_pos as int,
        ),
        count_none(final(o_ids)@) <= count_none(old(o_ids)@),
        count_none(final(t_ids)@) <= count_none(old(t_ids)@),
        final(g).counter() - old(g).counter() <= (count_none(old(o_ids)@) - count_none(
            final(o_ids)@,
        )) + (count_none(old(t_ids)@) - count_none(final(t_ids)@)),
{
    let ghost pre_o = o_ids@;
    let ghost pre_t = t_ids@;
    let ghost prefix = g.prefix_view();
    let ghost c0 = g.counter();
    let ghost nbs_o = o_svg.tags.nbs();
    let ghost nbs_t = t_svg.tags.nbs();
    if on_origin {
        let kids = o_svg.tags.child_indices(o_pos);
        let mut a: usize = 0;
        while a < kids.len()
            invariant
                o_svg.wf(),
                t_svg.wf(),
                o_th@.len() == o_svg.tags.nbs().len(),
                t_th@.len() == t_svg.tags.nbs().len(),
                nbs_o == o_svg.tags.nbs(),
                nbs_t == t_svg.tags.nbs(),
                pre_o.len() == nbs_o.len(),
                pre_t.len() == nbs_t.len(),
                o_pos < pre_o.len(),
                a <= kids@.len(),
                crate::flat_tree::index::is_child_list(nbs_o, o_pos as int, kids@),
                g.prefix_view() == prefix,
                c0 <= g.counter(),
                t_ids@ == pre_t,
                tables_ok(o_ids@, t_ids@, o_svg, t_svg, o_th@, t_th@, prefix, g.counter()),
                writes_confined(pre_o, o_ids@, nbs_o, o_pos as int),
                o_ids@[o_pos as int] is Some,
                !o_ids@[o_pos as int]->0.no_match,
                !o_ids@[o_pos as int]->0.no_changes,
                count_none(o_ids@) <= count_none(pre_o),
                g.counter() - c0 <= count_none(pre_o) - count_none(o_ids@),
                g.counter() + count_none(o_ids@) + count_none(t_ids@) <= u64::MAX,
            decreases kids@.len() - a,
        {
            let c = kids[a];
            proof {
                assert(kids@[a as int] < nbs_o.len());
                assert(crate::flat_tree::index::node_wf(nbs_o, c as int));
            }
            if o_ids[c].is_none() {
                let ghost cur_o = o_ids@;
                proof {
                    lemma_count_none_pos(cur_o, c as int);
                }
                let ghost cpre = g.counter();
                let c_tag = o_svg.tags.get(c).unwrap();
                let child_default = own_id(c_tag);
                let st = MatchingState::new_unmatched(c, true, g, child_default);
                o_ids[c] = Some(st);
                proof {
                    lemma_tables_ok_hi(cur_o, t_ids@, o_svg, t_svg, o_th@, t_th@, prefix, cpre, g.counter());
                    lemma_count_none_update(cur_o, c as int, o_ids@[c as int]);
                    assert(o_ids@ == cur_o.update(c as int, o_ids@[c as int]));
                    assert(spec_parent(nbs_o, c as int) == Some(o_pos));
                    assert(is_desc(nbs_o, o_pos as int, o_pos as int));
                    assert(nbs_o[c as int].parent is Some && 0 <= (nbs_o[c as int].parent->0 as int) < c as int);
                    assert(is_desc(nbs_o, o_pos as int, c as int));
                    lemma_tables_ok_unmatched_write(
                        t_ids@,
                        cur_o,
                        o_ids@,
                        o_svg,
                        t_svg,
                        o_th@,
                        t_th@,
                        prefix,
                        g.counter(),
                        c as int,
                        true,
                    );
                }
            }
            a = a + 1;
        }
    } else {
        let kids = t_svg.tags.child_indices(t_pos);
        let mut b: usize = 0;
        while b < kids.len()
            invariant
                o_svg.wf(),
                t_svg.wf(),
                o_th@.len() == o_svg.tags.nbs().len(),
                t_th@.len() == t_svg.tags.nbs().len(),
                nbs_o == o_svg.tags.nbs(),
                nbs_t == t_svg.tags.nbs(),
                pre_o.len() == nbs_o.len(),
                pre_t.len() == nbs_t.len(),
                t_pos < pre_t.len(),
                b <= kids@.len(),
                crate::flat_tree::index::is_child_list(nbs_t, t_pos as int, kids@),
                g.prefix_view() == prefix,
                c0 <= g.counter(),
                o_ids@ == pre_o,
                tables_ok(o_ids@, t_ids@, o_svg, t_svg, o_th@, t_th@, prefix, g.counter()),
                writes_confined(pre_t, t_ids@, nbs_t, t_pos as int),
                t_ids@[t_pos as int] is Some,
                !t_ids@[t_pos as int]->0.no_match,
                !t_ids@[t_pos as int]->0.no_changes,
                count_none(t_ids@) <= count_none(pre_t),
                g.counter() - c0 <= count_none(pre_t) - count_none(t_ids@),
                g.counter() + count_none(o_ids@) + count_none(t_ids@) <= u64::MAX,
            decreases kids@.len() - b,
        {
            let c = kids[b];
            proof {
                assert(kids@[b as int] < nbs_t.len());
                assert(crate::flat_tree::index::node_wf(nbs_t, c as int));
            }
            if t_ids[c].is_none() {
                let ghost cur_t = t_ids@;
                proof {
                    lemma_count_none_pos(cur_t, c as int);
                }
                let ghost cpre = g.counter();
                let c_tag = t_svg.tags.get(c).unwrap();
                let child_default = own_id(c_tag);
                let st = MatchingState::new_unmatched(c, false, g, child_default);
                t_ids[c] = Some(st);
                proof {
                    lemma_tables_ok_hi(o_ids@, cur_t, o_svg, t_svg, o_th@, t_th@, prefix, cpre, g.counter());
                    lemma_count_none_update(cur_t, c as int, t_ids@[c as int]);
                    assert(t_ids@ == cur_t.update(c as int, t_ids@[c as int]));
                    assert(spec_parent(nbs_t, c as int) == Some(t_pos));
                    assert(is_desc(nbs_t, t_pos as int, t_pos as int));
                    assert(nbs_t[c as int].parent is Some && 0 <= (nbs_t[c as int].parent->0 as int) < c as int);
                    assert(is_desc(nbs_t, t_pos as int, c as int));
                    lemma_tables_ok_unmatched_write(
                        o_ids@,
                        cur_t,
                        t_ids@,
                        o_svg,
                        t_svg,
                        o_th@,
                        t_th@,
                        prefix,
                        g.counter(),
                        c as int,
                        false,
                    );
                }
            }
            b = b + 1;
        }
    }
}


/// Writing the same matched state into one empty slot on each side keeps
/// the tables well formed.
#[verifier::rlimit(100)]
proof fn lemma_tables_ok_pair_write(
    pre_o: Seq<Option<MatchingState>>,
    pre_t: Seq<Option<MatchingState>>,
    post_o: Seq<Option<MatchingState>>,
    post_t: Seq<Option<MatchingState>>,
    o_svg: &SVG,
    t_svg: &SVG,
    o_th: Seq<TreeHash>,
    t_th: Seq<TreeHash>,
    prefix: Seq<char>,
    c0: nat,
    c1: nat,
    o_pos: int,
    t_pos: int,
)
    requires
        tables_ok(pre_o, pre_t, o_svg, t_svg, o_th, t_th, prefix, c0),
        c0 <= c1,
        0 <= o_pos < pre_o.len(),
        0 <= t_pos < pre_t.len(),
        o_pos <= usize::MAX,
        t_pos <= usize::MAX,
        pre_o[o_pos] is None,
        pre_t[t_pos] is None,
        post_o.len() == pre_o.len(),
        post_t.len() == pre_t.len(),
        forall|i: int| 0 <= i < pre_o.len() && i != o_pos ==> #[trigger] post_o[i] == pre_o[i],
        forall|j: int| 0 <= j < pre_t.len() && j != t_pos ==> #[trigger] post_t[j] == pre_t[j],
        post_o[o_pos] is Some,
        post_t[t_pos] == post_o[o_pos],
        ({
            let s = post_o[o_pos]->0;
            &&& !s.no_match
            &&& s.origin_index == Some(o_pos as usize)
            &&& s.target_index == Some(t_pos as usize)
            &&& flags_from(s, o_th[o_pos], t_th[t_pos])
            &&& id_src(s, o_svg.tags.vals()[o_pos], prefix, c1)
        }),
        o_pos == 0 || {
            &&& spec_parent(o_svg.tags.nbs(), o_pos) is Some
            &&& (spec_parent(o_svg.tags.nbs(), o_pos)->0 as int) < pre_o.len()
            &&& pre_o[spec_parent(o_svg.tags.nbs(), o_pos)->0 as int] is Some
            &&& !pre_o[spec_parent(o_svg.tags.nbs(), o_pos)->0 as int]->0.no_match
            &&& !pre_o[spec_parent(o_svg.tags.nbs(), o_pos)->0 as int]->0.no_changes
        },
        t_pos == 0 || {
            &&& spec_parent(t_svg.tags.nbs(), t_pos) is Some
            &&& (spec_parent(t_svg.tags.nbs(), t_pos)->0 as int) < pre_t.len()
            &&& pre_t[spec_parent(t_svg.tags.nbs(), t_pos)->0 as int] is Some
            &&& !pre_t[spec_parent(t_svg.tags.nbs(), t_pos)->0 as int]->0.no_match
            &&& !pre_t[spec_parent(t_svg.tags.nbs(), t_pos)->0 as int]->0.no_changes
        },
    ensures
        tables_ok(post_o, post_t, o_svg, t_svg, o_th, t_th, prefix, c1),
{
    lemma_tables_ok_hi(pre_o, pre_t, o_svg, t_svg, o_th, t_th, prefix, c0, c1);
    assert forall|i: int|
        0 <= i < post_o.len() && (#[trigger] post_o[i]) is Some implies {
        let s = post_o[i]->0;
        &&& s.origin_index == Some(i as usize)
        &&& id_src(s, o_svg.tags.vals()[i], prefix, c1)
        &&& (if s.no_match {
            s.target_index is None
        } else {
            &&& s.target_index is Some
            &&& (s.target_index->0 as int) < post_t.len()
            &&& post_t[s.target_index->0 as int] == Some(s)
            &&& flags_from(s, o_th[i], t_th[s.target_index->0 as int])
        })
    } by {
        if i != o_pos {
            assert(post_o[i] == pre_o[i]);
            let s = post_o[i]->0;
            assert(pre_o[i] is Some);
            assert(pre_o[i] == Some(s));
            assert(id_src(s, o_svg.tags.vals()[i], prefix, c1));
            if !s.no_match {
                assert(pre_t[s.target_index->0 as int] == Some(s));
                assert(s.target_index->0 as int != t_pos);
                assert(post_t[s.target_index->0 as int] == Some(s));
            }
        } else {
            let s = post_o[o_pos]->0;
            assert(post_o[o_pos] == Some(s));
            assert(post_t[t_pos] == Some(s));
            assert(s.target_index == Some(t_pos as usize));
            assert((s.target_index->0 as int) == t_pos);
            assert(post_t[s.target_index->0 as int] == Some(s));
            assert(flags_from(s, o_th[o_pos], t_th[t_pos]));
            assert(id_src(s, o_svg.tags.vals()[o_pos], prefix, c1));
        }
    }
    assert forall|j: int|
        0 <= j < post_t.len() && (#[trigger] post_t[j]) is Some implies {
        let s = post_t[j]->0;
        &&& s.target_index == Some(j as usize)
        &&& (if s.no_match {
            &&& s.origin_index is None
            &&& id_src(s, t_svg.tags.vals()[j], prefix, c1)
        } else {
            &&& s.origin_index is Some
            &&& (s.origin_index->0 as int) < post_o.len()
            &&& post_o[s.origin_index->0 as int] == Some(s)
        })
    } by {
        if j != t_pos {
            assert(post_t[j] == pre_t[j]);
            let s = post_t[j]->0;
            assert(pre_t[j] is Some);
            assert(pre_t[j] == Some(s));
            if !s.no_match {
                assert(pre_o[s.origin_index->0 as int] == Some(s));
                assert(s.origin_index->0 as int != o_pos);
                assert(post_o[s.origin_index->0 as int] == Some(s));
            }
        } else {
            let s = post_t[t_pos]->0;
            assert(post_t[t_pos] == Some(s));
            assert(post_o[o_pos] == Some(s));
            assert(s.origin_index == Some(o_pos as usize));
            assert((s.origin_index->0 as int) == o_pos);
            assert(post_o[s.origin_index->0 as int] == Some(s));
            assert(!s.no_match);
            assert(s.target_index == Some(t_pos as usize));
        }
    }
    assert(chained(post_o, o_svg.tags.nbs())) by {
        assert forall|i: int|
            0 < i < post_o.len() && (#[trigger] post_o[i]) is Some implies {
            &&& spec_parent(o_svg.tags.nbs(), i) is Some
            &&& (spec_parent(o_svg.tags.nbs(), i)->0 as int) < post_o.len()
            &&& post_o[spec_parent(o_svg.tags.nbs(), i)->0 as int] is Some
            &&& !post_o[spec_parent(o_svg.tags.nbs(), i)->0 as int]->0.no_match
            &&& !post_o[spec_parent(o_svg.tags.nbs(), i)->0 as int]->0.no_changes
        } by {
            if i != o_pos {
                assert(post_o[i] == pre_o[i]);
                assert(pre_o[i] is Some);
                let pp = spec_parent(o_svg.tags.nbs(), i)->0 as int;
                assert(pre_o[pp] is Some);
                assert(0 <= pp < pre_o.len());
                assert(pp != o_pos);
                assert(post_o[pp] == pre_o[pp]);
            } else {
                if i != 0 {
                    let pp = spec_parent(o_svg.tags.nbs(), i)->0 as int;
                    assert(pre_o[pp] is Some);
                    assert(0 <= pp < pre_o.len());
                    assert(pp != o_pos);
                    assert(post_o[pp] == pre_o[pp]);
                }
            }
        }
    }
    assert(chained(post_t, t_svg.tags.nbs())) by {
        assert forall|i: int|
            0 < i < post_t.len() && (#[trigger] post_t[i]) is Some implies {
            &&& spec_parent(t_svg.tags.nbs(), i) is Some
            &&& (spec_parent(t_svg.tags.nbs(), i)->0 as int) < post_t.len()
            &&& post_t[spec_parent(t_svg.tags.nbs(), i)->0 as int] is Some
            &&& !post_t[spec_parent(t_svg.tags.nbs(), i)->0 as int]->0.no_match
            &&& !post_t[spec_parent(t_svg.tags.nbs(), i)->0 as int]->0.no_changes
        } by {
            if i != t_pos {
                assert(post_t[i] == pre_t[i]);
                assert(pre_t[i] is Some);
                let pp = spec_parent(t_svg.tags.nbs(), i)->0 as int;
                assert(pre_t[pp] is Some);
                assert(0 <= pp < pre_t.len());
                assert(pp != t_pos);
                assert(post_t[pp] == pre_t[pp]);
            } else {
                if i != 0 {
                    let pp = spec_parent(t_svg.tags.nbs(), i)->0 as int;
                    assert(pre_t[pp] is Some);
                    assert(0 <= pp < pre_t.len());
                    assert(pp != t_pos);
                    assert(post_t[pp] == pre_t[pp]);
                }
            }
        }
    }
}

/// An unmatched write into one empty slot keeps the tables well formed.
/// `on_origin` says which side the slot belongs to; `pre_side` is that
/// side's table before, `post_side` after, and `other` the untouched one.
#[verifier::rlimit(100)]
proof fn lemma_tables_ok_unmatched_write(
    o_tab: Seq<Option<MatchingState>>,
    pre_side: Seq<Option<MatchingState>>,
    post_side: Seq<Option<MatchingState>>,
    o_svg: &SVG,
    t_svg: &SVG,
    o_th: Seq<TreeHash>,
    t_th: Seq<TreeHash>,
    prefix: Seq<char>,
    hi: nat,
    c: int,
    on_origin: bool,
)
    requires
        on_origin ==> tables_ok(pre_side, o_tab, o_svg, t_svg, o_th, t_th, prefix, hi),
        !on_origin ==> tables_ok(o_tab, pre_side, o_svg, t_svg, o_th, t_th, prefix, hi),
        0 <= c < pre_side.len(),
        c <= usize::MAX,
        pre_side[c] is None,
        post_side.len() == pre_side.len(),
        forall|i: int| 0 <= i < pre_side.len() && i != c ==> #[trigger] post_side[i] == pre_side[i],
        post_side[c] is Some,
        ({
            let s = post_side[c]->0;
            &&& s.no_match
            &&& (if on_origin {
                &&& s.origin_index == Some(c as usize)
                &&& s.target_index is None
                &&& id_src(s, o_svg.tags.vals()[c], prefix, hi)
            } else {
                &&& s.target_index == Some(c as usize)
                &&& s.origin_index is None
                &&& id_src(s, t_svg.tags.vals()[c], prefix, hi)
            })
        }),
        ({
            let nbs = if on_origin {
                o_svg.tags.nbs()
            } else {
                t_svg.tags.nbs()
            };
            c == 0 || {
                &&& spec_parent(nbs, c) is Some
                &&& (spec_parent(nbs, c)->0 as int) < pre_side.len()
                &&& pre_side[spec_parent(nbs, c)->0 as int] is Some
                &&& !pre_side[spec_parent(nbs, c)->0 as int]->0.no_match
                &&& !pre_side[spec_parent(nbs, c)->0 as int]->0.no_changes
            }
        }),
    ensures
        on_origin ==> tables_ok(post_side, o_tab, o_svg, t_svg, o_th, t_th, prefix, hi),
        !on_origin ==> tables_ok(o_tab, post_side, o_svg, t_svg, o_th, t_th, prefix, hi),
{
    if on_origin {
        assert forall|i: int|
            0 <= i < post_side.len() && (#[trigger] post_side[i]) is Some implies {
            let s = post_side[i]->0;
            &&& s.origin_index == Some(i as usize)
            &&& id_src(s, o_svg.tags.vals()[i], prefix, hi)
            &&& (if s.no_match {
                s.target_index is None
            } else {
                &&& s.target_index is Some
                &&& (s.target_index->0 as int) < o_tab.len()
                &&& o_tab[s.target_index->0 as int] == Some(s)
                &&& flags_from(s, o_th[i], t_th[s.target_index->0 as int])
            })
        } by {
            if i != c {
                assert(post_side[i] == pre_side[i]);
                assert(pre_side[i] is Some);
            }
        }
        assert forall|j: int|
            0 <= j < o_tab.len() && (#[trigger] o_tab[j]) is Some implies {
            let s = o_tab[j]->0;
            &&& s.target_index == Some(j as usize)
            &&& (if s.no_match {
                &&& s.origin_index is None
                &&& id_src(s, t_svg.tags.vals()[j], prefix, hi)
            } else {
                &&& s.origin_index is Some
                &&& (s.origin_index->0 as int) < post_side.len()
                &&& post_side[s.origin_index->0 as int] == Some(s)
            })
        } by {
            let s = o_tab[j]->0;
            if !s.no_match {
                assert(pre_side[s.origin_index->0 as int] == Some(s));
                assert(s.origin_index->0 as int != c);
            }
        }
        assert(chained(post_side, o_svg.tags.nbs())) by {
            assert forall|i: int|
                0 < i < post_side.len() && (#[trigger] post_side[i]) is Some implies {
                &&& spec_parent(o_svg.tags.nbs(), i) is Some
                &&& (spec_parent(o_svg.tags.nbs(), i)->0 as int) < post_side.len()
                &&& post_side[spec_parent(o_svg.tags.nbs(), i)->0 as int] is Some
                &&& !post_side[spec_parent(o_svg.tags.nbs(), i)->0 as int]->0.no_match
                &&& !post_side[spec_parent(o_svg.tags.nbs(), i)->0 as int]->0.no_changes
            } by {
                if i != c {
                    assert(post_side[i] == pre_side[i]);
                    let pp = spec_parent(o_svg.tags.nbs(), i)->0 as int;
                    assert(pre_side[pp] is Some);
                    assert(0 <= pp < pre_side.len());
                    assert(pp != c);
                    assert(post_side[pp] == pre_side[pp]);
                } else {
                    let pp = spec_parent(o_svg.tags.nbs(), i)->0 as int;
                    assert(pre_side[pp] is Some);
                    assert(0 <= pp < pre_side.len());
                    assert(pp != c);
                    assert(post_side[pp] == pre_side[pp]);
                }
            }
        }
    } else {
        assert forall|i: int|
            0 <= i < o_tab.len() && (#[trigger] o_tab[i]) is Some implies {
            let s = o_tab[i]->0;
            &&& s.origin_index == Some(i as usize)
            &&& id_src(s, o_svg.tags.vals()[i], prefix, hi)
            &&& (if s.no_match {
                s.target_index is None
            } else {
                &&& s.target_index is Some
                &&& (s.target_index->0 as int) < post_side.len()
                &&& post_side[s.target_index->0 as int] == Some(s)
                &&& flags_from(s, o_th[i], t_th[s.target_index->0 as int])
            })
        } by {
            let s = o_tab[i]->0;
            if !s.no_match {
                assert(pre_side[s.target_index->0 as int] == Some(s));
                assert(s.target_index->0 as int != c);
            }
        }
        assert forall|j: int|
            0 <= j < post_side.len() && (#[trigger] post_side[j]) is Some implies {
            let s = post_side[j]->0;
            &&& s.target_index == Some(j as usize)
            &&& (if s.no_match {
                &&& s.origin_index is None
                &&& id_src(s, t_svg.tags.vals()[j], prefix, hi)
            } else {
                &&& s.origin_index is Some
                &&& (s.origin_index->0 as int) < o_tab.len()
                &&& o_tab[s.origin_index->0 as int] == Some(s)
            })
        } by {
            if j != c {
                assert(post_side[j] == pre_side[j]);
                assert(pre_side[j] is Some);
            }
        }
        assert(chained(post_side, t_svg.tags.nbs())) by {
            assert forall|i: int|
                0 < i < post_side.len() && (#[trigger] post_side[i]) is Some implies {
                &&& spec_parent(t_svg.tags.nbs(), i) is Some
                &&& (spec_parent(t_svg.tags.nbs(), i)->0 as int) < post_side.len()
                &&& post_side[spec_parent(t_svg.tags.nbs(), i)->0 as int] is Some
                &&& !post_side[spec_parent(t_svg.tags.nbs(), i)->0 as int]->0.no_match
                &&& !post_side[spec_parent(t_svg.tags.nbs(), i)->0 as int]->0.no_changes
            } by {
                if i != c {
                    assert(post_side[i] == pre_side[i]);
                    let pp = spec_parent(t_svg.tags.nbs(), i)->0 as int;
                    assert(pre_side[pp] is Some);
                    assert(0 <= pp < pre_side.len());
                    assert(pp != c);
                    assert(post_side[pp] == pre_side[pp]);
                } else {
                    let pp = spec_parent(t_svg.tags.nbs(), i)->0 as int;
                    assert(pre_side[pp] is Some);
                    assert(0 <= pp < pre_side.len());
                    assert(pp != c);
                    assert(post_side[pp] == pre_side[pp]);
                }
            }
        }
    }
}

/// A larger counter bound keeps the tables well formed.
proof fn lemma_tables_ok_hi(
    o_ids: Seq<Option<MatchingState>>,
    t_ids: Seq<Option<MatchingState>>,
    o_svg: &SVG,
    t_svg: &SVG,
    o_th: Seq<TreeHash>,
    t_th: Seq<TreeHash>,
    prefix: Seq<char>,
    c0: nat,
    c1: nat,
)
    requires
        tables_ok(o_ids, t_ids, o_svg, t_svg, o_th, t_th, prefix, c0),
        c0 <= c1,
    ensures
        tables_ok(o_ids, t_ids, o_svg, t_svg, o_th, t_th, prefix, c1),
{
    assert forall|i: int|
        0 <= i < o_ids.len() && (#[trigger] o_ids[i]) is Some implies id_src(
        o_ids[i]->0,
        o_svg.tags.vals()[i],
        prefix,
        c1,
    ) by {
        let s = o_ids[i]->0;
        assert(id_src(s, o_svg.tags.vals()[i], prefix, c0));
        if !is_own_id(o_svg.tags.vals()[i], s.matching_id@) {
            let k = choose|k: nat| k < c0 && s.matching_id@ == gen_id(prefix, k);
            assert(k < c1 && s.matching_id@ == gen_id(prefix, k));
        }
    }
    assert forall|j: int|
        0 <= j < t_ids.len() && (#[trigger] t_ids[j]) is Some && t_ids[j]->0.no_match implies id_src(
        t_ids[j]->0,
        t_svg.tags.vals()[j],
        prefix,
        c1,
    ) by {
        let s = t_ids[j]->0;
        assert(id_src(s, t_svg.tags.vals()[j], prefix, c0));
        if !is_own_id(t_svg.tags.vals()[j], s.matching_id@) {
            let k = choose|k: nat| k < c0 && s.matching_id@ == gen_id(prefix, k);
            assert(k < c1 && s.matching_id@ == gen_id(prefix, k));
        }
    }
}

/// Matches the two documents: builds the fingerprints, matches the roots
/// unconditionally, and recurses.  Afterwards every filled slot carries its
/// own index and a traceable identifier, matched slots are cross-linked
/// with change flags drawn from the baseline digests, nothing is written
/// below fully matched pairs or unmatched elements, and no slot is ever
/// written twice (each holds exactly one state).
pub fn get_matching_ids(
    origin: &SVG,
    target: &SVG,
    rules: &MatchingRules,
    g: &mut MatchingIdGenerator,
) -> (r: (Vec<Option<MatchingState>>, Vec<Option<MatchingState>>))
    requires
        origin.wf(),
        target.wf(),
        old(g).counter() + origin.tags.nbs().len() + target.tags.nbs().len() <= u64::MAX,
    ensures
        r.0@.len() == origin.tags.nbs().len(),
        r.1@.len() == target.tags.nbs().len(),
        final(g).prefix_view() == old(g).prefix_view(),
        r.0@[0] is Some && !r.0@[0]->0.no_match && r.0@[0]->0.target_index == Some(0usize),
        r.1@[0] == r.0@[0],
        exists|o_th: Seq<TreeHash>, t_th: Seq<TreeHash>|
            baseline_table(origin, o_th) && baseline_table(target, t_th) && #[trigger] tables_ok(
                r.0@,
                r.1@,
                origin,
                target,
                o_th,
                t_th,
                old(g).prefix_view(),
                final(g).counter(),
            ),
{
    let o_th = crate::svg_data::TreeHash::build_for_svg(origin, &rules.rules);
    let t_th = crate::svg_data::TreeHash::build_for_svg(target, &rules.rules);
    let n_o = origin.tags.count();
    let n_t = target.tags.count();
    let mut o_ids: Vec<Option<MatchingState>> = Vec::new();
    let mut i: usize = 0;
    while i < n_o
        invariant
            i <= n_o,
            o_ids@.len() == i,
            forall|k: int| 0 <= k < i ==> (#[trigger] o_ids@[k]) is None,
        decreases n_o - i,
    {
        o_ids.push(None);
        i = i + 1;
    }
    let mut t_ids: Vec<Option<MatchingState>> = Vec::new();
    let mut j: usize = 0;
    while j < n_t
        invariant
            j <= n_t,
            t_ids@.len() == j,
            forall|k: int| 0 <= k < j ==> (#[trigger] t_ids@[k]) is None,
        decreases n_t - j,
    {
        t_ids.push(None);
        j = j + 1;
    }
    proof {
        lemma_count_none_all(o_ids@);
        lemma_count_none_all(t_ids@);
        assert(tables_ok(
            o_ids@,
            t_ids@,
            origin,
            target,
            o_th@,
            t_th@,
            g.prefix_view(),
            g.counter(),
        ));
    }
    set_matching_ids_rec(
        origin,
        target,
        &o_th,
        &t_th,
        0,
        0,
        &mut o_ids,
        &mut t_ids,
        rules,
        g,
    );
    (o_ids, t_ids)
}

/// A table of empty slots has one empty slot per entry.
proof fn lemma_count_none_all<A>(s: Seq<Option<A>>)
    requires
        forall|k: int| 0 <= k < s.len() ==> (#[trigger] s[k]) is None,
    ensures
        count_none(s) == s.len(),
    decreases s.len(),
{
    if s.len() > 0 {
        assert forall|k: int| 0 <= k < s.drop_first().len() implies (#[trigger] s.drop_first()[k]) is None by {
            assert(s.drop_first()[k] == s[k + 1]);
        }
        lemma_count_none_all(s.drop_first());
    }
}

} // verus!
