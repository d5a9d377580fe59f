//! One SVG element: name, character data and typed attributes.

use vstd::prelude::*;

use crate::errors::SvgError;
use crate::svg_data::attributes::SVGAttValue;
use crate::svg_data::attributes::att_wf;
use crate::svg_data::attributes::attr_may_fail;
use crate::svg_data::attributes::attr_parsed;
use crate::text::chars_of;
use crate::text::cmp_chars;
use crate::text::cp_eq;
use crate::text::lemma_str_lt_trans;
use crate::text::str_lt;

verus! {

/// Some entry carries the key (compared by code points).
pub open spec fn has_key(args: Seq<(String, SVGAttValue)>, k: Seq<char>) -> bool {
    exists|i: int| 0 <= i < args.len() && cp_eq((#[trigger] args[i]).0@, k)
}

/// Some entry carries the key and this value.
pub open spec fn maps_to(args: Seq<(String, SVGAttValue)>, k: Seq<char>, v: SVGAttValue) -> bool {
    exists|i: int| 0 <= i < args.len() && cp_eq((#[trigger] args[i]).0@, k) && args[i].1 == v
}

/// The entries are strictly sorted by attribute name; keys are therefore
/// unique.
pub open spec fn args_sorted(args: Seq<(String, SVGAttValue)>) -> bool {
    forall|i: int, j: int|
        0 <= i < j < args.len() ==> str_lt((#[trigger] args[i]).0@, (#[trigger] args[j]).0@)
}

/// Every stored value can be serialised back.
pub open spec fn args_wf(args: Seq<(String, SVGAttValue)>) -> bool {
    forall|i: int| 0 <= i < args.len() ==> att_wf((#[trigger] args[i]).1)
}

/// The last raw value given for a key, if any.
pub open spec fn last_raw(pairs: Seq<(String, String)>, k: Seq<char>) -> Option<Seq<char>>
    decreases pairs.len(),
{
    if pairs.len() == 0 {
        None
    } else if cp_eq(pairs.last().0@, k) {
        Some(pairs.last().1@)
    } else {
        last_raw(pairs.drop_last(), k)
    }
}

/// One SVG element.  `text` holds the concatenated character data (at most
/// one block survives; a later block replaces an earlier one).
#[derive(Debug, Clone)]
pub struct Tag {
    pub name: String,
    pub text: String,
    pub args: Vec<(String, SVGAttValue)>,
}

impl Tag {
    /// Sorted unique attribute names with serialisable values.
    pub open spec fn wf(&self) -> bool {
        &&& args_sorted(self.args@)
        &&& args_wf(self.args@)
    }

    /// Builds a tag, parsing each attribute by its name's grammar.  When the
    /// same name appears twice the later value wins.  Fails with
    /// `AttributeParse` exactly when some attribute value is malformed.
    pub fn new(name: String, text: String, in_args: Vec<(String, String)>) -> (r: Result<
        Tag,
        SvgError,
    >)
        ensures
            match r {
                Ok(t) => t.name == name && t.text == text && t.wf() && (forall|k: Seq<char>|
                    (#[trigger] last_raw(in_args@, k)) is Some ==> exists|v: SVGAttValue|
                        #[trigger] maps_to(t.args@, k, v) && attr_parsed(
                            k,
                            last_raw(in_args@, k)->0,
                            v,
                        )) && (forall|k: Seq<char>|
                    (#[trigger] last_raw(in_args@, k)) is None ==> !has_key(t.args@, k)),
                Err(e) => e == SvgError::AttributeParse && exists|i: int|
                    0 <= i < in_args@.len() && attr_may_fail(
                        (#[trigger] in_args@[i]).0@,
                        in_args@[i].1@,
                    ),
            },
    {
        let mut args: Vec<(String, SVGAttValue)> = Vec::new();
        let n = in_args.len();
        let mut i: usize = 0;
        while i < n
            invariant
                i <= n,
                n == in_args@.len(),
                args_sorted(args@),
                args_wf(args@),
                forall|k: Seq<char>|
                    (#[trigger] last_raw(in_args@.take(i as int), k)) is Some ==> exists|
                        v: SVGAttValue,
                    |
                        #[trigger] maps_to(args@, k, v) && attr_parsed(
                            k,
                            last_raw(in_args@.take(i as int), k)->0,
                            v,
                        ),
                forall|k: Seq<char>|
                    (#[trigger] last_raw(in_args@.take(i as int), k)) is None ==> !has_key(
                        args@,
                        k,
                    ),
            decreases n - i,
        {
            let prop = &in_args[i].0;
            let raw = &in_args[i].1;
            let v = match SVGAttValue::from_prop(prop.as_str(), raw.as_str()) {
                Ok(v) => v,
                Err(e) => {
                    return Err(e);
                },
            };
            let ghost pre = args@;
            insert_arg(&mut args, prop.clone(), v);
            i = i + 1;
            proof {
                let taken = in_args@.take(i as int);
                assert(taken.drop_last() =~= in_args@.take(i - 1));
                assert(taken.last() == in_args@[i - 1]);
                assert forall|k: Seq<char>| !((#[trigger] last_raw(taken, k)) is Some) || (
                exists|v2: SVGAttValue|
                    #[trigger] maps_to(args@, k, v2) && attr_parsed(k, last_raw(taken, k)->0, v2)
                ) by {
                    if cp_eq(in_args@[i - 1].0@, k) {
                        // the new entry answers for k
                        assert(last_raw(taken, k) == Some(in_args@[i - 1].1@));
                        assert(cp_eq(k, prop@)) by {
                            lemma_cp_eq_sym(prop@, k);
                        }
                        assert(maps_to(args@, k, v) && attr_parsed(k, in_args@[i - 1].1@, v))
                            by {
                            lemma_cp_eq_attr(prop@, k, in_args@[i - 1].1@, v);
                        }
                    } else if last_raw(taken, k) is Some {
                        assert(last_raw(taken, k) == last_raw(in_args@.take(i - 1), k));
                        assert(!cp_eq(k, prop@)) by {
                            lemma_cp_eq_sym(prop@, k);
                        }
                        let raw2 = last_raw(in_args@.take(i - 1), k)->0;
                        let v2 = choose|v2: SVGAttValue|
                            #[trigger] maps_to(pre, k, v2) && attr_parsed(k, raw2, v2);
                        assert(maps_to(args@, k, v2));
                        assert(attr_parsed(k, last_raw(taken, k)->0, v2));
                    }
                }
                assert forall|k: Seq<char>| !((#[trigger] last_raw(taken, k)) is None)
                    || !has_key(args@, k) by {
                    if last_raw(taken, k) is None {
                        assert(!cp_eq(in_args@[i - 1].0@, k));
                        assert(last_raw(taken, k) == last_raw(in_args@.take(i - 1), k));
                        assert(!cp_eq(k, prop@)) by {
                            lemma_cp_eq_sym(prop@, k);
                        }
                        assert(!has_key(pre, k));
                        assert(!has_key(args@, k));
                    }
                }
            }
        }
        proof {
            assert(in_args@.take(n as int) =~= in_args@);
        }
        Ok(Tag { name, text, args })
    }

    /// The attribute value stored under `name`, if any.
    pub fn get_arg(&self, name: &str) -> (r: Option<&SVGAttValue>)
        ensures
            match r {
                Some(v) => maps_to(self.args@, name@, *v),
                None => !has_key(self.args@, name@),
            },
    {
        let key = chars_of(name);
        let n = self.args.len();
        let mut i: usize = 0;
        while i < n
            invariant
                i <= n,
                n == self.args@.len(),
                key@ == name@,
                forall|j: int| 0 <= j < i ==> !cp_eq((#[trigger] self.args@[j]).0@, name@),
            decreases n - i,
        {
            let entry_key = chars_of(self.args[i].0.as_str());
            if cmp_chars(&entry_key, &key) == 0 {
                return Some(&self.args[i].1);
            }
            i = i + 1;
        }
        None
    }
}

/// The grammar is keyed by code points, so names equal by code points
/// parse alike.
proof fn lemma_cp_eq_attr(p1: Seq<char>, p2: Seq<char>, raw: Seq<char>, v: SVGAttValue)
    requires
        cp_eq(p1, p2),
        attr_parsed(p1, raw, v),
    ensures
        attr_parsed(p2, raw, v),
{
    lemma_cp_eq_literal(p1, p2, "transform"@);
    lemma_cp_eq_literal(p1, p2, "viewBox"@);
    lemma_cp_eq_literal(p1, p2, "d"@);
    lemma_cp_eq_literal(p1, p2, "fill"@);
    lemma_cp_eq_literal(p1, p2, "stroke"@);
}

/// Two code-point-equal strings are code-point-equal to the same literals.
proof fn lemma_cp_eq_literal(p1: Seq<char>, p2: Seq<char>, lit: Seq<char>)
    requires
        cp_eq(p1, p2),
    ensures
        cp_eq(p1, lit) == cp_eq(p2, lit),
{
    if cp_eq(p1, lit) {
        assert forall|k: int| 0 <= k < p2.len() implies (#[trigger] p2[k]) as u32 == lit[k]
            as u32 by {
            assert(p1[k] as u32 == p2[k] as u32);
            assert(p1[k] as u32 == lit[k] as u32);
        }
    }
    if cp_eq(p2, lit) {
        assert forall|k: int| 0 <= k < p1.len() implies (#[trigger] p1[k]) as u32 == lit[k]
            as u32 by {
            assert(p1[k] as u32 == p2[k] as u32);
            assert(p2[k] as u32 == lit[k] as u32);
        }
    }
}

/// Inserts a value under a name, keeping the entries sorted; an entry whose
/// name has the same code points is replaced.
fn insert_arg(args: &mut Vec<(String, SVGAttValue)>, name: String, v: SVGAttValue)
    requires
        args_sorted(old(args)@),
        args_wf(old(args)@),
        att_wf(v),
    ensures
        args_sorted(final(args)@),
        args_wf(final(args)@),
        maps_to(final(args)@, name@, v),
        forall|k: Seq<char>, v2: SVGAttValue|
            !cp_eq(k, name@) ==> (#[trigger] maps_to(final(args)@, k, v2) == maps_to(
                old(args)@,
                k,
                v2,
            )),
        forall|k: Seq<char>|
            !cp_eq(k, name@) ==> (#[trigger] has_key(final(args)@, k) == has_key(old(args)@, k)),
        forall|k: Seq<char>| cp_eq(k, name@) ==> has_key(final(args)@, k),
        forall|k: Seq<char>, v2: SVGAttValue|
            cp_eq(k, name@) ==> (#[trigger] maps_to(final(args)@, k, v2) == (v2 == v)),
{
    let key = chars_of(name.as_str());
    let n = args.len();
    let mut i: usize = 0;
    while i < n
        invariant
            i <= n,
            n == args@.len(),
            args@ == old(args)@,
            args_sorted(args@),
            args_wf(args@),
            att_wf(v),
            key@ == name@,
            forall|j: int| 0 <= j < i ==> str_lt((#[trigger] args@[j]).0@, name@),
        decreases n - i,
    {
        let entry_key = chars_of(args[i].0.as_str());
        let c = cmp_chars(&entry_key, &key);
        if c == 0 {
            // same name: replace the value, keeping the stored name
            let ghost pre = args@;
            args[i].1 = v;
            proof {
                lemma_update_maps(pre, i as int, args@[i as int], key@, v);
            }
            return ;
        }
        if c == 1 {
            // the new name sorts before this entry: insert here
            let ghost pre = args@;
            args.insert(i, (name, v));
            proof {
                lemma_insert_maps(pre, i as int, name, v, key@);
            }
            return ;
        }
        i = i + 1;
    }
    let ghost pre = args@;
    args.push((name, v));
    proof {
        assert(final(args)@ == pre.push((name, v)));
        lemma_insert_maps(pre, pre.len() as int, name, v, key@);
        assert(pre.insert(pre.len() as int, (name, v)) =~= pre.push((name, v)));
    }
}

/// Updating the entry whose key matches keeps all other associations.
proof fn lemma_update_maps(
    pre: Seq<(String, SVGAttValue)>,
    i: int,
    entry: (String, SVGAttValue),
    key: Seq<char>,
    v: SVGAttValue,
)
    requires
        0 <= i < pre.len(),
        args_sorted(pre),
        args_wf(pre),
        att_wf(v),
        cp_eq(pre[i].0@, key),
        entry.0 == pre[i].0,
        entry.1 == v,
    ensures
        args_sorted(pre.update(i, entry)),
        args_wf(pre.update(i, entry)),
        maps_to(pre.update(i, entry), key, v),
        forall|k: Seq<char>, v2: SVGAttValue|
            !cp_eq(k, key) ==> (#[trigger] maps_to(pre.update(i, entry), k, v2) == maps_to(
                pre,
                k,
                v2,
            )),
        forall|k: Seq<char>|
            !cp_eq(k, key) ==> (#[trigger] has_key(pre.update(i, entry), k) == has_key(pre, k)),
        forall|k: Seq<char>| cp_eq(k, key) ==> has_key(pre.update(i, entry), k),
        forall|k: Seq<char>, v2: SVGAttValue|
            cp_eq(k, key) ==> (#[trigger] maps_to(pre.update(i, entry), k, v2) == (v2 == v)),
{
    let post = pre.update(i, entry);
    assert(post[i] == entry);
    // names are unchanged, so the order carries over directly
    assert forall|a: int, b: int| 0 <= a < b < post.len() implies str_lt(
        (#[trigger] post[a]).0@,
        (#[trigger] post[b]).0@,
    ) by {
        assert(str_lt(pre[a].0@, pre[b].0@));
        assert(post[a].0 == pre[a].0);
        assert(post[b].0 == pre[b].0);
    }
    // uniqueness: no other entry shares the key
    assert forall|j: int| 0 <= j < pre.len() && j != i implies !cp_eq(
        (#[trigger] pre[j]).0@,
        key,
    ) by {
        if j < i {
            assert(str_lt(pre[j].0@, pre[i].0@));
            lemma_str_lt_not_cp_eq(pre[j].0@, pre[i].0@, key);
        } else {
            assert(str_lt(pre[i].0@, pre[j].0@));
            lemma_str_lt_not_cp_eq_right(pre[i].0@, pre[j].0@, key);
        }
    }
    assert forall|k: Seq<char>, v2: SVGAttValue|
        !cp_eq(k, key) implies (#[trigger] maps_to(post, k, v2) == maps_to(pre, k, v2)) by {
        if maps_to(pre, k, v2) {
            let j = choose|j: int| 0 <= j < pre.len() && cp_eq(pre[j].0@, k) && pre[j].1 == v2;
            assert(j != i) by {
                if j == i {
                    lemma_cp_eq_sym_trans2(pre[i].0@, key, k);
                }
            }
            assert(post[j] == pre[j]);
            assert(maps_to(post, k, v2));
        }
        if maps_to(post, k, v2) {
            let j = choose|j: int| 0 <= j < post.len() && cp_eq(post[j].0@, k) && post[j].1 == v2;
            assert(j != i) by {
                if j == i {
                    assert(post[i].0 == pre[i].0);
                    lemma_cp_eq_sym_trans2(pre[i].0@, key, k);
                }
            }
            assert(maps_to(pre, k, v2));
        }
    }
    assert forall|k: Seq<char>|
        !cp_eq(k, key) implies (#[trigger] has_key(post, k) == has_key(pre, k)) by {
        if has_key(pre, k) {
            let j = choose|j: int| 0 <= j < pre.len() && cp_eq(pre[j].0@, k);
            assert(j != i) by {
                if j == i {
                    lemma_cp_eq_sym_trans2(pre[i].0@, key, k);
                }
            }
            assert(cp_eq(post[j].0@, k));
        }
        if has_key(post, k) {
            let j = choose|j: int| 0 <= j < post.len() && cp_eq(post[j].0@, k);
            assert(j != i) by {
                if j == i {
                    assert(post[i].0 == pre[i].0);
                    lemma_cp_eq_sym_trans2(pre[i].0@, key, k);
                }
            }
            assert(cp_eq(pre[j].0@, k));
        }
    }
    assert forall|k: Seq<char>, v2: SVGAttValue|
        cp_eq(k, key) implies (#[trigger] maps_to(post, k, v2) == (v2 == v)) by {
        if maps_to(post, k, v2) {
            let j = choose|j: int| 0 <= j < post.len() && cp_eq(post[j].0@, k) && post[j].1 == v2;
            if j != i {
                assert(post[j] == pre[j]);
                assert(cp_eq(pre[j].0@, k));
                lemma_cp_eq_sym_trans(pre[j].0@, k, key);
            }
        }
        if v2 == v {
            assert(cp_eq(post[i].0@, k)) by {
                lemma_cp_eq_sym(k, key);
                lemma_cp_eq_sym_trans(k, key, key);
                lemma_cp_eq_sym_trans2(pre[i].0@, key, k);
            }
            assert(maps_to(post, k, v2));
        }
    }
    assert(cp_eq(post[i].0@, key) && post[i].1 == v);
}

/// Inserting a fresh key at its sorted position keeps all associations.
proof fn lemma_insert_maps(
    pre: Seq<(String, SVGAttValue)>,
    i: int,
    name: String,
    v: SVGAttValue,
    key: Seq<char>,
)
    requires
        0 <= i <= pre.len(),
        args_sorted(pre),
        args_wf(pre),
        att_wf(v),
        key == name@,
        forall|j: int| 0 <= j < i ==> str_lt((#[trigger] pre[j]).0@, key),
        i < pre.len() ==> str_lt(key, pre[i].0@),
    ensures
        args_sorted(pre.insert(i, (name, v))),
        args_wf(pre.insert(i, (name, v))),
        maps_to(pre.insert(i, (name, v)), key, v),
        forall|k: Seq<char>, v2: SVGAttValue|
            !cp_eq(k, key) ==> (#[trigger] maps_to(pre.insert(i, (name, v)), k, v2) == maps_to(
                pre,
                k,
                v2,
            )),
        forall|k: Seq<char>|
            !cp_eq(k, key) ==> (#[trigger] has_key(pre.insert(i, (name, v)), k) == has_key(
                pre,
                k,
            )),
        forall|k: Seq<char>| cp_eq(k, key) ==> has_key(pre.insert(i, (name, v)), k),
        forall|k: Seq<char>, v2: SVGAttValue|
            cp_eq(k, key) ==> (#[trigger] maps_to(pre.insert(i, (name, v)), k, v2) == (v2 == v)),
{
    let post = pre.insert(i, (name, v));
    assert(post.len() == pre.len() + 1);
    assert(post[i] == (name, v));
    assert(forall|j: int| 0 <= j < i ==> #[trigger] post[j] == pre[j]);
    assert(forall|j: int| i < j < post.len() ==> #[trigger] post[j] == pre[j - 1]);
    // order around the insertion point extends by transitivity
    assert forall|a: int, b: int| 0 <= a < b < post.len() implies str_lt(
        (#[trigger] post[a]).0@,
        (#[trigger] post[b]).0@,
    ) by {
        if b < i {
            assert(post[a] == pre[a] && post[b] == pre[b]);
            assert(str_lt(pre[a].0@, pre[b].0@));
        } else if a < i && b == i {
            assert(post[a] == pre[a]);
            assert(str_lt(pre[a].0@, key));
            assert(post[b].0@ == name@);
        } else if a == i {
            // b > i here
            assert(post[b] == pre[b - 1]);
            assert(str_lt(key, pre[i].0@));
            if b - 1 > i {
                assert(str_lt(pre[i].0@, pre[b - 1].0@));
                lemma_str_lt_trans(key, pre[i].0@, pre[b - 1].0@);
            }
            assert(post[a].0@ == name@);
            assert(str_lt(name@, post[b].0@));
        } else if a < i && b > i {
            assert(post[a] == pre[a]);
            assert(post[b] == pre[b - 1]);
            assert(str_lt(pre[a].0@, key));
            assert(str_lt(key, pre[i].0@));
            if b - 1 > i {
                assert(str_lt(pre[i].0@, pre[b - 1].0@));
                lemma_str_lt_trans(key, pre[i].0@, pre[b - 1].0@);
            }
            assert(str_lt(key, post[b].0@));
            lemma_str_lt_trans(pre[a].0@, key, post[b].0@);
        } else {
            // i < a < b
            assert(post[a] == pre[a - 1] && post[b] == pre[b - 1]);
            assert(str_lt(pre[a - 1].0@, pre[b - 1].0@));
        }
    }
    // the key is fresh: order is strict, so no old entry matches it
    assert forall|j: int| 0 <= j < pre.len() implies !cp_eq((#[trigger] pre[j]).0@, key) by {
        if j < i {
            assert(str_lt(pre[j].0@, key));
            lemma_str_lt_not_cp_eq(pre[j].0@, key, key);
        } else {
            assert(str_lt(key, pre[j].0@)) by {
                if j == i {
                } else {
                    assert(str_lt(pre[i].0@, pre[j].0@));
                    lemma_str_lt_trans(key, pre[i].0@, pre[j].0@);
                }
            }
            lemma_str_lt_not_cp_eq_right(key, pre[j].0@, key);
        }
    }
    assert forall|k: Seq<char>, v2: SVGAttValue|
        !cp_eq(k, key) implies (#[trigger] maps_to(post, k, v2) == maps_to(pre, k, v2)) by {
        if maps_to(pre, k, v2) {
            let j = choose|j: int| 0 <= j < pre.len() && cp_eq(pre[j].0@, k) && pre[j].1 == v2;
            if j < i {
                assert(post[j] == pre[j]);
            } else {
                assert(post[j + 1] == pre[j]);
            }
            assert(maps_to(post, k, v2));
        }
        if maps_to(post, k, v2) {
            let j = choose|j: int| 0 <= j < post.len() && cp_eq(post[j].0@, k) && post[j].1 == v2;
            assert(j != i) by {
                if j == i {
                    lemma_cp_eq_sym_trans3(name@, k, key);
                }
            }
            if j < i {
                assert(pre[j] == post[j]);
            } else {
                assert(pre[j - 1] == post[j]);
            }
            assert(maps_to(pre, k, v2));
        }
    }
    assert forall|k: Seq<char>|
        !cp_eq(k, key) implies (#[trigger] has_key(post, k) == has_key(pre, k)) by {
        if has_key(pre, k) {
            let j = choose|j: int| 0 <= j < pre.len() && cp_eq(pre[j].0@, k);
            if j < i {
                assert(cp_eq(post[j].0@, k));
            } else {
                assert(cp_eq(post[j + 1].0@, k));
            }
        }
        if has_key(post, k) {
            let j = choose|j: int| 0 <= j < post.len() && cp_eq(post[j].0@, k);
            assert(j != i) by {
                if j == i {
                    lemma_cp_eq_sym_trans3(name@, k, key);
                }
            }
            if j < i {
                assert(cp_eq(pre[j].0@, k));
            } else {
                assert(cp_eq(pre[j - 1].0@, k));
            }
        }
    }
    assert forall|k: Seq<char>, v2: SVGAttValue|
        cp_eq(k, key) implies (#[trigger] maps_to(post, k, v2) == (v2 == v)) by {
        if maps_to(post, k, v2) {
            let j = choose|j: int| 0 <= j < post.len() && cp_eq(post[j].0@, k) && post[j].1 == v2;
            if j != i {
                let j2 = if j < i {
                    j
                } else {
                    j - 1
                };
                assert(cp_eq(pre[j2].0@, k));
                lemma_cp_eq_sym_trans(pre[j2].0@, k, key);
            }
        }
        if v2 == v {
            assert(cp_eq(post[i].0@, k)) by {
                lemma_cp_eq_sym_trans4(name@, key, k);
            }
            assert(maps_to(post, k, v2));
        }
    }
    assert(cp_eq(post[i].0@, key) && post[i].1 == v);
}

/// Code-point equality is symmetric.
proof fn lemma_cp_eq_sym(a: Seq<char>, b: Seq<char>)
    ensures
        cp_eq(a, b) == cp_eq(b, a),
{
    if cp_eq(a, b) {
        assert forall|k: int| 0 <= k < b.len() implies (#[trigger] b[k]) as u32 == a[k] as u32 by {
            assert(a[k] as u32 == b[k] as u32);
        }
    }
    if cp_eq(b, a) {
        assert forall|k: int| 0 <= k < a.len() implies (#[trigger] a[k]) as u32 == b[k] as u32 by {
            assert(b[k] as u32 == a[k] as u32);
        }
    }
}

/// Code-point equality is symmetric and transitive; small bridges used by
/// the insertion proofs.
proof fn lemma_cp_eq_sym_trans(a: Seq<char>, b: Seq<char>, c: Seq<char>)
    requires
        cp_eq(a, b),
        cp_eq(a, c),
    ensures
        cp_eq(b, c),
{
    assert forall|k: int| 0 <= k < b.len() implies (#[trigger] b[k]) as u32 == c[k] as u32 by {
        assert(a[k] as u32 == b[k] as u32);
        assert(a[k] as u32 == c[k] as u32);
    }
}

proof fn lemma_cp_eq_sym_trans2(a: Seq<char>, b: Seq<char>, c: Seq<char>)
    requires
        cp_eq(a, b),
        cp_eq(a, c),
    ensures
        cp_eq(c, b),
        cp_eq(b, c),
{
    lemma_cp_eq_sym_trans(a, b, c);
    assert forall|k: int| 0 <= k < c.len() implies (#[trigger] c[k]) as u32 == b[k] as u32 by {
        assert(b[k] as u32 == c[k] as u32);
    }
}

proof fn lemma_cp_eq_sym_trans3(a: Seq<char>, b: Seq<char>, c: Seq<char>)
    requires
        cp_eq(a, b),
        a == c,
    ensures
        cp_eq(c, b),
        cp_eq(b, c),
{
    assert forall|k: int| 0 <= k < b.len() implies (#[trigger] b[k]) as u32 == c[k] as u32 by {
        assert(a[k] as u32 == b[k] as u32);
    }
}

proof fn lemma_cp_eq_sym_trans4(a: Seq<char>, b: Seq<char>, c: Seq<char>)
    requires
        a == b,
        cp_eq(c, b),
    ensures
        cp_eq(a, c),
{
    assert forall|k: int| 0 <= k < a.len() implies (#[trigger] a[k]) as u32 == c[k] as u32 by {
        assert(c[k] as u32 == b[k] as u32);
    }
}

/// Replacing a name by a code-point-equal one keeps the order.
proof fn lemma_str_lt_cp(a: Seq<char>, a2: Seq<char>, b: Seq<char>)
    requires
        str_lt(a, b),
        cp_eq(a, a2),
    ensures
        str_lt(a2, b),
    decreases a.len(),
{
    if a.len() > 0 && b.len() > 0 {
        if (a[0] as u32) == (b[0] as u32) {
            assert(a.drop_first() =~= a.drop_first());
            assert forall|k: int| 0 <= k < a.drop_first().len() implies (#[trigger] a.drop_first()[k]) as u32 == a2.drop_first()[k] as u32 by {
                assert(a[k + 1] as u32 == a2[k + 1] as u32);
            }
            lemma_str_lt_cp(a.drop_first(), a2.drop_first(), b.drop_first());
        }
    }
}

proof fn lemma_str_lt_cp_right(a: Seq<char>, b: Seq<char>, b2: Seq<char>)
    requires
        str_lt(a, b),
        cp_eq(b, b2),
    ensures
        str_lt(a, b2),
    decreases a.len(),
{
    if a.len() > 0 && b.len() > 0 {
        if (a[0] as u32) == (b[0] as u32) {
            assert forall|k: int| 0 <= k < b.drop_first().len() implies (#[trigger] b.drop_first()[k]) as u32 == b2.drop_first()[k] as u32 by {
                assert(b[k + 1] as u32 == b2[k + 1] as u32);
            }
            lemma_str_lt_cp_right(a.drop_first(), b.drop_first(), b2.drop_first());
        }
    }
}

/// Strictly ordered names are not code-point-equal.
pub proof fn lemma_str_lt_not_cp_eq(a: Seq<char>, b: Seq<char>, k: Seq<char>)
    requires
        str_lt(a, b),
        cp_eq(b, k),
    ensures
        !cp_eq(a, k),
{
    if cp_eq(a, k) {
        lemma_cp_eq_sym_trans(b, k, k);
        lemma_str_lt_cp_irref(a, b);
    }
}

proof fn lemma_str_lt_not_cp_eq_right(a: Seq<char>, b: Seq<char>, k: Seq<char>)
    requires
        str_lt(a, b),
        cp_eq(a, k),
    ensures
        !cp_eq(b, k),
{
    if cp_eq(b, k) {
        lemma_str_lt_cp_irref(a, b);
    }
}

/// Nothing is strictly below a code-point-equal string.
proof fn lemma_str_lt_cp_irref(a: Seq<char>, b: Seq<char>)
    requires
        cp_eq(a, b) || (exists|k: Seq<char>| cp_eq(a, k) && cp_eq(b, k)),
    ensures
        !str_lt(a, b),
    decreases a.len(),
{
    let keq: bool = if cp_eq(a, b) {
        true
    } else {
        false
    };
    if !keq {
        let k = choose|k: Seq<char>| cp_eq(a, k) && cp_eq(b, k);
        assert(cp_eq(a, b)) by {
            lemma_cp_eq_sym_trans(a, k, k);
        }
    }
    if a.len() > 0 && b.len() > 0 {
        assert(a[0] as u32 == b[0] as u32);
        if str_lt(a, b) {
            assert forall|j: int| 0 <= j < a.drop_first().len() implies (#[trigger] a.drop_first()[j]) as u32 == b.drop_first()[j] as u32 by {
                assert(a[j + 1] as u32 == b[j + 1] as u32);
            }
            lemma_str_lt_cp_irref(a.drop_first(), b.drop_first());
        }
    }
}

} // verus!
