//! The delta between two attribute maps: the keys only in the first, the
//! keys only in the second, and the keys in both whose values differ.  The
//! values are carried in their canonical serialisation, ready for emission.

use vstd::prelude::*;

use crate::svg_data::attributes::SVGAttValue;
use crate::svg_data::attributes::att_eq;
use crate::svg_data::attributes::att_str;
use crate::svg_data::tag::args_sorted;
use crate::svg_data::tag::args_wf;
use crate::text::chars_of;
use crate::text::cmp_chars;
use crate::text::cp_eq;
use crate::text::str_lt;

verus! {

/// The value stored under a key, by first match.
pub open spec fn lookup_val(args: Seq<(String, SVGAttValue)>, k: Seq<char>) -> Option<SVGAttValue>
    decreases args.len(),
{
    if args.len() == 0 {
        None
    } else if cp_eq(args[0].0@, k) {
        Some(args[0].1)
    } else {
        lookup_val(args.drop_first(), k)
    }
}

/// Some recorded entry carries the key.
pub open spec fn has_entry(entries: Seq<(String, String)>, k: Seq<char>) -> bool {
    exists|t: int| 0 <= t < entries.len() && cp_eq((#[trigger] entries[t]).0@, k)
}

/// Some recorded change carries the key.
pub open spec fn has_change(entries: Seq<(String, String, String)>, k: Seq<char>) -> bool {
    exists|t: int| 0 <= t < entries.len() && cp_eq((#[trigger] entries[t]).0@, k)
}

/// In a sorted map, every entry is found under its own key.
pub proof fn lemma_lookup_self(args: Seq<(String, SVGAttValue)>, j: int)
    requires
        args_sorted(args),
        0 <= j < args.len(),
    ensures
        lookup_val(args, args[j].0@) == Some(args[j].1),
    decreases args.len(),
{
    if j == 0 {
        assert(cp_eq(args[0].0@, args[0].0@));
    } else {
        assert(str_lt(args[0].0@, args[j].0@));
        assert(cp_eq(args[j].0@, args[j].0@));
        assert(!cp_eq(args[0].0@, args[j].0@)) by {
            crate::svg_data::tag::lemma_str_lt_not_cp_eq(args[0].0@, args[j].0@, args[j].0@);
        }
        assert forall|x: int, y: int| 0 <= x < y < args.drop_first().len() implies str_lt(
            (#[trigger] args.drop_first()[x]).0@,
            (#[trigger] args.drop_first()[y]).0@,
        ) by {
            assert(args.drop_first()[x] == args[x + 1]);
            assert(args.drop_first()[y] == args[y + 1]);
        }
        assert(args.drop_first()[j - 1] == args[j]);
        lemma_lookup_self(args.drop_first(), j - 1);
    }
}

/// A value found in a well-formed map can be serialised back.
pub proof fn lemma_lookup_wf(args: Seq<(String, SVGAttValue)>, k: Seq<char>)
    requires
        args_wf(args),
        lookup_val(args, k) is Some,
    ensures
        crate::svg_data::attributes::att_wf(lookup_val(args, k)->0),
    decreases args.len(),
{
    if args.len() > 0 && !cp_eq(args[0].0@, k) {
        assert forall|i: int| 0 <= i < args.drop_first().len() implies crate::svg_data::attributes::att_wf(
            (#[trigger] args.drop_first()[i]).1,
        ) by {
            assert(args.drop_first()[i] == args[i + 1]);
        }
        lemma_lookup_wf(args.drop_first(), k);
    }
}

/// The attribute delta of a matched pair, in the first map's key order for
/// deletions and changes and the second map's key order for additions.
#[derive(Debug, Clone)]
pub struct HashMapDiff {
    pub deletes: Vec<(String, String)>,
    pub changes: Vec<(String, String, String)>,
    pub adds: Vec<(String, String)>,
}

impl HashMapDiff {
    /// The delta is sound (every entry records a real difference, with the
    /// canonical serialisation of the values involved) and complete (every
    /// difference is recorded under its key).
    pub open spec fn describes(
        &self,
        a: Seq<(String, SVGAttValue)>,
        b: Seq<(String, SVGAttValue)>,
    ) -> bool {
        &&& forall|t: int|
            0 <= t < self.deletes@.len() ==> {
                let k = (#[trigger] self.deletes@[t]).0@;
                &&& lookup_val(a, k) is Some
                &&& self.deletes@[t].1@ == att_str(lookup_val(a, k)->0)
                &&& lookup_val(b, k) is None
            }
        &&& forall|j: int|
            0 <= j < a.len() && lookup_val(b, (#[trigger] a[j]).0@) is None ==> has_entry(
                self.deletes@,
                a[j].0@,
            )
        &&& forall|t: int|
            0 <= t < self.adds@.len() ==> {
                let k = (#[trigger] self.adds@[t]).0@;
                &&& lookup_val(b, k) is Some
                &&& self.adds@[t].1@ == att_str(lookup_val(b, k)->0)
                &&& lookup_val(a, k) is None
            }
        &&& forall|j: int|
            0 <= j < b.len() && lookup_val(a, (#[trigger] b[j]).0@) is None ==> has_entry(
                self.adds@,
                b[j].0@,
            )
        &&& forall|t: int|
            0 <= t < self.changes@.len() ==> {
                let k = (#[trigger] self.changes@[t]).0@;
                &&& lookup_val(a, k) is Some
                &&& lookup_val(b, k) is Some
                &&& !att_eq(lookup_val(a, k)->0, lookup_val(b, k)->0)
                &&& self.changes@[t].1@ == att_str(lookup_val(a, k)->0)
                &&& self.changes@[t].2@ == att_str(lookup_val(b, k)->0)
            }
        &&& forall|j: int|
            0 <= j < a.len() && lookup_val(b, (#[trigger] a[j]).0@) is Some && !att_eq(
                a[j].1,
                lookup_val(b, a[j].0@)->0,
            ) ==> has_change(self.changes@, a[j].0@)
    }

    /// Computes the delta of two attribute maps with sorted unique keys:
    /// keys only in `a` become deletions, keys only in `b` become additions,
    /// and keys in both whose values differ become changes carrying the
    /// serialised value before and after.
    pub fn create(a: &Vec<(String, SVGAttValue)>, b: &Vec<(String, SVGAttValue)>) -> (r:
        HashMapDiff)
        requires
            args_sorted(a@),
            args_sorted(b@),
            args_wf(a@),
            args_wf(b@),
        ensures
            r.describes(a@, b@),
    {
        let mut deletes: Vec<(String, String)> = Vec::new();
        let mut changes: Vec<(String, String, String)> = Vec::new();
        let na = a.len();
        let mut j: usize = 0;
        while j < na
            invariant
                j <= na,
                na == a@.len(),
                args_sorted(a@),
                args_sorted(b@),
                args_wf(a@),
                args_wf(b@),
                forall|t: int|
                    0 <= t < deletes@.len() ==> {
                        let k = (#[trigger] deletes@[t]).0@;
                        &&& lookup_val(a@, k) is Some
                        &&& deletes@[t].1@ == att_str(lookup_val(a@, k)->0)
                        &&& lookup_val(b@, k) is None
                    },
                forall|i: int|
                    0 <= i < j && lookup_val(b@, (#[trigger] a@[i]).0@) is None ==> has_entry(
                        deletes@,
                        a@[i].0@,
                    ),
                forall|t: int|
                    0 <= t < changes@.len() ==> {
                        let k = (#[trigger] changes@[t]).0@;
                        &&& lookup_val(a@, k) is Some
                        &&& lookup_val(b@, k) is Some
                        &&& !att_eq(lookup_val(a@, k)->0, lookup_val(b@, k)->0)
                        &&& changes@[t].1@ == att_str(lookup_val(a@, k)->0)
                        &&& changes@[t].2@ == att_str(lookup_val(b@, k)->0)
                    },
                forall|i: int|
                    0 <= i < j && lookup_val(b@, (#[trigger] a@[i]).0@) is Some && !att_eq(
                        a@[i].1,
                        lookup_val(b@, a@[i].0@)->0,
                    ) ==> has_change(changes@, a@[i].0@),
            decreases na - j,
        {
            let key = chars_of(a[j].0.as_str());
            let ghost pre_del = deletes@;
            let ghost pre_chg = changes@;
            proof {
                lemma_lookup_self(a@, j as int);
            }
            match lookup_arg(b, &key) {
                Some(vb) => {
                    proof {
                        lemma_lookup_wf(b@, key@);
                    }
                    if !a[j].1.eq_value(vb) {
                        changes.push((a[j].0.clone(), a[j].1.to_string(), vb.to_string()));
                        proof {
                            let t = changes@.len() - 1;
                            assert(changes@[t].0@ == a@[j as int].0@);
                            assert(cp_eq(changes@[t].0@, a@[j as int].0@));
                            assert(forall|t2: int|
                                0 <= t2 < pre_chg.len() ==> changes@[t2] == pre_chg[t2]);
                        }
                    }
                },
                None => {
                    deletes.push((a[j].0.clone(), a[j].1.to_string()));
                    proof {
                        let t = deletes@.len() - 1;
                        assert(deletes@[t].0@ == a@[j as int].0@);
                        assert(cp_eq(deletes@[t].0@, a@[j as int].0@));
                        assert(forall|t2: int|
                            0 <= t2 < pre_del.len() ==> deletes@[t2] == pre_del[t2]);
                    }
                },
            }
            j = j + 1;
            proof {
                assert forall|i: int|
                    0 <= i < j && lookup_val(b@, (#[trigger] a@[i]).0@) is Some && !att_eq(
                        a@[i].1,
                        lookup_val(b@, a@[i].0@)->0,
                    ) implies has_change(changes@, a@[i].0@) by {
                    if i < j - 1 {
                        let t = choose|t: int|
                            0 <= t < pre_chg.len() && cp_eq((#[trigger] pre_chg[t]).0@, a@[i].0@);
                        assert(changes@[t] == pre_chg[t]);
                    }
                }
                assert forall|i: int|
                    0 <= i < j && lookup_val(b@, (#[trigger] a@[i]).0@) is None implies has_entry(
                    deletes@,
                    a@[i].0@,
                ) by {
                    if i < j - 1 {
                        let t = choose|t: int|
                            0 <= t < pre_del.len() && cp_eq((#[trigger] pre_del[t]).0@, a@[i].0@);
                        assert(deletes@[t] == pre_del[t]);
                    }
                }
            }
        }
        let mut adds: Vec<(String, String)> = Vec::new();
        let nb = b.len();
        let mut k: usize = 0;
        while k < nb
            invariant
                k <= nb,
                nb == b@.len(),
                args_sorted(b@),
                args_wf(b@),
                forall|t: int|
                    0 <= t < adds@.len() ==> {
                        let kk = (#[trigger] adds@[t]).0@;
                        &&& lookup_val(b@, kk) is Some
                        &&& adds@[t].1@ == att_str(lookup_val(b@, kk)->0)
                        &&& lookup_val(a@, kk) is None
                    },
                forall|i: int|
                    0 <= i < k && lookup_val(a@, (#[trigger] b@[i]).0@) is None ==> has_entry(
                        adds@,
                        b@[i].0@,
                    ),
            decreases nb - k,
        {
            let key = chars_of(b[k].0.as_str());
            let ghost pre_add = adds@;
            proof {
                lemma_lookup_self(b@, k as int);
            }
            match lookup_arg(a, &key) {
                Some(_) => {},
                None => {
                    adds.push((b[k].0.clone(), b[k].1.to_string()));
                    proof {
                        let t = adds@.len() - 1;
                        assert(adds@[t].0@ == b@[k as int].0@);
                        assert(cp_eq(adds@[t].0@, b@[k as int].0@));
                        assert(forall|t2: int|
                            0 <= t2 < pre_add.len() ==> adds@[t2] == pre_add[t2]);
                    }
                },
            }
            k = k + 1;
            proof {
                assert forall|i: int|
                    0 <= i < k && lookup_val(a@, (#[trigger] b@[i]).0@) is None implies has_entry(
                    adds@,
                    b@[i].0@,
                ) by {
                    if i < k - 1 {
                        let t = choose|t: int|
                            0 <= t < pre_add.len() && cp_eq((#[trigger] pre_add[t]).0@, b@[i].0@);
                        assert(adds@[t] == pre_add[t]);
                    }
                }
            }
        }
        HashMapDiff { deletes, changes, adds }
    }

    /// Whether the delta records no difference at all.
    pub fn is_empty(&self) -> (r: bool)
        ensures
            r == (self.deletes@.len() == 0 && self.adds@.len() == 0 && self.changes@.len() == 0),
    {
        self.deletes.len() == 0 && self.adds.len() == 0 && self.changes.len() == 0
    }
}

/// The value stored under a name, by first match.
fn lookup_arg<'a>(args: &'a Vec<(String, SVGAttValue)>, key: &Vec<char>) -> (r: Option<
    &'a SVGAttValue,
>)
    ensures
        match r {
            Some(v) => lookup_val(args@, key@) == Some(*v),
            None => lookup_val(args@, key@) is None,
        },
{
    let n = args.len();
    let mut i: usize = 0;
    proof {
        assert(args@.skip(0) =~= args@);
    }
    while i < n
        invariant
            i <= n,
            n == args@.len(),
            lookup_val(args@, key@) == lookup_val(args@.skip(i as int), key@),
        decreases n - i,
    {
        proof {
            assert(args@.skip(i as int)[0] == args@[i as int]);
            assert(args@.skip(i as int).drop_first() =~= args@.skip(i + 1));
        }
        let entry_key = chars_of(args[i].0.as_str());
        if cmp_chars(&entry_key, key) == 0 {
            return Some(&args[i].1);
        }
        i = i + 1;
    }
    proof {
        assert(args@.skip(n as int) =~= Seq::<(String, SVGAttValue)>::empty());
    }
    None
}

} // verus!
