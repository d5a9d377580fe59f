//! Tokenising of SVG value strings.
//!
//! A value string falls into tokens: every letter is a token of its own
//! (path commands), a maximal run of other non-separator characters is a
//! numeric token, and whitespace and commas separate.

use vstd::prelude::*;

verus! {

/// Whitespace or a comma.
pub open spec fn is_sep(c: char) -> bool {
    c == ' ' || c == '\t' || c == '\n' || c == '\r' || c == ','
}

/// An ASCII letter.
pub open spec fn is_alpha(c: char) -> bool {
    (65 <= c as u32 <= 90) || (97 <= c as u32 <= 122)
}

/// The length of the numeric run starting at the head of `s`.
pub open spec fn run_len(s: Seq<char>) -> int
    decreases s.len(),
{
    if s.len() == 0 || is_sep(s[0]) || is_alpha(s[0]) {
        0
    } else {
        1 + run_len(s.drop_first())
    }
}

/// The tokens of `s`, in order.
pub open spec fn tokens_of(s: Seq<char>) -> Seq<Seq<char>>
    decreases s.len(),
    via tokens_of_dec
{
    if s.len() == 0 {
        Seq::empty()
    } else if is_sep(s[0]) {
        tokens_of(s.drop_first())
    } else if is_alpha(s[0]) {
        seq![seq![s[0]]] + tokens_of(s.drop_first())
    } else {
        seq![s.take(run_len(s))] + tokens_of(s.skip(run_len(s)))
    }
}

#[via_fn]
proof fn tokens_of_dec(s: Seq<char>) {
    lemma_run_len_bounds(s);
}

proof fn lemma_run_len_bounds(s: Seq<char>)
    ensures
        0 <= run_len(s) <= s.len(),
        s.len() > 0 && !is_sep(s[0]) && !is_alpha(s[0]) ==> run_len(s) >= 1,
    decreases s.len(),
{
    if s.len() > 0 && !is_sep(s[0]) && !is_alpha(s[0]) {
        lemma_run_len_bounds(s.drop_first());
    }
}

/// The exec classification of one character.
fn char_class(c: char) -> (r: u8)
    ensures
        r == 0 <==> is_sep(c),
        r == 1 <==> is_alpha(c),
        r == 2 <==> (!is_sep(c) && !is_alpha(c)),
{
    if c == ' ' || c == '\t' || c == '\n' || c == '\r' || c == ',' {
        0
    } else {
        let u = c as u32;
        if (65 <= u && u <= 90) || (97 <= u && u <= 122) {
            1
        } else {
            2
        }
    }
}

/// Splits a value string into its tokens.
pub fn split_tokens(v: &Vec<char>) -> (r: Vec<Vec<char>>)
    ensures
        r@.map_values(|t: Vec<char>| t@) == tokens_of(v@),
{
    let n = v.len();
    let mut r: Vec<Vec<char>> = Vec::new();
    let mut i: usize = 0;
    proof {
        assert(v@.skip(0) =~= v@);
        assert(r@.map_values(|t: Vec<char>| t@) =~= Seq::<Seq<char>>::empty());
    }
    while i < n
        invariant
            i <= n,
            n == v@.len(),
            tokens_of(v@) == r@.map_values(|t: Vec<char>| t@) + tokens_of(v@.skip(i as int)),
        decreases n - i,
    {
        let c = v[i];
        let cls = char_class(c);
        proof {
            assert(v@.skip(i as int)[0] == c);
        }
        if cls == 0 {
            proof {
                assert(v@.skip(i as int).drop_first() =~= v@.skip(i + 1));
            }
            i = i + 1;
        } else if cls == 1 {
            let mut t: Vec<char> = Vec::new();
            t.push(c);
            let ghost prev = r@.map_values(|t2: Vec<char>| t2@);
            r.push(t);
            proof {
                assert(v@.skip(i as int).drop_first() =~= v@.skip(i + 1));
                assert(r@.map_values(|t2: Vec<char>| t2@) =~= prev + seq![seq![c]]);
                assert(prev + (seq![seq![c]] + tokens_of(v@.skip(i + 1))) =~= (prev + seq![
                    seq![c],
                ]) + tokens_of(v@.skip(i + 1)));
            }
            i = i + 1;
        } else {
            // a numeric run
            let start = i;
            let mut t: Vec<char> = Vec::new();
            proof {
                lemma_run_len_bounds(v@.skip(i as int));
            }
            loop
                invariant
                    start <= i <= n,
                    n == v@.len(),
                    t@ =~= v@.subrange(start as int, i as int),
                    run_len(v@.skip(start as int)) == (i - start) + run_len(v@.skip(i as int)),
                    i < n ==> run_len(v@.skip(start as int)) >= (i - start),
                ensures
                    start <= i <= n,
                    n == v@.len(),
                    t@ =~= v@.subrange(start as int, i as int),
                    run_len(v@.skip(start as int)) == i - start,
                decreases n - i,
            {
                if i >= n {
                    proof {
                        assert(v@.skip(i as int) =~= Seq::<char>::empty());
                    }
                    break ;
                }
                let c2 = v[i];
                let cls2 = char_class(c2);
                proof {
                    assert(v@.skip(i as int)[0] == c2);
                    if cls2 != 2 {
                        assert(run_len(v@.skip(i as int)) == 0);
                    } else {
                        assert(v@.skip(i as int).drop_first() =~= v@.skip(i + 1));
                        lemma_run_len_bounds(v@.skip(i + 1));
                    }
                }
                if cls2 != 2 {
                    break ;
                }
                t.push(c2);
                i = i + 1;
                proof {
                    assert(t@ =~= v@.subrange(start as int, i as int));
                }
            }
            proof {
                assert(run_len(v@.skip(start as int)) == i - start);
                assert(v@.skip(start as int).take(i - start) =~= v@.subrange(
                    start as int,
                    i as int,
                ));
                assert(v@.skip(start as int).skip(i - start) =~= v@.skip(i as int));
            }
            let ghost prev = r@.map_values(|t2: Vec<char>| t2@);
            let ghost tv = t@;
            r.push(t);
            proof {
                assert(r@.map_values(|t2: Vec<char>| t2@) =~= prev + seq![tv]);
                assert(prev + (seq![tv] + tokens_of(v@.skip(i as int))) =~= (prev + seq![tv])
                    + tokens_of(v@.skip(i as int)));
            }
        }
    }
    proof {
        assert(v@.skip(n as int) =~= Seq::<char>::empty());
        assert(tokens_of(v@) =~= r@.map_values(|t: Vec<char>| t@));
    }
    r
}

} // verus!
