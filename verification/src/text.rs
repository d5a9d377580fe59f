//! Small executable helpers for strings and decimal numerals, shared by the
//! parser, the printers and the identifier generator.

use vstd::prelude::*;

verus! {

/// `String::push` appends one character; vstd does not specify it, and this
/// states what its documentation plainly says.
pub assume_specification[ std::string::String::push ](s: &mut String, c: char)
    ensures
        final(s)@ == old(s)@.push(c),
;

/// `String::push_str` appends a string slice; vstd does not specify it, and
/// this states what its documentation plainly says.
pub assume_specification[ std::string::String::push_str ](s: &mut String, other: &str)
    ensures
        final(s)@ == old(s)@ + other@,
;

/// The characters of `s`, in order.
pub fn chars_of(s: &str) -> (r: Vec<char>)
    ensures
        r@ == s@,
{
    let n = s.unicode_len();
    let mut r: Vec<char> = Vec::new();
    let mut i: usize = 0;
    while i < n
        invariant
            n == s@.len(),
            i <= n,
            r@ == s@.subrange(0, i as int),
        decreases n - i,
    {
        r.push(s.get_char(i));
        i = i + 1;
        proof {
            assert(r@ =~= s@.subrange(0, i as int));
        }
    }
    proof {
        assert(r@ =~= s@);
    }
    r
}

/// A `String` holding exactly the characters of `v`.
pub fn string_from_chars(v: &Vec<char>) -> (r: String)
    ensures
        r@ == v@,
{
    let mut r = String::new();
    let mut i: usize = 0;
    while i < v.len()
        invariant
            i <= v@.len(),
            r@ == v@.subrange(0, i as int),
        decreases v@.len() - i,
    {
        r.push(v[i]);
        i = i + 1;
        proof {
            assert(r@ =~= v@.subrange(0, i as int));
        }
    }
    proof {
        assert(r@ =~= v@);
    }
    r
}

/// The character for one decimal digit.
pub open spec fn digit_char(d: int) -> char {
    if d == 0 { '0' }
    else if d == 1 { '1' }
    else if d == 2 { '2' }
    else if d == 3 { '3' }
    else if d == 4 { '4' }
    else if d == 5 { '5' }
    else if d == 6 { '6' }
    else if d == 7 { '7' }
    else if d == 8 { '8' }
    else { '9' }
}

/// The decimal numeral of `n`, without leading zeroes (except for `0` itself).
pub open spec fn dec_digits(n: nat) -> Seq<char>
    decreases n,
{
    if n < 10 {
        seq![digit_char(n as int)]
    } else {
        dec_digits(n / 10).push(digit_char((n % 10) as int))
    }
}

/// The decimal numeral of `n`.
pub fn u64_to_dec(n: u64) -> (r: String)
    ensures
        r@ == dec_digits(n as nat),
{
    let chars = u64_to_dec_chars(n);
    string_from_chars(&chars)
}

/// The decimal numeral of `n`, as characters.
pub fn u64_to_dec_chars(n: u64) -> (r: Vec<char>)
    ensures
        r@ == dec_digits(n as nat),
{
    let mut rev: Vec<char> = Vec::new();
    let mut m: u64 = n;
    proof {
        assert(dec_digits(n as nat) =~= dec_digits(m as nat) + rev@.reverse());
    }
    // collect the digits, least significant first
    loop
        invariant
            dec_digits(n as nat) == dec_digits(m as nat) + rev@.reverse(),
        decreases m,
    {
        proof {
            assert(dec_digits(m as nat).len() >= 1) by {
                lemma_dec_digits_len(m as nat);
            }
        }
        let d: u64 = m % 10;
        let c: char = digit_to_char(d);
        m = m / 10;
        if m == 0 {
            // the digit just taken was the most significant one
            proof {
                assert(dec_digits(n as nat) =~= seq![c] + rev@.reverse());
            }
            let mut chars: Vec<char> = Vec::new();
            chars.push(c);
            let mut i: usize = rev.len();
            proof {
                assert(chars@ =~= seq![c] + rev@.subrange(i as int, rev@.len() as int).reverse());
            }
            while i > 0
                invariant
                    i <= rev@.len(),
                    chars@ == seq![c] + rev@.subrange(i as int, rev@.len() as int).reverse(),
                decreases i,
            {
                i = i - 1;
                chars.push(rev[i]);
                proof {
                    assert(chars@ =~= seq![c] + rev@.subrange(i as int, rev@.len() as int).reverse());
                }
            }
            proof {
                assert(rev@.subrange(0, rev@.len() as int) =~= rev@);
                assert(chars@ =~= dec_digits(n as nat));
            }
            return chars;
        }
        rev.push(c);
        proof {
            assert(dec_digits((m * 10 + d) as nat) =~= dec_digits(m as nat).push(c));
            assert(dec_digits(n as nat) =~= dec_digits(m as nat) + rev@.reverse());
        }
    }
}

/// The exec counterpart of `digit_char`.
pub fn digit_to_char(d: u64) -> (c: char)
    requires
        d < 10,
    ensures
        c == digit_char(d as int),
{
    match d {
        0 => '0',
        1 => '1',
        2 => '2',
        3 => '3',
        4 => '4',
        5 => '5',
        6 => '6',
        7 => '7',
        8 => '8',
        _ => '9',
    }
}

pub proof fn lemma_dec_digits_len(n: nat)
    ensures
        dec_digits(n).len() >= 1,
    decreases n,
{
    if n >= 10 {
        lemma_dec_digits_len(n / 10);
    }
}

/// The decimal numeral determines the number.
pub proof fn lemma_dec_digits_injective(n1: nat, n2: nat)
    requires
        dec_digits(n1) == dec_digits(n2),
    ensures
        n1 == n2,
    decreases n1,
{
    if n1 < 10 && n2 < 10 {
        assert(dec_digits(n1)[0] == digit_char(n1 as int));
        assert(dec_digits(n2)[0] == digit_char(n2 as int));
        assert(n1 == n2);
    } else if n1 >= 10 && n2 >= 10 {
        let a = dec_digits(n1 / 10);
        let b = dec_digits(n2 / 10);
        assert(a.push(digit_char((n1 % 10) as int)) == b.push(digit_char((n2 % 10) as int)));
        assert(a =~= b) by {
            assert(a.len() == b.len());
            assert forall|k: int| 0 <= k < a.len() implies a[k] == b[k] by {
                assert(a.push(digit_char((n1 % 10) as int))[k] == a[k]);
                assert(b.push(digit_char((n2 % 10) as int))[k] == b[k]);
            }
        }
        lemma_dec_digits_injective(n1 / 10, n2 / 10);
        assert(a.push(digit_char((n1 % 10) as int)).last() == digit_char((n1 % 10) as int));
        assert(n1 % 10 == n2 % 10);
        assert(n1 == 10 * (n1 / 10) + n1 % 10);
        assert(n2 == 10 * (n2 / 10) + n2 % 10);
    } else if n1 < 10 {
        lemma_dec_digits_len(n2 / 10);
        assert(dec_digits(n2).len() >= 2);
        assert(dec_digits(n1).len() == 1);
    } else {
        lemma_dec_digits_len(n1 / 10);
        assert(dec_digits(n1).len() >= 2);
        assert(dec_digits(n2).len() == 1);
    }
}

/// Lexicographic order on character strings, by code point.
pub open spec fn str_lt(a: Seq<char>, b: Seq<char>) -> bool
    decreases a.len(),
{
    if a.len() == 0 {
        b.len() > 0
    } else if b.len() == 0 {
        false
    } else if (a[0] as u32) < (b[0] as u32) {
        true
    } else if (a[0] as u32) > (b[0] as u32) {
        false
    } else {
        str_lt(a.drop_first(), b.drop_first())
    }
}

/// The lexicographic order is transitive.
pub proof fn lemma_str_lt_trans(a: Seq<char>, b: Seq<char>, c: Seq<char>)
    requires
        str_lt(a, b),
        str_lt(b, c),
    ensures
        str_lt(a, c),
    decreases a.len(),
{
    if a.len() == 0 {
    } else {
        if b.len() == 0 {
        } else if c.len() == 0 {
        } else {
            if (a[0] as u32) < (b[0] as u32) {
                if (b[0] as u32) <= (c[0] as u32) {
                }
            } else {
                if (b[0] as u32) < (c[0] as u32) {
                } else {
                    lemma_str_lt_trans(a.drop_first(), b.drop_first(), c.drop_first());
                }
            }
        }
    }
}

/// Equality of two strings by code points.
pub open spec fn cp_eq(a: Seq<char>, b: Seq<char>) -> bool {
    a.len() == b.len() && forall|k: int| 0 <= k < a.len() ==> (#[trigger] a[k]) as u32 == b[k] as u32
}

/// A three-way comparison of two character vectors, agreeing with
/// [`str_lt`] and [`cp_eq`].
pub fn cmp_chars(a: &Vec<char>, b: &Vec<char>) -> (r: i8)
    ensures
        r == -1 || r == 0 || r == 1,
        r == -1 <==> str_lt(a@, b@),
        r == 0 <==> cp_eq(a@, b@),
        r == 1 <==> str_lt(b@, a@),
{
    let na = a.len();
    let nb = b.len();
    let mut i: usize = 0;
    proof {
        assert(a@.skip(0) =~= a@);
        assert(b@.skip(0) =~= b@);
    }
    loop
        invariant
            i <= na,
            i <= nb,
            na == a@.len(),
            nb == b@.len(),
            forall|k: int| 0 <= k < i ==> (#[trigger] a@[k]) as u32 == b@[k] as u32,
            str_lt(a@, b@) == str_lt(a@.skip(i as int), b@.skip(i as int)),
            str_lt(b@, a@) == str_lt(b@.skip(i as int), a@.skip(i as int)),
            cp_eq(a@, b@) == cp_eq(a@.skip(i as int), b@.skip(i as int)),
        decreases na - i,
    {
        if i >= na || i >= nb {
            if na == nb {
                proof {
                    assert(cp_eq(a@.skip(i as int), b@.skip(i as int)));
                }
                return 0;
            } else if na < nb {
                proof {
                    assert(a@.skip(i as int).len() == 0);
                    assert(b@.skip(i as int).len() > 0);
                    assert(!cp_eq(a@, b@));
                }
                return -1;
            } else {
                proof {
                    assert(b@.skip(i as int).len() == 0);
                    assert(a@.skip(i as int).len() > 0);
                    assert(!cp_eq(a@, b@));
                }
                return 1;
            }
        }
        let ca = a[i] as u32;
        let cb = b[i] as u32;
        proof {
            assert(ca == a@[i as int] as u32);
            assert(cb == b@[i as int] as u32);
            assert(a@.skip(i as int)[0] == a@[i as int]);
            assert(b@.skip(i as int)[0] == b@[i as int]);
            assert(a@.skip(i as int).drop_first() =~= a@.skip(i + 1));
            assert(b@.skip(i as int).drop_first() =~= b@.skip(i + 1));
        }
        if ca < cb {
            proof {
                assert(!cp_eq(a@, b@));
            }
            return -1;
        }
        if ca > cb {
            proof {
                assert(!cp_eq(a@, b@));
            }
            return 1;
        }
        proof {
            assert(a@[i as int] as u32 == b@[i as int] as u32);
            let sa = a@.skip(i as int);
            let sb = b@.skip(i as int);
            let sa2 = a@.skip(i + 1);
            let sb2 = b@.skip(i + 1);
            assert(cp_eq(sa, sb) == cp_eq(sa2, sb2)) by {
                if cp_eq(sa2, sb2) {
                    assert forall|k: int| 0 <= k < sa.len() implies (#[trigger] sa[k]) as u32
                        == sb[k] as u32 by {
                        if k > 0 {
                            assert(sa2[k - 1] as u32 == sb2[k - 1] as u32);
                        }
                    }
                }
                if cp_eq(sa, sb) {
                    assert forall|k: int| 0 <= k < sa2.len() implies (#[trigger] sa2[k]) as u32
                        == sb2[k] as u32 by {
                        assert(sa[k + 1] as u32 == sb[k + 1] as u32);
                    }
                }
            }
        }
        i = i + 1;
    }
}

} // verus!
