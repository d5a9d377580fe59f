//! Fixed-point numbers for SVG attribute values.
//!
//! Coordinates are held as integers scaled by `10^8`: the same eight
//! fractional digits at which the fingerprints quantise numeric values.
//! Parsing accepts an optional sign, integer digits and fractional digits
//! (at least one digit in all); fractional digits beyond the eighth are
//! ignored.  Values whose magnitude does not fit the scaled 64-bit range are
//! rejected.

use vstd::prelude::*;

use crate::text::dec_digits;
use crate::text::digit_char;
use crate::text::digit_to_char;
use crate::text::u64_to_dec_chars;
use crate::text::lemma_dec_digits_len;

verus! {

/// The scaling factor: `10^8`.
pub const SCALE: u64 = 100_000_000;

/// A decimal digit.
pub open spec fn is_dec_digit(c: char) -> bool {
    48 <= c as u32 <= 57
}

/// The value of a decimal digit character.
pub open spec fn digit_val(c: char) -> int {
    c as u32 - 48
}

/// Every character of `s` is a decimal digit.
pub open spec fn all_digits(s: Seq<char>) -> bool {
    forall|i: int| 0 <= i < s.len() ==> is_dec_digit(#[trigger] s[i])
}

/// The value of a digit string, most significant first.
pub open spec fn digits_val(s: Seq<char>) -> int
    decreases s.len(),
{
    if s.len() == 0 {
        0
    } else {
        digits_val(s.drop_last()) * 10 + digit_val(s.last())
    }
}

/// The value of a fractional digit string, scaled by `10^8`: digits beyond
/// the eighth are ignored, missing digits count as zero.
pub open spec fn frac_val(s: Seq<char>) -> int {
    if s.len() >= 8 {
        digits_val(s.take(8))
    } else {
        digits_val(s + Seq::new((8 - s.len()) as nat, |i: int| '0'))
    }
}

/// The position of the first `.` in `s`, if any.
pub open spec fn find_dot(s: Seq<char>) -> Option<int>
    decreases s.len(),
{
    if s.len() == 0 {
        None
    } else if s[0] == '.' {
        Some(0)
    } else {
        match find_dot(s.drop_first()) {
            Some(i) => Some(i + 1),
            None => None,
        }
    }
}

/// The scaled value denoted by a decimal numeral: an optional sign, integer
/// digits, and an optional dot with fractional digits; at least one digit in
/// all.  `None` when `s` is not of that shape.
pub open spec fn fixed_of(s: Seq<char>) -> Option<int> {
    let neg = s.len() > 0 && s[0] == '-';
    let body = if s.len() > 0 && (s[0] == '-' || s[0] == '+') {
        s.drop_first()
    } else {
        s
    };
    let sign = if neg {
        -1int
    } else {
        1int
    };
    match find_dot(body) {
        None => if body.len() > 0 && all_digits(body) {
            Some(sign * digits_val(body) * (SCALE as int))
        } else {
            None
        },
        Some(d) => {
            let ip = body.take(d);
            let fp = body.subrange(d + 1, body.len() as int);
            if ip.len() + fp.len() > 0 && all_digits(ip) && all_digits(fp) {
                Some(sign * (digits_val(ip) * (SCALE as int) + frac_val(fp)))
            } else {
                None
            }
        },
    }
}

/// The scaled value fits the stored range.  The most negative 64-bit value
/// is left out so that every stored value has a storable negation.
pub open spec fn fits_fixed(x: int) -> bool {
    -(i64::MAX as int) <= x <= i64::MAX as int
}

/// Appending a digit multiplies by ten and adds the digit.
proof fn lemma_digits_val_push(s: Seq<char>, c: char)
    ensures
        digits_val(s.push(c)) == digits_val(s) * 10 + digit_val(c),
{
    assert(s.push(c).drop_last() =~= s);
    assert(s.push(c).last() == c);
}

/// Digit strings denote non-negative values.
pub proof fn lemma_digits_val_nonneg(s: Seq<char>)
    requires
        all_digits(s),
    ensures
        digits_val(s) >= 0,
    decreases s.len(),
{
    if s.len() > 0 {
        assert(all_digits(s.drop_last())) by {
            assert(forall|i: int|
                0 <= i < s.len() - 1 ==> is_dec_digit(#[trigger] s.drop_last()[i]) == is_dec_digit(
                    s[i],
                ));
        }
        lemma_digits_val_nonneg(s.drop_last());
    }
}

/// `10^k`.
pub open spec fn pow10(k: nat) -> int
    decreases k,
{
    if k == 0 {
        1
    } else {
        10 * pow10((k - 1) as nat)
    }
}

/// A digit string of `k` digits denotes a value below `10^k`.
proof fn lemma_digits_val_pow_bound(s: Seq<char>)
    requires
        all_digits(s),
    ensures
        digits_val(s) < pow10(s.len()),
        digits_val(s) >= 0,
    decreases s.len(),
{
    if s.len() == 0 {
    } else {
        assert(all_digits(s.drop_last())) by {
            assert(forall|i: int|
                0 <= i < s.len() - 1 ==> is_dec_digit(#[trigger] s.drop_last()[i]) == is_dec_digit(
                    s[i],
                ));
        }
        lemma_digits_val_pow_bound(s.drop_last());
        assert(digits_val(s) == digits_val(s.drop_last()) * 10 + digit_val(s.last()));
    }
}

/// A digit string of at most eight digits denotes a value below `10^8`.
proof fn lemma_digits_val_bound8(s: Seq<char>)
    requires
        all_digits(s),
        s.len() <= 8,
    ensures
        0 <= digits_val(s) < 100_000_000,
{
    lemma_digits_val_pow_bound(s);
    reveal_with_fuel(pow10, 9);
    assert(pow10(8) == 100_000_000);
    lemma_pow10_monotone(s.len(), 8);
}

/// A digit string of at most seven digits denotes a value below `10^7`.
proof fn lemma_digits_val_bound7(s: Seq<char>)
    requires
        all_digits(s),
        s.len() <= 7,
    ensures
        0 <= digits_val(s) < 10_000_000,
{
    lemma_digits_val_pow_bound(s);
    reveal_with_fuel(pow10, 9);
    assert(pow10(7) == 10_000_000);
    lemma_pow10_monotone(s.len(), 7);
}

proof fn lemma_pow10_monotone(a: nat, b: nat)
    requires
        a <= b,
    ensures
        pow10(a) <= pow10(b),
        pow10(a) >= 1,
    decreases b,
{
    if a == b {
        lemma_pow10_pos(a);
    } else {
        lemma_pow10_monotone(a, (b - 1) as nat);
    }
}

proof fn lemma_pow10_pos(a: nat)
    ensures
        pow10(a) >= 1,
    decreases a,
{
    if a > 0 {
        lemma_pow10_pos((a - 1) as nat);
    }
}

/// The numeral made of `k` zero digits denotes zero.
proof fn lemma_zeros_val(k: nat)
    ensures
        digits_val(Seq::new(k, |i: int| '0')) == 0,
    decreases k,
{
    if k > 0 {
        let z = Seq::new(k, |i: int| '0');
        assert(z.drop_last() =~= Seq::new((k - 1) as nat, |i: int| '0'));
        lemma_zeros_val((k - 1) as nat);
        assert(digits_val(z) == digits_val(z.drop_last()) * 10 + digit_val('0'));
    }
}

/// Parses a whole character string as a scaled decimal number.
#[verifier::rlimit(100)]
pub fn parse_fixed(v: &Vec<char>) -> (r: Option<i64>)
    ensures
        match r {
            Some(x) => fixed_of(v@) == Some(x as int) && fits_fixed(x as int),
            None => fixed_of(v@) is None || !fits_fixed(fixed_of(v@)->0),
        },
{
    let n = v.len();
    let mut pos: usize = 0;
    let mut neg: bool = false;
    if n > 0 && (v[0] == '-' || v[0] == '+') {
        neg = v[0] == '-';
        pos = 1;
    }
    let ghost body = if v@.len() > 0 && (v@[0] == '-' || v@[0] == '+') {
        v@.drop_first()
    } else {
        v@
    };
    proof {
        assert(body =~= v@.subrange(pos as int, n as int));
    }
    // find the dot and check that everything else is a digit
    let mut dot: Option<usize> = None;
    let mut i: usize = pos;
    let mut ok: bool = true;
    while i < n && ok
        invariant
            pos <= i <= n,
            pos <= 1,
            n == v@.len(),
            pos == 1 ==> v@.len() > 0 && (v@[0] == '-' || v@[0] == '+'),
            pos == 0 ==> !(v@.len() > 0 && (v@[0] == '-' || v@[0] == '+')),
            body == v@.subrange(pos as int, n as int),
            ok ==> match dot {
                Some(d) => pos <= d < i && v@[d as int] == '.' && (forall|k: int|
                    pos <= k < d ==> is_dec_digit(#[trigger] v@[k])) && (forall|k: int|
                    d < k < i ==> is_dec_digit(#[trigger] v@[k])),
                None => forall|k: int| pos <= k < i ==> is_dec_digit(#[trigger] v@[k]),
            },
            !ok ==> fixed_of(v@) is None,
        decreases n - i,
    {
        let c = v[i];
        let u = c as u32;
        if 48 <= u && u <= 57 {
            proof {
                assert(is_dec_digit(c));
            }
        } else if c == '.' && dot.is_none() {
            dot = Some(i);
        } else {
            proof {
                lemma_bad_char(v@, pos as int, body, i as int, dot);
            }
            ok = false;
        }
        i = i + 1;
    }
    if !ok {
        return None;
    }
    let (ip_start, ip_end, fp_start, fp_end): (usize, usize, usize, usize) = match dot {
        Some(d) => (pos, d, d + 1, n),
        None => (pos, n, n, n),
    };
    proof {
        match dot {
            Some(d) => {
                assert(forall|k: int| pos <= k < d ==> is_dec_digit(#[trigger] v@[k]));
                assert(forall|k: int|
                    pos <= k < d ==> (#[trigger] v@[k]) != '.' && 0 <= pos <= k);
                lemma_find_dot_at(v@, pos as int, body, d as int);
            },
            None => {
                assert(forall|k: int| pos <= k < n ==> (#[trigger] v@[k]) != '.');
                lemma_find_dot_none(v@, pos as int, body);
            },
        }
    }
    if ip_end == ip_start && fp_end == fp_start {
        // no digits at all
        return None;
    }
    let ghost ip = v@.subrange(ip_start as int, ip_end as int);
    let ghost fp = v@.subrange(fp_start as int, fp_end as int);
    let ghost mag = digits_val(ip) * (SCALE as int) + frac_val(fp);
    let ghost value: int = if neg { -mag } else { mag };
    proof {
        // the string denotes exactly `value`
        assert(all_digits(ip));
        assert(all_digits(fp));
        lemma_digits_val_nonneg(ip);
        match dot {
            Some(d) => {
                assert(body.take(d - pos) =~= ip);
                assert(body.subrange(d - pos + 1, body.len() as int) =~= fp);
                if neg {
                    assert(fixed_of(v@) == Some((-1int) * mag));
                    assert((-1int) * mag == -mag);
                } else {
                    assert(fixed_of(v@) == Some(1int * mag));
                    assert(1int * mag == mag);
                }
                assert(fixed_of(v@) == Some(value));
            },
            None => {
                assert(body =~= ip);
                assert(fp =~= Seq::<char>::empty());
                assert(frac_val(fp) == 0) by {
                    assert(fp + Seq::new(8nat, |i: int| '0') =~= Seq::new(8nat, |i: int| '0'));
                    lemma_zeros_val(8nat);
                }
                let ipv = digits_val(ip);
                assert(mag == ipv * (SCALE as int));
                if neg {
                    assert(fixed_of(v@) == Some(((-1int) * ipv) * (SCALE as int)));
                    assert((-1int) * ipv == -ipv);
                    assert((-ipv) * (SCALE as int) == -(ipv * (SCALE as int))) by (nonlinear_arith);
                } else {
                    assert(fixed_of(v@) == Some((1int * ipv) * (SCALE as int)));
                    assert(1int * ipv == ipv);
                }
                assert(fixed_of(v@) == Some(value));
            },
        }
        assert(frac_val(fp) >= 0) by {
            if fp.len() >= 8 {
                assert(all_digits(fp.take(8))) by {
                    assert(forall|k: int|
                        0 <= k < 8 ==> is_dec_digit(#[trigger] fp.take(8)[k]) == is_dec_digit(
                            fp[k],
                        ));
                }
                lemma_digits_val_nonneg(fp.take(8));
            } else {
                let padded = fp + Seq::new((8 - fp.len()) as nat, |i: int| '0');
                assert(all_digits(padded)) by {
                    assert(forall|k: int|
                        0 <= k < padded.len() ==> (#[trigger] padded[k]) == (if k < fp.len() {
                            fp[k]
                        } else {
                            '0'
                        }));
                }
                lemma_digits_val_nonneg(padded);
            }
        }
        assert(frac_val(fp) < 100_000_000) by {
            if fp.len() >= 8 {
                assert(all_digits(fp.take(8))) by {
                    assert(forall|k: int|
                        0 <= k < 8 ==> is_dec_digit(#[trigger] fp.take(8)[k]) == is_dec_digit(
                            fp[k],
                        ));
                }
                lemma_digits_val_bound8(fp.take(8));
            } else {
                let padded = fp + Seq::new((8 - fp.len()) as nat, |i: int| '0');
                assert(all_digits(padded)) by {
                    assert(forall|k: int|
                        0 <= k < padded.len() ==> (#[trigger] padded[k]) == (if k < fp.len() {
                            fp[k]
                        } else {
                            '0'
                        }));
                }
                lemma_digits_val_bound8(padded);
            }
        }
    }
    // value of the integer part
    let mut acc: u64 = 0;
    let mut too_big: bool = false;
    let mut j: usize = ip_start;
    proof {
        assert(v@.subrange(ip_start as int, ip_start as int) =~= Seq::<char>::empty());
    }
    while j < ip_end
        invariant
            ip_start <= j <= ip_end <= n,
            n == v@.len(),
            forall|k: int| ip_start <= k < ip_end ==> is_dec_digit(#[trigger] v@[k]),
            !too_big ==> acc as int == digits_val(v@.subrange(ip_start as int, j as int)),
            !too_big ==> acc <= i64::MAX as u64,
            too_big ==> digits_val(v@.subrange(ip_start as int, j as int)) > i64::MAX as int,
        decreases ip_end - j,
    {
        let c = v[j];
        let d: u64 = (c as u32 - 48) as u64;
        proof {
            assert(v@.subrange(ip_start as int, j + 1).drop_last() =~= v@.subrange(
                ip_start as int,
                j as int,
            ));
            assert(v@.subrange(ip_start as int, j + 1).last() == v@[j as int]);
        }
        if too_big {
            proof {
                let pre = v@.subrange(ip_start as int, j as int);
                let ext = v@.subrange(ip_start as int, j + 1);
                assert(digits_val(ext) == digits_val(pre) * 10 + digit_val(v@[j as int]));
                assert(digits_val(pre) * 10 >= digits_val(pre)) by (nonlinear_arith)
                    requires
                        digits_val(pre) >= 0,
                ;
            }
        } else {
            if acc > 922_337_203_685_477_580u64 {
                too_big = true;
                proof {
                    let pre = v@.subrange(ip_start as int, j as int);
                    let ext = v@.subrange(ip_start as int, j + 1);
                    assert(digits_val(ext) == digits_val(pre) * 10 + digit_val(v@[j as int]));
                    assert(digits_val(pre) * 10 > i64::MAX as int) by (nonlinear_arith)
                        requires
                            digits_val(pre) > 922_337_203_685_477_580,
                    ;
                }
            } else {
                acc = acc * 10 + d;
                if acc > i64::MAX as u64 {
                    too_big = true;
                }
            }
        }
        j = j + 1;
    }
    // value of the fractional part: exactly eight digits, padded or cut
    let mut frac: u64 = 0;
    let mut taken: usize = 0;
    let mut j2: usize = fp_start;
    proof {
        assert(v@.subrange(fp_start as int, fp_start as int) =~= Seq::<char>::empty());
    }
    while j2 < fp_end && taken < 8
        invariant
            fp_start <= j2 <= fp_end <= n,
            n == v@.len(),
            taken == j2 - fp_start,
            taken <= 8,
            forall|k: int| fp_start <= k < fp_end ==> is_dec_digit(#[trigger] v@[k]),
            frac as int == digits_val(v@.subrange(fp_start as int, j2 as int)),
            frac < 100_000_000,
        decreases fp_end - j2,
    {
        let c = v[j2];
        let d: u64 = (c as u32 - 48) as u64;
        proof {
            assert(v@.subrange(fp_start as int, j2 + 1).drop_last() =~= v@.subrange(
                fp_start as int,
                j2 as int,
            ));
            assert(v@.subrange(fp_start as int, j2 + 1).last() == v@[j2 as int]);
            assert(all_digits(v@.subrange(fp_start as int, j2 + 1))) by {
                assert(forall|k: int|
                    0 <= k < j2 + 1 - fp_start ==> (#[trigger] v@.subrange(
                        fp_start as int,
                        j2 + 1,
                    )[k]) == v@[fp_start + k]);
            }
            lemma_digits_val_bound8(v@.subrange(fp_start as int, j2 + 1));
        }
        frac = frac * 10 + d;
        j2 = j2 + 1;
        taken = taken + 1;
    }
    proof {
        assert(frac as int == digits_val(
            v@.subrange(fp_start as int, j2 as int) + Seq::new(
                (taken - (j2 - fp_start)) as nat,
                |i: int| '0',
            ),
        )) by {
            assert(v@.subrange(fp_start as int, j2 as int) + Seq::new(0nat, |i: int| '0')
                =~= v@.subrange(fp_start as int, j2 as int));
        }
    }
    while taken < 8
        invariant
            taken <= 8,
            frac < 100_000_000,
            j2 == if fp_end - fp_start < 8 {
                fp_end as int
            } else {
                fp_start + 8
            },
            fp_start <= j2 <= fp_end <= n,
            n == v@.len(),
            forall|k: int| fp_start <= k < fp_end ==> is_dec_digit(#[trigger] v@[k]),
            frac as int == digits_val(
                v@.subrange(fp_start as int, j2 as int) + Seq::new(
                    (taken - (j2 - fp_start)) as nat,
                    |i: int| '0',
                ),
            ),
            taken >= j2 - fp_start,
        decreases 8 - taken,
    {
        proof {
            let cur = v@.subrange(fp_start as int, j2 as int) + Seq::new(
                (taken - (j2 - fp_start)) as nat,
                |i: int| '0',
            );
            let ext = v@.subrange(fp_start as int, j2 as int) + Seq::new(
                (taken + 1 - (j2 - fp_start)) as nat,
                |i: int| '0',
            );
            assert(ext.drop_last() =~= cur);
            assert(ext.last() == '0');
            assert(digits_val(ext) == digits_val(cur) * 10 + digit_val('0'));
            assert(digit_val('0') == 0);
            assert(all_digits(cur)) by {
                assert(forall|k: int|
                    0 <= k < cur.len() ==> (#[trigger] cur[k]) == (if k < j2 - fp_start {
                        v@[fp_start + k]
                    } else {
                        '0'
                    }));
            }
            assert(cur.len() <= 7);
            lemma_digits_val_bound7(cur);
        }
        frac = frac * 10;
        taken = taken + 1;
    }
    proof {
        // the accumulated fraction is the scaled fractional value
        let padded8 = v@.subrange(fp_start as int, j2 as int) + Seq::new(
            (8 - (j2 - fp_start)) as nat,
            |i: int| '0',
        );
        if fp.len() >= 8 {
            assert(fp.take(8) =~= padded8);
        } else {
            assert(fp + Seq::new((8 - fp.len()) as nat, |i: int| '0') =~= padded8);
        }
        assert(frac as int == frac_val(fp));
    }
    if too_big {
        proof {
            let ipv = digits_val(ip);
            assert(ipv * (SCALE as int) > i64::MAX as int) by (nonlinear_arith)
                requires
                    ipv > i64::MAX as int,
            ;
            let mag = digits_val(ip) * (SCALE as int) + frac_val(fp);
            if neg {
                assert(value == -mag);
            } else {
                assert(value == mag);
            }
            assert(!fits_fixed(value));
        }
        return None;
    }
    // scale and combine; reject magnitudes beyond the storable range
    if acc > 92_233_720_368u64 {
        proof {
            let ipv = digits_val(ip);
            assert(ipv * (SCALE as int) > i64::MAX as int) by (nonlinear_arith)
                requires
                    ipv > 92_233_720_368,
            ;
            let mag = digits_val(ip) * (SCALE as int) + frac_val(fp);
            if neg {
                assert(value == -mag);
            } else {
                assert(value == mag);
            }
            assert(!fits_fixed(value));
        }
        return None;
    }
    let total: u64 = acc * SCALE + frac;
    proof {
        let mag = digits_val(ip) * (SCALE as int) + frac_val(fp);
        assert(total as int == mag);
        if neg {
            assert(value == -mag);
        } else {
            assert(value == mag);
        }
    }
    if total > i64::MAX as u64 {
        return None;
    }
    if neg {
        Some(-(total as i64))
    } else {
        Some(total as i64)
    }
}

/// When a character that is neither a digit nor a first dot appears, the
/// whole string denotes nothing.
proof fn lemma_bad_char(v: Seq<char>, pos: int, body: Seq<char>, i: int, dot: Option<usize>)
    requires
        0 <= pos <= i < v.len(),
        pos <= 1,
        body == v.subrange(pos, v.len() as int),
        pos == 1 ==> (v[0] == '-' || v[0] == '+'),
        pos == 0 ==> !(v.len() > 0 && (v[0] == '-' || v[0] == '+')),
        !is_dec_digit(v[i]),
        v[i] == '.' ==> dot is Some,
        dot is Some ==> v[dot->0 as int] == '.' && pos <= dot->0 < i && (forall|k: int|
            pos <= k < dot->0 ==> is_dec_digit(#[trigger] v[k])),
    ensures
        fixed_of(v) is None,
{
    let c = v[i];
    let fbody = if v.len() > 0 && (v[0] == '-' || v[0] == '+') {
        v.drop_first()
    } else {
        v
    };
    assert(fbody =~= body);
    if c == '.' {
        // a second dot: everything after the first dot would have to be a
        // digit for the string to parse, but position i holds a dot
        let d = dot->0 as int;
        assert(forall|k: int| pos <= k < d ==> (#[trigger] v[k]) != '.');
        lemma_find_dot_at(v, pos, body, d);
        let fp = body.subrange(d - pos + 1, body.len() as int);
        assert(fp[i - pos - (d - pos + 1)] == v[i]);
        assert(!all_digits(fp));
    } else {
        match find_dot(body) {
            None => {
                assert(body[i - pos] == v[i]);
                assert(!all_digits(body));
            },
            Some(db) => {
                lemma_find_dot_pos(body, db);
                let ip = body.take(db);
                let fp = body.subrange(db + 1, body.len() as int);
                if i - pos < db {
                    assert(ip[i - pos] == v[i]);
                    assert(!all_digits(ip));
                } else if i - pos > db {
                    assert(fp[i - pos - db - 1] == v[i]);
                    assert(!all_digits(fp));
                } else {
                    assert(body[db] == '.');
                    assert(v[i] == '.');
                }
            },
        }
    }
}

/// `find_dot` points at a dot, and nothing before it is a dot.
proof fn lemma_find_dot_pos(s: Seq<char>, d: int)
    requires
        find_dot(s) == Some(d),
    ensures
        0 <= d < s.len(),
        s[d] == '.',
        forall|k: int| 0 <= k < d ==> s[k] != '.',
    decreases s.len(),
{
    if s.len() == 0 {
    } else if s[0] == '.' {
        assert(d == 0);
    } else {
        assert(find_dot(s.drop_first()) == Some(d - 1));
        lemma_find_dot_pos(s.drop_first(), d - 1);
        assert(s[d] == s.drop_first()[d - 1]);
        assert forall|k: int| 0 <= k < d implies s[k] != '.' by {
            if k > 0 {
                assert(s.drop_first()[k - 1] == s[k]);
            }
        }
    }
}

/// If position `d` holds the first dot, `find_dot` returns it.
proof fn lemma_find_dot_from(s: Seq<char>, d: int)
    requires
        0 <= d < s.len(),
        s[d] == '.',
        forall|k: int| 0 <= k < d ==> s[k] != '.',
    ensures
        find_dot(s) == Some(d),
    decreases s.len(),
{
    if d > 0 {
        assert(forall|k: int| 0 <= k < d - 1 ==> #[trigger] s.drop_first()[k] == s[k + 1]);
        lemma_find_dot_from(s.drop_first(), d - 1);
    }
}

/// The scan found the dot of the body at absolute position `d`.
proof fn lemma_find_dot_at(v: Seq<char>, pos: int, body: Seq<char>, d: int)
    requires
        0 <= pos <= d < v.len(),
        body == v.subrange(pos, v.len() as int),
        v[d] == '.',
        forall|k: int| pos <= k < d ==> v[k] != '.',
    ensures
        find_dot(body) == Some(d - pos),
{
    assert(body[d - pos] == '.');
    assert(forall|k: int| 0 <= k < d - pos ==> #[trigger] body[k] == v[k + pos]);
    lemma_find_dot_from(body, d - pos);
}

/// No dot anywhere means `find_dot` finds none.
proof fn lemma_find_dot_none(v: Seq<char>, pos: int, body: Seq<char>)
    requires
        0 <= pos <= v.len(),
        body == v.subrange(pos, v.len() as int),
        forall|k: int| pos <= k < v.len() ==> v[k] != '.',
    ensures
        find_dot(body) is None,
{
    assert(forall|k: int| 0 <= k < body.len() ==> #[trigger] body[k] == v[k + pos]);
    lemma_find_dot_none_rec(body);
}

proof fn lemma_find_dot_none_rec(s: Seq<char>)
    requires
        forall|k: int| 0 <= k < s.len() ==> s[k] != '.',
    ensures
        find_dot(s) is None,
    decreases s.len(),
{
    if s.len() > 0 {
        assert(forall|k: int| 0 <= k < s.len() - 1 ==> #[trigger] s.drop_first()[k] == s[k + 1]);
        lemma_find_dot_none_rec(s.drop_first());
    }
}

/// The digit string, right-aligned in eight places with leading zeroes.
pub open spec fn pad_left8(s: Seq<char>) -> Seq<char> {
    if s.len() >= 8 {
        s
    } else {
        Seq::new((8 - s.len()) as nat, |i: int| '0') + s
    }
}

/// The string with its trailing zero digits removed.
pub open spec fn trim_zeros(s: Seq<char>) -> Seq<char>
    decreases s.len(),
{
    if s.len() > 0 && s.last() == '0' {
        trim_zeros(s.drop_last())
    } else {
        s
    }
}

/// The canonical decimal numeral of a scaled value: an optional minus sign,
/// the integer part without leading zeroes, and, when the fractional part is
/// not zero, a dot and the fractional digits with trailing zeroes removed.
pub open spec fn fixed_str(v: int) -> Seq<char> {
    let m = if v < 0 {
        -v
    } else {
        v
    };
    let ipart = dec_digits((m / (SCALE as int)) as nat);
    let fr = m % (SCALE as int);
    let sign = if v < 0 {
        seq!['-']
    } else {
        Seq::<char>::empty()
    };
    if fr == 0 {
        sign + ipart
    } else {
        sign + ipart + seq!['.'] + trim_zeros(pad_left8(dec_digits(fr as nat)))
    }
}

/// A numeral of a value below `10^8` has at most eight digits.
proof fn lemma_dec_digits_short(n: nat)
    requires
        n < 100_000_000,
    ensures
        dec_digits(n).len() <= 8,
{
    reveal_with_fuel(pow10, 9);
    lemma_dec_digits_len_le(n, 8);
}

proof fn lemma_dec_digits_len_le(n: nat, k: nat)
    requires
        k >= 1,
        n < pow10(k),
    ensures
        dec_digits(n).len() <= k,
    decreases k,
{
    if n < 10 {
    } else {
        reveal_with_fuel(pow10, 2);
        assert(k >= 2);
        lemma_dec_digits_len_le(n / 10, (k - 1) as nat);
    }
}

/// Prints a scaled value as its canonical decimal numeral.
pub fn print_fixed(x: i64) -> (r: Vec<char>)
    requires
        x > i64::MIN,
    ensures
        r@ == fixed_str(x as int),
{
    let neg = x < 0;
    let m: u64 = if neg {
        (-x) as u64
    } else {
        x as u64
    };
    let ipart: u64 = m / SCALE;
    let fr: u64 = m % SCALE;
    let mut out: Vec<char> = Vec::new();
    if neg {
        out.push('-');
    }
    proof {
        if neg {
            assert(out@ =~= seq!['-']);
        } else {
            assert(out@ =~= Seq::<char>::empty());
        }
    }
    let mut digs = u64_to_dec_chars(ipart);
    let ghost before = out@;
    out.append(&mut digs);
    if fr == 0 {
        proof {
            assert(out@ == fixed_str(x as int));
        }
        return out;
    }
    out.push('.');
    // the fractional digits, left-padded to eight places
    let fd = u64_to_dec_chars(fr);
    proof {
        lemma_dec_digits_short(fr as nat);
    }
    let mut fv: Vec<char> = Vec::new();
    let mut pad: usize = 8 - fd.len();
    while pad > 0
        invariant
            pad <= 8 - fd@.len(),
            fv@ =~= Seq::new((8 - fd@.len() - pad) as nat, |i: int| '0'),
        decreases pad,
    {
        fv.push('0');
        pad = pad - 1;
        proof {
            assert(fv@ =~= Seq::new((8 - fd@.len() - pad) as nat, |i: int| '0'));
        }
    }
    let mut fd2 = fd;
    let ghost fd_view = fd2@;
    fv.append(&mut fd2);
    proof {
        assert(fv@ =~= pad_left8(fd_view));
    }
    // strip the trailing zero digits
    while fv.len() > 0 && fv[fv.len() - 1] == '0'
        invariant
            trim_zeros(fv@) == trim_zeros(pad_left8(fd_view)),
        decreases fv@.len(),
    {
        let ghost prev = fv@;
        fv.pop();
        proof {
            assert(prev.drop_last() =~= fv@);
        }
    }
    proof {
        assert(fv@ == trim_zeros(pad_left8(fd_view)));
    }
    let ghost mid = out@;
    let mut fv2 = fv;
    out.append(&mut fv2);
    proof {
        assert(out@ =~= fixed_str(x as int));
    }
    out
}

} // verus!
