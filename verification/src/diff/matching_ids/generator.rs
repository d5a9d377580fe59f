//! A generator for matching identifiers.
//!
//! Every identifier has the form `<prefix>-<number>`: the prefix is an
//! eight-letter random string drawn once per generator, and the number
//! increases by one with every identifier, so identifiers from one
//! generator never repeat.

use vstd::prelude::*;

use crate::text::dec_digits;
use crate::text::string_from_chars;
use crate::text::u64_to_dec;

verus! {

/// The identifier `<prefix>-<n>`.
pub open spec fn gen_id(prefix: Seq<char>, n: nat) -> Seq<char> {
    prefix + seq!['-'] + dec_digits(n)
}

/// Identifier uniqueness: two different counter values never yield the same
/// identifier, so one generator never issues a generated identifier twice.
pub proof fn lemma_gen_id_injective(prefix: Seq<char>, n1: nat, n2: nat)
    requires
        n1 != n2,
    ensures
        gen_id(prefix, n1) != gen_id(prefix, n2),
{
    if gen_id(prefix, n1) == gen_id(prefix, n2) {
        let g1 = gen_id(prefix, n1);
        let g2 = gen_id(prefix, n2);
        let head = prefix + seq!['-'];
        assert(g1 == head + dec_digits(n1));
        assert(g2 == head + dec_digits(n2));
        assert(g1.len() == head.len() + dec_digits(n1).len());
        assert(g2.len() == head.len() + dec_digits(n2).len());
        assert(dec_digits(n1) =~= dec_digits(n2)) by {
            assert forall|k: int| 0 <= k < dec_digits(n1).len() implies dec_digits(n1)[k]
                == dec_digits(n2)[k] by {
                assert((head + dec_digits(n1))[head.len() + k] == dec_digits(n1)[k]);
                assert((head + dec_digits(n2))[head.len() + k] == dec_digits(n2)[k]);
            }
        }
        crate::text::lemma_dec_digits_injective(n1, n2);
    }
}

/// Generates identifiers for matched element pairs.
#[derive(Debug)]
pub struct MatchingIdGenerator {
    pub(crate) prefix: String,
    pub(crate) next_index: u64,
}

/// Relies on `getrandom::getrandom`: fills the buffer with random bytes.
/// Nothing can be promised of the values; on failure the buffer keeps what
/// it held.
#[verifier::external_body]
fn fill_random(buf: &mut Vec<u8>)
    ensures
        final(buf)@.len() == old(buf)@.len(),
{
    let _ = getrandom::getrandom(buf.as_mut_slice());
}

/// One lowercase letter for one byte.
fn letter_of(b: u8) -> (c: char)
    ensures
        97 <= c as u32 <= 122,
{
    match b % 26 {
        0 => 'a',
        1 => 'b',
        2 => 'c',
        3 => 'd',
        4 => 'e',
        5 => 'f',
        6 => 'g',
        7 => 'h',
        8 => 'i',
        9 => 'j',
        10 => 'k',
        11 => 'l',
        12 => 'm',
        13 => 'n',
        14 => 'o',
        15 => 'p',
        16 => 'q',
        17 => 'r',
        18 => 's',
        19 => 't',
        20 => 'u',
        21 => 'v',
        22 => 'w',
        23 => 'x',
        24 => 'y',
        _ => 'z',
    }
}

/// A random string of `length` lowercase letters.
fn random_string(length: usize) -> (r: String)
    ensures
        r@.len() == length,
        forall|i: int| 0 <= i < r@.len() ==> 97 <= (#[trigger] r@[i]) as u32 <= 122,
{
    let mut buf: Vec<u8> = Vec::new();
    let mut i: usize = 0;
    while i < length
        invariant
            i <= length,
            buf@.len() == i,
        decreases length - i,
    {
        buf.push(0);
        i = i + 1;
    }
    fill_random(&mut buf);
    let mut chars: Vec<char> = Vec::new();
    let mut j: usize = 0;
    while j < buf.len()
        invariant
            j <= buf@.len(),
            buf@.len() == length,
            chars@.len() == j,
            forall|k: int| 0 <= k < j ==> 97 <= (#[trigger] chars@[k]) as u32 <= 122,
        decreases buf@.len() - j,
    {
        chars.push(letter_of(buf[j]));
        j = j + 1;
    }
    string_from_chars(&chars)
}

impl MatchingIdGenerator {
    /// The random prefix of this generator.
    pub open(crate) spec fn prefix_view(&self) -> Seq<char> {
        self.prefix@
    }

    /// The next number to be issued.
    pub open(crate) spec fn counter(&self) -> nat {
        self.next_index as nat
    }

    /// A fresh generator: a random eight-letter prefix, the counter at
    /// zero.
    pub fn new() -> (r: MatchingIdGenerator)
        ensures
            r.counter() == 0,
            r.prefix_view().len() == 8,
            forall|i: int| 0 <= i < 8 ==> 97 <= (#[trigger] r.prefix_view()[i]) as u32 <= 122,
    {
        MatchingIdGenerator { prefix: random_string(8), next_index: 0 }
    }

    /// The next identifier.  When `default_id` is set it is returned
    /// unchanged and nothing is consumed: an element that already carries an
    /// `id` attribute keeps it.
    pub fn next(&mut self, default_id: Option<String>) -> (r: String)
        requires
            old(self).counter() < u64::MAX,
        ensures
            final(self).prefix_view() == old(self).prefix_view(),
            match default_id {
                Some(id) => r == id && final(self).counter() == old(self).counter(),
                None => r@ == gen_id(old(self).prefix_view(), old(self).counter())
                    && final(self).counter() == old(self).counter() + 1,
            },
    {
        match default_id {
            Some(pre_id) => pre_id,
            None => {
                let mut res = self.prefix.clone();
                res.push('-');
                let num = u64_to_dec(self.next_index);
                res.push_str(num.as_str());
                self.next_index = self.next_index + 1;
                proof {
                    assert(res@ =~= gen_id(old(self).prefix_view(), old(self).counter()));
                }
                res
            },
        }
    }
}

} // verus!
