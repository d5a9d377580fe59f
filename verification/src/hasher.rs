//! A 64-bit fingerprint hasher.
//!
//! The fingerprints only ever compare equal or unequal, so any fixed 64-bit
//! digest will do; this is the Fowler-Noll-Vo variant with the usual offset
//! basis and prime.  The whole computation is a function of the bytes fed
//! in, which is what the fingerprint determinism proofs rest on.

use vstd::prelude::*;

verus! {

/// The FNV-1a offset basis.
pub const FNV_OFFSET: u64 = 0xcbf2_9ce4_8422_2325;

/// The FNV-1a prime.
pub const FNV_PRIME: u64 = 0x100_0000_01b3;

/// One step of the digest: fold one byte into the state.
pub open spec fn fnv_update(h: u64, b: u8) -> u64 {
    (h ^ (b as u64)).wrapping_mul(FNV_PRIME)
}

/// Folding a whole byte string into the state.
pub open spec fn fnv_fold(h: u64, s: Seq<u8>) -> u64
    decreases s.len(),
{
    if s.len() == 0 {
        h
    } else {
        fnv_fold(fnv_update(h, s[0]), s.drop_first())
    }
}

/// The little-endian bytes of a 64-bit value.
pub open spec fn le_bytes(x: u64) -> Seq<u8> {
    Seq::new(8nat, |i: int| ((x >> (8 * i) as u64) & 0xff) as u8)
}

/// A running 64-bit digest.  The state after feeding a sequence of bytes is
/// a pure function of that sequence.
pub struct Fnv {
    pub(crate) state: u64,
}

impl Fnv {
    pub open(crate) spec fn digest(&self) -> u64 {
        self.state
    }

    pub fn new() -> (r: Fnv)
        ensures
            r.digest() == FNV_OFFSET,
    {
        Fnv { state: FNV_OFFSET }
    }

    /// Feeds one byte.
    pub fn write_u8(&mut self, b: u8)
        ensures
            final(self).digest() == fnv_update(old(self).digest(), b),
            final(self).digest() == fnv_fold(old(self).digest(), seq![b]),
    {
        self.state = (self.state ^ (b as u64)).wrapping_mul(FNV_PRIME);
        proof {
            assert(seq![b].drop_first() =~= Seq::<u8>::empty());
            assert(fnv_fold(old(self).digest(), seq![b]) == fnv_fold(
                fnv_update(old(self).digest(), b),
                seq![b].drop_first(),
            ));
        }
    }

    /// Feeds a byte string.
    pub fn write_bytes(&mut self, bytes: &[u8])
        ensures
            final(self).digest() == fnv_fold(old(self).digest(), bytes@),
    {
        let n = bytes.len();
        let mut i: usize = 0;
        proof {
            assert(bytes@.skip(0) =~= bytes@);
        }
        while i < n
            invariant
                i <= n,
                n == bytes@.len(),
                fnv_fold(old(self).digest(), bytes@) == fnv_fold(self.digest(), bytes@.skip(
                    i as int,
                )),
            decreases n - i,
        {
            let ghost pre = self.digest();
            let b = bytes[i];
            self.write_u8(b);
            i = i + 1;
            proof {
                assert(bytes@.skip(i - 1)[0] == b);
                assert(bytes@.skip(i - 1).drop_first() =~= bytes@.skip(i as int));
            }
        }
        proof {
            assert(bytes@.skip(n as int) =~= Seq::<u8>::empty());
        }
    }

    /// Feeds the eight little-endian bytes of a 64-bit value.
    pub fn write_u64(&mut self, x: u64)
        ensures
            final(self).digest() == fnv_fold(old(self).digest(), le_bytes(x)),
    {
        let mut k: usize = 0;
        proof {
            assert(le_bytes(x).take(0) =~= Seq::<u8>::empty());
        }
        while k < 8
            invariant
                k <= 8,
                self.digest() == fnv_fold(old(self).digest(), le_bytes(x).take(k as int)),
            decreases 8 - k,
        {
            let sh: u64 = (8 * k) as u64;
            let b: u8 = ((x >> sh) & 0xff) as u8;
            proof {
                assert(le_bytes(x)[k as int] == b);
                lemma_fnv_fold_push(old(self).digest(), le_bytes(x).take(k as int), b);
                assert(le_bytes(x).take(k as int).push(b) =~= le_bytes(x).take(k + 1));
            }
            self.write_u8(b);
            k = k + 1;
        }
        proof {
            assert(le_bytes(x).take(8) =~= le_bytes(x));
        }
    }

    /// The digest so far.
    pub fn finish(&self) -> (r: u64)
        ensures
            r == self.digest(),
    {
        self.state
    }
}

/// Folding a concatenation folds the parts one after the other.
pub proof fn lemma_fnv_fold_concat(h: u64, a: Seq<u8>, b: Seq<u8>)
    ensures
        fnv_fold(h, a + b) == fnv_fold(fnv_fold(h, a), b),
    decreases a.len(),
{
    if a.len() == 0 {
        assert(a + b =~= b);
    } else {
        assert((a + b)[0] == a[0]);
        assert((a + b).drop_first() =~= a.drop_first() + b);
        lemma_fnv_fold_concat(fnv_update(h, a[0]), a.drop_first(), b);
    }
}

/// Folding one more byte extends the fold at the end.
pub proof fn lemma_fnv_fold_push(h: u64, s: Seq<u8>, b: u8)
    ensures
        fnv_fold(h, s.push(b)) == fnv_update(fnv_fold(h, s), b),
    decreases s.len(),
{
    let t = s.push(b);
    if s.len() == 0 {
        assert(t[0] == b);
        assert(t.drop_first() =~= Seq::<u8>::empty());
        assert(fnv_fold(h, t) == fnv_fold(fnv_update(h, b), t.drop_first()));
        assert(fnv_fold(fnv_update(h, b), t.drop_first()) == fnv_update(h, b));
        assert(fnv_fold(h, s) == h);
    } else {
        assert(t[0] == s[0]);
        assert(t.drop_first() =~= s.drop_first().push(b));
        lemma_fnv_fold_push(fnv_update(h, s[0]), s.drop_first(), b);
        assert(fnv_fold(h, t) == fnv_fold(fnv_update(h, t[0]), t.drop_first()));
        assert(fnv_fold(fnv_update(h, s[0]), s.drop_first().push(b)) == fnv_update(
            fnv_fold(fnv_update(h, s[0]), s.drop_first()),
            b,
        ));
        assert(fnv_fold(h, s) == fnv_fold(fnv_update(h, s[0]), s.drop_first()));
    }
}

} // verus!
