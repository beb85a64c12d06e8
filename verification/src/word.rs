//! 256-bit words: block hashes, storage keys, storage values and account
//! addresses are all 32-byte quantities, held as a high and a low 128-bit
//! half and compared by their numeric value.

use vstd::prelude::*;

verus! {

/// Numeric weight of the high half: 2^128.
pub open spec fn half_radix() -> int {
    0x100000000000000000000000000000000int
}

/// The word whose numeric value is `n`.
pub open spec fn word_from_u64(n: u64) -> W256 {
    W256 { hi: 0, lo: n as u128 }
}

/// A 32-byte word, big-endian: `hi` holds the first 16 bytes, `lo` the last.
#[derive(Clone, Copy, Debug, PartialEq, Eq, Structural)]
pub struct W256 {
    pub hi: u128,
    pub lo: u128,
}

/// The numeric value of a word.
pub open spec fn word_val(w: W256) -> int {
    w.hi * half_radix() + w.lo
}

impl W256 {
    /// The all-zero word.
    pub fn zero() -> (r: W256)
        ensures
            word_val(r) == 0,
    {
        W256 { hi: 0, lo: 0 }
    }

    /// The word whose numeric value is `n`.
    pub fn from_u64(n: u64) -> (r: W256)
        ensures
            r == word_from_u64(n),
            word_val(r) == n,
            r.hi == 0,
            r.lo == n,
    {
        W256 { hi: 0, lo: n as u128 }
    }

    /// The word's value as a `u64`, when it fits.
    pub fn to_u64(&self) -> (r: Option<u64>)
        ensures
            word_val(*self) <= u64::MAX ==> r == Some(word_val(*self) as u64),
            word_val(*self) > u64::MAX ==> r is None,
    {
        if self.hi == 0 && self.lo <= u64::MAX as u128 {
            Some(self.lo as u64)
        } else {
            assert(word_val(*self) > u64::MAX) by {
                if self.hi != 0 {
                    assert(self.hi * half_radix() >= half_radix()) by (nonlinear_arith)
                        requires self.hi >= 1;
                }
            }
            None
        }
    }

    /// Numeric comparison: strictly below.
    pub fn lt(&self, other: &W256) -> (r: bool)
        ensures
            r == (word_val(*self) < word_val(*other)),
    {
        proof {
            lemma_word_val_order(*self, *other);
            lemma_word_val_order(*other, *self);
        }
        self.hi < other.hi || (self.hi == other.hi && self.lo < other.lo)
    }

    /// Numeric comparison: below or equal.
    pub fn le(&self, other: &W256) -> (r: bool)
        ensures
            r == (word_val(*self) <= word_val(*other)),
    {
        proof {
            lemma_word_val_order(*self, *other);
            lemma_word_val_order(*other, *self);
            lemma_word_val_injective(*self, *other);
        }
        self.hi < other.hi || (self.hi == other.hi && self.lo <= other.lo)
    }
}

/// Lexicographic order on the halves agrees with numeric order.
pub proof fn lemma_word_val_order(a: W256, b: W256)
    ensures
        a.hi < b.hi ==> word_val(a) < word_val(b),
        a.hi == b.hi && a.lo < b.lo ==> word_val(a) < word_val(b),
{
    if a.hi < b.hi {
        assert(a.hi * half_radix() + half_radix() <= b.hi * half_radix()) by (nonlinear_arith)
            requires a.hi < b.hi;
    }
}

/// Distinct words have distinct numeric values.
pub proof fn lemma_word_val_injective(a: W256, b: W256)
    ensures
        word_val(a) == word_val(b) ==> a == b,
{
    if a.hi < b.hi {
        lemma_word_val_order(a, b);
    }
    if b.hi < a.hi {
        lemma_word_val_order(b, a);
    }
    if a.hi == b.hi && a.lo < b.lo {
        lemma_word_val_order(a, b);
    }
    if a.hi == b.hi && b.lo < a.lo {
        lemma_word_val_order(b, a);
    }
}

} // verus!
