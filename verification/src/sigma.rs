//! The bit-set capability contract: what a type must support to serve as a
//! selector or conflict value, and its implementation for `u8`.

use vstd::prelude::*;

verus! {

/// Whether bit `i` is set in the 64-bit model value `v`.
pub open spec fn has_bit(v: u64, i: u64) -> bool {
    i < 64 && ((v >> i) & 1u64) == 1u64
}

/// The empty bit-set has no bit set at any position.
pub proof fn lemma_zero_has_no_bits()
    by (bit_vector)
    ensures
        forall|i: u64| !(#[trigger] has_bit(0u64, i)),
{
}

/// The bit-set capability contract. A selector exposes its value as a 64-bit
/// mathematical mask (`sig`), and every operation is specified against that
/// mask, so the dispatcher never depends on the concrete width.
pub trait Sigma: Sized + Copy + Eq + core::hash::Hash {
    /// The value as a bit mask: the model that all contracts speak of.
    spec fn sig(&self) -> u64;

    /// The empty bit-set: the identity for `bit_or`, conflict-free by itself.
    fn zero() -> (r: Self)
        ensures
            r.sig() == 0u64,
    ;

    /// The union of two bit-sets.
    fn bit_or(&self, other: &Self) -> (r: Self)
        ensures
            r.sig() == (self.sig() | other.sig()),
    ;

    /// The position of the highest set bit, or 0 when no bit is set.
    fn bit_length(&self) -> (r: u32)
        ensures
            self.sig() == 0u64 ==> r == 0,
            self.sig() != 0u64 ==> has_bit(self.sig(), r as u64),
            forall|j: u64| #[trigger] has_bit(self.sig(), j) ==> j <= r as u64,
    ;

    /// Whether the selector shares any set bit with the union of `ex` and
    /// `ey`: the exclusion predicate of the conflict scan.
    fn check_conflict(&self, ex: &Self, ey: &Self) -> (r: bool)
        ensures
            r == ((self.sig() & (ex.sig() | ey.sig())) != 0u64),
    ;

    /// Whether the bit at position `bit` is set.
    fn mask_one(&self, bit: usize) -> (r: bool)
        ensures
            r == has_bit(self.sig(), bit as u64),
    ;
}

proof fn lemma_high_clear_step(v: u64, i: u64)
    by (bit_vector)
    requires
        i < 63,
        (v >> ((i + 1) as u64)) == 0u64,
        (v >> i) & 1u64 != 1u64,
    ensures
        (v >> i) == 0u64,
{
}

proof fn lemma_bits_above(v: u64, i: u64, j: u64)
    by (bit_vector)
    requires
        i < 63,
        (v >> ((i + 1) as u64)) == 0u64,
        j > i,
    ensures
        (v >> j) & 1u64 != 1u64,
{
}

impl Sigma for u8 {
    open spec fn sig(&self) -> u64 {
        *self as u64
    }

    fn zero() -> (r: Self) {
        0u8
    }

    fn bit_or(&self, other: &Self) -> (r: Self) {
        let a: u8 = *self;
        let b: u8 = *other;
        proof {
            assert(((a | b) as u64) == ((a as u64) | (b as u64))) by (bit_vector);
        }
        a | b
    }

    fn bit_length(&self) -> (r: u32) {
        let v: u8 = *self;
        proof {
            assert(((v as u64) >> 8u64) == 0u64) by (bit_vector);
        }
        let mut i: u32 = 8;
        while i > 0
            invariant
                i <= 8,
                v == *self,
                ((v as u64) >> (i as u64)) == 0u64,
            decreases i,
        {
            i -= 1;
            let ghost vi: u64 = v as u64;
            let ghost gi: u64 = i as u64;
            if (v >> i) & 1 == 1 {
                proof {
                    assert((vi >> gi) & 1u64 == 1u64) by (bit_vector)
                        requires
                            (v >> i) & 1u8 == 1u8,
                            i < 8u32,
                            vi == v as u64,
                            gi == i as u64,
                    ;
                    assert(has_bit(self.sig(), gi));
                    assert forall|j: u64| #[trigger] has_bit(self.sig(), j) implies j <= gi by {
                        if j > gi {
                            lemma_bits_above(vi, gi, j);
                        }
                    }
                    lemma_zero_has_no_bits();
                }
                return i;
            }
            proof {
                assert((vi >> gi) & 1u64 != 1u64) by (bit_vector)
                    requires
                        (v >> i) & 1u8 != 1u8,
                        i < 8u32,
                        vi == v as u64,
                        gi == i as u64,
                ;
                lemma_high_clear_step(vi, gi);
            }
        }
        proof {
            assert(v as u64 == 0u64) by (bit_vector)
                requires
                    ((v as u64) >> 0u64) == 0u64,
            ;
            lemma_zero_has_no_bits();
        }
        0
    }

    fn check_conflict(&self, ex: &Self, ey: &Self) -> (r: bool) {
        let a: u8 = *self;
        let b: u8 = *ex;
        let c: u8 = *ey;
        proof {
            assert(((a & (b | c)) > 0u8) == (((a as u64) & ((b as u64) | (c as u64))) != 0u64))
                by (bit_vector);
        }
        a & (b | c) > 0
    }

    fn mask_one(&self, bit: usize) -> (r: bool) {
        let v: u8 = *self;
        if bit < 8 {
            let b: u32 = bit as u32;
            proof {
                assert((((v >> b) & 1u8) == 1u8) == (((v as u64) >> (b as u64)) & 1u64 == 1u64))
                    by (bit_vector)
                    requires
                        b < 8u32,
                ;
            }
            (v >> b) & 1 == 1
        } else {
            proof {
                assert(forall|j: u64| j >= 8 ==> (#[trigger] ((v as u64) >> j)) & 1u64 != 1u64) by (bit_vector);
            }
            false
        }
    }
}

} // verus!
