//! A rule-based dispatcher over bit-set selectors.
//!
//! A [`Regulator`] owns an ordered list of actions, one per bit position, a
//! conflict table, and an active selector. [`Regulator::regulate`] first
//! checks that the selector does not activate any bit-sets declared mutually
//! exclusive by the table; if it does, it reports a conflict and invokes
//! nothing. Otherwise it invokes the action bound to each set bit of the
//! selector, from the highest bit position down to bit 0, mutating the
//! caller's item in place.

use vstd::prelude::*;

pub mod action;
pub mod laws;
pub mod sigma;

verus! {

use core::marker::PhantomData;
use crate::action::{Action, chain, lemma_chain_skip_clear};
use crate::sigma::{Sigma, has_bit, lemma_zero_has_no_bits};

broadcast use vstd::string::to_string_from_display_ensures_for_str;

/// The targets a conflict-table key maps to: one bit-set, or a group of
/// bit-sets that is reduced to one value by bitwise OR before testing.
pub enum Exclusion<S> {
    Single(S),
    Many(Vec<S>),
}

/// The OR of the masks of all bit-sets in `s`.
pub open spec fn or_all<S: Sigma>(s: Seq<S>) -> u64
    decreases s.len(),
{
    if s.len() == 0 {
        0u64
    } else {
        or_all(s.drop_last()) | s.last().sig()
    }
}

impl<S: Sigma> Exclusion<S> {
    /// The mask of this target set: one value's mask, or the OR of them all.
    pub open spec fn mask(&self) -> u64 {
        match self {
            Exclusion::Single(x) => x.sig(),
            Exclusion::Many(xs) => or_all(xs@),
        }
    }

    /// Reduce the targets to a single bit-set via OR.
    pub fn combined(&self) -> (r: S)
        ensures
            r.sig() == self.mask(),
    {
        match self {
            Exclusion::Single(x) => *x,
            Exclusion::Many(xs) => {
                let mut acc: S = S::zero();
                let mut j: usize = 0;
                while j < xs.len()
                    invariant
                        j <= xs.len(),
                        acc.sig() == or_all(xs@.take(j as int)),
                    decreases xs.len() - j,
                {
                    acc = acc.bit_or(&xs[j]);
                    proof {
                        assert(xs@.take(j + 1).drop_last() =~= xs@.take(j as int));
                        assert(xs@.take(j + 1).last() == xs@[j as int]);
                    }
                    j += 1;
                }
                proof {
                    assert(xs@.take(xs@.len() as int) =~= xs@);
                }
                acc
            }
        }
    }
}

/// The full mask of a conflict-table entry: its key OR-combined with all of
/// its targets.
pub open spec fn entry_mask<S: Sigma>(e: (S, Exclusion<S>)) -> u64 {
    e.0.sig() | e.1.mask()
}

/// Whether the selector `sel` shares a set bit with the mask of entry `e`.
pub open spec fn entry_conflicts<S: Sigma>(sel: u64, e: (S, Exclusion<S>)) -> bool {
    sel & entry_mask(e) != 0u64
}

/// Whether any entry of the table conflicts with the selector `sel`.
pub open spec fn has_conflict<S: Sigma>(sel: u64, table: Seq<(S, Exclusion<S>)>) -> bool {
    exists|i: int| 0 <= i < table.len() && entry_conflicts(sel, #[trigger] table[i])
}

/// Whether every set bit of `sel` indexes an action list of length `len`.
pub open spec fn fits(sel: u64, len: int) -> bool {
    forall|i: u64| #[trigger] has_bit(sel, i) ==> (i as int) < len
}

/// The one failure `regulate` reports.
#[derive(Clone, Copy, Debug, PartialEq, Eq, Structural)]
pub enum RegulatorError {
    /// The selector activates bit-sets that the conflict table declares
    /// mutually exclusive.
    ConflictDetected,
    /// The selector has a set bit with no action bound to it.
    SelectorOutOfBounds,
}

impl RegulatorError {
    /// A short description of the error, in place of a `Display` impl.
    pub fn message(&self) -> (r: String)
        ensures
            *self is ConflictDetected ==> r@ == "conflict detected"@,
            *self is SelectorOutOfBounds ==> r@ == "selector out of bounds"@,
    {
        match self {
            RegulatorError::ConflictDetected => "conflict detected".to_string(),
            RegulatorError::SelectorOutOfBounds => "selector out of bounds".to_string(),
        }
    }
}

/// The dispatcher: an ordered action list (one action per bit position), a
/// conflict table, and the active selector. Built once, never mutated;
/// `regulate` only reads this state and mutates the caller's item.
pub struct Regulator<T, S, A> {
    funcs: Vec<A>,
    exclude: Vec<(S, Exclusion<S>)>,
    sigma: S,
    marker: PhantomData<T>,
}

impl<T, S: Sigma, A: Action<T>> Regulator<T, S, A> {
    /// The ordered action list, action `i` bound to bit `i`.
    pub closed spec fn actions(&self) -> Seq<A> {
        self.funcs@
    }

    /// The conflict table: pairs of a key bit-set and its exclusion targets.
    pub closed spec fn table(&self) -> Seq<(S, Exclusion<S>)> {
        self.exclude@
    }

    /// The active selector.
    pub closed spec fn selector(&self) -> S {
        self.sigma
    }

    /// Build a dispatcher from its three parts.
    pub fn new(funcs: Vec<A>, exclude: Vec<(S, Exclusion<S>)>, sigma: S) -> (r: Self)
        ensures
            r.actions() == funcs@,
            r.table() == exclude@,
            r.selector() == sigma,
    {
        Regulator { funcs, exclude, sigma, marker: PhantomData }
    }

    /// Convenience form: a selector and its actions, with no conflicts
    /// configured.
    pub fn of_actions(sigma: S, funcs: Vec<A>) -> (r: Self)
        ensures
            r.actions() == funcs@,
            r.table() =~= Seq::<(S, Exclusion<S>)>::empty(),
            r.selector() == sigma,
    {
        Regulator { funcs, exclude: Vec::new(), sigma, marker: PhantomData }
    }

    /// Check the selector against the conflict table, then invoke the action
    /// for each set selector bit, highest bit position first.
    ///
    /// Fails with `ConflictDetected`, invoking nothing, exactly when some
    /// table entry's combined mask shares a bit with the selector; fails with
    /// `SelectorOutOfBounds`, invoking nothing, when a selector bit has no
    /// action bound to it. Otherwise the item ends as the set bits' actions,
    /// run in descending bit order, leave it.
    pub fn regulate(&self, item: &mut T) -> (r: Result<(), RegulatorError>)
        ensures
            r is Ok <==> (!has_conflict(self.selector().sig(), self.table()) && fits(
                self.selector().sig(),
                self.actions().len() as int,
            )),
            r == Result::<(), RegulatorError>::Err(RegulatorError::ConflictDetected)
                <==> has_conflict(self.selector().sig(), self.table()),
            r is Err ==> *final(item) == *old(item),
            r is Ok ==> chain(self.actions(), self.selector().sig(), 63, *old(item), *final(item)),
    {
        let ghost sel: u64 = self.sigma.sig();

        let mut k: usize = 0;
        while k < self.exclude.len()
            invariant
                k <= self.exclude.len(),
                sel == self.sigma.sig(),
                forall|j: int| 0 <= j < k ==> !entry_conflicts(sel, #[trigger] self.exclude@[j]),
            decreases self.exclude.len() - k,
        {
            let entry: &(S, Exclusion<S>) = &self.exclude[k];
            let combined: S = entry.1.combined();
            if self.sigma.check_conflict(&entry.0, &combined) {
                proof {
                    assert(entry_conflicts(sel, self.exclude@[k as int]));
                    assert(has_conflict(sel, self.exclude@));
                }
                return Err(RegulatorError::ConflictDetected);
            }
            k += 1;
        }
        proof {
            assert(!has_conflict(sel, self.exclude@));
        }

        let nob32: u32 = self.sigma.bit_length();
        let nob: usize = nob32 as usize;
        if nob >= self.funcs.len() && self.sigma.mask_one(nob) {
            proof {
                assert(has_bit(sel, nob as u64));
                assert(!fits(sel, self.funcs@.len() as int));
            }
            return Err(RegulatorError::SelectorOutOfBounds);
        }
        proof {
            if nob < self.funcs.len() {
                assert forall|i: u64| #[trigger] has_bit(sel, i) implies (i as int)
                    < self.funcs@.len() as int by {
                    assert(i <= nob32 as u64);
                }
            } else {
                assert(!has_bit(sel, nob as u64));
                if sel != 0u64 {
                    assert(has_bit(sel, nob32 as u64));
                    assert(false);
                }
                lemma_zero_has_no_bits();
            }
            assert(fits(sel, self.funcs@.len() as int));
        }

        let ghost orig: T = *item;
        proof {
            assert(nob < 64);
            assert forall|p: T| #[trigger] chain(self.funcs@, sel, nob as int, orig, p) implies chain(
                self.funcs@,
                sel,
                63,
                orig,
                p,
            ) by {
                lemma_chain_skip_clear(self.funcs@, sel, nob as int, 63, orig, p);
            }
        }
        let mut i: usize = nob + 1;
        while i > 0
            invariant
                i <= nob + 1,
                nob < 64,
                sel == self.sigma.sig(),
                fits(sel, self.funcs@.len() as int),
                forall|j: u64| #[trigger] has_bit(sel, j) ==> j <= nob as u64,
                forall|p: T|
                    #[trigger] chain(self.funcs@, sel, i as int - 1, *item, p) ==> chain(
                        self.funcs@,
                        sel,
                        63,
                        orig,
                        p,
                    ),
            decreases i,
        {
            i -= 1;
            if self.sigma.mask_one(i) {
                let ghost pre: T = *item;
                let f: &A = &self.funcs[i];
                f.apply(item);
                proof {
                    assert(f.effect(pre, *item));
                    assert forall|p: T|
                        #[trigger] chain(self.funcs@, sel, i as int - 1, *item, p) implies chain(
                        self.funcs@,
                        sel,
                        63,
                        orig,
                        p,
                    ) by {
                        assert(chain(self.funcs@, sel, i as int, pre, p));
                    }
                }
            } else {
                proof {
                    assert forall|p: T|
                        #[trigger] chain(self.funcs@, sel, i as int - 1, *item, p) implies chain(
                        self.funcs@,
                        sel,
                        63,
                        orig,
                        p,
                    ) by {
                        assert(!has_bit(sel, i as u64));
                        assert(chain(self.funcs@, sel, i as int, *item, p));
                    }
                }
            }
        }
        proof {
            assert(chain(self.funcs@, sel, -1, *item, *item));
            assert(chain(self.funcs@, sel, 63, orig, *item));
        }
        Ok(())
    }
}

} // verus!
