//! Actions: unary mutating operations bound to bit positions, and the
//! specification of what a dispatch pass over a selector does to an item.

use vstd::prelude::*;

verus! {

use crate::sigma::has_bit;

/// A unary mutating operation over an item of type `T`. Each implementor
/// states, through `effect`, the relation its `apply` establishes between the
/// item before and after the call.
pub trait Action<T> {
    /// The relation between the item before and the item after `apply`.
    spec fn effect(&self, pre: T, post: T) -> bool;

    /// Mutate `item` in place.
    fn apply(&self, item: &mut T)
        ensures
            self.effect(*old(item), *final(item)),
    ;
}

/// The dispatch relation: `post` can arise from `pre` by invoking, for each
/// set bit of `sel` from position `bit` down to 0 in descending order, the
/// action bound to that position. Unset bits invoke nothing.
pub open spec fn chain<T, A: Action<T>>(funcs: Seq<A>, sel: u64, bit: int, pre: T, post: T) -> bool
    decreases bit + 1,
{
    if bit < 0 {
        post == pre
    } else if has_bit(sel, bit as u64) {
        exists|mid: T| #[trigger] funcs[bit].effect(pre, mid) && chain(funcs, sel, bit - 1, mid, post)
    } else {
        chain(funcs, sel, bit - 1, pre, post)
    }
}

/// A dispatch pass over bits that are all unset leaves the item as it was.
pub proof fn lemma_chain_no_bits<T, A: Action<T>>(funcs: Seq<A>, sel: u64, bit: int, pre: T, post: T)
    requires
        bit < 64,
        forall|j: u64| j as int <= bit ==> !(#[trigger] has_bit(sel, j)),
        chain(funcs, sel, bit, pre, post),
    ensures
        post == pre,
    decreases bit + 1,
{
    if bit >= 0 {
        assert(!has_bit(sel, bit as u64));
        lemma_chain_no_bits(funcs, sel, bit - 1, pre, post);
    }
}

/// Moving the starting position across unset bits does not change the
/// dispatch relation: only set bits matter.
pub proof fn lemma_chain_skip_clear<T, A: Action<T>>(
    funcs: Seq<A>,
    sel: u64,
    lo: int,
    hi: int,
    pre: T,
    post: T,
)
    requires
        -1 <= lo <= hi < 64,
        forall|j: u64| lo < j as int <= hi ==> !(#[trigger] has_bit(sel, j)),
    ensures
        chain(funcs, sel, hi, pre, post) == chain(funcs, sel, lo, pre, post),
    decreases hi - lo,
{
    if hi > lo {
        lemma_chain_skip_clear(funcs, sel, lo, hi - 1, pre, post);
        assert(!has_bit(sel, hi as u64));
    }
}

/// An action on a flags item: force the flag off or on.
#[derive(Clone, Copy, Debug, PartialEq, Eq, Structural)]
pub enum FlagAction {
    Clear,
    Raise,
}

impl Action<bool> for FlagAction {
    open spec fn effect(&self, pre: bool, post: bool) -> bool {
        match self {
            FlagAction::Clear => post == false,
            FlagAction::Raise => post == true,
        }
    }

    fn apply(&self, item: &mut bool) {
        match self {
            FlagAction::Clear => {
                *item = false;
            }
            FlagAction::Raise => {
                *item = true;
            }
        }
    }
}

/// An action on a byte log: append one fixed byte. Useful for observing which
/// actions a dispatch invoked, and in which order.
#[derive(Clone, Copy, Debug, PartialEq, Eq, Structural)]
pub struct Append {
    pub value: u8,
}

impl Action<Vec<u8>> for Append {
    open spec fn effect(&self, pre: Vec<u8>, post: Vec<u8>) -> bool {
        post@ == pre@.push(self.value)
    }

    fn apply(&self, item: &mut Vec<u8>) {
        item.push(self.value);
    }
}

} // verus!
