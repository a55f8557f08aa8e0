//! Laws of the dispatcher, stated and proved over the same specifications
//! that the contracts of `Regulator::regulate` use.

use vstd::prelude::*;

verus! {

use crate::action::{Action, chain, lemma_chain_no_bits};
use crate::sigma::{Sigma, has_bit, lemma_zero_has_no_bits};
use crate::{Exclusion, entry_conflicts, fits, has_conflict};

/// A zero selector conflicts with no table whatever the table holds, lies
/// within the bounds of any action list, and a dispatch pass over it leaves
/// the item untouched: `regulate` must return success and invoke nothing.
pub proof fn lemma_zero_selector<T, S: Sigma, A: Action<T>>(
    table: Seq<(S, Exclusion<S>)>,
    funcs: Seq<A>,
    pre: T,
    post: T,
)
    ensures
        !has_conflict(0u64, table),
        fits(0u64, funcs.len() as int),
        chain(funcs, 0u64, 63, pre, post) ==> post == pre,
{
    assert(forall|m: u64| #[trigger] (0u64 & m) == 0u64) by (bit_vector);
    lemma_zero_has_no_bits();
    if chain(funcs, 0u64, 63, pre, post) {
        lemma_chain_no_bits(funcs, 0u64, 63, pre, post);
    }
}

/// Whether each action's effect determines the item after the call from the
/// item before it.
pub open spec fn deterministic_actions<T, A: Action<T>>(funcs: Seq<A>) -> bool {
    forall|k: int, pre: T, p1: T, p2: T|
        0 <= k < funcs.len() && #[trigger] funcs[k].effect(pre, p1) && #[trigger] funcs[k].effect(
            pre,
            p2,
        ) ==> p1 == p2
}

/// Dispatch replays identically: with deterministic actions, two passes of
/// the same selector over the same action list from the same starting item
/// end in the same item. The dispatcher keeps no hidden state between calls.
pub proof fn lemma_dispatch_deterministic<T, A: Action<T>>(
    funcs: Seq<A>,
    sel: u64,
    bit: int,
    pre: T,
    p1: T,
    p2: T,
)
    requires
        bit < 64,
        deterministic_actions(funcs),
        fits(sel, funcs.len() as int),
        chain(funcs, sel, bit, pre, p1),
        chain(funcs, sel, bit, pre, p2),
    ensures
        p1 == p2,
    decreases bit + 1,
{
    if bit < 0 {
    } else if has_bit(sel, bit as u64) {
        let m1 = choose|mid: T|
            #[trigger] funcs[bit].effect(pre, mid) && chain(funcs, sel, bit - 1, mid, p1);
        let m2 = choose|mid: T|
            #[trigger] funcs[bit].effect(pre, mid) && chain(funcs, sel, bit - 1, mid, p2);
        assert(m1 == m2);
        lemma_dispatch_deterministic(funcs, sel, bit - 1, m1, p1, p2);
    } else {
        lemma_dispatch_deterministic(funcs, sel, bit - 1, pre, p1, p2);
    }
}

/// The flag actions determine the item after the call from the item before
/// it, so a dispatch over them replays identically.
pub proof fn lemma_flag_actions_deterministic(funcs: Seq<crate::action::FlagAction>)
    ensures
        deterministic_actions::<bool, crate::action::FlagAction>(funcs),
{
}

/// A table entry fires exactly when the selector shares a bit with the
/// OR-combination of the entry's key and all of its targets, and one firing
/// entry is enough for the whole table to conflict.
pub proof fn lemma_conflict_by_combination<S: Sigma>(
    sel: u64,
    table: Seq<(S, Exclusion<S>)>,
    i: int,
)
    requires
        0 <= i < table.len(),
        sel & (table[i].0.sig() | table[i].1.mask()) != 0u64,
    ensures
        has_conflict(sel, table),
{
    assert(entry_conflicts(sel, table[i]));
}

} // verus!
