use vstd::prelude::*;

use crate::holding::Holding;
use crate::Holdable;

verus! {

// Laws that relate several operations on one holding. Each hypothesis is
// the state change that the corresponding operation's contract guarantees
// on success, so the conclusions hold of any call sequence that took those
// steps.

/// Law: allowance increases are additive. Two successful increases for one
/// spender, by `a` and then by `b`, starting from a zero allowance, leave
/// that spender with allowance exactly `a + b`.
pub proof fn lemma_increase_allowance_additive(
    h0: Holding,
    h1: Holding,
    h2: Holding,
    spender: Seq<char>,
    a: u128,
    b: u128,
)
    requires
        h0.allowance_of(spender) == 0,
        h0.increase_applied(h1, spender, a),
        h1.increase_applied(h2, spender, b),
    ensures
        h2.allowance_of(spender) == a + b,
{
}

/// Law: a lock followed by an unlock of the same amount for the same
/// spender restores the free supply and every locked amount exactly, and
/// leaves every allowance untouched.
pub proof fn lemma_lock_unlock_round_trip(
    h0: Holding,
    h1: Holding,
    h2: Holding,
    spender: Seq<char>,
    amt: u128,
)
    requires
        h0.lock_applied(h1, spender, amt),
        h1.unlock_applied(h2, spender, amt),
    ensures
        h2.free_supply() == h0.free_supply(),
        h2.locked_of(spender) == h0.locked_of(spender),
        forall|k: Seq<char>| h2.locked_of(k) == h0.locked_of(k),
        forall|k: Seq<char>| h2.allowance_of(k) == h0.allowance_of(k),
        h2.locked_total() == h0.locked_total(),
{
}

} // verus!
