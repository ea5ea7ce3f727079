pub mod entries;
pub mod errors;
pub mod holding;
pub mod laws;

pub use errors::HoldingError;
pub use holding::Holding;

use vstd::prelude::*;

use crate::entries::distinct_keys;
use crate::entries::position_of;
use crate::entries::value_of;

verus! {

// A holding tracks, for one account, the free part of its supply together
// with a per-spender allowance (how much that spender may have locked) and
// a per-spender lock (how much is currently committed out of the supply).
// Locking moves value from the free supply into a lock and unlocking moves
// it back, so the total `free_supply() + locked_total()` is conserved by
// every operation, successful or not. Every mutation either fully succeeds
// or reports a `HoldingError` and leaves the state exactly as it was.

/// The capability a ledger backing store offers: checked, all-or-nothing
/// operations on one account's allowances, locks and free supply.
pub trait Holdable: Sized {
    /// The allowance recorded for `spender`; zero when no entry exists.
    spec fn allowance_of(&self, spender: Seq<char>) -> u128;

    /// Whether an allowance entry exists for `spender`.
    spec fn allowance_entry(&self, spender: Seq<char>) -> bool;

    /// The amount locked for `spender`; zero when no entry exists.
    spec fn locked_of(&self, spender: Seq<char>) -> u128;

    /// Whether a lock entry exists for `spender`.
    spec fn lock_entry(&self, spender: Seq<char>) -> bool;

    /// The free (unlocked) part of the supply.
    spec fn free_supply(&self) -> u128;

    /// The total of all locked amounts.
    spec fn locked_total(&self) -> int;

    /// Well-formedness, established at construction and preserved by every
    /// operation.
    spec fn inv(&self) -> bool;

    /// The state change a successful `increase_allowance(spender, amt)` makes:
    /// the spender's allowance grows by `amt` (an entry is created when absent)
    /// and nothing else moves.
    open spec fn increase_applied(&self, post: Self, spender: Seq<char>, amt: u128) -> bool {
        &&& post.allowance_of(spender) == self.allowance_of(spender) + amt
        &&& post.allowance_entry(spender)
        &&& forall|k: Seq<char>|
            k != spender ==> post.allowance_of(k) == self.allowance_of(k)
        &&& forall|k: Seq<char>|
            k != spender ==> post.allowance_entry(k) == self.allowance_entry(k)
        &&& forall|k: Seq<char>| post.locked_of(k) == self.locked_of(k)
        &&& forall|k: Seq<char>| post.lock_entry(k) == self.lock_entry(k)
        &&& post.free_supply() == self.free_supply()
        &&& post.locked_total() == self.locked_total()
    }

    /// The state change a successful `decrease_allowance(spender, amt)` makes:
    /// the spender's allowance shrinks by `amt` and nothing else moves.
    open spec fn decrease_applied(&self, post: Self, spender: Seq<char>, amt: u128) -> bool {
        &&& post.allowance_of(spender) == self.allowance_of(spender) - amt
        &&& post.allowance_entry(spender)
        &&& forall|k: Seq<char>|
            k != spender ==> post.allowance_of(k) == self.allowance_of(k)
        &&& forall|k: Seq<char>|
            k != spender ==> post.allowance_entry(k) == self.allowance_entry(k)
        &&& forall|k: Seq<char>| post.locked_of(k) == self.locked_of(k)
        &&& forall|k: Seq<char>| post.lock_entry(k) == self.lock_entry(k)
        &&& post.free_supply() == self.free_supply()
        &&& post.locked_total() == self.locked_total()
    }

    /// The state change a successful `lock(spender, amt)` makes: `amt` moves
    /// from the free supply into the spender's lock (an entry is created when
    /// absent) and the allowances stay as they were.
    open spec fn lock_applied(&self, post: Self, spender: Seq<char>, amt: u128) -> bool {
        &&& post.locked_of(spender) == self.locked_of(spender) + amt
        &&& post.lock_entry(spender)
        &&& forall|k: Seq<char>| k != spender ==> post.locked_of(k) == self.locked_of(k)
        &&& forall|k: Seq<char>| k != spender ==> post.lock_entry(k) == self.lock_entry(k)
        &&& forall|k: Seq<char>| post.allowance_of(k) == self.allowance_of(k)
        &&& forall|k: Seq<char>| post.allowance_entry(k) == self.allowance_entry(k)
        &&& post.free_supply() == self.free_supply() - amt
        &&& post.locked_total() == self.locked_total() + amt
    }

    /// The state change a successful `unlock(spender, amt)` makes: `amt` moves
    /// from the spender's lock back into the free supply and the allowances
    /// stay as they were.
    open spec fn unlock_applied(&self, post: Self, spender: Seq<char>, amt: u128) -> bool {
        &&& post.locked_of(spender) == self.locked_of(spender) - amt
        &&& post.lock_entry(spender)
        &&& forall|k: Seq<char>| k != spender ==> post.locked_of(k) == self.locked_of(k)
        &&& forall|k: Seq<char>| k != spender ==> post.lock_entry(k) == self.lock_entry(k)
        &&& forall|k: Seq<char>| post.allowance_of(k) == self.allowance_of(k)
        &&& forall|k: Seq<char>| post.allowance_entry(k) == self.allowance_entry(k)
        &&& post.free_supply() == self.free_supply() + amt
        &&& post.locked_total() == self.locked_total() - amt
    }

    /// A well-formed holding keeps every lock within its spender's
    /// allowance and the conserved total within the amount range.
    proof fn inv_properties(&self)
        requires
            self.inv(),
        ensures
            forall|k: Seq<char>| self.locked_of(k) <= self.allowance_of(k),
            self.locked_total() >= 0,
            forall|k: Seq<char>| self.locked_of(k) <= self.locked_total(),
            self.free_supply() + self.locked_total() <= u128::MAX,
    ;

    /// The amount of the supply the given spender may have locked.
    fn allowance(&self, spender: &str) -> (r: &u128)
        ensures
            *r == self.allowance_of(spender@),
    ;

    /// The amount currently locked for the given spender.
    fn locked(&self, spender: &str) -> (r: &u128)
        ensures
            *r == self.locked_of(spender@),
    ;

    /// Raise the spender's allowance by `amt`, creating the entry (from
    /// zero) when absent; fails only when the addition leaves the amount
    /// range.
    fn increase_allowance(&mut self, spender: &str, amt: u128) -> (r: Result<
        bool,
        HoldingError,
    >)
        requires
            old(self).inv(),
        ensures
            final(self).inv(),
            r is Ok <==> old(self).allowance_of(spender@) + amt <= u128::MAX,
            r matches Ok(b) ==> b && old(self).increase_applied(*final(self), spender@, amt),
            r matches Err(e) ==> e == HoldingError::WouldOverflow && *final(self) == *old(self),
            final(self).free_supply() + final(self).locked_total() == old(self).free_supply()
                + old(self).locked_total(),
    ;

    /// Lower the spender's allowance by `amt`; the entry must exist, hold
    /// at least `amt`, and may not fall below the spender's current lock.
    fn decrease_allowance(&mut self, spender: &str, amt: u128) -> (r: Result<
        bool,
        HoldingError,
    >)
        requires
            old(self).inv(),
        ensures
            final(self).inv(),
            r is Ok <==> (old(self).allowance_entry(spender@) && amt <= old(self).allowance_of(
                spender@,
            ) && old(self).allowance_of(spender@) - amt >= old(self).locked_of(spender@)),
            r matches Ok(b) ==> b && old(self).decrease_applied(*final(self), spender@, amt),
            r is Err ==> *final(self) == *old(self),
            !old(self).allowance_entry(spender@) ==> r == Err::<bool, HoldingError>(HoldingError::UnoccupiedEntry),
            old(self).allowance_entry(spender@) && amt > old(self).allowance_of(spender@)
                ==> r == Err::<bool, HoldingError>(HoldingError::WouldUnderflow),
            old(self).allowance_entry(spender@) && amt <= old(self).allowance_of(spender@) && old(
                self,
            ).allowance_of(spender@) - amt < old(self).locked_of(spender@) ==> r == Err::<bool, HoldingError>(HoldingError::AllowanceLessThanLock),
            final(self).free_supply() + final(self).locked_total() == old(self).free_supply()
                + old(self).locked_total(),
    ;

    /// Move `amt` from the free supply into the spender's lock. The
    /// cumulative lock `locked_of(spender) + amt` must stay within the
    /// amount range and within the spender's allowance (whose entry must
    /// exist), and `amt` must not exceed the free supply.
    fn lock(&mut self, spender: &str, amt: u128) -> (r: Result<bool, HoldingError>)
        requires
            old(self).inv(),
        ensures
            final(self).inv(),
            r is Ok <==> (old(self).locked_of(spender@) + amt <= u128::MAX && amt <= old(
                self,
            ).free_supply() && old(self).allowance_entry(spender@) && old(self).locked_of(spender@)
                + amt <= old(self).allowance_of(spender@)),
            r matches Ok(b) ==> b && old(self).lock_applied(*final(self), spender@, amt),
            r is Err ==> *final(self) == *old(self),
            old(self).locked_of(spender@) + amt > u128::MAX ==> r == Err::<bool, HoldingError>(HoldingError::WouldOverflow),
            old(self).locked_of(spender@) + amt <= u128::MAX && amt > old(self).free_supply()
                ==> r == Err::<bool, HoldingError>(HoldingError::LockGreaterThanSupply),
            old(self).locked_of(spender@) + amt <= u128::MAX && amt <= old(self).free_supply()
                && !old(self).allowance_entry(spender@) ==> r == Err::<bool, HoldingError>(HoldingError::NoAllowance),
            old(self).locked_of(spender@) + amt <= u128::MAX && amt <= old(self).free_supply()
                && old(self).allowance_entry(spender@) && old(self).locked_of(spender@) + amt > old(
                self,
            ).allowance_of(spender@) ==> r == Err::<bool, HoldingError>(HoldingError::ExceedsAllowance),
            final(self).free_supply() + final(self).locked_total() == old(self).free_supply()
                + old(self).locked_total(),
    ;

    /// Move `amt` from the spender's lock back into the free supply; the
    /// entry must exist and hold at least `amt`.
    fn unlock(&mut self, spender: &str, amt: u128) -> (r: Result<bool, HoldingError>)
        requires
            old(self).inv(),
        ensures
            final(self).inv(),
            r is Ok <==> (old(self).lock_entry(spender@) && amt <= old(self).locked_of(spender@)
                && old(self).free_supply() + amt <= u128::MAX),
            r matches Ok(b) ==> b && old(self).unlock_applied(*final(self), spender@, amt),
            r is Err ==> *final(self) == *old(self),
            !old(self).lock_entry(spender@) ==> r == Err::<bool, HoldingError>(HoldingError::UnoccupiedEntry),
            old(self).lock_entry(spender@) && amt > old(self).locked_of(spender@) ==> r == Err::<bool, HoldingError>(HoldingError::WouldUnderflow),
            old(self).lock_entry(spender@) && amt <= old(self).locked_of(spender@) && old(
                self,
            ).free_supply() + amt > u128::MAX ==> r == Err::<bool, HoldingError>(HoldingError::WouldOverflow),
            final(self).free_supply() + final(self).locked_total() == old(self).free_supply()
                + old(self).locked_total(),
    ;
}

/// The sum of the free supplies of a sequence of keyed holdings.
pub open spec fn holdings_supply(entries: Seq<(String, Holding)>) -> int
    decreases entries.len(),
{
    if entries.len() == 0 {
        0
    } else {
        entries[0].1.free_supply() + holdings_supply(entries.drop_first())
    }
}

/// Every partial sum of free supplies is non-negative.
pub proof fn lemma_holdings_supply_nonneg(entries: Seq<(String, Holding)>)
    ensures
        holdings_supply(entries) >= 0,
    decreases entries.len(),
{
    if entries.len() > 0 {
        lemma_holdings_supply_nonneg(entries.drop_first());
    }
}

/// The read-only face of a token aggregate: decimals, total supply and
/// per-owner balances and allowances.
pub trait Fungible {
    /// The number of decimal places amounts are denominated in.
    spec fn spec_decimals(&self) -> u8;

    /// The free supply held for `owner`; zero when no holding exists.
    spec fn balance_spec(&self, owner: Seq<char>) -> u128;

    /// The allowance `owner` has granted `spender`; zero when no holding
    /// or no allowance entry exists.
    spec fn allowance_spec(&self, owner: Seq<char>, spender: Seq<char>) -> u128;

    /// The sum of the free supplies of all holdings.
    spec fn supply_total(&self) -> int;

    /// Well-formedness of the aggregate.
    spec fn inv(&self) -> bool;

    fn decimals(&self) -> (r: &u8)
        ensures
            *r == self.spec_decimals(),
    ;

    fn total_supply(&self) -> (r: u128)
        requires
            self.inv(),
        ensures
            r == self.supply_total(),
    ;

    fn balance_of(&self, owner: &str) -> (r: &u128)
        ensures
            *r == self.balance_spec(owner@),
    ;

    fn allowance(&self, owner: &str, spender: &str) -> (r: &u128)
        ensures
            *r == self.allowance_spec(owner@, spender@),
    ;
}

/// A token aggregate: one holding per owning account, looked up by the
/// account identifier.
pub struct Token {
    pub decimals: u8,
    pub supply: u128,
    pub holdings: Vec<(String, Holding)>,
}

impl Token {
    /// A fresh token denominated in 24 decimal places, with its whole
    /// initial supply in one holding owned by `id`.
    pub fn new(id: &str, amt: u128) -> (t: Token)
        ensures
            t.inv(),
            t.spec_decimals() == 24,
            t.supply == amt,
            t.supply_total() == amt,
            t.balance_spec(id@) == amt,
            forall|o: Seq<char>| o != id@ ==> t.balance_spec(o) == 0,
            forall|o: Seq<char>, s: Seq<char>| t.allowance_spec(o, s) == 0,
    {
        let mut holdings: Vec<(String, Holding)> = Vec::new();
        let key: String = id.to_owned();
        let h = Holding::new(amt);
        let ghost entry = (key, h);
        holdings.push((key, h));
        proof {
            assert(holdings@ =~= Seq::<(String, Holding)>::empty().push(entry));
            assert(holdings@.drop_first() =~= Seq::<(String, Holding)>::empty());
            assert(holdings_supply(holdings@.drop_first()) == 0);
            assert(holdings_supply(holdings@) == entry.1.free_supply());
            assert forall|o: Seq<char>| o != id@ implies value_of(holdings@, o) is None by {
                assert(value_of(holdings@, o) == value_of(holdings@.drop_first(), o));
            }
        }
        Token { decimals: 24, supply: amt, holdings }
    }
}

impl Fungible for Token {
    open spec fn spec_decimals(&self) -> u8 {
        self.decimals
    }

    open spec fn balance_spec(&self, owner: Seq<char>) -> u128 {
        match value_of(self.holdings@, owner) {
            Some(h) => h.free_supply(),
            None => 0,
        }
    }

    open spec fn allowance_spec(&self, owner: Seq<char>, spender: Seq<char>) -> u128 {
        match value_of(self.holdings@, owner) {
            Some(h) => h.allowance_of(spender),
            None => 0,
        }
    }

    open spec fn supply_total(&self) -> int {
        holdings_supply(self.holdings@)
    }

    open spec fn inv(&self) -> bool {
        &&& distinct_keys(self.holdings@)
        &&& holdings_supply(self.holdings@) <= u128::MAX
    }

    fn decimals(&self) -> (r: &u8) {
        &self.decimals
    }

    fn total_supply(&self) -> (r: u128) {
        let n: usize = self.holdings.len();
        let mut acc: u128 = 0;
        let mut i: usize = 0;
        proof {
            assert(self.holdings@.skip(0) =~= self.holdings@);
        }
        while i < n
            invariant
                self.inv(),
                n == self.holdings@.len(),
                i <= n,
                acc == holdings_supply(self.holdings@) - holdings_supply(
                    self.holdings@.skip(i as int),
                ),
            decreases n - i,
        {
            proof {
                assert(self.holdings@.skip(i as int).drop_first() =~= self.holdings@.skip(
                    i as int + 1,
                ));
                assert(self.holdings@.skip(i as int)[0] == self.holdings@[i as int]);
                lemma_holdings_supply_nonneg(self.holdings@.skip(i as int + 1));
                lemma_holdings_supply_nonneg(self.holdings@.skip(i as int));
            }
            acc = acc + self.holdings[i].1.supply;
            i += 1;
        }
        proof {
            assert(self.holdings@.skip(n as int) =~= Seq::<(String, Holding)>::empty());
        }
        acc
    }

    fn balance_of(&self, owner: &str) -> (r: &u128) {
        match position_of(&self.holdings, owner) {
            Some(i) => &self.holdings[i].1.supply,
            None => &0,
        }
    }

    fn allowance(&self, owner: &str, spender: &str) -> (r: &u128) {
        match position_of(&self.holdings, owner) {
            Some(i) => self.holdings[i].1.allowance(spender),
            None => &0,
        }
    }
}

} // verus!
