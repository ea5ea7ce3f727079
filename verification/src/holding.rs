use vstd::prelude::*;

use crate::entries::amount_of;
use crate::entries::amount_ref;
use crate::entries::distinct_keys;
use crate::entries::has_key;
use crate::entries::lemma_amount_le_sum;
use crate::entries::lemma_push_entry;
use crate::entries::lemma_sum_nonneg;
use crate::entries::lemma_sum_push;
use crate::entries::lemma_sum_update;
use crate::entries::lemma_update_entry;
use crate::entries::position_of;
use crate::entries::sum_of;
use crate::errors::HoldingError;
use crate::Holdable;

verus! {

/// One account's ledger state: the free part of its supply, a per-spender
/// allowance column and a per-spender lock column. An absent column entry
/// stands for the amount zero.
pub struct Holding {
    pub allowances: Vec<(String, u128)>,
    pub locks: Vec<(String, u128)>,
    pub supply: u128,
}

impl Holding {
    /// A fresh holding: `amt` of free supply, no allowances, no locks.
    pub fn new(amt: u128) -> (h: Holding)
        ensures
            h.inv(),
            h.free_supply() == amt,
            h.locked_total() == 0,
            forall|k: Seq<char>| !h.allowance_entry(k) && !h.lock_entry(k),
            forall|k: Seq<char>| h.allowance_of(k) == 0 && h.locked_of(k) == 0,
    {
        Holding { allowances: Vec::new(), locks: Vec::new(), supply: amt }
    }

    /// A holding's total supply is its free supply plus the sum of its
    /// locks; it equals the amount the holding was created with, whatever
    /// operations have run since.
    pub fn total_supply(&self) -> (r: u128)
        requires
            self.inv(),
        ensures
            r == self.free_supply() + self.locked_total(),
    {
        let n: usize = self.locks.len();
        let mut acc: u128 = self.supply;
        let mut i: usize = 0;
        proof {
            assert(self.locks@.skip(0) =~= self.locks@);
        }
        while i < n
            invariant
                self.inv(),
                n == self.locks@.len(),
                i <= n,
                acc == self.supply + sum_of(self.locks@) - sum_of(self.locks@.skip(i as int)),
            decreases n - i,
        {
            proof {
                assert(self.locks@.skip(i as int).drop_first() =~= self.locks@.skip(i as int + 1));
                assert(self.locks@.skip(i as int)[0] == self.locks@[i as int]);
                lemma_sum_nonneg(self.locks@.skip(i as int + 1));
                lemma_sum_nonneg(self.locks@.skip(i as int));
            }
            acc = acc + self.locks[i].1;
            i += 1;
        }
        proof {
            assert(self.locks@.skip(n as int) =~= Seq::<(String, u128)>::empty());
        }
        acc
    }
}

impl Holdable for Holding {
    open spec fn allowance_of(&self, spender: Seq<char>) -> u128 {
        amount_of(self.allowances@, spender)
    }

    open spec fn allowance_entry(&self, spender: Seq<char>) -> bool {
        has_key(self.allowances@, spender)
    }

    open spec fn locked_of(&self, spender: Seq<char>) -> u128 {
        amount_of(self.locks@, spender)
    }

    open spec fn lock_entry(&self, spender: Seq<char>) -> bool {
        has_key(self.locks@, spender)
    }

    open spec fn free_supply(&self) -> u128 {
        self.supply
    }

    open spec fn locked_total(&self) -> int {
        sum_of(self.locks@)
    }

    open spec fn inv(&self) -> bool {
        &&& distinct_keys(self.allowances@)
        &&& distinct_keys(self.locks@)
        &&& forall|k: Seq<char>|
            #[trigger] amount_of(self.locks@, k) <= amount_of(self.allowances@, k)
        &&& self.supply + sum_of(self.locks@) <= u128::MAX
    }

    proof fn inv_properties(&self) {
        lemma_sum_nonneg(self.locks@);
        assert forall|k: Seq<char>| self.locked_of(k) <= self.locked_total() by {
            lemma_amount_le_sum(self.locks@, k);
        }
    }

    fn allowance(&self, spender: &str) -> (r: &u128) {
        amount_ref(&self.allowances, spender)
    }

    fn locked(&self, spender: &str) -> (r: &u128) {
        amount_ref(&self.locks, spender)
    }

    fn increase_allowance(&mut self, spender: &str, amt: u128) -> (r: Result<
        bool,
        HoldingError,
    >) {
        match position_of(&self.allowances, spender) {
            Some(i) => {
                let cur: u128 = self.allowances[i].1;
                if cur <= u128::MAX - amt {
                    self.allowances[i].1 = cur + amt;
                    proof {
                        lemma_update_entry(old(self).allowances@, i as int, (cur + amt) as u128);
                    }
                    Ok(true)
                } else {
                    Err(HoldingError::WouldOverflow)
                }
            },
            None => {
                let key: String = spender.to_owned();
                let ghost entry = (key, amt);
                self.allowances.push((key, amt));
                proof {
                    lemma_push_entry(old(self).allowances@, entry);
                }
                Ok(true)
            },
        }
    }

    fn decrease_allowance(&mut self, spender: &str, amt: u128) -> (r: Result<
        bool,
        HoldingError,
    >) {
        match position_of(&self.allowances, spender) {
            None => Err(HoldingError::UnoccupiedEntry),
            Some(i) => {
                let cur: u128 = self.allowances[i].1;
                if amt > cur {
                    Err(HoldingError::WouldUnderflow)
                } else {
                    let next: u128 = cur - amt;
                    let lk: u128 = *amount_ref(&self.locks, spender);
                    if lk > next {
                        Err(HoldingError::AllowanceLessThanLock)
                    } else {
                        self.allowances[i].1 = next;
                        proof {
                            lemma_update_entry(old(self).allowances@, i as int, next);
                        }
                        Ok(true)
                    }
                }
            },
        }
    }

    fn lock(&mut self, spender: &str, amt: u128) -> (r: Result<bool, HoldingError>) {
        let pos = position_of(&self.locks, spender);
        let cur: u128 = match pos {
            Some(i) => self.locks[i].1,
            None => 0,
        };
        if cur > u128::MAX - amt {
            return Err(HoldingError::WouldOverflow);
        }
        let next: u128 = cur + amt;
        if amt > self.supply {
            return Err(HoldingError::LockGreaterThanSupply);
        }
        match position_of(&self.allowances, spender) {
            None => Err(HoldingError::NoAllowance),
            Some(j) => {
                if self.allowances[j].1 < next {
                    Err(HoldingError::ExceedsAllowance)
                } else {
                    self.supply = self.supply - amt;
                    match pos {
                        Some(i) => {
                            self.locks[i].1 = next;
                            proof {
                                lemma_update_entry(old(self).locks@, i as int, next);
                                lemma_sum_update(old(self).locks@, i as int, next);
                            }
                        },
                        None => {
                            let key: String = spender.to_owned();
                            let ghost entry = (key, next);
                            self.locks.push((key, next));
                            proof {
                                lemma_push_entry(old(self).locks@, entry);
                                lemma_sum_push(old(self).locks@, entry);
                            }
                        },
                    }
                    proof {
                        assert forall|k: Seq<char>|
                            #[trigger] amount_of(self.locks@, k) <= amount_of(
                                self.allowances@,
                                k,
                            ) by {
                            if k != spender@ {
                                assert(amount_of(self.locks@, k) == amount_of(
                                    old(self).locks@,
                                    k,
                                ));
                                assert(amount_of(old(self).locks@, k) <= amount_of(
                                    old(self).allowances@,
                                    k,
                                ));
                            }
                        }
                    }
                    Ok(true)
                }
            },
        }
    }

    fn unlock(&mut self, spender: &str, amt: u128) -> (r: Result<bool, HoldingError>) {
        match position_of(&self.locks, spender) {
            None => Err(HoldingError::UnoccupiedEntry),
            Some(i) => {
                let cur: u128 = self.locks[i].1;
                if amt > cur {
                    Err(HoldingError::WouldUnderflow)
                } else if self.supply > u128::MAX - amt {
                    Err(HoldingError::WouldOverflow)
                } else {
                    self.supply = self.supply + amt;
                    self.locks[i].1 = cur - amt;
                    proof {
                        lemma_update_entry(old(self).locks@, i as int, (cur - amt) as u128);
                        lemma_sum_update(old(self).locks@, i as int, (cur - amt) as u128);
                        assert forall|k: Seq<char>|
                            #[trigger] amount_of(self.locks@, k) <= amount_of(
                                self.allowances@,
                                k,
                            ) by {
                            if k != spender@ {
                                assert(amount_of(self.locks@, k) == amount_of(
                                    old(self).locks@,
                                    k,
                                ));
                            }
                            assert(amount_of(old(self).locks@, k) <= amount_of(
                                old(self).allowances@,
                                k,
                            ));
                        }
                    }
                    Ok(true)
                }
            },
        }
    }
}

} // verus!
