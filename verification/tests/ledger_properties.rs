use token::Holdable;
use token::Holding;
use token::HoldingError;

#[test]
fn conservation_across_operations() {
    let mut h = Holding::new(1500000);
    assert_eq!(h.total_supply(), 1500000);
    assert!(h.increase_allowance("bar", 1000000).is_ok());
    assert_eq!(h.total_supply(), 1500000);
    assert!(h.lock("bar", 500000).is_ok());
    assert_eq!(h.total_supply(), 1500000);
    assert!(h.lock("bar", 1000000).is_err());
    assert_eq!(h.total_supply(), 1500000);
    assert!(h.unlock("bar", 250000).is_ok());
    assert_eq!(h.total_supply(), 1500000);
    assert!(h.unlock("bar", 9999999).is_err());
    assert_eq!(h.total_supply(), 1500000);
    assert!(h.decrease_allowance("bar", 750000).is_ok());
    assert_eq!(h.total_supply(), 1500000);
}

#[test]
fn lock_stays_within_allowance() {
    let mut h = Holding::new(1000000);
    assert!(h.increase_allowance("foo", 400000).is_ok());
    assert!(h.lock("foo", 300000).is_ok());
    assert!(h.locked("foo") <= h.allowance("foo"));
    assert!(h.decrease_allowance("foo", 100000).is_ok());
    assert!(h.locked("foo") <= h.allowance("foo"));
}

#[test]
fn lock_up_to_allowance_then_one_more_fails() {
    let a: u128 = 600000;
    let mut h = Holding::new(1000000);
    assert!(h.increase_allowance("foo", a).is_ok());
    assert_eq!(h.lock("foo", a), Ok(true));
    assert_eq!(h.locked("foo"), &a);
    assert_eq!(h.supply, 1000000 - a);
    assert_eq!(h.lock("foo", 1), Err(HoldingError::ExceedsAllowance));
    assert_eq!(h.locked("foo"), &a);
    assert_eq!(h.supply, 1000000 - a);
}

#[test]
fn lock_without_allowance_fails() {
    let mut h = Holding::new(1000000);
    assert_eq!(h.lock("foo", 1), Err(HoldingError::NoAllowance));
    assert_eq!(h.locked("foo"), &0);
    assert_eq!(h.supply, 1000000);
}

#[test]
fn unlock_more_than_locked_fails() {
    let mut h = Holding::new(1000000);
    assert!(h.increase_allowance("foo", 500000).is_ok());
    assert!(h.lock("foo", 200000).is_ok());
    assert_eq!(h.unlock("foo", 200001), Err(HoldingError::WouldUnderflow));
    assert_eq!(h.locked("foo"), &200000);
    assert_eq!(h.supply, 800000);
}

#[test]
fn lock_unlock_round_trip_restores_state() {
    let mut h = Holding::new(900000);
    assert!(h.increase_allowance("foo", 700000).is_ok());
    assert!(h.lock("foo", 100000).is_ok());
    let supply_before: u128 = h.supply;
    let locked_before: u128 = *h.locked("foo");
    assert!(h.lock("foo", 300000).is_ok());
    assert!(h.unlock("foo", 300000).is_ok());
    assert_eq!(h.supply, supply_before);
    assert_eq!(h.locked("foo"), &locked_before);
}

#[test]
fn cumulative_locks_up_to_allowance() {
    let mut h = Holding::new(1500000);
    assert!(h.increase_allowance("bar", 1000000).is_ok());
    assert_eq!(h.lock("bar", 500000), Ok(true));
    assert_eq!(h.locked("bar"), &500000);
    assert_eq!(h.supply, 1000000);
    assert_eq!(h.lock("bar", 500000), Ok(true));
    assert_eq!(h.locked("bar"), &1000000);
    assert_eq!(h.supply, 500000);
    assert_eq!(h.lock("bar", 1), Err(HoldingError::ExceedsAllowance));
    assert_eq!(h.locked("bar"), &1000000);
    assert_eq!(h.supply, 500000);
    assert_eq!(h.total_supply(), 1500000);
}

#[test]
fn increase_overflow_reports_would_overflow() {
    let mut h = Holding::new(0);
    assert!(h.increase_allowance("foo", 2).is_ok());
    assert_eq!(
        h.increase_allowance("foo", u128::MAX - 1),
        Err(HoldingError::WouldOverflow)
    );
    assert_eq!(h.allowance("foo"), &2);
}

#[test]
fn lock_overflow_reports_would_overflow() {
    let mut h = Holding::new(u128::MAX);
    assert!(h.increase_allowance("foo", u128::MAX).is_ok());
    assert!(h.lock("foo", u128::MAX).is_ok());
    assert_eq!(h.lock("foo", 1), Err(HoldingError::WouldOverflow));
    assert_eq!(h.locked("foo"), &u128::MAX);
    assert_eq!(h.supply, 0);
}

#[test]
fn lock_beyond_supply_reports_lock_greater_than_supply() {
    let mut h = Holding::new(100);
    assert!(h.increase_allowance("foo", 5000).is_ok());
    assert_eq!(h.lock("foo", 101), Err(HoldingError::LockGreaterThanSupply));
    assert_eq!(h.supply, 100);
    assert_eq!(h.locked("foo"), &0);
}

#[test]
fn decrease_below_lock_reports_allowance_less_than_lock() {
    let mut h = Holding::new(1000);
    assert!(h.increase_allowance("foo", 800).is_ok());
    assert!(h.lock("foo", 600).is_ok());
    assert_eq!(
        h.decrease_allowance("foo", 300),
        Err(HoldingError::AllowanceLessThanLock)
    );
    assert_eq!(h.allowance("foo"), &800);
    assert_eq!(h.decrease_allowance("foo", 200), Ok(true));
    assert_eq!(h.allowance("foo"), &600);
}

#[test]
fn decrease_underflow_reports_would_underflow() {
    let mut h = Holding::new(0);
    assert!(h.increase_allowance("foo", 10).is_ok());
    assert_eq!(h.decrease_allowance("foo", 11), Err(HoldingError::WouldUnderflow));
    assert_eq!(h.allowance("foo"), &10);
}

#[test]
fn unoccupied_entries_report_unoccupied_entry() {
    let mut h = Holding::new(50);
    assert_eq!(h.decrease_allowance("foo", 1), Err(HoldingError::UnoccupiedEntry));
    assert_eq!(h.unlock("foo", 1), Err(HoldingError::UnoccupiedEntry));
}

#[test]
fn operations_touch_only_their_spender() {
    let mut h = Holding::new(1000);
    assert!(h.increase_allowance("foo", 300).is_ok());
    assert!(h.increase_allowance("bar", 400).is_ok());
    assert!(h.lock("bar", 250).is_ok());
    assert_eq!(h.allowance("foo"), &300);
    assert_eq!(h.locked("foo"), &0);
    assert_eq!(h.allowance("bar"), &400);
    assert_eq!(h.locked("bar"), &250);
    assert!(h.decrease_allowance("foo", 300).is_ok());
    assert_eq!(h.allowance("bar"), &400);
    assert_eq!(h.locked("bar"), &250);
}

#[test]
fn zero_amount_operations_succeed() {
    let mut h = Holding::new(10);
    assert_eq!(h.increase_allowance("foo", 0), Ok(true));
    assert_eq!(h.allowance("foo"), &0);
    assert_eq!(h.lock("foo", 0), Ok(true));
    assert_eq!(h.locked("foo"), &0);
    assert_eq!(h.unlock("foo", 0), Ok(true));
    assert_eq!(h.supply, 10);
}
