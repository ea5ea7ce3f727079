use vstd::prelude::*;

verus! {

/// The closed set of failures a ledger operation can report.
///
/// Every mutation on a holding either fully succeeds or returns one of
/// these values with the holding left exactly as it was before the call.
#[derive(Clone, Copy, Debug, PartialEq, Eq, Structural)]
pub enum HoldingError {
    /// An addition would exceed the range of the amount type.
    WouldOverflow,
    /// A subtraction would go below zero.
    WouldUnderflow,
    /// The referenced entry does not exist for a decrease or unlock call.
    UnoccupiedEntry,
    /// A lock was attempted for a spender with no allowance entry.
    NoAllowance,
    /// The cumulative lock would exceed the spender's allowance.
    ExceedsAllowance,
    /// A decrease would push an allowance below the spender's existing lock.
    AllowanceLessThanLock,
    /// A lock requests more than the currently free supply.
    LockGreaterThanSupply,
}

} // verus!
