use vstd::prelude::*;

verus! {

/// Every way an operation of the pool engine can fail.
///
/// `SlippageTooHigh` and `MathOverflow` come from the swap pricing path;
/// `InvalidAssetPair` and `DuplicatePool` from pool creation; the remaining
/// variants surface a failed custody transfer (the engine does not retry,
/// and a failed operation leaves all state unchanged).
#[derive(Clone, Copy, Debug, PartialEq, Eq, Structural)]
pub enum ErrorCode {
    /// The computed output amount is below the caller's minimum.
    SlippageTooHigh,
    /// An arithmetic step of the pricing formula cannot be carried out
    /// (the denominator `reserve_in + amount_in` is zero).
    MathOverflow,
    /// A pool was requested for two equal asset identities.
    InvalidAssetPair,
    /// A pool for the ordered asset pair already exists.
    DuplicatePool,
    /// A custody transfer failed: the paying account holds too little.
    InsufficientFunds,
    /// A custody transfer failed: the receiving balance would exceed `u64::MAX`.
    BalanceOverflow,
}

} // verus!
