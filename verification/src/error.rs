//! The error taxonomy of the engine: local, synchronous validation failures
//! surfaced verbatim to the caller. No error leaves reserves or balances
//! mutated.

use vstd::prelude::*;

verus! {

/// Every way an engine operation can fail.
#[derive(Clone, Copy, Debug, PartialEq, Eq, Structural)]
pub enum DexError {
    /// A zero amount, or a pool requested over a single token.
    InvalidAmount,
    /// A pool fee rate above the 10% cap.
    FeeRateTooHigh,
    /// No pool exists for the canonical token pair.
    PoolNotFound,
    /// A pool already exists for the canonical token pair.
    PoolAlreadyExists,
    /// The caller's ledger balance cannot cover the requested debit.
    InsufficientBalance,
    /// A liquidity payout would exceed the pool's reserves.
    InsufficientPoolReserves,
    /// A share amount of zero, or above the outstanding total.
    InvalidShareAmount,
    /// A swap against a pool whose input-side reserve is zero.
    ZeroReserve,
    /// A swap whose output would round down to nothing.
    SwapTooSmall,
    /// A swap whose output would drain the opposite reserve.
    InsufficientOutputReserve,
    /// An intermediate value left the 128-bit unsigned domain.
    ArithmeticOverflow,
    /// No authenticated caller identity was supplied.
    Unauthenticated,
}

impl DexError {
    /// The fixed description of each error.
    pub open spec fn spec_message(self) -> Seq<char> {
        match self {
            DexError::InvalidAmount => "Amounts must be greater than zero"@,
            DexError::FeeRateTooHigh => "Fee rate cannot exceed 10%"@,
            DexError::PoolNotFound => "Pool does not exist"@,
            DexError::PoolAlreadyExists => "Pool already exists"@,
            DexError::InsufficientBalance => "Insufficient balance"@,
            DexError::InsufficientPoolReserves => "Insufficient pool reserves"@,
            DexError::InvalidShareAmount => "Invalid share amount"@,
            DexError::ZeroReserve => "Invalid pool state - input reserve is zero"@,
            DexError::SwapTooSmall => "Swap would result in zero output"@,
            DexError::InsufficientOutputReserve => "Insufficient output reserve"@,
            DexError::ArithmeticOverflow => "Arithmetic overflow"@,
            DexError::Unauthenticated => "No authenticated signer"@,
        }
    }

    /// A human-readable description of the error.
    pub fn message(&self) -> (r: String)
        ensures
            r@ == self.spec_message(),
    {
        match self {
            DexError::InvalidAmount => String::from_str("Amounts must be greater than zero"),
            DexError::FeeRateTooHigh => String::from_str("Fee rate cannot exceed 10%"),
            DexError::PoolNotFound => String::from_str("Pool does not exist"),
            DexError::PoolAlreadyExists => String::from_str("Pool already exists"),
            DexError::InsufficientBalance => String::from_str("Insufficient balance"),
            DexError::InsufficientPoolReserves => String::from_str("Insufficient pool reserves"),
            DexError::InvalidShareAmount => String::from_str("Invalid share amount"),
            DexError::ZeroReserve => String::from_str("Invalid pool state - input reserve is zero"),
            DexError::SwapTooSmall => String::from_str("Swap would result in zero output"),
            DexError::InsufficientOutputReserve => String::from_str("Insufficient output reserve"),
            DexError::ArithmeticOverflow => String::from_str("Arithmetic overflow"),
            DexError::Unauthenticated => String::from_str("No authenticated signer"),
        }
    }
}

} // verus!
