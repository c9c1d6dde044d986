//! A constant-product market maker (CPMM) engine: per-account token balances,
//! liquidity pools keyed by a canonical token pair, swaps, pool creation and
//! liquidity provision/redemption, together with the surrounding value types
//! (amounts, token identifiers, withdrawal records) and small display helpers.
//!
//! Every state transition is atomic: it either fully applies or returns a
//! typed error with no partial mutation, and the arithmetic is exact unsigned
//! 128-bit integer math with explicit overflow handling.

pub mod amount;
pub mod bridge;
pub mod deck;
pub mod dispatcher;
pub mod error;
pub mod ledger;
pub mod math;
pub mod pool;
pub mod profile;
pub mod random;
pub mod state;
pub mod token;
