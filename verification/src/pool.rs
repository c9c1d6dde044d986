//! A constant-product liquidity pool for one trading pair, stored against the
//! canonical (sorted) token order, and the one swap-quote routine every code
//! path prices through.

use vstd::prelude::*;

use crate::amount::Amount;
use crate::error::DexError;
use crate::math::{checked_add_u128, lemma_mul_div_le, mul_div};
use crate::token::{token_eq, token_lt, TokenId};

verus! {

/// Fee rates are expressed in basis points; this many make 100%.
pub const BPS_DENOMINATOR: u32 = 10_000;

/// The cap a pool's fee rate must stay under: 10%.
pub const MAX_FEE_RATE_BPS: u32 = 1_000;

/// One trading pair: its canonical token pair, its holdings of each side,
/// the outstanding liquidity-provider shares, and the input-side fee rate in
/// basis points.
pub struct Pool {
    pub token_a: TokenId,
    pub token_b: TokenId,
    pub reserve_a: Amount,
    pub reserve_b: Amount,
    pub total_shares: Amount,
    pub fee_rate: u32,
}

impl Clone for Pool {
    /// Cloning preserves the pool state exactly.
    fn clone(&self) -> (r: Pool)
        ensures
            r == *self,
    {
        Pool {
            token_a: self.token_a.clone(),
            token_b: self.token_b.clone(),
            reserve_a: self.reserve_a,
            reserve_b: self.reserve_b,
            total_shares: self.total_shares,
            fee_rate: self.fee_rate,
        }
    }
}

/// The invariant every pool in the registry maintains: the token pair is in
/// canonical order, the fee rate respects the creation-time cap, and the
/// share supply is zero exactly when the pool is fully drained.
pub open spec fn wf_pool(p: Pool) -> bool {
    &&& token_lt(p.token_a, p.token_b)
    &&& p.fee_rate <= MAX_FEE_RATE_BPS
    &&& (p.total_shares.attos == 0 ==> p.reserve_a.attos == 0 && p.reserve_b.attos == 0)
    &&& (p.total_shares.attos > 0 ==> p.reserve_a.attos > 0 && p.reserve_b.attos > 0)
}

/// Whether a pool trades the unordered pair `{x, y}` — deliberately symmetric
/// in `x` and `y`, so a lookup resolves the same pool in either order.
pub open spec fn pool_has_pair(p: Pool, x: TokenId, y: TokenId) -> bool {
    ||| (token_eq(p.token_a, x) && token_eq(p.token_b, y))
    ||| (token_eq(p.token_a, y) && token_eq(p.token_b, x))
}

/// The input-side fee a swap of `amount` pays at `fee_rate` basis points.
pub open spec fn spec_fee(amount: nat, fee_rate: nat) -> nat {
    amount * fee_rate / (BPS_DENOMINATOR as nat)
}

/// What remains of a swap input once the fee is retained.
pub open spec fn spec_after_fee(amount: nat, fee_rate: nat) -> nat {
    (amount - spec_fee(amount, fee_rate)) as nat
}

/// The constant-product quote: the output owed for an effective input of `x`
/// against reserves `(input_reserve, output_reserve)`.
pub open spec fn spec_quote(input_reserve: nat, output_reserve: nat, x: nat) -> nat {
    output_reserve * x / (input_reserve + x)
}

/// Prices a swap: applies the input-side fee, then the constant-product
/// formula, multiply before divide, in unsigned 128-bit arithmetic. Returns
/// the effective input and the quoted output, or reports that an intermediate
/// product left the domain.
pub fn swap_quote(input_reserve: u128, output_reserve: u128, amount_in: u128, fee_rate: u32) -> (r:
    Result<(u128, u128), DexError>)
    requires
        input_reserve > 0,
        fee_rate <= BPS_DENOMINATOR,
    ensures
        match r {
            Ok((x, q)) => {
                &&& x == spec_after_fee(amount_in as nat, fee_rate as nat)
                &&& q == spec_quote(input_reserve as nat, output_reserve as nat, x as nat)
                &&& amount_in * fee_rate <= u128::MAX
                &&& input_reserve + x <= u128::MAX
                &&& output_reserve * x <= u128::MAX
                &&& q <= output_reserve
            },
            Err(e) => {
                &&& e == DexError::ArithmeticOverflow
                &&& {
                    let x = spec_after_fee(amount_in as nat, fee_rate as nat);
                    amount_in * fee_rate > u128::MAX || input_reserve + x > u128::MAX
                        || output_reserve * x > u128::MAX
                }
            },
        },
{
    let fee = match mul_div(amount_in, fee_rate as u128, BPS_DENOMINATOR as u128) {
        Ok(f) => f,
        Err(e) => {
            return Err(e);
        },
    };
    proof {
        lemma_mul_div_le(amount_in as int, fee_rate as int, BPS_DENOMINATOR as int);
    }
    let x = amount_in - fee;
    let denominator = match checked_add_u128(input_reserve, x) {
        Some(d) => d,
        None => {
            return Err(DexError::ArithmeticOverflow);
        },
    };
    let q = match mul_div(output_reserve, x, denominator) {
        Ok(v) => v,
        Err(e) => {
            return Err(e);
        },
    };
    proof {
        lemma_mul_div_le(output_reserve as int, x as int, denominator as int);
    }
    Ok((x, q))
}

} // verus!
