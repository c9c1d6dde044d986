//! The operation surface: one enum of requests, one enum of responses, and a
//! dispatcher that routes an authenticated caller's operation to exactly one
//! engine transition and adapts its result. The dispatcher performs no
//! business logic of its own; with no caller resolved it touches nothing.

use vstd::prelude::*;

use crate::amount::Amount;
use crate::error::DexError;
use crate::ledger::{owner_eq, AccountOwner};
use crate::state::{
    add_liquidity_spec, create_pool_spec, remove_liquidity_spec, swap_tokens_spec, DexState,
    FAUCET_CLAIM_MAX,
};
use crate::token::{token_eq, ChainType, TokenId};

verus! {

/// Marker type naming the engine's operation/response interface.
pub struct DexAbi;

/// A deposit address handed out for an external chain.
#[derive(Debug, PartialEq, Eq)]
pub struct DepositAddress {
    pub chain: ChainType,
    pub address: String,
    pub user: AccountOwner,
}

/// Every request the dispatcher accepts.
pub enum DexOperation {
    GenerateDepositAddress { chain: ChainType },
    ProcessDeposit { token: TokenId, amount: Amount, tx_hash: String },
    SwapTokens { from_token: TokenId, to_token: TokenId, amount: Amount },
    CreatePool { token_a: TokenId, token_b: TokenId, amount_a: Amount, amount_b: Amount, fee_rate: u32 },
    AddLiquidity { token_a: TokenId, token_b: TokenId, amount_a: Amount, amount_b: Amount },
    RemoveLiquidity { token_a: TokenId, token_b: TokenId, share_amount: Amount },
    RequestWithdrawal { token: TokenId, amount: Amount, target_address: String },
    ClaimFaucetTokens { token: TokenId, amount: Amount },
}

/// Every answer the dispatcher gives.
#[derive(Debug, PartialEq, Eq)]
pub enum DexResponse {
    Done,
    DepositAddress(DepositAddress),
    Balance(Amount),
    SwapResult { received: Amount },
    PoolCreated { success: bool },
    LiquidityAdded { shares_minted: Amount },
    LiquidityRemoved { amount_a: Amount, amount_b: Amount },
    Error(String),
}

impl Default for DexResponse {
    /// The default response is the bare acknowledgement.
    fn default() -> (r: DexResponse)
        ensures
            r == DexResponse::Done,
    {
        DexResponse::Done
    }
}

/// Whether a response reports exactly the given error.
pub open spec fn resp_err(e: DexError, r: DexResponse) -> bool {
    r matches DexResponse::Error(m) && m@ == e.spec_message()
}

impl DexState {
    /// Routes one operation of an authenticated caller to one engine
    /// transition and adapts the result; with no caller it reports
    /// `Unauthenticated` and touches nothing. `now` is the host-supplied
    /// creation marker for withdrawal records.
    pub fn execute_operation(
        &mut self,
        caller: Option<AccountOwner>,
        operation: DexOperation,
        now: u64,
    ) -> (r: DexResponse)
        requires
            old(self).wf(),
        ensures
            final(self).wf(),
            match caller {
                None => *final(self) == *old(self) && resp_err(DexError::Unauthenticated, r),
                Some(owner) => match operation {
                    DexOperation::GenerateDepositAddress { .. } => *final(self) == *old(self) && r
                        == DexResponse::Done,
                    DexOperation::ProcessDeposit { token, amount, .. } => {
                        if old(self).balance_of(owner, token) + amount.attos <= u128::MAX {
                            &&& r == DexResponse::Done
                            &&& final(self).balance_of(owner, token) == old(self).balance_of(
                                owner,
                                token,
                            ) + amount.attos
                            &&& (forall|o2: AccountOwner, t2: TokenId|
                                !(owner_eq(o2, owner) && token_eq(t2, token))
                                    ==> #[trigger] final(self).balance_of(o2, t2) == old(
                                    self,
                                ).balance_of(o2, t2))
                            &&& final(self).pools == old(self).pools
                            &&& final(self).pending_withdrawals == old(self).pending_withdrawals
                        } else {
                            resp_err(DexError::ArithmeticOverflow, r) && *final(self) == *old(self)
                        }
                    },
                    DexOperation::SwapTokens { from_token, to_token, amount } => exists|
                        res: Result<Amount, DexError>,
                    |
                        {
                            &&& #[trigger] swap_tokens_spec(
                                *old(self),
                                *final(self),
                                owner,
                                from_token,
                                to_token,
                                amount,
                                res,
                            )
                            &&& match res {
                                Ok(received) => r == DexResponse::SwapResult { received },
                                Err(e) => resp_err(e, r),
                            }
                        },
                    DexOperation::CreatePool { token_a, token_b, amount_a, amount_b, fee_rate } => exists|
                        res: Result<(), DexError>,
                    |
                        {
                            &&& #[trigger] create_pool_spec(
                                *old(self),
                                *final(self),
                                owner,
                                token_a,
                                token_b,
                                amount_a,
                                amount_b,
                                fee_rate,
                                res,
                            )
                            &&& match res {
                                Ok(()) => r == DexResponse::PoolCreated { success: true },
                                Err(e) => resp_err(e, r),
                            }
                        },
                    DexOperation::AddLiquidity { token_a, token_b, amount_a, amount_b } => exists|
                        res: Result<Amount, DexError>,
                    |
                        {
                            &&& #[trigger] add_liquidity_spec(
                                *old(self),
                                *final(self),
                                owner,
                                token_a,
                                token_b,
                                amount_a,
                                amount_b,
                                res,
                            )
                            &&& match res {
                                Ok(shares) => r == DexResponse::LiquidityAdded {
                                    shares_minted: shares,
                                },
                                Err(e) => resp_err(e, r),
                            }
                        },
                    DexOperation::RemoveLiquidity { token_a, token_b, share_amount } => exists|
                        res: Result<(Amount, Amount), DexError>,
                    |
                        {
                            &&& #[trigger] remove_liquidity_spec(
                                *old(self),
                                *final(self),
                                owner,
                                token_a,
                                token_b,
                                share_amount,
                                res,
                            )
                            &&& match res {
                                Ok((amount_a, amount_b)) => r == DexResponse::LiquidityRemoved {
                                    amount_a,
                                    amount_b,
                                },
                                Err(e) => resp_err(e, r),
                            }
                        },
                    DexOperation::RequestWithdrawal { token, amount, .. } => {
                        if old(self).next_withdrawal_id == u64::MAX {
                            resp_err(DexError::ArithmeticOverflow, r) && *final(self) == *old(self)
                        } else if old(self).balance_of(owner, token) < amount.attos {
                            resp_err(DexError::InsufficientBalance, r) && *final(self) == *old(
                                self,
                            )
                        } else {
                            &&& r == DexResponse::Done
                            &&& final(self).balance_of(owner, token) == old(self).balance_of(
                                owner,
                                token,
                            ) - amount.attos
                            &&& (forall|o2: AccountOwner, t2: TokenId|
                                !(owner_eq(o2, owner) && token_eq(t2, token))
                                    ==> #[trigger] final(self).balance_of(o2, t2) == old(
                                    self,
                                ).balance_of(o2, t2))
                            &&& final(self).pools == old(self).pools
                            &&& final(self).pending_withdrawals@.len() == old(
                                self,
                            ).pending_withdrawals@.len() + 1
                            &&& final(self).next_withdrawal_id == old(self).next_withdrawal_id + 1
                        }
                    },
                    DexOperation::ClaimFaucetTokens { token, amount } => {
                        if amount.attos > FAUCET_CLAIM_MAX {
                            resp_err(DexError::InvalidAmount, r) && *final(self) == *old(self)
                        } else if old(self).balance_of(owner, token) + amount.attos > u128::MAX {
                            resp_err(DexError::ArithmeticOverflow, r) && *final(self) == *old(self)
                        } else {
                            &&& r == DexResponse::Done
                            &&& final(self).balance_of(owner, token) == old(self).balance_of(
                                owner,
                                token,
                            ) + amount.attos
                            &&& final(self).pools == old(self).pools
                        }
                    },
                },
            },
    {
        let owner = match caller {
            Some(owner) => owner,
            None => {
                return DexResponse::Error(DexError::Unauthenticated.message());
            },
        };
        match operation {
            DexOperation::GenerateDepositAddress { chain: _ } => DexResponse::Done,
            DexOperation::ProcessDeposit { token, amount, tx_hash: _ } => {
                match self.process_deposit(&owner, &token, amount) {
                    Ok(()) => DexResponse::Done,
                    Err(e) => DexResponse::Error(e.message()),
                }
            },
            DexOperation::SwapTokens { from_token, to_token, amount } => {
                let res = self.swap_tokens(&owner, from_token, to_token, amount);
                proof {
                    assert(swap_tokens_spec(
                        *old(self),
                        *self,
                        owner,
                        from_token,
                        to_token,
                        amount,
                        res,
                    ));
                }
                match res {
                    Ok(received) => DexResponse::SwapResult { received },
                    Err(e) => DexResponse::Error(e.message()),
                }
            },
            DexOperation::CreatePool { token_a, token_b, amount_a, amount_b, fee_rate } => {
                let res = self.create_pool(&owner, token_a, token_b, amount_a, amount_b, fee_rate);
                proof {
                    assert(create_pool_spec(
                        *old(self),
                        *self,
                        owner,
                        token_a,
                        token_b,
                        amount_a,
                        amount_b,
                        fee_rate,
                        res,
                    ));
                }
                match res {
                    Ok(()) => DexResponse::PoolCreated { success: true },
                    Err(e) => DexResponse::Error(e.message()),
                }
            },
            DexOperation::AddLiquidity { token_a, token_b, amount_a, amount_b } => {
                let res = self.add_liquidity(&owner, token_a, token_b, amount_a, amount_b);
                proof {
                    assert(add_liquidity_spec(
                        *old(self),
                        *self,
                        owner,
                        token_a,
                        token_b,
                        amount_a,
                        amount_b,
                        res,
                    ));
                }
                match res {
                    Ok(shares) => DexResponse::LiquidityAdded { shares_minted: shares },
                    Err(e) => DexResponse::Error(e.message()),
                }
            },
            DexOperation::RemoveLiquidity { token_a, token_b, share_amount } => {
                let res = self.remove_liquidity(&owner, token_a, token_b, share_amount);
                proof {
                    assert(remove_liquidity_spec(
                        *old(self),
                        *self,
                        owner,
                        token_a,
                        token_b,
                        share_amount,
                        res,
                    ));
                }
                match res {
                    Ok((amount_a, amount_b)) => DexResponse::LiquidityRemoved {
                        amount_a,
                        amount_b,
                    },
                    Err(e) => DexResponse::Error(e.message()),
                }
            },
            DexOperation::RequestWithdrawal { token, amount, target_address } => {
                match self.request_withdrawal(&owner, &token, amount, target_address, now) {
                    Ok(_) => DexResponse::Done,
                    Err(e) => DexResponse::Error(e.message()),
                }
            },
            DexOperation::ClaimFaucetTokens { token, amount } => {
                match self.claim_faucet_tokens(&owner, &token, amount) {
                    Ok(()) => DexResponse::Done,
                    Err(e) => DexResponse::Error(e.message()),
                }
            },
        }
    }
}

} // verus!
