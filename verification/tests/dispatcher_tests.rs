use dex::amount::Amount;
use dex::dispatcher::{DexOperation, DexResponse};
use dex::ledger::AccountOwner;
use dex::state::DexState;
use dex::token::{ChainType, TokenId};

fn tok(chain: ChainType, address: &str, symbol: &str) -> TokenId {
    TokenId { chain, address: address.to_string(), symbol: symbol.to_string() }
}

fn eth() -> TokenId {
    tok(ChainType::Ethereum, "0x1", "ETH")
}

fn usdc() -> TokenId {
    tok(ChainType::Polygon, "0x2", "USDC")
}

#[test]
fn test_unauthenticated_caller_is_rejected() {
    let mut state = DexState::new();
    let resp = state.execute_operation(
        None,
        DexOperation::ProcessDeposit {
            token: eth(),
            amount: Amount::from_attos(10),
            tx_hash: "0xabc".to_string(),
        },
        0,
    );
    assert_eq!(resp, DexResponse::Error("No authenticated signer".to_string()));
    assert_eq!(
        state.user_balance(&AccountOwner { id: "alice".to_string() }, &eth()),
        Amount::zero()
    );
}

#[test]
fn test_dispatch_full_session() {
    let mut state = DexState::new();
    let alice = AccountOwner { id: "alice".to_string() };
    // Deposit both tokens.
    let resp = state.execute_operation(
        Some(alice.clone()),
        DexOperation::ProcessDeposit {
            token: eth(),
            amount: Amount::from_attos(10_000),
            tx_hash: "0xabc".to_string(),
        },
        0,
    );
    assert_eq!(resp, DexResponse::Done);
    let resp = state.execute_operation(
        Some(alice.clone()),
        DexOperation::ProcessDeposit {
            token: usdc(),
            amount: Amount::from_attos(10_000),
            tx_hash: "0xdef".to_string(),
        },
        0,
    );
    assert_eq!(resp, DexResponse::Done);
    // Create the pool.
    let resp = state.execute_operation(
        Some(alice.clone()),
        DexOperation::CreatePool {
            token_a: eth(),
            token_b: usdc(),
            amount_a: Amount::from_attos(1000),
            amount_b: Amount::from_attos(1000),
            fee_rate: 30,
        },
        0,
    );
    assert_eq!(resp, DexResponse::PoolCreated { success: true });
    // Swap through the dispatcher.
    let resp = state.execute_operation(
        Some(alice.clone()),
        DexOperation::SwapTokens {
            from_token: eth(),
            to_token: usdc(),
            amount: Amount::from_attos(1000),
        },
        0,
    );
    assert_eq!(resp, DexResponse::SwapResult { received: Amount::from_attos(499) });
    // Add and remove liquidity.
    let resp = state.execute_operation(
        Some(alice.clone()),
        DexOperation::AddLiquidity {
            token_a: eth(),
            token_b: usdc(),
            amount_a: Amount::from_attos(1997),
            amount_b: Amount::from_attos(501),
        },
        0,
    );
    assert_eq!(resp, DexResponse::LiquidityAdded { shares_minted: Amount::from_attos(1000) });
    let resp = state.execute_operation(
        Some(alice.clone()),
        DexOperation::RemoveLiquidity {
            token_a: eth(),
            token_b: usdc(),
            share_amount: Amount::from_attos(1000),
        },
        0,
    );
    assert_eq!(
        resp,
        DexResponse::LiquidityRemoved {
            amount_a: Amount::from_attos(1997),
            amount_b: Amount::from_attos(501),
        }
    );
    // Request a withdrawal.
    let resp = state.execute_operation(
        Some(alice.clone()),
        DexOperation::RequestWithdrawal {
            token: eth(),
            amount: Amount::from_attos(5),
            target_address: "0xdead".to_string(),
        },
        42,
    );
    assert_eq!(resp, DexResponse::Done);
    assert_eq!(state.pending_withdrawals.len(), 1);
    assert_eq!(state.pending_withdrawals[0].created_at, 42);
    // The faucet hands out small amounts.
    let resp = state.execute_operation(
        Some(alice.clone()),
        DexOperation::ClaimFaucetTokens { token: eth(), amount: Amount::from_attos(10) },
        0,
    );
    assert_eq!(resp, DexResponse::Done);
    // Deposit-address generation is a recorded no-op.
    let resp = state.execute_operation(
        Some(alice),
        DexOperation::GenerateDepositAddress { chain: ChainType::Ethereum },
        0,
    );
    assert_eq!(resp, DexResponse::Done);
}

#[test]
fn test_dispatch_maps_errors_to_messages() {
    let mut state = DexState::new();
    let alice = AccountOwner { id: "alice".to_string() };
    let resp = state.execute_operation(
        Some(alice.clone()),
        DexOperation::SwapTokens {
            from_token: eth(),
            to_token: usdc(),
            amount: Amount::from_attos(100),
        },
        0,
    );
    assert_eq!(resp, DexResponse::Error("Pool does not exist".to_string()));
    let resp = state.execute_operation(
        Some(alice.clone()),
        DexOperation::CreatePool {
            token_a: eth(),
            token_b: usdc(),
            amount_a: Amount::zero(),
            amount_b: Amount::from_attos(1),
            fee_rate: 30,
        },
        0,
    );
    assert_eq!(resp, DexResponse::Error("Amounts must be greater than zero".to_string()));
    let resp = state.execute_operation(
        Some(alice),
        DexOperation::RequestWithdrawal {
            token: eth(),
            amount: Amount::from_attos(5),
            target_address: "0xdead".to_string(),
        },
        0,
    );
    assert_eq!(resp, DexResponse::Error("Insufficient balance".to_string()));
}
