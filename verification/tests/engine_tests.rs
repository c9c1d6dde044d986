use dex::amount::Amount;
use dex::error::DexError;
use dex::ledger::AccountOwner;
use dex::state::DexState;
use dex::token::{ChainType, TokenId};

fn create_test_token(chain: ChainType, address: &str, symbol: &str) -> TokenId {
    TokenId { chain, address: address.to_string(), symbol: symbol.to_string() }
}

fn owner(name: &str) -> AccountOwner {
    AccountOwner { id: name.to_string() }
}

fn token_a() -> TokenId {
    create_test_token(ChainType::Ethereum, "0x1", "ETH")
}

fn token_b() -> TokenId {
    create_test_token(ChainType::Polygon, "0x2", "USDC")
}

/// A state where `alice` holds plenty of both tokens.
fn funded_state() -> (DexState, AccountOwner) {
    let mut state = DexState::new();
    let alice = owner("alice");
    state.process_deposit(&alice, &token_a(), Amount::from_attos(1_000_000)).unwrap();
    state.process_deposit(&alice, &token_b(), Amount::from_attos(1_000_000)).unwrap();
    (state, alice)
}

#[test]
fn test_token_id_comparison() {
    let token_a = create_test_token(ChainType::Ethereum, "0x1", "ETH");
    let token_b = create_test_token(ChainType::Polygon, "0x2", "USDC");

    // Verify ordering logic for pool keys
    assert_ne!(token_a, token_b);
    // Since the ordering depends on the enum and field values, we just verify they can be compared
}

#[test]
fn test_cpmm_formula() {
    // Test the basic CPMM formula: x * y = k
    // Before swap: reserve_a * reserve_b = k
    // After swap: (reserve_a + input) * (reserve_b - output) = k (approximately, accounting for fees)

    let reserve_a = 1000u128;
    let reserve_b = 1000u128;
    let input_amount = 100u128;
    let fee_rate = 30u128; // 0.3% = 30 basis points

    // Apply fee to input
    let fee_amount = input_amount.saturating_mul(fee_rate).saturating_div(10_000);
    let input_after_fee = input_amount.saturating_sub(fee_amount);

    // Calculate output using CPMM: output = (reserve_b * input) / (reserve_a + input)
    let numerator = reserve_b.saturating_mul(input_after_fee);
    let denominator = reserve_a.saturating_add(input_after_fee);
    let output = numerator.saturating_div(denominator);

    let new_reserve_a = reserve_a.saturating_add(input_after_fee);
    let new_reserve_b = reserve_b.saturating_sub(output);

    // Verify the invariant: new_reserve_a * new_reserve_b should be close to original k
    let original_k = reserve_a.saturating_mul(reserve_b);
    let new_k = new_reserve_a.saturating_mul(new_reserve_b);

    // The new k should be slightly higher due to fees
    assert!(new_k >= original_k);
}

#[test]
fn test_zero_amount_validation() {
    // Test that zero amounts are rejected appropriately
    let zero_amount = Amount::zero();
    let positive_amount = Amount::from_attos(100);

    assert_eq!(zero_amount, Amount::zero());
    assert!(positive_amount > zero_amount);
}

#[test]
fn test_amount_arithmetic() {
    let a = Amount::from_attos(1000);
    let b = Amount::from_attos(300);
    let sum = a.saturating_add(b);
    let diff = a.saturating_sub(b);

    assert_eq!(sum, Amount::from_attos(1300));
    assert_eq!(diff, Amount::from_attos(700));

    // Test saturation
    let underflow = b.saturating_sub(a);
    assert_eq!(underflow, Amount::zero());
}

#[test]
fn test_amount_validations_in_swaps() {
    // This is a unit test to validate the logic in the contract
    // Since we can't easily test the entire contract in unit tests,
    // we can test the core calculation logic

    let amount = Amount::zero();
    assert_eq!(amount, Amount::zero());

    let positive_amount = Amount::from_attos(100);
    assert!(positive_amount > Amount::zero());
}

#[test]
fn test_create_pool_and_swap_quote() {
    // Pool 1000/1000 at 30 bps; a swap of 1000 pays fee 3, trades 997, and
    // receives floor(1000 * 997 / 1997) = 499.
    let (mut state, alice) = funded_state();
    state
        .create_pool(
            &alice,
            token_a(),
            token_b(),
            Amount::from_attos(1000),
            Amount::from_attos(1000),
            30,
        )
        .unwrap();
    let received = state.swap_tokens(&alice, token_a(), token_b(), Amount::from_attos(1000))
        .unwrap();
    assert_eq!(received, Amount::from_attos(499));
    let pool = state.pool_by_tokens(&token_a(), &token_b()).unwrap();
    assert_eq!(pool.reserve_a, Amount::from_attos(1997));
    assert_eq!(pool.reserve_b, Amount::from_attos(501));
    // The reserve product never decreases.
    assert!(1997u128 * 501 >= 1000u128 * 1000);
    // The caller paid the full input and got the quote.
    assert_eq!(state.user_balance(&alice, &token_a()), Amount::from_attos(1_000_000 - 1000 - 1000));
    assert_eq!(state.user_balance(&alice, &token_b()), Amount::from_attos(1_000_000 - 1000 + 499));
}

#[test]
fn test_zero_fee_swap_preserves_product_within_rounding() {
    let (mut state, alice) = funded_state();
    state
        .create_pool(
            &alice,
            token_a(),
            token_b(),
            Amount::from_attos(1000),
            Amount::from_attos(1000),
            0,
        )
        .unwrap();
    let received = state.swap_tokens(&alice, token_a(), token_b(), Amount::from_attos(100))
        .unwrap();
    // floor(1000 * 100 / 1100) = 90
    assert_eq!(received, Amount::from_attos(90));
    let pool = state.pool_by_tokens(&token_a(), &token_b()).unwrap();
    let new_product = pool.reserve_a.to_attos() * pool.reserve_b.to_attos();
    let old_product = 1000u128 * 1000;
    // Preserved up to less than one unit of the new input reserve.
    assert!(new_product >= old_product);
    assert!(new_product < old_product + pool.reserve_a.to_attos());
}

#[test]
fn test_create_pool_validations() {
    let (mut state, alice) = funded_state();
    // Zero amount
    assert_eq!(
        state.create_pool(
            &alice,
            token_a(),
            token_b(),
            Amount::zero(),
            Amount::from_attos(1000),
            30,
        ),
        Err(DexError::InvalidAmount)
    );
    // Identical tokens
    assert_eq!(
        state.create_pool(
            &alice,
            token_a(),
            token_a(),
            Amount::from_attos(1000),
            Amount::from_attos(1000),
            30,
        ),
        Err(DexError::InvalidAmount)
    );
    // Fee above the 10% cap
    assert_eq!(
        state.create_pool(
            &alice,
            token_a(),
            token_b(),
            Amount::from_attos(1000),
            Amount::from_attos(1000),
            1500,
        ),
        Err(DexError::FeeRateTooHigh)
    );
    // Nothing was created by the failed attempts.
    assert!(state.pool_by_tokens(&token_a(), &token_b()).is_none());
}

#[test]
fn test_create_pool_already_exists() {
    let (mut state, alice) = funded_state();
    state
        .create_pool(
            &alice,
            token_a(),
            token_b(),
            Amount::from_attos(1000),
            Amount::from_attos(1000),
            30,
        )
        .unwrap();
    // The reversed order resolves to the same pool.
    assert_eq!(
        state.create_pool(
            &alice,
            token_b(),
            token_a(),
            Amount::from_attos(5),
            Amount::from_attos(5),
            30,
        ),
        Err(DexError::PoolAlreadyExists)
    );
}

#[test]
fn test_swap_nonexistent_pool_leaves_balances_untouched() {
    let (mut state, alice) = funded_state();
    let before_a = state.user_balance(&alice, &token_a());
    let before_b = state.user_balance(&alice, &token_b());
    assert_eq!(
        state.swap_tokens(&alice, token_a(), token_b(), Amount::from_attos(100)),
        Err(DexError::PoolNotFound)
    );
    assert_eq!(state.user_balance(&alice, &token_a()), before_a);
    assert_eq!(state.user_balance(&alice, &token_b()), before_b);
}

#[test]
fn test_swap_insufficient_balance() {
    let (mut state, alice) = funded_state();
    state
        .create_pool(
            &alice,
            token_a(),
            token_b(),
            Amount::from_attos(1000),
            Amount::from_attos(1000),
            30,
        )
        .unwrap();
    let bob = owner("bob");
    assert_eq!(
        state.swap_tokens(&bob, token_a(), token_b(), Amount::from_attos(100)),
        Err(DexError::InsufficientBalance)
    );
}

#[test]
fn test_swap_too_small() {
    let (mut state, alice) = funded_state();
    // A tiny trade against a lopsided pool rounds to zero output.
    state
        .create_pool(
            &alice,
            token_a(),
            token_b(),
            Amount::from_attos(1_000_00),
            Amount::from_attos(1),
            0,
        )
        .unwrap();
    assert_eq!(
        state.swap_tokens(&alice, token_a(), token_b(), Amount::from_attos(1)),
        Err(DexError::SwapTooSmall)
    );
}

#[test]
fn test_swap_zero_reserve_after_full_drain() {
    let (mut state, alice) = funded_state();
    state
        .create_pool(
            &alice,
            token_a(),
            token_b(),
            Amount::from_attos(1000),
            Amount::from_attos(1000),
            30,
        )
        .unwrap();
    // Redeem the whole share supply: the pool drains exactly.
    let (out_a, out_b) = state
        .remove_liquidity(&alice, token_a(), token_b(), Amount::from_attos(1000))
        .unwrap();
    assert_eq!(out_a, Amount::from_attos(1000));
    assert_eq!(out_b, Amount::from_attos(1000));
    let pool = state.pool_by_tokens(&token_a(), &token_b()).unwrap();
    assert_eq!(pool.reserve_a, Amount::zero());
    assert_eq!(pool.total_shares, Amount::zero());
    // A swap against the drained pool reports the zero reserve.
    assert_eq!(
        state.swap_tokens(&alice, token_a(), token_b(), Amount::from_attos(10)),
        Err(DexError::ZeroReserve)
    );
}

#[test]
fn test_remove_liquidity_excess_shares_leaves_reserves_untouched() {
    let (mut state, alice) = funded_state();
    state
        .create_pool(
            &alice,
            token_a(),
            token_b(),
            Amount::from_attos(1000),
            Amount::from_attos(2000),
            30,
        )
        .unwrap();
    assert_eq!(
        state.remove_liquidity(&alice, token_a(), token_b(), Amount::from_attos(1001)),
        Err(DexError::InvalidShareAmount)
    );
    assert_eq!(
        state.remove_liquidity(&alice, token_a(), token_b(), Amount::zero()),
        Err(DexError::InvalidShareAmount)
    );
    let pool = state.pool_by_tokens(&token_a(), &token_b()).unwrap();
    assert_eq!(pool.reserve_a, Amount::from_attos(1000));
    assert_eq!(pool.reserve_b, Amount::from_attos(2000));
    assert_eq!(pool.total_shares, Amount::from_attos(1000));
}

#[test]
fn test_canonicalization_same_pool_either_order() {
    let (mut state, alice) = funded_state();
    state
        .create_pool(
            &alice,
            token_a(),
            token_b(),
            Amount::from_attos(1000),
            Amount::from_attos(1000),
            30,
        )
        .unwrap();
    // Lookup in both orders resolves the same pool.
    let p1 = state.pool_by_tokens(&token_a(), &token_b()).unwrap();
    let p2 = state.pool_by_tokens(&token_b(), &token_a()).unwrap();
    assert_eq!(p1.token_a, p2.token_a);
    assert_eq!(p1.reserve_a, p2.reserve_a);
    assert_eq!(p1.reserve_b, p2.reserve_b);
    // A swap quoting the pair in reverse order trades against that pool too.
    let received = state.swap_tokens(&alice, token_b(), token_a(), Amount::from_attos(1000))
        .unwrap();
    assert_eq!(received, Amount::from_attos(499));
    let pool = state.pool_by_tokens(&token_a(), &token_b()).unwrap();
    // The reversed direction moved reserve_b in and reserve_a out.
    assert_eq!(pool.reserve_b, Amount::from_attos(1997));
    assert_eq!(pool.reserve_a, Amount::from_attos(501));
}

#[test]
fn test_reversed_creation_stores_canonically() {
    let (mut state, alice) = funded_state();
    // Created with the pair reversed: the stored pool still has the smaller
    // token first, with the reserves following their tokens.
    state
        .create_pool(
            &alice,
            token_b(),
            token_a(),
            Amount::from_attos(700),
            Amount::from_attos(300),
            30,
        )
        .unwrap();
    let pool = state.pool_by_tokens(&token_a(), &token_b()).unwrap();
    assert_eq!(pool.token_a, token_a());
    assert_eq!(pool.token_b, token_b());
    assert_eq!(pool.reserve_a, Amount::from_attos(300));
    assert_eq!(pool.reserve_b, Amount::from_attos(700));
    // The share supply equals the caller's first deposit.
    assert_eq!(pool.total_shares, Amount::from_attos(700));
}

#[test]
fn test_add_then_remove_round_trip_never_favors_caller() {
    let (mut state, alice) = funded_state();
    state
        .create_pool(
            &alice,
            token_a(),
            token_b(),
            Amount::from_attos(1000),
            Amount::from_attos(3000),
            30,
        )
        .unwrap();
    // A proportional deposit: 10% of each reserve.
    let shares = state
        .add_liquidity(
            &alice,
            token_a(),
            token_b(),
            Amount::from_attos(100),
            Amount::from_attos(300),
        )
        .unwrap();
    assert_eq!(shares, Amount::from_attos(100));
    let (out_a, out_b) = state.remove_liquidity(&alice, token_a(), token_b(), shares).unwrap();
    // The round trip pays back at most what was put in.
    assert!(out_a <= Amount::from_attos(100));
    assert!(out_b <= Amount::from_attos(300));
    let pool = state.pool_by_tokens(&token_a(), &token_b()).unwrap();
    assert!(pool.reserve_a >= Amount::from_attos(1000));
    assert!(pool.reserve_b >= Amount::from_attos(3000));
    assert_eq!(pool.total_shares, Amount::from_attos(1000));
}

#[test]
fn test_add_liquidity_validations() {
    let (mut state, alice) = funded_state();
    assert_eq!(
        state.add_liquidity(
            &alice,
            token_a(),
            token_b(),
            Amount::from_attos(10),
            Amount::from_attos(10),
        ),
        Err(DexError::PoolNotFound)
    );
    state
        .create_pool(
            &alice,
            token_a(),
            token_b(),
            Amount::from_attos(1000),
            Amount::from_attos(1000),
            30,
        )
        .unwrap();
    assert_eq!(
        state.add_liquidity(
            &alice,
            token_a(),
            token_b(),
            Amount::zero(),
            Amount::from_attos(10),
        ),
        Err(DexError::InvalidAmount)
    );
    let bob = owner("bob");
    assert_eq!(
        state.add_liquidity(
            &bob,
            token_a(),
            token_b(),
            Amount::from_attos(10),
            Amount::from_attos(10),
        ),
        Err(DexError::InsufficientBalance)
    );
}

#[test]
fn test_credit_overflow_is_rejected() {
    let mut state = DexState::new();
    let alice = owner("alice");
    state.process_deposit(&alice, &token_a(), Amount::max_amount()).unwrap();
    assert_eq!(
        state.process_deposit(&alice, &token_a(), Amount::from_attos(1)),
        Err(DexError::ArithmeticOverflow)
    );
    assert_eq!(state.user_balance(&alice, &token_a()), Amount::max_amount());
}

#[test]
fn test_request_withdrawal_records_intent() {
    let (mut state, alice) = funded_state();
    let id = state
        .request_withdrawal(
            &alice,
            &token_a(),
            Amount::from_attos(400),
            "0xdead".to_string(),
            7,
        )
        .unwrap();
    assert_eq!(id, 0);
    assert_eq!(state.user_balance(&alice, &token_a()), Amount::from_attos(1_000_000 - 400));
    assert_eq!(state.pending_withdrawals.len(), 1);
    let rec = &state.pending_withdrawals[0];
    assert_eq!(rec.id, 0);
    assert_eq!(rec.amount, Amount::from_attos(400));
    assert_eq!(rec.target_address, "0xdead".to_string());
    assert_eq!(rec.created_at, 7);
    assert!(!rec.processed);
    // The id advances per request.
    let id2 = state
        .request_withdrawal(
            &alice,
            &token_a(),
            Amount::from_attos(1),
            "0xdead".to_string(),
            8,
        )
        .unwrap();
    assert_eq!(id2, 1);
    // An uncovered withdrawal is rejected without mutation.
    assert_eq!(
        state.request_withdrawal(
            &alice,
            &token_b(),
            Amount::from_attos(2_000_000),
            "0xdead".to_string(),
            9,
        ),
        Err(DexError::InsufficientBalance)
    );
    assert_eq!(state.pending_withdrawals.len(), 2);
}

#[test]
fn test_estimate_swap_matches_executed_swap() {
    let (mut state, alice) = funded_state();
    state
        .create_pool(
            &alice,
            token_a(),
            token_b(),
            Amount::from_attos(1000),
            Amount::from_attos(1000),
            30,
        )
        .unwrap();
    let quote = state.estimate_swap(&token_a(), &token_b(), Amount::from_attos(1000)).unwrap();
    let received = state.swap_tokens(&alice, token_a(), token_b(), Amount::from_attos(1000))
        .unwrap();
    assert_eq!(quote, received);
    // No pool, zero amount: no estimate.
    assert!(state.estimate_swap(&token_a(), &token_b(), Amount::zero()).is_none());
    let other = create_test_token(ChainType::Base, "0x3", "W");
    assert!(state.estimate_swap(&token_a(), &other, Amount::from_attos(10)).is_none());
}

#[test]
fn test_faucet_claim_capped() {
    let mut state = DexState::new();
    let alice = owner("alice");
    state.claim_faucet_tokens(&alice, &token_a(), Amount::from_attos(10_000)).unwrap();
    assert_eq!(state.user_balance(&alice, &token_a()), Amount::from_attos(10_000));
    assert_eq!(
        state.claim_faucet_tokens(&alice, &token_a(), Amount::from_attos(10_001)),
        Err(DexError::InvalidAmount)
    );
}

#[test]
fn test_queries_reflect_ledger() {
    let (mut state, alice) = funded_state();
    let pools = state.pools_list();
    assert!(pools.is_empty());
    state
        .create_pool(
            &alice,
            token_a(),
            token_b(),
            Amount::from_attos(1000),
            Amount::from_attos(1000),
            30,
        )
        .unwrap();
    assert_eq!(state.pools_list().len(), 1);
    let balances = state.user_balances_of(&alice);
    assert_eq!(balances.len(), 2);
    for row in &balances {
        assert_eq!(row.amount, Amount::from_attos(1_000_000 - 1000));
    }
}

#[test]
fn test_add_liquidity_orients_reversed_pairs() {
    let (mut state, alice) = funded_state();
    state
        .create_pool(
            &alice,
            token_a(),
            token_b(),
            Amount::from_attos(1000),
            Amount::from_attos(3000),
            30,
        )
        .unwrap();
    // The pair named in reverse: the amounts follow their tokens, and the
    // minting still reads the pool's first side.
    let shares = state
        .add_liquidity(
            &alice,
            token_b(),
            token_a(),
            Amount::from_attos(300),
            Amount::from_attos(100),
        )
        .unwrap();
    assert_eq!(shares, Amount::from_attos(100));
    let pool = state.pool_by_tokens(&token_a(), &token_b()).unwrap();
    assert_eq!(pool.reserve_a, Amount::from_attos(1100));
    assert_eq!(pool.reserve_b, Amount::from_attos(3300));
    assert_eq!(pool.total_shares, Amount::from_attos(1100));
}

#[test]
fn test_remove_liquidity_reports_in_callers_order() {
    let (mut state, alice) = funded_state();
    state
        .create_pool(
            &alice,
            token_a(),
            token_b(),
            Amount::from_attos(1000),
            Amount::from_attos(3000),
            30,
        )
        .unwrap();
    // Redeeming with the pair reversed pays the same slices, reported in the
    // order the caller named the tokens.
    let (out_first, out_second) = state
        .remove_liquidity(&alice, token_b(), token_a(), Amount::from_attos(500))
        .unwrap();
    assert_eq!(out_first, Amount::from_attos(1500));
    assert_eq!(out_second, Amount::from_attos(500));
}
