use dex::bridge::{
    deposit_event_from_log, deposit_events_query, parse_u64, BridgeTrackerState,
    InstantiationArgument, TrackedBalance,
};
use dex::random::{get_seed_array, truncate};

#[test]
fn test_parse_u64_accepts_plain_and_signed_numerals() {
    assert_eq!(parse_u64("0"), Some(0));
    assert_eq!(parse_u64("42"), Some(42));
    assert_eq!(parse_u64("+42"), Some(42));
    assert_eq!(parse_u64("18446744073709551615"), Some(u64::MAX));
}

#[test]
fn test_parse_u64_rejects_everything_else() {
    assert_eq!(parse_u64(""), None);
    assert_eq!(parse_u64("+"), None);
    assert_eq!(parse_u64("-1"), None);
    assert_eq!(parse_u64("12a"), None);
    assert_eq!(parse_u64(" 12"), None);
    assert_eq!(parse_u64("18446744073709551616"), None);
}

#[test]
fn test_deposit_event_from_log_shapes_topics() {
    let topics = vec![
        "Deposit(address,address,uint256,uint256)".to_string(),
        "0xalice".to_string(),
        "0xtoken".to_string(),
        "42".to_string(),
    ];
    let event = deposit_event_from_log(&topics, "1000".to_string(), 77);
    assert_eq!(event.user, "0xalice".to_string());
    assert_eq!(event.token, "0xtoken".to_string());
    assert_eq!(event.amount, "1000".to_string());
    assert_eq!(event.nonce, 42);
    assert_eq!(event.block_number, 77);
    // A malformed nonce becomes zero.
    let topics = vec![
        "sig".to_string(),
        "u".to_string(),
        "t".to_string(),
        "not-a-number".to_string(),
    ];
    let event = deposit_event_from_log(&topics, "5".to_string(), 1);
    assert_eq!(event.nonce, 0);
}

#[test]
fn test_deposit_events_query_text() {
    assert_eq!(
        deposit_events_query(123),
        "query { readDepositEvents(endBlock: 123) }".to_string()
    );
}

#[test]
fn test_tracker_instantiation_and_balance_lookup() {
    let mut state = BridgeTrackerState::new();
    state.instantiate(InstantiationArgument {
        ethereum_endpoint: "http://localhost:8545".to_string(),
        bridge_contract: "0xbridge".to_string(),
        usdc_contract: "0xusdc".to_string(),
        start_block: 10,
    });
    assert_eq!(state.ethereum_endpoint, "http://localhost:8545".to_string());
    assert_eq!(state.start_block, 10);
    state.user_balances.push(TrackedBalance {
        user: "alice".to_string(),
        token: "usdc".to_string(),
        balance: "250".to_string(),
    });
    assert_eq!(
        state.user_balance(&"alice".to_string(), &"usdc".to_string()),
        "250".to_string()
    );
    assert_eq!(state.user_balance(&"bob".to_string(), &"usdc".to_string()), "".to_string());
}

#[test]
fn test_truncate_cuts_at_character_count() {
    assert_eq!(truncate("hello", 3), "hel");
    assert_eq!(truncate("hello", 10), "hello");
    assert_eq!(truncate("", 3), "");
}

#[test]
fn test_get_seed_array_weaves_hash_and_timestamp() {
    let seed = get_seed_array("aaaaaaaaaa".to_string(), "bbbb".to_string());
    // hash twice (20 chars), then the timestamp starts: 12 more bytes of 'b'.
    let mut expected = [b'b'; 32];
    for i in 0..20 {
        expected[i] = b'a';
    }
    assert_eq!(seed, expected);
}
