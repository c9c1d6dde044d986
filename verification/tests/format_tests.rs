use dex::amount::{Amount, ATTOS_PER_TOKEN};
use dex::profile::{format_amount_units, u128_to_string, UserProfile};

#[test]
fn test_u128_to_string_renders_decimal() {
    assert_eq!(u128_to_string(0), "0".to_string());
    assert_eq!(u128_to_string(7), "7".to_string());
    assert_eq!(u128_to_string(12345), "12345".to_string());
    assert_eq!(u128_to_string(u128::MAX), u128::MAX.to_string());
}

#[test]
fn test_format_amount_units_small_values_exact() {
    assert_eq!(format_amount_units(0), "0".to_string());
    assert_eq!(format_amount_units(999), "999".to_string());
}

#[test]
fn test_format_amount_units_scales() {
    assert_eq!(format_amount_units(1_000), "1K".to_string());
    assert_eq!(format_amount_units(1_500), "1.5K".to_string());
    assert_eq!(format_amount_units(25_000), "25K".to_string());
    assert_eq!(format_amount_units(1_000_000), "1M".to_string());
    assert_eq!(format_amount_units(1_234_567), "1.2M".to_string());
    assert_eq!(format_amount_units(2_500_000_000), "2.5B".to_string());
    assert_eq!(format_amount_units(7_100_000_000_000), "7.1T".to_string());
}

#[test]
fn test_format_amount_units_rounds_half_up() {
    // 1150 scaled to K is 1.15, which rounds half-up to 1.2.
    assert_eq!(format_amount_units(1_150), "1.2K".to_string());
    // 1049 scaled to K is 1.049, which rounds down to 1.
    assert_eq!(format_amount_units(1_049), "1K".to_string());
}

#[test]
fn test_format_amount_units_top_band_falls_through() {
    // 999950 sits in the 999.95 band at the top of K and falls through to
    // the unit paired with K at the mirrored rung, rounding to zero of it.
    assert_eq!(format_amount_units(999_950), "0D".to_string());
    // Just below the band it stays in its own unit.
    assert_eq!(format_amount_units(999_949), "999.9K".to_string());
}

#[test]
fn test_profile_below_minimum_has_no_suggestions() {
    let mut profile = UserProfile {
        balance: Amount::from_tokens(50),
        liquidity_data: None,
    };
    profile.calculate_liquidity_data();
    let ld = profile.liquidity_data.unwrap();
    assert_eq!(ld.min_amount, Amount::zero());
    assert_eq!(ld.max_amount, Amount::from_tokens(50));
    assert!(ld.suggested_amounts.is_none());
}

#[test]
fn test_profile_suggestions_scale_with_balance() {
    let mut profile = UserProfile {
        balance: Amount::from_tokens(1000),
        liquidity_data: None,
    };
    profile.calculate_liquidity_data();
    let ld = profile.liquidity_data.unwrap();
    assert_eq!(ld.min_amount, Amount::from_tokens(100));
    assert_eq!(ld.max_amount, Amount::from_tokens(1000));
    let suggested = ld.suggested_amounts.unwrap();
    let amounts: Vec<u128> =
        suggested.iter().map(|t| t.amount.to_attos() / ATTOS_PER_TOKEN).collect();
    assert_eq!(amounts, vec![100, 500, 2500, 10_000, 25_000]);
    let texts: Vec<String> = suggested.iter().map(|t| t.text.clone()).collect();
    assert_eq!(
        texts,
        vec![
            "100".to_string(),
            "500".to_string(),
            "2.5K".to_string(),
            "10K".to_string(),
            "25K".to_string()
        ]
    );
    let enables: Vec<bool> = suggested.iter().map(|t| t.enable).collect();
    assert_eq!(enables, vec![true, true, false, false, false]);
}

#[test]
fn test_profile_base_scales_tenfold_for_large_balances() {
    // 60000 tokens reach 500x of the 100-token base once: the base becomes
    // 1000 tokens.
    let mut profile = UserProfile {
        balance: Amount::from_tokens(60_000),
        liquidity_data: None,
    };
    profile.calculate_liquidity_data();
    let ld = profile.liquidity_data.unwrap();
    assert_eq!(ld.min_amount, Amount::from_tokens(1000));
}

#[test]
fn test_profile_update_and_clear() {
    let mut profile = UserProfile { balance: Amount::zero(), liquidity_data: None };
    profile.update_balance(Amount::from_tokens(200));
    assert_eq!(profile.balance, Amount::from_tokens(200));
    profile.calculate_liquidity_data();
    assert!(profile.liquidity_data.is_some());
    profile.clear_liquidity_data();
    assert!(profile.liquidity_data.is_none());
}
