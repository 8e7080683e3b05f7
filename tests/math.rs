use debt_manager::errors::ErrorCode;
use debt_manager::math::{
    calculate_annual_rate_from_borrow_rate, calculate_borrow_rate, calculate_owed_amount,
    calculate_utilization, update_global_index, INDEX_SCALE,
};
use debt_manager::oracle::{
    get_price_from_feed, price_reading_at, read_price_account, PriceFeedReading, PublishedPrice,
    MAX_PRICE_AGE,
};

#[test]
fn test_update_global_index() {
    let initial_index = INDEX_SCALE;
    let annual_rate = 50_000_000_000_000_000;
    let last_ts = 0;
    let now_ts = 86400;
    let new_index = update_global_index(initial_index, annual_rate, last_ts, now_ts).unwrap();
    assert!(new_index > initial_index);
    assert_eq!(new_index, 1_000_136_986_301_353_600);
}

#[test]
fn test_calculate_owed_amount() {
    let principal = 1000;
    let snapshot_index = INDEX_SCALE;
    let current_index = INDEX_SCALE * 11 / 10;

    let owed = calculate_owed_amount(principal, snapshot_index, current_index).unwrap();
    assert_eq!(owed, 1100);
}

#[test]
fn borrow_rate_above_kink() {
    assert_eq!(calculate_borrow_rate(9000, 200, 8000, 400, 6000), Ok(3600));
}

#[test]
fn borrow_rate_below_and_at_kink() {
    assert_eq!(calculate_borrow_rate(4000, 200, 8000, 400, 6000), Ok(400));
    assert_eq!(calculate_borrow_rate(8000, 200, 8000, 400, 6000), Ok(600));
    assert_eq!(calculate_borrow_rate(0, 200, 8000, 400, 6000), Ok(200));
    assert_eq!(calculate_borrow_rate(10000, 200, 8000, 400, 6000), Ok(6600));
}

#[test]
fn borrow_rate_beyond_full_utilization() {
    assert_eq!(calculate_borrow_rate(50000, 200, 8000, 400, 6000), Ok(126600));
    assert_eq!(calculate_borrow_rate(10000, 200, 10000, 400, 6000), Ok(600));
    assert_eq!(calculate_borrow_rate(10001, 200, 10000, 400, 6000), Err(ErrorCode::MathOverflow));
    assert_eq!(calculate_borrow_rate(0, u64::MAX, 8000, 400, 6000), Ok(u64::MAX));
    assert_eq!(calculate_borrow_rate(1, u64::MAX, 1, 400, 6000), Err(ErrorCode::MathOverflow));
}

#[test]
fn utilization_values() {
    assert_eq!(calculate_utilization(50, 0), Ok(0));
    assert_eq!(calculate_utilization(900, 1000), Ok(9000));
    assert_eq!(calculate_utilization(1, 3), Ok(3333));
    assert_eq!(calculate_utilization(5000, 1000), Ok(50000));
    assert_eq!(calculate_utilization(u64::MAX, 1), Err(ErrorCode::MathOverflow));
}

#[test]
fn annual_rate_from_bps() {
    assert_eq!(calculate_annual_rate_from_borrow_rate(500), 50_000_000_000_000_000);
    assert_eq!(calculate_annual_rate_from_borrow_rate(0), 0);
}

#[test]
fn index_unchanged_when_time_does_not_advance() {
    let index = 1_234_567_890_123_456_789u128;
    assert_eq!(update_global_index(index, 50_000_000_000_000_000, 100, 100), Ok(index));
    assert_eq!(update_global_index(index, 50_000_000_000_000_000, 100, 40), Ok(index));
}

#[test]
fn index_never_decreases() {
    let mut index = INDEX_SCALE;
    let mut last = 0u64;
    for step in 1..20u64 {
        let now = last + step * 3600;
        let next = update_global_index(index, 20_000_000_000_000_000, last, now).unwrap();
        assert!(next >= index);
        index = next;
        last = now;
    }
    assert!(index > INDEX_SCALE);
}

#[test]
fn index_with_zero_rate_stays() {
    assert_eq!(update_global_index(INDEX_SCALE, 0, 0, 1_000_000), Ok(INDEX_SCALE));
}

#[test]
fn index_update_accrual_is_idempotent() {
    let once = update_global_index(INDEX_SCALE, 50_000_000_000_000_000, 0, 86400).unwrap();
    let twice = update_global_index(once, 50_000_000_000_000_000, 86400, 86400).unwrap();
    assert_eq!(once, twice);
}

#[test]
fn index_overflow_is_reported() {
    assert_eq!(
        update_global_index(u128::MAX - 1, 50_000_000_000_000_000, 0, 86400 * 365),
        Err(ErrorCode::MathOverflow)
    );
}

#[test]
fn owed_at_snapshot_is_principal() {
    for &s in &[1u128, 7, INDEX_SCALE, 3 * INDEX_SCALE + 11] {
        assert_eq!(calculate_owed_amount(123_456, s, s), Ok(123_456));
    }
}

#[test]
fn owed_without_snapshot_is_principal() {
    assert_eq!(calculate_owed_amount(999, 0, 5 * INDEX_SCALE), Ok(999));
}

#[test]
fn owed_grows_with_index() {
    let mut previous = 0u64;
    for tenth in 10..30u128 {
        let owed = calculate_owed_amount(1000, INDEX_SCALE, INDEX_SCALE * tenth / 10).unwrap();
        assert!(owed >= previous);
        previous = owed;
    }
    assert_eq!(previous, 2900);
}

#[test]
fn owed_overflow_is_reported() {
    assert_eq!(calculate_owed_amount(u64::MAX, 1, 2), Err(ErrorCode::MathOverflow));
    assert_eq!(calculate_owed_amount(u64::MAX, 1, u128::MAX), Err(ErrorCode::MathOverflow));
}

#[test]
fn price_is_scaled_to_six_decimals() {
    let r = PriceFeedReading::Fresh { price: 123_456_789, expo: -8 };
    assert_eq!(get_price_from_feed(&r), Ok(1_234_567));
    let r = PriceFeedReading::Fresh { price: 5, expo: -3 };
    assert_eq!(get_price_from_feed(&r), Ok(5_000));
    let r = PriceFeedReading::Fresh { price: 42, expo: -6 };
    assert_eq!(get_price_from_feed(&r), Ok(42));
    let r = PriceFeedReading::Fresh { price: 7, expo: -40 };
    assert_eq!(get_price_from_feed(&r), Ok(0));
}

#[test]
fn price_errors() {
    assert_eq!(get_price_from_feed(&PriceFeedReading::Unresolvable), Err(ErrorCode::InvalidPriceFeed));
    assert_eq!(get_price_from_feed(&PriceFeedReading::Stale), Err(ErrorCode::PriceTooOld));
    let r = PriceFeedReading::Fresh { price: 0, expo: -6 };
    assert_eq!(get_price_from_feed(&r), Err(ErrorCode::InvalidPrice));
    let r = PriceFeedReading::Fresh { price: -5, expo: -6 };
    assert_eq!(get_price_from_feed(&r), Err(ErrorCode::InvalidPrice));
    let r = PriceFeedReading::Fresh { price: i64::MAX, expo: 0 };
    assert_eq!(get_price_from_feed(&r), Err(ErrorCode::MathOverflow));
    let r = PriceFeedReading::Fresh { price: 1, expo: 30 };
    assert_eq!(get_price_from_feed(&r), Err(ErrorCode::MathOverflow));
}

#[test]
fn large_index_stays_at_rate_zero() {
    let index = 1u128 << 70;
    assert_eq!(update_global_index(index, 0, 0, 1), Ok(index));
    assert_eq!(update_global_index(u128::MAX, 0, 0, 1_000_000), Ok(u128::MAX));
}

#[test]
fn large_index_accrues_exactly() {
    let index = 1u128 << 70;
    assert_eq!(
        update_global_index(index, 50_000_000_000_000_000, 0, 86400),
        Ok(1_180_753_345_596_942_433_761)
    );
}

#[test]
fn owed_round_trip_at_large_index() {
    let s = 1u128 << 70;
    assert_eq!(calculate_owed_amount(u64::MAX, s, s), Ok(u64::MAX));
    assert_eq!(calculate_owed_amount(u64::MAX, u128::MAX, u128::MAX), Ok(u64::MAX));
}

#[test]
fn owed_with_wide_product() {
    let s = 1u128 << 70;
    assert_eq!(calculate_owed_amount(1000, s, s + (s >> 1)), Ok(1500));
    assert_eq!(
        calculate_owed_amount((1u64 << 62) + 12345, s, (1u128 << 71) - 3),
        Ok(9_223_372_036_854_800_497)
    );
    assert_eq!(
        calculate_owed_amount((1u64 << 63) + 12345, s, (1u128 << 71) - 3),
        Err(ErrorCode::MathOverflow)
    );
}

#[test]
fn staleness_window_either_side() {
    let record = PublishedPrice { price: 42, expo: -6, publish_time: 1000 };
    assert_eq!(
        price_reading_at(Some(record), 1060, MAX_PRICE_AGE),
        PriceFeedReading::Fresh { price: 42, expo: -6 }
    );
    assert_eq!(price_reading_at(Some(record), 1061, MAX_PRICE_AGE), PriceFeedReading::Stale);
    assert_eq!(price_reading_at(Some(record), 939, MAX_PRICE_AGE), PriceFeedReading::Stale);
    assert_eq!(price_reading_at(None, 1000, MAX_PRICE_AGE), PriceFeedReading::Unresolvable);
}

#[test]
fn bytes_that_are_no_price_account() {
    assert_eq!(read_price_account(&[], 1000), PriceFeedReading::Unresolvable);
    assert_eq!(read_price_account(&[7u8; 4096], 1000), PriceFeedReading::Unresolvable);
}

#[test]
fn misaligned_bytes_are_read_without_panic() {
    let storage = vec![7u8; 4001];
    assert_eq!(read_price_account(&storage[1..], 1000), PriceFeedReading::Unresolvable);
    assert_eq!(read_price_account(&storage[3..3500], 1000), PriceFeedReading::Unresolvable);
}
