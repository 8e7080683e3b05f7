use debt_manager::errors::ErrorCode;
use debt_manager::flashloan::{check_flash_loan_repayment, flash_loan_fee};
use debt_manager::instructions::{
    accrue_interest, add_supported_borrow, add_supported_collateral, borrow, deposit_collateral,
    initialize_protocol, liquidate, open_debt_account, repay, update_rate_model,
    withdraw_collateral, LiquidationOutcome,
};
use debt_manager::math::INDEX_SCALE;
use debt_manager::oracle::PriceFeedReading;
use debt_manager::risk::{check_liquidatable, check_ltv};
use debt_manager::state::{PricedFeed, ProtocolConfig, Pubkey, UserDebtAccount};

fn key(n: u128) -> Pubkey {
    Pubkey { hi: 0, lo: n }
}

const COLLATERAL: u128 = 1;
const BORROWED: u128 = 2;
const COLLATERAL_FEED: u128 = 11;
const BORROWED_FEED: u128 = 12;
const START: u64 = 1000;

fn setup() -> (ProtocolConfig, UserDebtAccount) {
    let mut config = initialize_protocol(key(99), 255);
    add_supported_collateral(&mut config, key(COLLATERAL), 8000, 8500, 500, key(COLLATERAL_FEED))
        .unwrap();
    add_supported_borrow(&mut config, key(BORROWED), 200, 8000, 400, 6000, key(BORROWED_FEED), START)
        .unwrap();
    let account = open_debt_account(key(7), 254);
    (config, account)
}

fn book(collateral_price: i64, borrowed_price: i64) -> Vec<PricedFeed> {
    vec![
        PricedFeed {
            feed: key(COLLATERAL_FEED),
            reading: PriceFeedReading::Fresh { price: collateral_price, expo: -6 },
        },
        PricedFeed {
            feed: key(BORROWED_FEED),
            reading: PriceFeedReading::Fresh { price: borrowed_price, expo: -6 },
        },
    ]
}

fn funded() -> (ProtocolConfig, UserDebtAccount) {
    let (config, mut account) = setup();
    deposit_collateral(&config, &mut account, key(COLLATERAL), key(COLLATERAL_FEED), 1000).unwrap();
    (config, account)
}

#[test]
fn deposit_creates_then_grows_balance() {
    let (config, mut account) = funded();
    assert_eq!(account.collateral_balances.len(), 1);
    assert_eq!(account.collateral_balances[0].amount, 1000);
    deposit_collateral(&config, &mut account, key(COLLATERAL), key(COLLATERAL_FEED), 250).unwrap();
    assert_eq!(account.collateral_balances.len(), 1);
    assert_eq!(account.collateral_balances[0].amount, 1250);
}

#[test]
fn deposit_rejections() {
    let (config, mut account) = setup();
    assert_eq!(
        deposit_collateral(&config, &mut account, key(5), key(COLLATERAL_FEED), 1),
        Err(ErrorCode::UnsupportedCollateral)
    );
    assert_eq!(
        deposit_collateral(&config, &mut account, key(COLLATERAL), key(BORROWED_FEED), 1),
        Err(ErrorCode::InvalidPriceFeed)
    );
    deposit_collateral(&config, &mut account, key(COLLATERAL), key(COLLATERAL_FEED), u64::MAX).unwrap();
    assert_eq!(
        deposit_collateral(&config, &mut account, key(COLLATERAL), key(COLLATERAL_FEED), 1),
        Err(ErrorCode::MathOverflow)
    );
    assert_eq!(account.collateral_balances[0].amount, u64::MAX);
}

#[test]
fn withdraw_more_than_held_fails_and_keeps_balance() {
    let (config, mut account) = funded();
    let r = withdraw_collateral(&config, &mut account, key(COLLATERAL), key(COLLATERAL_FEED), 1001, &book(10, 1));
    assert_eq!(r, Err(ErrorCode::InsufficientCollateral));
    assert_eq!(account.collateral_balances[0].amount, 1000);
}

#[test]
fn withdraw_without_debt_needs_no_prices() {
    let (config, mut account) = funded();
    withdraw_collateral(&config, &mut account, key(COLLATERAL), key(COLLATERAL_FEED), 400, &Vec::new()).unwrap();
    assert_eq!(account.collateral_balances[0].amount, 600);
}

#[test]
fn borrow_up_to_ltv_boundary_passes() {
    let (mut config, mut account) = funded();
    // collateral 1000 at 10, ltv 80%: 8000 of value may be borrowed at price 1.
    borrow(&mut config, &mut account, key(BORROWED), key(BORROWED_FEED), 8000, &book(10, 1), START).unwrap();
    assert_eq!(account.debt_balances.len(), 1);
    assert_eq!(account.debt_balances[0].principal, 8000);
    assert_eq!(account.debt_balances[0].interest_index_snapshot, INDEX_SCALE);
    assert_eq!(config.supported_borrows[0].total_borrows, 8000);
}

#[test]
fn borrow_past_ltv_fails_and_rolls_back() {
    let (mut config, mut account) = funded();
    let r = borrow(&mut config, &mut account, key(BORROWED), key(BORROWED_FEED), 8001, &book(10, 1), START + 50);
    assert_eq!(r, Err(ErrorCode::LTVExceeded));
    assert_eq!(account.debt_balances.len(), 0);
    assert_eq!(config.supported_borrows[0].total_borrows, 0);
    assert_eq!(config.supported_borrows[0].last_update_ts, START);
    assert_eq!(config.supported_borrows[0].global_index, INDEX_SCALE);
}

#[test]
fn borrow_rejections() {
    let (mut config, mut account) = funded();
    assert_eq!(
        borrow(&mut config, &mut account, key(5), key(BORROWED_FEED), 1, &book(10, 1), START),
        Err(ErrorCode::UnsupportedBorrowAsset)
    );
    assert_eq!(
        borrow(&mut config, &mut account, key(BORROWED), key(COLLATERAL_FEED), 1, &book(10, 1), START),
        Err(ErrorCode::InvalidPriceFeed)
    );
    let stale = vec![
        PricedFeed { feed: key(COLLATERAL_FEED), reading: PriceFeedReading::Stale },
        PricedFeed { feed: key(BORROWED_FEED), reading: PriceFeedReading::Fresh { price: 1, expo: -6 } },
    ];
    assert_eq!(
        borrow(&mut config, &mut account, key(BORROWED), key(BORROWED_FEED), 1, &stale, START),
        Err(ErrorCode::PriceTooOld)
    );
    let missing = vec![PricedFeed {
        feed: key(BORROWED_FEED),
        reading: PriceFeedReading::Fresh { price: 1, expo: -6 },
    }];
    assert_eq!(
        borrow(&mut config, &mut account, key(BORROWED), key(BORROWED_FEED), 1, &missing, START),
        Err(ErrorCode::InvalidPriceFeed)
    );
    assert_eq!(account.debt_balances.len(), 0);
}

#[test]
fn borrow_accrues_index_and_projects_debt() {
    let (mut config, mut account) = funded();
    borrow(&mut config, &mut account, key(BORROWED), key(BORROWED_FEED), 1000, &book(10, 1), START).unwrap();
    borrow(&mut config, &mut account, key(BORROWED), key(BORROWED_FEED), 1000, &book(10, 1), START + 86400)
        .unwrap();
    // No deposits are tracked, so the curve gives its base rate of 2%.
    assert_eq!(config.supported_borrows[0].global_index, 1_000_054_794_520_489_600);
    assert_eq!(config.supported_borrows[0].last_update_ts, START + 86400);
    assert_eq!(account.debt_balances.len(), 1);
    assert_eq!(account.debt_balances[0].principal, 2000);
    assert_eq!(account.debt_balances[0].interest_index_snapshot, 1_000_054_794_520_489_600);
}

#[test]
fn repay_caps_at_owed() {
    let (mut config, mut account) = funded();
    borrow(&mut config, &mut account, key(BORROWED), key(BORROWED_FEED), 8000, &book(10, 1), START).unwrap();
    assert_eq!(repay(&mut config, &mut account, key(BORROWED), key(BORROWED_FEED), 3000, START), Ok(3000));
    assert_eq!(account.debt_balances[0].principal, 5000);
    assert_eq!(config.supported_borrows[0].total_borrows, 5000);
    assert_eq!(repay(&mut config, &mut account, key(BORROWED), key(BORROWED_FEED), 10_000, START), Ok(5000));
    assert_eq!(account.debt_balances[0].principal, 0);
    assert_eq!(config.supported_borrows[0].total_borrows, 0);
}

#[test]
fn repay_without_debt() {
    let (mut config, mut account) = funded();
    assert_eq!(
        repay(&mut config, &mut account, key(BORROWED), key(BORROWED_FEED), 1, START),
        Err(ErrorCode::NoDebtToRepay)
    );
}

#[test]
fn withdraw_that_breaks_ltv_fails_and_keeps_balance() {
    let (mut config, mut account) = funded();
    borrow(&mut config, &mut account, key(BORROWED), key(BORROWED_FEED), 4000, &book(10, 1), START).unwrap();
    let r = withdraw_collateral(&config, &mut account, key(COLLATERAL), key(COLLATERAL_FEED), 501, &book(10, 1));
    assert_eq!(r, Err(ErrorCode::LTVExceeded));
    assert_eq!(account.collateral_balances[0].amount, 1000);
    withdraw_collateral(&config, &mut account, key(COLLATERAL), key(COLLATERAL_FEED), 500, &book(10, 1)).unwrap();
    assert_eq!(account.collateral_balances[0].amount, 500);
}

#[test]
fn ltv_check_boundary() {
    let (mut config, mut account) = funded();
    borrow(&mut config, &mut account, key(BORROWED), key(BORROWED_FEED), 8000, &book(10, 1), START).unwrap();
    let prices = book(10, 1);
    assert_eq!(
        check_ltv(
            &account.collateral_balances,
            &account.debt_balances,
            &config.supported_collaterals,
            &config.supported_borrows,
            &prices
        ),
        Ok(())
    );
    account.debt_balances[0].principal = 8001;
    assert_eq!(
        check_ltv(
            &account.collateral_balances,
            &account.debt_balances,
            &config.supported_collaterals,
            &config.supported_borrows,
            &prices
        ),
        Err(ErrorCode::LTVExceeded)
    );
}

#[test]
fn liquidating_healthy_position_is_refused() {
    let (mut config, mut account) = funded();
    borrow(&mut config, &mut account, key(BORROWED), key(BORROWED_FEED), 8000, &book(10, 1), START).unwrap();
    let prices = book(10, 1);
    assert_eq!(
        check_liquidatable(
            &account.collateral_balances,
            &account.debt_balances,
            &config.supported_collaterals,
            &config.supported_borrows,
            &prices
        ),
        Err(ErrorCode::Unauthorized)
    );
    let r = liquidate(
        &config,
        &mut account,
        key(COLLATERAL),
        key(BORROWED),
        key(COLLATERAL_FEED),
        key(BORROWED_FEED),
        1000,
        &prices,
    );
    assert_eq!(r, Err(ErrorCode::Unauthorized));
    assert_eq!(account.debt_balances[0].principal, 8000);
    assert_eq!(account.collateral_balances[0].amount, 1000);
}

#[test]
fn liquidation_respects_close_factor_and_bonus() {
    let (mut config, mut account) = funded();
    borrow(&mut config, &mut account, key(BORROWED), key(BORROWED_FEED), 8000, &book(10, 1), START).unwrap();
    // Collateral price falls to 9: value 9000, threshold 85%, debt 8000 is unhealthy.
    let r = liquidate(
        &config,
        &mut account,
        key(COLLATERAL),
        key(BORROWED),
        key(COLLATERAL_FEED),
        key(BORROWED_FEED),
        10_000,
        &book(9, 1),
    );
    assert_eq!(r, Ok(LiquidationOutcome { repaid: 4000, seized: 466 }));
    assert_eq!(account.debt_balances[0].principal, 4000);
    assert_eq!(account.collateral_balances[0].amount, 534);
}

#[test]
fn liquidation_of_small_amount() {
    let (mut config, mut account) = funded();
    borrow(&mut config, &mut account, key(BORROWED), key(BORROWED_FEED), 8000, &book(10, 1), START).unwrap();
    let r = liquidate(
        &config,
        &mut account,
        key(COLLATERAL),
        key(BORROWED),
        key(COLLATERAL_FEED),
        key(BORROWED_FEED),
        900,
        &book(9, 1),
    );
    // 900 * 1.05 = 945 of value, 105 units at price 9.
    assert_eq!(r, Ok(LiquidationOutcome { repaid: 900, seized: 105 }));
}

#[test]
fn liquidation_rejections() {
    let (mut config, mut account) = funded();
    borrow(&mut config, &mut account, key(BORROWED), key(BORROWED_FEED), 8000, &book(10, 1), START).unwrap();
    let prices = book(9, 1);
    assert_eq!(
        liquidate(&config, &mut account, key(5), key(BORROWED), key(COLLATERAL_FEED), key(BORROWED_FEED), 1, &prices),
        Err(ErrorCode::UnsupportedCollateral)
    );
    assert_eq!(
        liquidate(&config, &mut account, key(COLLATERAL), key(5), key(COLLATERAL_FEED), key(BORROWED_FEED), 1, &prices),
        Err(ErrorCode::UnsupportedBorrowAsset)
    );
    assert_eq!(
        liquidate(&config, &mut account, key(COLLATERAL), key(BORROWED), key(BORROWED_FEED), key(BORROWED_FEED), 1, &prices),
        Err(ErrorCode::InvalidPriceFeed)
    );
    assert_eq!(account.debt_balances[0].principal, 8000);
}

#[test]
fn accrue_interest_advances_every_asset_once() {
    let (mut config, mut account) = funded();
    add_supported_borrow(&mut config, key(3), 100, 5000, 100, 100, key(13), START).unwrap();
    borrow(&mut config, &mut account, key(BORROWED), key(BORROWED_FEED), 100, &book(10, 1), START).unwrap();
    accrue_interest(&mut config, START + 86400).unwrap();
    assert_eq!(config.supported_borrows[0].global_index, 1_000_054_794_520_489_600);
    assert!(config.supported_borrows[1].global_index > INDEX_SCALE);
    let first = config.supported_borrows[0].global_index;
    let second = config.supported_borrows[1].global_index;
    accrue_interest(&mut config, START + 86400).unwrap();
    assert_eq!(config.supported_borrows[0].global_index, first);
    assert_eq!(config.supported_borrows[1].global_index, second);
    accrue_interest(&mut config, START).unwrap();
    assert_eq!(config.supported_borrows[0].last_update_ts, START + 86400);
}

#[test]
fn registration_rules() {
    let (mut config, _) = setup();
    assert_eq!(
        add_supported_collateral(&mut config, key(COLLATERAL), 8000, 8500, 500, key(20)),
        Err(ErrorCode::AssetAlreadySupported)
    );
    assert_eq!(
        add_supported_collateral(&mut config, key(30), 9000, 8500, 500, key(20)),
        Err(ErrorCode::InvalidParameters)
    );
    assert_eq!(
        add_supported_borrow(&mut config, key(BORROWED), 1, 5000, 1, 1, key(20), START),
        Err(ErrorCode::AssetAlreadySupported)
    );
    assert_eq!(
        add_supported_borrow(&mut config, key(31), 1, 0, 1, 1, key(20), START),
        Err(ErrorCode::InvalidParameters)
    );
    assert_eq!(
        add_supported_borrow(&mut config, key(31), 1, 10001, 1, 1, key(20), START),
        Err(ErrorCode::InvalidParameters)
    );
    add_supported_borrow(&mut config, key(32), 1, 10000, 1, 1, key(21), START).unwrap();
    assert_eq!(
        update_rate_model(&mut config, key(31), 1, 5000, 1, 1),
        Err(ErrorCode::UnsupportedBorrowAsset)
    );
    update_rate_model(&mut config, key(BORROWED), 300, 7000, 500, 7000).unwrap();
    assert_eq!(config.supported_borrows[0].base_rate, 300);
    assert_eq!(config.supported_borrows[0].optimal_utilization, 7000);
    for n in 0..9u128 {
        add_supported_collateral(&mut config, key(100 + n), 5000, 6000, 100, key(200 + n)).unwrap();
    }
    assert_eq!(
        add_supported_collateral(&mut config, key(500), 5000, 6000, 100, key(600)),
        Err(ErrorCode::CapacityExceeded)
    );
}

#[test]
fn flash_loan_fee_and_repayment() {
    assert_eq!(flash_loan_fee(1_000_000), Ok(500));
    assert_eq!(flash_loan_fee(1999), Ok(0));
    assert_eq!(flash_loan_fee(u64::MAX), Err(ErrorCode::MathOverflow));
    assert_eq!(check_flash_loan_repayment(10_000, 10_500, 500), Ok(()));
    assert_eq!(check_flash_loan_repayment(10_000, 10_499, 500), Err(ErrorCode::FlashReplyError));
    assert_eq!(check_flash_loan_repayment(u64::MAX, u64::MAX, 1), Err(ErrorCode::FlashReplyError));
}

#[test]
fn error_messages() {
    assert_eq!(ErrorCode::LTVExceeded.message(), "LTV exceeded");
    assert_eq!(ErrorCode::NoDebtToRepay.message(), "No debt to repay");
}

#[test]
fn settled_debt_does_not_gate_withdrawal() {
    let (mut config, mut account) = funded();
    borrow(&mut config, &mut account, key(BORROWED), key(BORROWED_FEED), 500, &book(10, 1), START).unwrap();
    assert_eq!(repay(&mut config, &mut account, key(BORROWED), key(BORROWED_FEED), 500, START), Ok(500));
    assert_eq!(account.debt_balances[0].principal, 0);
    withdraw_collateral(&config, &mut account, key(COLLATERAL), key(COLLATERAL_FEED), 1000, &Vec::new()).unwrap();
    assert_eq!(account.collateral_balances[0].amount, 0);
}

#[test]
fn repay_beyond_total_borrows_underflows() {
    let (mut config, mut account) = funded();
    borrow(&mut config, &mut account, key(BORROWED), key(BORROWED_FEED), 1000, &book(10, 1), START).unwrap();
    let later = START + 365 * 86400;
    // A year at 2% makes 1019 owed, more than the 1000 recorded as borrowed.
    let r = repay(&mut config, &mut account, key(BORROWED), key(BORROWED_FEED), 5000, later);
    assert_eq!(r, Err(ErrorCode::MathOverflow));
    assert_eq!(account.debt_balances[0].principal, 1000);
    assert_eq!(account.debt_balances[0].interest_index_snapshot, INDEX_SCALE);
    assert_eq!(config.supported_borrows[0].total_borrows, 1000);
    assert_eq!(config.supported_borrows[0].last_update_ts, START);
    assert_eq!(repay(&mut config, &mut account, key(BORROWED), key(BORROWED_FEED), 1000, later), Ok(1000));
    assert_eq!(account.debt_balances[0].principal, 19);
    assert_eq!(config.supported_borrows[0].total_borrows, 0);
}

#[test]
fn withdraw_nothing_of_absent_asset() {
    let (config, mut account) = setup();
    withdraw_collateral(&config, &mut account, key(COLLATERAL), key(COLLATERAL_FEED), 0, &Vec::new()).unwrap();
    assert_eq!(account.collateral_balances.len(), 0);
    assert_eq!(
        withdraw_collateral(&config, &mut account, key(COLLATERAL), key(COLLATERAL_FEED), 1, &Vec::new()),
        Err(ErrorCode::InsufficientCollateral)
    );
}

#[test]
fn borrow_reads_the_presented_feed_first() {
    let (mut config, mut account) = funded();
    let stale_borrow_feed = vec![
        PricedFeed {
            feed: key(COLLATERAL_FEED),
            reading: PriceFeedReading::Fresh { price: 10, expo: -6 },
        },
        PricedFeed { feed: key(BORROWED_FEED), reading: PriceFeedReading::Stale },
    ];
    assert_eq!(
        borrow(&mut config, &mut account, key(BORROWED), key(BORROWED_FEED), 0, &stale_borrow_feed, START),
        Err(ErrorCode::PriceTooOld)
    );
    assert_eq!(account.debt_balances.len(), 0);
}

#[test]
fn accrual_to_an_earlier_time_changes_nothing() {
    let (mut config, mut account) = funded();
    borrow(&mut config, &mut account, key(BORROWED), key(BORROWED_FEED), 100, &book(10, 1), START + 500).unwrap();
    accrue_interest(&mut config, START + 100).unwrap();
    assert_eq!(config.supported_borrows[0].last_update_ts, START + 500);
    assert_eq!(config.supported_borrows[0].total_borrows, 100);
}
