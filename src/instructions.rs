use vstd::prelude::*;

use crate::errors::ErrorCode;
use crate::math::{
    annual_rate_of, borrow_rate_of, calculate_annual_rate_from_borrow_rate, calculate_borrow_rate,
    calculate_owed_amount, calculate_utilization, index_update, owed_amount, rate_model_valid,
    update_global_index, utilization_of, INDEX_SCALE,
};
use crate::risk::{
    any_open_debt, book_price, check_liquidatable, debt_value, has_open_debt, check_ltv,
    ltv_collateral_value, liquidation_verdict, ltv_verdict, price_of_feed,
};
use crate::state::{
    borrow_asset_valid, borrow_info_mints, collateral_info_mints, collateral_mints,
    collateral_params_valid, debt_mints, find_borrow_info, find_collateral_balance,
    find_collateral_info, find_debt_balance, index_of, lemma_index_of,
    BorrowAssetInfo, CollateralBalance, CollateralInfo, DebtBalance, PricedFeed, ProtocolConfig, Pubkey, UserDebtAccount, MAX_ENTRIES,
};

verus! {

/// The asset after its index has been advanced to `now`: unchanged when time has not
/// moved forward; otherwise the index grows at the rate the curve gives for the asset's
/// utilisation, and the timestamp moves to `now`.
pub open spec fn accrued_asset(a: BorrowAssetInfo, now: u64) -> Result<BorrowAssetInfo, ErrorCode> {
    let utilization = utilization_of(a.total_borrows, a.total_deposits);
    if now <= a.last_update_ts {
        Ok(a)
    } else if utilization > u64::MAX as int {
        Err(ErrorCode::MathOverflow)
    } else {
        match borrow_rate_of(
            utilization,
            a.base_rate as int,
            a.optimal_utilization as int,
            a.slope1 as int,
            a.slope2 as int,
        ) {
            Err(e) => Err(e),
            Ok(rate) => match index_update(
                a.global_index,
                annual_rate_of(rate as int) as u128,
                a.last_update_ts,
                now,
            ) {
                Err(e) => Err(e),
                Ok(index) => Ok(
                    BorrowAssetInfo {
                        global_index: index,
                        last_update_ts: if now > a.last_update_ts {
                            now
                        } else {
                            a.last_update_ts
                        },
                        ..a
                    },
                ),
            },
        }
    }
}

/// Every borrowable asset accrued to `now`, or the first failure.
pub open spec fn accrued_assets(bs: Seq<BorrowAssetInfo>, now: u64) -> Result<
    Seq<BorrowAssetInfo>,
    ErrorCode,
>
    decreases bs.len(),
{
    if bs.len() == 0 {
        Ok(Seq::empty())
    } else {
        match accrued_assets(bs.drop_last(), now) {
            Err(e) => Err(e),
            Ok(front) => match accrued_asset(bs.last(), now) {
                Err(e) => Err(e),
                Ok(a) => Ok(front.push(a)),
            },
        }
    }
}

/// The collateral balances after `amount` of `mint` came in: the balance grows, or a
/// new one is opened.
pub open spec fn deposit_outcome(
    config: ProtocolConfig,
    cs: Seq<CollateralBalance>,
    mint: Pubkey,
    price_feed: Pubkey,
    amount: u64,
) -> Result<Seq<CollateralBalance>, ErrorCode> {
    let j = index_of(collateral_info_mints(config.supported_collaterals@), mint);
    let k = index_of(collateral_mints(cs), mint);
    if j < 0 {
        Err(ErrorCode::UnsupportedCollateral)
    } else if config.supported_collaterals@[j].price_feed != price_feed {
        Err(ErrorCode::InvalidPriceFeed)
    } else if k >= 0 {
        if cs[k].amount as int + amount as int > u64::MAX as int {
            Err(ErrorCode::MathOverflow)
        } else {
            Ok(cs.update(k, CollateralBalance { mint, amount: (cs[k].amount + amount) as u64 }))
        }
    } else if cs.len() >= MAX_ENTRIES {
        Err(ErrorCode::CapacityExceeded)
    } else {
        Ok(cs.push(CollateralBalance { mint, amount }))
    }
}

/// The collateral balances after `amount` of `mint` went out; refused when the balance
/// is short or, for a position with open debt, when the remaining collateral no longer
/// covers it.
pub open spec fn withdraw_outcome(
    config: ProtocolConfig,
    account: UserDebtAccount,
    mint: Pubkey,
    price_feed: Pubkey,
    amount: u64,
    book: Seq<PricedFeed>,
) -> Result<Seq<CollateralBalance>, ErrorCode> {
    let cs = account.collateral_balances@;
    let j = index_of(collateral_info_mints(config.supported_collaterals@), mint);
    let k = index_of(collateral_mints(cs), mint);
    if j < 0 {
        Err(ErrorCode::UnsupportedCollateral)
    } else if config.supported_collaterals@[j].price_feed != price_feed {
        Err(ErrorCode::InvalidPriceFeed)
    } else if (k < 0 && amount > 0) || (k >= 0 && cs[k].amount < amount) {
        Err(ErrorCode::InsufficientCollateral)
    } else {
        let after = if k < 0 {
            cs
        } else {
            cs.update(k, CollateralBalance { mint, amount: (cs[k].amount - amount) as u64 })
        };
        if !has_open_debt(account.debt_balances@) {
            Ok(after)
        } else {
            match ltv_verdict(
                after,
                account.debt_balances@,
                config.supported_collaterals@,
                config.supported_borrows@,
                book,
            ) {
                Err(e) => Err(e),
                Ok(_) => Ok(after),
            }
        }
    }
}

/// A fresh protocol configuration with no assets.
pub fn initialize_protocol(admin: Pubkey, bump: u8) -> (r: ProtocolConfig)
    ensures
        r.wf(),
        r.admin == admin,
        r.treasury == admin,
        r.bump == bump,
        r.supported_collaterals@.len() == 0,
        r.supported_borrows@.len() == 0,
{
    ProtocolConfig {
        admin,
        treasury: admin,
        supported_collaterals: Vec::new(),
        supported_borrows: Vec::new(),
        bump,
    }
}

/// A fresh position with no collateral and no debt.
pub fn open_debt_account(owner: Pubkey, bump: u8) -> (r: UserDebtAccount)
    ensures
        r.wf(),
        r.owner == owner,
        r.bump == bump,
        r.collateral_balances@.len() == 0,
        r.debt_balances@.len() == 0,
{
    UserDebtAccount { owner, collateral_balances: Vec::new(), debt_balances: Vec::new(), bump }
}

/// Registers a collateral asset.
pub fn add_supported_collateral(
    config: &mut ProtocolConfig,
    mint: Pubkey,
    ltv: u64,
    liquidation_threshold: u64,
    liquidation_bonus: u64,
    price_feed: Pubkey,
) -> (r: Result<(), ErrorCode>)
    requires
        old(config).wf(),
    ensures
        final(config).wf(),
        r == (if index_of(collateral_info_mints(old(config).supported_collaterals@), mint) >= 0 {
            Err(ErrorCode::AssetAlreadySupported)
        } else if !collateral_params_valid(ltv, liquidation_threshold) {
            Err(ErrorCode::InvalidParameters)
        } else if old(config).supported_collaterals@.len() >= MAX_ENTRIES {
            Err(ErrorCode::CapacityExceeded)
        } else {
            Ok(())
        }),
        r is Err ==> *final(config) == *old(config),
        r is Ok ==> final(config).supported_collaterals@ == old(config).supported_collaterals@.push(
            CollateralInfo { mint, ltv, liquidation_threshold, liquidation_bonus, price_feed },
        ),
        final(config).supported_borrows == old(config).supported_borrows,
        final(config).admin == old(config).admin,
        final(config).treasury == old(config).treasury,
        final(config).bump == old(config).bump,
{
    if find_collateral_info(&config.supported_collaterals, mint).is_some() {
        return Err(ErrorCode::AssetAlreadySupported);
    }
    if !(ltv <= 10000 && ltv <= liquidation_threshold) {
        return Err(ErrorCode::InvalidParameters);
    }
    if config.supported_collaterals.len() >= MAX_ENTRIES {
        return Err(ErrorCode::CapacityExceeded);
    }
    proof {
        lemma_index_of(collateral_info_mints(config.supported_collaterals@), mint);
    }
    config.supported_collaterals.push(
        CollateralInfo { mint, ltv, liquidation_threshold, liquidation_bonus, price_feed },
    );
    proof {
        let s = config.supported_collaterals@;
        assert(collateral_info_mints(s) =~= collateral_info_mints(old(config).supported_collaterals@).push(mint));
        assert forall|i: int| 0 <= i < s.len() implies collateral_params_valid(
            #[trigger] s[i].ltv,
            s[i].liquidation_threshold,
        ) by {
            if i < s.len() - 1 {
                assert(s[i] == old(config).supported_collaterals@[i]);
            }
        }
    }
    Ok(())
}

/// Registers a borrowable asset, its index starting at 1.0 at time `now`.
pub fn add_supported_borrow(
    config: &mut ProtocolConfig,
    mint: Pubkey,
    base_rate: u64,
    optimal_utilization: u64,
    slope1: u64,
    slope2: u64,
    price_feed: Pubkey,
    now: u64,
) -> (r: Result<(), ErrorCode>)
    requires
        old(config).wf(),
    ensures
        final(config).wf(),
        r == (if index_of(borrow_info_mints(old(config).supported_borrows@), mint) >= 0 {
            Err(ErrorCode::AssetAlreadySupported)
        } else if !rate_model_valid(optimal_utilization) {
            Err(ErrorCode::InvalidParameters)
        } else if old(config).supported_borrows@.len() >= MAX_ENTRIES {
            Err(ErrorCode::CapacityExceeded)
        } else {
            Ok(())
        }),
        r is Err ==> *final(config) == *old(config),
        r is Ok ==> final(config).supported_borrows@ == old(config).supported_borrows@.push(
            BorrowAssetInfo {
                mint,
                base_rate,
                optimal_utilization,
                slope1,
                slope2,
                total_deposits: 0,
                total_borrows: 0,
                global_index: INDEX_SCALE,
                last_update_ts: now,
                price_feed,
            },
        ),
        final(config).supported_collaterals == old(config).supported_collaterals,
        final(config).admin == old(config).admin,
        final(config).treasury == old(config).treasury,
        final(config).bump == old(config).bump,
{
    if find_borrow_info(&config.supported_borrows, mint).is_some() {
        return Err(ErrorCode::AssetAlreadySupported);
    }
    if !(0 < optimal_utilization && optimal_utilization <= 10000) {
        return Err(ErrorCode::InvalidParameters);
    }
    if config.supported_borrows.len() >= MAX_ENTRIES {
        return Err(ErrorCode::CapacityExceeded);
    }
    proof {
        lemma_index_of(borrow_info_mints(config.supported_borrows@), mint);
    }
    config.supported_borrows.push(
        BorrowAssetInfo {
            mint,
            base_rate,
            optimal_utilization,
            slope1,
            slope2,
            total_deposits: 0,
            total_borrows: 0,
            global_index: INDEX_SCALE,
            last_update_ts: now,
            price_feed,
        },
    );
    proof {
        let s = config.supported_borrows@;
        assert(borrow_info_mints(s) =~= borrow_info_mints(old(config).supported_borrows@).push(mint));
        assert forall|i: int| 0 <= i < s.len() implies borrow_asset_valid(#[trigger] s[i]) by {
            if i < s.len() - 1 {
                assert(s[i] == old(config).supported_borrows@[i]);
            }
        }
    }
    Ok(())
}

/// Replaces the rate curve of a borrowable asset.
pub fn update_rate_model(
    config: &mut ProtocolConfig,
    mint: Pubkey,
    base_rate: u64,
    optimal_utilization: u64,
    slope1: u64,
    slope2: u64,
) -> (r: Result<(), ErrorCode>)
    requires
        old(config).wf(),
    ensures
        final(config).wf(),
        ({
            let bs = old(config).supported_borrows@;
            let j = index_of(borrow_info_mints(bs), mint);
            &&& r == (if j < 0 {
                Err(ErrorCode::UnsupportedBorrowAsset)
            } else if !rate_model_valid(optimal_utilization) {
                Err(ErrorCode::InvalidParameters)
            } else {
                Ok(())
            })
            &&& r is Ok ==> final(config).supported_borrows@ == bs.update(
                j,
                BorrowAssetInfo { base_rate, optimal_utilization, slope1, slope2, ..bs[j] },
            )
        }),
        r is Err ==> *final(config) == *old(config),
        final(config).supported_collaterals == old(config).supported_collaterals,
        final(config).admin == old(config).admin,
        final(config).treasury == old(config).treasury,
        final(config).bump == old(config).bump,
{
    let j = match find_borrow_info(&config.supported_borrows, mint) {
        Some(j) => j,
        None => return Err(ErrorCode::UnsupportedBorrowAsset),
    };
    if !(0 < optimal_utilization && optimal_utilization <= 10000) {
        return Err(ErrorCode::InvalidParameters);
    }
    let a = config.supported_borrows[j];
    config.supported_borrows[j] = BorrowAssetInfo {
        base_rate,
        optimal_utilization,
        slope1,
        slope2,
        ..a
    };
    proof {
        let s = config.supported_borrows@;
        assert(borrow_info_mints(s) =~= borrow_info_mints(old(config).supported_borrows@));
        assert forall|i: int| 0 <= i < s.len() implies borrow_asset_valid(#[trigger] s[i]) by {
            if i != j {
                assert(s[i] == old(config).supported_borrows@[i]);
            }
        }
    }
    Ok(())
}

/// Advances one asset's index to `now` at the rate of its curve.
pub fn accrue_asset(asset: &mut BorrowAssetInfo, now: u64) -> (r: Result<(), ErrorCode>)
    requires
        borrow_asset_valid(*old(asset)),
    ensures
        r is Ok ==> accrued_asset(*old(asset), now) == Ok::<BorrowAssetInfo, ErrorCode>(
            *final(asset),
        ),
        r is Err ==> *final(asset) == *old(asset) && accrued_asset(*old(asset), now)
            == Err::<BorrowAssetInfo, ErrorCode>(r->Err_0),
{
    if now <= asset.last_update_ts {
        return Ok(());
    }
    let utilization = calculate_utilization(asset.total_borrows, asset.total_deposits)?;
    let rate = calculate_borrow_rate(
        utilization,
        asset.base_rate,
        asset.optimal_utilization,
        asset.slope1,
        asset.slope2,
    )?;
    let annual_rate = calculate_annual_rate_from_borrow_rate(rate);
    let index = update_global_index(asset.global_index, annual_rate, asset.last_update_ts, now)?;
    asset.global_index = index;
    if now > asset.last_update_ts {
        asset.last_update_ts = now;
    }
    Ok(())
}

/// Accruing an asset a second time to the same moment leaves it as the first accrual did.
pub proof fn lemma_accrual_idempotent(a: BorrowAssetInfo, now: u64)
    requires
        accrued_asset(a, now) is Ok,
    ensures
        accrued_asset(accrued_asset(a, now)->Ok_0, now) == accrued_asset(a, now),
{
}

/// Accruing every asset a second time to the same moment changes nothing.
pub proof fn lemma_accrue_interest_idempotent(bs: Seq<BorrowAssetInfo>, now: u64)
    requires
        accrued_assets(bs, now) is Ok,
    ensures
        accrued_assets(accrued_assets(bs, now)->Ok_0, now) == accrued_assets(bs, now),
    decreases bs.len(),
{
    if bs.len() > 0 {
        lemma_accrue_interest_idempotent(bs.drop_last(), now);
        lemma_accrual_idempotent(bs.last(), now);
        let once = accrued_assets(bs, now)->Ok_0;
        assert(once.drop_last() =~= accrued_assets(bs.drop_last(), now)->Ok_0);
    }
}

/// Accrual to a moment no later than every asset's last update changes nothing.
pub proof fn lemma_accrue_interest_noop(bs: Seq<BorrowAssetInfo>, now: u64)
    requires
        forall|i: int| 0 <= i < bs.len() ==> now <= #[trigger] bs[i].last_update_ts,
    ensures
        accrued_assets(bs, now) == Ok::<Seq<BorrowAssetInfo>, ErrorCode>(bs),
    decreases bs.len(),
{
    if bs.len() > 0 {
        assert(forall|i: int| 0 <= i < bs.len() - 1 ==> bs.drop_last()[i] == bs[i]);
        lemma_accrue_interest_noop(bs.drop_last(), now);
        assert(now <= bs[bs.len() - 1].last_update_ts);
        assert(accrued_asset(bs.last(), now) == Ok::<BorrowAssetInfo, ErrorCode>(bs.last()));
        assert(bs.drop_last().push(bs.last()) =~= bs);
    } else {
        assert(bs =~= Seq::<BorrowAssetInfo>::empty());
    }
}

proof fn lemma_accrued_assets_err(bs: Seq<BorrowAssetInfo>, now: u64, i: int)
    requires
        0 <= i <= bs.len(),
        accrued_assets(bs.take(i), now) is Err,
    ensures
        accrued_assets(bs, now) == accrued_assets(bs.take(i), now),
    decreases bs.len(),
{
    if i == bs.len() {
        assert(bs.take(i) =~= bs);
    } else {
        assert(bs.drop_last().take(i) =~= bs.take(i));
        lemma_accrued_assets_err(bs.drop_last(), now, i);
    }
}

/// What accrual leaves of the configuration's list of borrowable assets: the mints,
/// rate curves and feeds stay.
proof fn lemma_accrued_assets_shape(bs: Seq<BorrowAssetInfo>, now: u64)
    requires
        accrued_assets(bs, now) is Ok,
    ensures
        accrued_assets(bs, now)->Ok_0.len() == bs.len(),
        forall|i: int|
            0 <= i < bs.len() ==> accrued_asset(#[trigger] bs[i], now) == Ok::<
                BorrowAssetInfo,
                ErrorCode,
            >(accrued_assets(bs, now)->Ok_0[i]),
    decreases bs.len(),
{
    if bs.len() > 0 {
        lemma_accrued_assets_shape(bs.drop_last(), now);
        assert forall|i: int| 0 <= i < bs.len() - 1 implies bs.drop_last()[i] == bs[i] by {}
    }
}

/// Advances the index of every registered borrowable asset to `now`; on failure nothing
/// changes.
pub fn accrue_interest(config: &mut ProtocolConfig, now: u64) -> (r: Result<(), ErrorCode>)
    requires
        old(config).wf(),
    ensures
        final(config).wf(),
        r is Ok ==> accrued_assets(old(config).supported_borrows@, now) == Ok::<
            Seq<BorrowAssetInfo>,
            ErrorCode,
        >(final(config).supported_borrows@),
        r is Err ==> *final(config) == *old(config) && accrued_assets(
            old(config).supported_borrows@,
            now,
        ) == Err::<Seq<BorrowAssetInfo>, ErrorCode>(r->Err_0),
        final(config).supported_collaterals == old(config).supported_collaterals,
        final(config).admin == old(config).admin,
        final(config).treasury == old(config).treasury,
        final(config).bump == old(config).bump,
{
    let ghost bs = config.supported_borrows@;
    let mut accrued: Vec<BorrowAssetInfo> = Vec::new();
    let mut i: usize = 0;
    while i < config.supported_borrows.len()
        invariant
            i <= bs.len(),
            bs == config.supported_borrows@,
            old(config).wf(),
            *config == *old(config),
            accrued_assets(bs.take(i as int), now) == Ok::<Seq<BorrowAssetInfo>, ErrorCode>(
                accrued@,
            ),
        decreases bs.len() - i,
    {
        proof {
            assert(bs.take(i + 1).drop_last() =~= bs.take(i as int));
            assert(borrow_asset_valid(bs[i as int]));
        }
        let mut asset = config.supported_borrows[i];
        match accrue_asset(&mut asset, now) {
            Ok(()) => {},
            Err(e) => {
                proof {
                    lemma_accrued_assets_err(bs, now, i + 1);
                }
                return Err(e);
            },
        }
        accrued.push(asset);
        i = i + 1;
    }
    proof {
        assert(bs.take(bs.len() as int) =~= bs);
        lemma_accrued_assets_shape(bs, now);
    }
    config.supported_borrows = accrued;
    proof {
        let s = config.supported_borrows@;
        assert(borrow_info_mints(s) =~= borrow_info_mints(bs));
        assert forall|i: int| 0 <= i < s.len() implies borrow_asset_valid(#[trigger] s[i]) by {
            assert(accrued_asset(bs[i], now) == Ok::<BorrowAssetInfo, ErrorCode>(s[i]));
            assert(borrow_asset_valid(bs[i]));
        }
    }
    Ok(())
}

/// Records a deposit of `amount` of `mint`; the tokens themselves are moved by the caller.
pub fn deposit_collateral(
    config: &ProtocolConfig,
    account: &mut UserDebtAccount,
    mint: Pubkey,
    price_feed: Pubkey,
    amount: u64,
) -> (r: Result<(), ErrorCode>)
    requires
        old(account).wf(),
    ensures
        final(account).wf(),
        ({
            let o = deposit_outcome(*config, old(account).collateral_balances@, mint, price_feed, amount);
            &&& r is Ok <==> o is Ok
            &&& r is Err ==> r->Err_0 == o->Err_0 && *final(account) == *old(account)
            &&& r is Ok ==> final(account).collateral_balances@ == o->Ok_0
        }),
        final(account).debt_balances == old(account).debt_balances,
        final(account).owner == old(account).owner,
        final(account).bump == old(account).bump,
{
    let j = match find_collateral_info(&config.supported_collaterals, mint) {
        Some(j) => j,
        None => return Err(ErrorCode::UnsupportedCollateral),
    };
    if config.supported_collaterals[j].price_feed != price_feed {
        return Err(ErrorCode::InvalidPriceFeed);
    }
    let ghost cs = account.collateral_balances@;
    match find_collateral_balance(&account.collateral_balances, mint) {
        Some(k) => {
            let held = account.collateral_balances[k].amount;
            let total = match held.checked_add(amount) {
                Some(t) => t,
                None => return Err(ErrorCode::MathOverflow),
            };
            account.collateral_balances[k] = CollateralBalance { mint, amount: total };
            proof {
                assert(collateral_mints(account.collateral_balances@) =~= collateral_mints(cs));
            }
        },
        None => {
            if account.collateral_balances.len() >= MAX_ENTRIES {
                return Err(ErrorCode::CapacityExceeded);
            }
            proof {
                lemma_index_of(collateral_mints(cs), mint);
            }
            account.collateral_balances.push(CollateralBalance { mint, amount });
            proof {
                assert(collateral_mints(account.collateral_balances@) =~= collateral_mints(cs).push(mint));
            }
        },
    }
    Ok(())
}

/// Records a withdrawal of `amount` of `mint`, checked against the position's debt at the
/// prices in `book`; the tokens themselves are moved by the caller.
pub fn withdraw_collateral(
    config: &ProtocolConfig,
    account: &mut UserDebtAccount,
    mint: Pubkey,
    price_feed: Pubkey,
    amount: u64,
    book: &Vec<PricedFeed>,
) -> (r: Result<(), ErrorCode>)
    requires
        old(account).wf(),
    ensures
        final(account).wf(),
        ({
            let o = withdraw_outcome(*config, *old(account), mint, price_feed, amount, book@);
            &&& r is Ok <==> o is Ok
            &&& r is Err ==> r->Err_0 == o->Err_0 && final(account).collateral_balances@ == old(
                account,
            ).collateral_balances@
            &&& r is Ok ==> final(account).collateral_balances@ == o->Ok_0
        }),
        final(account).debt_balances == old(account).debt_balances,
        final(account).owner == old(account).owner,
        final(account).bump == old(account).bump,
{
    let j = match find_collateral_info(&config.supported_collaterals, mint) {
        Some(j) => j,
        None => return Err(ErrorCode::UnsupportedCollateral),
    };
    if config.supported_collaterals[j].price_feed != price_feed {
        return Err(ErrorCode::InvalidPriceFeed);
    }
    let ghost cs = account.collateral_balances@;
    let slot = find_collateral_balance(&account.collateral_balances, mint);
    let mut held: u64 = 0;
    match slot {
        None => {
            if amount > 0 {
                return Err(ErrorCode::InsufficientCollateral);
            }
        },
        Some(k) => {
            held = account.collateral_balances[k].amount;
            if held < amount {
                return Err(ErrorCode::InsufficientCollateral);
            }
            account.collateral_balances[k] = CollateralBalance { mint, amount: held - amount };
            proof {
                assert(collateral_mints(account.collateral_balances@) =~= collateral_mints(cs));
            }
        },
    }
    if any_open_debt(&account.debt_balances) {
        let verdict = check_ltv(
            &account.collateral_balances,
            &account.debt_balances,
            &config.supported_collaterals,
            &config.supported_borrows,
            book,
        );
        if let Err(e) = verdict {
            if let Some(k) = slot {
                account.collateral_balances[k] = CollateralBalance { mint, amount: held };
            }
            proof {
                assert(account.collateral_balances@ =~= cs);
            }
            return Err(e);
        }
    }
    Ok(())
}

/// Part of one debt position that a single liquidation may repay, in basis points.
pub const MAX_LIQUIDATION_CLOSE_FACTOR: u64 = 5000;

/// What a liquidation settles: debt repaid by the liquidator and collateral handed over.
#[derive(PartialEq, Eq, Structural, Clone, Copy, Debug)]
pub struct LiquidationOutcome {
    pub repaid: u64,
    pub seized: u64,
}

/// Most of a debt that one liquidation may repay.
pub open spec fn max_liquidatable(owed: u64) -> int {
    owed as int * MAX_LIQUIDATION_CLOSE_FACTOR as int / 10000
}

/// The borrowable assets and debts once `amount` of `mint` is tentatively borrowed: the
/// presented feed must give a price; the asset is accrued and its total grows; the debt is projected to the new index and grows,
/// or is opened at that index.
pub open spec fn borrow_tentative(
    config: ProtocolConfig,
    account: UserDebtAccount,
    mint: Pubkey,
    price_feed: Pubkey,
    amount: u64,
    book: Seq<PricedFeed>,
    now: u64,
) -> Result<(Seq<BorrowAssetInfo>, Seq<DebtBalance>), ErrorCode> {
    let bs = config.supported_borrows@;
    let ds = account.debt_balances@;
    let j = index_of(borrow_info_mints(bs), mint);
    if j < 0 {
        Err(ErrorCode::UnsupportedBorrowAsset)
    } else if bs[j].price_feed != price_feed {
        Err(ErrorCode::InvalidPriceFeed)
    } else if book_price(book, price_feed) is Err {
        Err(book_price(book, price_feed)->Err_0)
    } else {
        match accrued_asset(bs[j], now) {
            Err(e) => Err(e),
            Ok(a) => if a.total_borrows as int + amount as int > u64::MAX as int {
                Err(ErrorCode::MathOverflow)
            } else {
                let bs2 = bs.update(
                    j,
                    BorrowAssetInfo { total_borrows: (a.total_borrows + amount) as u64, ..a },
                );
                let k = index_of(debt_mints(ds), mint);
                if k >= 0 {
                    match owed_amount(ds[k].principal, ds[k].interest_index_snapshot, a.global_index) {
                        Err(e) => Err(e),
                        Ok(owed) => if owed as int + amount as int > u64::MAX as int {
                            Err(ErrorCode::MathOverflow)
                        } else {
                            Ok(
                                (
                                    bs2,
                                    ds.update(
                                        k,
                                        DebtBalance {
                                            borrow_mint: mint,
                                            principal: (owed + amount) as u64,
                                            interest_index_snapshot: a.global_index,
                                        },
                                    ),
                                ),
                            )
                        },
                    }
                } else if ds.len() >= MAX_ENTRIES {
                    Err(ErrorCode::CapacityExceeded)
                } else {
                    Ok(
                        (
                            bs2,
                            ds.push(
                                DebtBalance {
                                    borrow_mint: mint,
                                    principal: amount,
                                    interest_index_snapshot: a.global_index,
                                },
                            ),
                        ),
                    )
                }
            },
        }
    }
}

/// The borrowable assets and debts after borrowing `amount` of `mint`: the tentative
/// state, kept only when the whole position then passes the LTV check.
pub open spec fn borrow_outcome(
    config: ProtocolConfig,
    account: UserDebtAccount,
    mint: Pubkey,
    price_feed: Pubkey,
    amount: u64,
    book: Seq<PricedFeed>,
    now: u64,
) -> Result<(Seq<BorrowAssetInfo>, Seq<DebtBalance>), ErrorCode> {
    match borrow_tentative(config, account, mint, price_feed, amount, book, now) {
        Err(e) => Err(e),
        Ok(t) => match ltv_verdict(
            account.collateral_balances@,
            t.1,
            config.supported_collaterals@,
            t.0,
            book,
        ) {
            Err(e) => Err(e),
            Ok(_) => Ok(t),
        },
    }
}

/// A borrow that leaves the position's debt value exactly at its LTV-weighted collateral
/// value goes through; one that leaves it above fails with `LTVExceeded` (and `borrow`
/// then keeps the state as it was).
pub proof fn lemma_borrow_ltv_boundary(
    config: ProtocolConfig,
    account: UserDebtAccount,
    mint: Pubkey,
    price_feed: Pubkey,
    amount: u64,
    book: Seq<PricedFeed>,
    now: u64,
)
    requires
        borrow_tentative(config, account, mint, price_feed, amount, book, now) is Ok,
    ensures
        ({
            let t = borrow_tentative(config, account, mint, price_feed, amount, book, now)->Ok_0;
            let c = ltv_collateral_value(
                account.collateral_balances@,
                config.supported_collaterals@,
                book,
            );
            let d = debt_value(t.1, t.0, book);
            let o = borrow_outcome(config, account, mint, price_feed, amount, book, now);
            &&& (c is Ok && d is Ok && d->Ok_0 == c->Ok_0) ==> o == Ok::<
                (Seq<BorrowAssetInfo>, Seq<DebtBalance>),
                ErrorCode,
            >(t)
            &&& (c is Ok && d is Ok && d->Ok_0 > c->Ok_0) ==> o == Err::<
                (Seq<BorrowAssetInfo>, Seq<DebtBalance>),
                ErrorCode,
            >(ErrorCode::LTVExceeded)
        }),
{
}

/// The borrowable assets, debts and amount repaid after repaying up to `amount` of
/// `mint`: the asset is accrued, at most the owed amount is repaid, the rest is
/// recorded as principal at the new index, and the asset's total shrinks by the amount
/// repaid; a total smaller than that amount is an underflow.
pub open spec fn repay_outcome(
    config: ProtocolConfig,
    account: UserDebtAccount,
    mint: Pubkey,
    price_feed: Pubkey,
    amount: u64,
    now: u64,
) -> Result<(Seq<BorrowAssetInfo>, Seq<DebtBalance>, u64), ErrorCode> {
    let bs = config.supported_borrows@;
    let ds = account.debt_balances@;
    let j = index_of(borrow_info_mints(bs), mint);
    let k = index_of(debt_mints(ds), mint);
    if j < 0 {
        Err(ErrorCode::UnsupportedBorrowAsset)
    } else if bs[j].price_feed != price_feed {
        Err(ErrorCode::InvalidPriceFeed)
    } else {
        match accrued_asset(bs[j], now) {
            Err(e) => Err(e),
            Ok(a) => if k < 0 {
                Err(ErrorCode::NoDebtToRepay)
            } else {
                match owed_amount(ds[k].principal, ds[k].interest_index_snapshot, a.global_index) {
                    Err(e) => Err(e),
                    Ok(owed) => {
                        let paid = if amount > owed {
                            owed
                        } else {
                            amount
                        };
                        if (a.total_borrows as int) < paid as int {
                            Err(ErrorCode::MathOverflow)
                        } else {
                        let total = (a.total_borrows - paid) as u64;
                        Ok(
                            (
                                bs.update(j, BorrowAssetInfo { total_borrows: total, ..a }),
                                ds.update(
                                    k,
                                    DebtBalance {
                                        borrow_mint: mint,
                                        principal: (owed - paid) as u64,
                                        interest_index_snapshot: a.global_index,
                                    },
                                ),
                                paid,
                            ),
                        )
                        }
                    },
                }
            },
        }
    }
}

/// The debts, collateral balances and settlement of a liquidation of `borrow_mint` debt
/// against `collateral_mint` collateral, refused for a healthy position.
pub open spec fn liquidation_outcome(
    config: ProtocolConfig,
    account: UserDebtAccount,
    collateral_mint: Pubkey,
    borrow_mint: Pubkey,
    collateral_price_feed: Pubkey,
    borrow_price_feed: Pubkey,
    amount: u64,
    book: Seq<PricedFeed>,
) -> Result<(Seq<DebtBalance>, Seq<CollateralBalance>, LiquidationOutcome), ErrorCode> {
    let cinfos = config.supported_collaterals@;
    let binfos = config.supported_borrows@;
    let cs = account.collateral_balances@;
    let ds = account.debt_balances@;
    let ci = index_of(collateral_info_mints(cinfos), collateral_mint);
    let bi = index_of(borrow_info_mints(binfos), borrow_mint);
    let k = index_of(debt_mints(ds), borrow_mint);
    let m = index_of(collateral_mints(cs), collateral_mint);
    if ci < 0 {
        Err(ErrorCode::UnsupportedCollateral)
    } else if cinfos[ci].price_feed != collateral_price_feed {
        Err(ErrorCode::InvalidPriceFeed)
    } else if bi < 0 {
        Err(ErrorCode::UnsupportedBorrowAsset)
    } else if binfos[bi].price_feed != borrow_price_feed {
        Err(ErrorCode::InvalidPriceFeed)
    } else {
        match liquidation_verdict(cs, ds, cinfos, binfos, book) {
            Err(e) => Err(e),
            Ok(_) => if k < 0 {
                Err(ErrorCode::NoDebtToRepay)
            } else {
                match owed_amount(
                    ds[k].principal,
                    ds[k].interest_index_snapshot,
                    binfos[bi].global_index,
                ) {
                    Err(e) => Err(e),
                    Ok(owed) => {
                        let repaid = if amount as int > max_liquidatable(owed) {
                            max_liquidatable(owed) as u64
                        } else {
                            amount
                        };
                        if repaid > ds[k].principal {
                            Err(ErrorCode::MathOverflow)
                        } else {
                            match book_price(book, borrow_price_feed) {
                                Err(e) => Err(e),
                                Ok(bp) => match book_price(book, collateral_price_feed) {
                                    Err(e) => Err(e),
                                    Ok(cp) => {
                                        let seize_value = repaid as int * bp as int * (10000
                                            + cinfos[ci].liquidation_bonus as int) / 10000;
                                        let held = if m >= 0 {
                                            cs[m].amount as int
                                        } else {
                                            0
                                        };
                                        if cp == 0 {
                                            Err(ErrorCode::InvalidPrice)
                                        } else if repaid as int * bp as int * (10000
                                            + cinfos[ci].liquidation_bonus as int) > u128::MAX as int {
                                            Err(ErrorCode::MathOverflow)
                                        } else if seize_value / cp as int > u64::MAX as int {
                                            Err(ErrorCode::MathOverflow)
                                        } else if seize_value / cp as int > held {
                                            Err(ErrorCode::InsufficientCollateral)
                                        } else {
                                            let seized = (seize_value / cp as int) as u64;
                                            let ds2 = ds.update(
                                                k,
                                                DebtBalance {
                                                    principal: (ds[k].principal - repaid) as u64,
                                                    ..ds[k]
                                                },
                                            );
                                            let cs2 = if m >= 0 {
                                                cs.update(
                                                    m,
                                                    CollateralBalance {
                                                        mint: collateral_mint,
                                                        amount: (cs[m].amount - seized) as u64,
                                                    },
                                                )
                                            } else {
                                                cs
                                            };
                                            Ok((ds2, cs2, LiquidationOutcome { repaid, seized }))
                                        }
                                    },
                                },
                            }
                        }
                    },
                }
            },
        }
    }
}

/// Records a loan of `amount` of `mint`: accrues the asset, grows the debt, and checks
/// the whole position against the prices in `book`. On failure nothing changes; the
/// tokens themselves are minted by the caller.
pub fn borrow(
    config: &mut ProtocolConfig,
    account: &mut UserDebtAccount,
    mint: Pubkey,
    price_feed: Pubkey,
    amount: u64,
    book: &Vec<PricedFeed>,
    now: u64,
) -> (r: Result<(), ErrorCode>)
    requires
        old(config).wf(),
        old(account).wf(),
    ensures
        final(config).wf(),
        final(account).wf(),
        ({
            let o = borrow_outcome(*old(config), *old(account), mint, price_feed, amount, book@, now);
            &&& r is Ok <==> o is Ok
            &&& r is Err ==> r->Err_0 == o->Err_0
                && final(config).supported_borrows@ == old(config).supported_borrows@
                && final(account).debt_balances@ == old(account).debt_balances@
            &&& r is Ok ==> final(config).supported_borrows@ == o->Ok_0.0
                && final(account).debt_balances@ == o->Ok_0.1
        }),
        final(config).supported_collaterals == old(config).supported_collaterals,
        final(config).admin == old(config).admin,
        final(config).treasury == old(config).treasury,
        final(config).bump == old(config).bump,
        final(account).collateral_balances == old(account).collateral_balances,
        final(account).owner == old(account).owner,
        final(account).bump == old(account).bump,
{
    let ghost bs = config.supported_borrows@;
    let ghost ds = account.debt_balances@;
    let j = match find_borrow_info(&config.supported_borrows, mint) {
        Some(j) => j,
        None => return Err(ErrorCode::UnsupportedBorrowAsset),
    };
    let stored = config.supported_borrows[j];
    if stored.price_feed != price_feed {
        return Err(ErrorCode::InvalidPriceFeed);
    }
    price_of_feed(book, price_feed)?;
    proof {
        assert(borrow_asset_valid(bs[j as int]));
    }
    let mut asset = stored;
    accrue_asset(&mut asset, now)?;
    let index = asset.global_index;
    asset.total_borrows = match asset.total_borrows.checked_add(amount) {
        Some(t) => t,
        None => return Err(ErrorCode::MathOverflow),
    };
    let slot = find_debt_balance(&account.debt_balances, mint);
    let entry = match slot {
        Some(k) => {
            let d = account.debt_balances[k];
            let owed = calculate_owed_amount(d.principal, d.interest_index_snapshot, index)?;
            let principal = match owed.checked_add(amount) {
                Some(p) => p,
                None => return Err(ErrorCode::MathOverflow),
            };
            DebtBalance { borrow_mint: mint, principal, interest_index_snapshot: index }
        },
        None => {
            if account.debt_balances.len() >= MAX_ENTRIES {
                return Err(ErrorCode::CapacityExceeded);
            }
            DebtBalance { borrow_mint: mint, principal: amount, interest_index_snapshot: index }
        },
    };
    let previous = match slot {
        Some(k) => account.debt_balances[k],
        None => entry,
    };
    config.supported_borrows[j] = asset;
    match slot {
        Some(k) => {
            account.debt_balances[k] = entry;
        },
        None => {
            account.debt_balances.push(entry);
        },
    }
    proof {
        assert(borrow_info_mints(config.supported_borrows@) =~= borrow_info_mints(bs));
        assert forall|i: int| 0 <= i < config.supported_borrows@.len() implies borrow_asset_valid(
            #[trigger] config.supported_borrows@[i],
        ) by {
            if i != j {
                assert(config.supported_borrows@[i] == bs[i]);
            }
        }
        if slot is Some {
            assert(debt_mints(account.debt_balances@) =~= debt_mints(ds));
        } else {
            lemma_index_of(debt_mints(ds), mint);
            assert(debt_mints(account.debt_balances@) =~= debt_mints(ds).push(mint));
        }
    }
    let verdict = check_ltv(
        &account.collateral_balances,
        &account.debt_balances,
        &config.supported_collaterals,
        &config.supported_borrows,
        book,
    );
    if let Err(e) = verdict {
        config.supported_borrows[j] = stored;
        match slot {
            Some(k) => {
                account.debt_balances[k] = previous;
            },
            None => {
                account.debt_balances.pop();
            },
        }
        proof {
            assert(config.supported_borrows@ =~= bs);
            assert(account.debt_balances@ =~= ds);
        }
        return Err(e);
    }
    Ok(())
}

/// Records a repayment of up to `amount` of `mint` and returns the amount repaid, which
/// the caller burns from the user.
pub fn repay(
    config: &mut ProtocolConfig,
    account: &mut UserDebtAccount,
    mint: Pubkey,
    price_feed: Pubkey,
    amount: u64,
    now: u64,
) -> (r: Result<u64, ErrorCode>)
    requires
        old(config).wf(),
        old(account).wf(),
    ensures
        final(config).wf(),
        final(account).wf(),
        ({
            let o = repay_outcome(*old(config), *old(account), mint, price_feed, amount, now);
            &&& r is Ok <==> o is Ok
            &&& r is Err ==> r->Err_0 == o->Err_0
                && final(config).supported_borrows@ == old(config).supported_borrows@
                && final(account).debt_balances@ == old(account).debt_balances@
            &&& r is Ok ==> final(config).supported_borrows@ == o->Ok_0.0
                && final(account).debt_balances@ == o->Ok_0.1 && r->Ok_0 == o->Ok_0.2
        }),
        final(config).supported_collaterals == old(config).supported_collaterals,
        final(config).admin == old(config).admin,
        final(config).treasury == old(config).treasury,
        final(config).bump == old(config).bump,
        final(account).collateral_balances == old(account).collateral_balances,
        final(account).owner == old(account).owner,
        final(account).bump == old(account).bump,
{
    let ghost bs = config.supported_borrows@;
    let ghost ds = account.debt_balances@;
    let j = match find_borrow_info(&config.supported_borrows, mint) {
        Some(j) => j,
        None => return Err(ErrorCode::UnsupportedBorrowAsset),
    };
    let mut asset = config.supported_borrows[j];
    if asset.price_feed != price_feed {
        return Err(ErrorCode::InvalidPriceFeed);
    }
    proof {
        assert(borrow_asset_valid(bs[j as int]));
    }
    accrue_asset(&mut asset, now)?;
    let index = asset.global_index;
    let k = match find_debt_balance(&account.debt_balances, mint) {
        Some(k) => k,
        None => return Err(ErrorCode::NoDebtToRepay),
    };
    let d = account.debt_balances[k];
    let owed = calculate_owed_amount(d.principal, d.interest_index_snapshot, index)?;
    let paid = if amount > owed {
        owed
    } else {
        amount
    };
    asset.total_borrows = match asset.total_borrows.checked_sub(paid) {
        Some(t) => t,
        None => return Err(ErrorCode::MathOverflow),
    };
    config.supported_borrows[j] = asset;
    account.debt_balances[k] = DebtBalance {
        borrow_mint: mint,
        principal: owed - paid,
        interest_index_snapshot: index,
    };
    proof {
        assert(borrow_info_mints(config.supported_borrows@) =~= borrow_info_mints(bs));
        assert forall|i: int| 0 <= i < config.supported_borrows@.len() implies borrow_asset_valid(
            #[trigger] config.supported_borrows@[i],
        ) by {
            if i != j {
                assert(config.supported_borrows@[i] == bs[i]);
            }
        }
        assert(debt_mints(account.debt_balances@) =~= debt_mints(ds));
    }
    Ok(paid)
}

/// Liquidates part of an unhealthy position: repays up to `amount` of its `borrow_mint`
/// debt (at most the close factor of what is owed) and seizes collateral worth that
/// much plus the asset's bonus. A healthy position is refused with `Unauthorized`;
/// on failure nothing changes. The caller burns `repaid` from the liquidator and
/// hands `seized` of the collateral over.
pub fn liquidate(
    config: &ProtocolConfig,
    account: &mut UserDebtAccount,
    collateral_mint: Pubkey,
    borrow_mint: Pubkey,
    collateral_price_feed: Pubkey,
    borrow_price_feed: Pubkey,
    amount: u64,
    book: &Vec<PricedFeed>,
) -> (r: Result<LiquidationOutcome, ErrorCode>)
    requires
        old(account).wf(),
    ensures
        final(account).wf(),
        ({
            let o = liquidation_outcome(
                *config,
                *old(account),
                collateral_mint,
                borrow_mint,
                collateral_price_feed,
                borrow_price_feed,
                amount,
                book@,
            );
            &&& r is Ok <==> o is Ok
            &&& r is Err ==> r->Err_0 == o->Err_0 && final(account).debt_balances@ == old(
                account,
            ).debt_balances@ && final(account).collateral_balances@ == old(
                account,
            ).collateral_balances@
            &&& r is Ok ==> final(account).debt_balances@ == o->Ok_0.0
                && final(account).collateral_balances@ == o->Ok_0.1 && r->Ok_0 == o->Ok_0.2
        }),
        liquidation_verdict(
            old(account).collateral_balances@,
            old(account).debt_balances@,
            config.supported_collaterals@,
            config.supported_borrows@,
            book@,
        ) is Err ==> r is Err,
        r is Ok ==> ({
            let ds = old(account).debt_balances@;
            let k = index_of(debt_mints(ds), borrow_mint);
            let bi = index_of(borrow_info_mints(config.supported_borrows@), borrow_mint);
            &&& 0 <= k < ds.len()
            &&& 0 <= bi < config.supported_borrows@.len()
            &&& r->Ok_0.repaid <= amount
            &&& r->Ok_0.repaid as int <= max_liquidatable(
                owed_amount(
                    ds[k].principal,
                    ds[k].interest_index_snapshot,
                    config.supported_borrows@[bi].global_index,
                )->Ok_0,
            )
        }),
        final(account).owner == old(account).owner,
        final(account).bump == old(account).bump,
{
    let ghost cs = account.collateral_balances@;
    let ghost ds = account.debt_balances@;
    let ci = match find_collateral_info(&config.supported_collaterals, collateral_mint) {
        Some(i) => i,
        None => return Err(ErrorCode::UnsupportedCollateral),
    };
    let cinfo = config.supported_collaterals[ci];
    if cinfo.price_feed != collateral_price_feed {
        return Err(ErrorCode::InvalidPriceFeed);
    }
    let bi = match find_borrow_info(&config.supported_borrows, borrow_mint) {
        Some(i) => i,
        None => return Err(ErrorCode::UnsupportedBorrowAsset),
    };
    let binfo = config.supported_borrows[bi];
    if binfo.price_feed != borrow_price_feed {
        return Err(ErrorCode::InvalidPriceFeed);
    }
    check_liquidatable(
        &account.collateral_balances,
        &account.debt_balances,
        &config.supported_collaterals,
        &config.supported_borrows,
        book,
    )?;
    let k = match find_debt_balance(&account.debt_balances, borrow_mint) {
        Some(k) => k,
        None => return Err(ErrorCode::NoDebtToRepay),
    };
    let d = account.debt_balances[k];
    let owed = calculate_owed_amount(d.principal, d.interest_index_snapshot, binfo.global_index)?;
    proof {
        assert(owed as int * 5000 <= u128::MAX as int) by (nonlinear_arith)
            requires
                owed <= u64::MAX,
        ;
        assert(owed as int * 5000 / 10000 <= owed as int) by (nonlinear_arith)
            requires
                owed >= 0,
        ;
    }
    let max_repay = (owed as u128) * (MAX_LIQUIDATION_CLOSE_FACTOR as u128) / 10000;
    let repaid: u64 = if (amount as u128) > max_repay {
        max_repay as u64
    } else {
        amount
    };
    if repaid > d.principal {
        return Err(ErrorCode::MathOverflow);
    }
    let borrow_price = price_of_feed(book, borrow_price_feed)?;
    let collateral_price = price_of_feed(book, collateral_price_feed)?;
    if collateral_price == 0 {
        return Err(ErrorCode::InvalidPrice);
    }
    proof {
        assert(repaid as int * borrow_price as int <= u128::MAX as int) by (nonlinear_arith)
            requires
                repaid <= u64::MAX,
                borrow_price <= u64::MAX,
        ;
    }
    let borrow_value = (repaid as u128) * (borrow_price as u128);
    let bonus_factor = 10000u128 + cinfo.liquidation_bonus as u128;
    let gross = match borrow_value.checked_mul(bonus_factor) {
        Some(g) => g,
        None => return Err(ErrorCode::MathOverflow),
    };
    let seize_value = gross / 10000;
    let seize_amount = seize_value / (collateral_price as u128);
    if seize_amount > u64::MAX as u128 {
        return Err(ErrorCode::MathOverflow);
    }
    let seized = seize_amount as u64;
    let slot = find_collateral_balance(&account.collateral_balances, collateral_mint);
    match slot {
        Some(m) => {
            let held = account.collateral_balances[m].amount;
            if seized > held {
                return Err(ErrorCode::InsufficientCollateral);
            }
            account.collateral_balances[m] = CollateralBalance {
                mint: collateral_mint,
                amount: held - seized,
            };
        },
        None => {
            if seized > 0 {
                return Err(ErrorCode::InsufficientCollateral);
            }
        },
    }
    account.debt_balances[k] = DebtBalance { principal: d.principal - repaid, ..d };
    proof {
        assert(collateral_mints(account.collateral_balances@) =~= collateral_mints(cs));
        assert(debt_mints(account.debt_balances@) =~= debt_mints(ds));
    }
    Ok(LiquidationOutcome { repaid, seized })
}

} // verus!
