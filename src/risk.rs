use vstd::prelude::*;

use crate::errors::ErrorCode;
use crate::math::{calculate_owed_amount, owed_amount};
use crate::oracle::{get_price_from_feed, normalized_price};
use crate::state::{
    borrow_info_mints, collateral_info_mints, feed_keys, find_borrow_info, find_collateral_info,
    find_feed, index_of, BorrowAssetInfo, CollateralBalance, CollateralInfo, DebtBalance, PricedFeed,
    Pubkey,
};

verus! {

/// Basis-point denominator of loan-to-value ratios and thresholds.
pub const BPS: u128 = 10000;

/// Price, with six decimals, of the feed with address `feed` among the readings supplied.
pub open spec fn book_price(book: Seq<PricedFeed>, feed: Pubkey) -> Result<u64, ErrorCode> {
    let i = index_of(feed_keys(book), feed);
    if i < 0 {
        Err(ErrorCode::InvalidPriceFeed)
    } else {
        normalized_price(book[i].reading)
    }
}

/// Sum over the collateral balances of `amount * price * ltv / 10000`; balances of assets
/// no longer supported count for nothing. Fails at the first balance whose price cannot
/// be had, or when a value leaves 128 bits.
pub open spec fn ltv_collateral_value(
    cs: Seq<CollateralBalance>,
    infos: Seq<CollateralInfo>,
    book: Seq<PricedFeed>,
) -> Result<u128, ErrorCode>
    decreases cs.len(),
{
    if cs.len() == 0 {
        Ok(0)
    } else {
        match ltv_collateral_value(cs.drop_last(), infos, book) {
            Err(e) => Err(e),
            Ok(acc) => {
                let c = cs.last();
                let j = index_of(collateral_info_mints(infos), c.mint);
                if j < 0 {
                    Ok(acc)
                } else {
                    match book_price(book, infos[j].price_feed) {
                        Err(e) => Err(e),
                        Ok(p) => {
                            let weighted = c.amount as int * p as int * infos[j].ltv as int;
                            let total = acc as int + weighted / BPS as int;
                            if weighted > u128::MAX as int || total > u128::MAX as int {
                                Err(ErrorCode::MathOverflow)
                            } else {
                                Ok(total as u128)
                            }
                        },
                    }
                }
            },
        }
    }
}

/// Sum over the debts of `owed * price`, the owed amount projected to the asset's
/// current index; debts of assets no longer supported, and settled debts, count for nothing.
pub open spec fn debt_value(
    ds: Seq<DebtBalance>,
    infos: Seq<BorrowAssetInfo>,
    book: Seq<PricedFeed>,
) -> Result<u128, ErrorCode>
    decreases ds.len(),
{
    if ds.len() == 0 {
        Ok(0)
    } else {
        match debt_value(ds.drop_last(), infos, book) {
            Err(e) => Err(e),
            Ok(acc) => {
                let d = ds.last();
                let j = index_of(borrow_info_mints(infos), d.borrow_mint);
                if j < 0 || d.principal == 0 {
                    Ok(acc)
                } else {
                    match book_price(book, infos[j].price_feed) {
                        Err(e) => Err(e),
                        Ok(p) => match owed_amount(
                            d.principal,
                            d.interest_index_snapshot,
                            infos[j].global_index,
                        ) {
                            Err(e) => Err(e),
                            Ok(owed) => {
                                let total = acc as int + owed as int * p as int;
                                if total > u128::MAX as int {
                                    Err(ErrorCode::MathOverflow)
                                } else {
                                    Ok(total as u128)
                                }
                            },
                        },
                    }
                }
            },
        }
    }
}

/// The pair (sum of `amount * price`, sum of `amount * price * liquidation_threshold`)
/// over the collateral balances of supported assets.
pub open spec fn threshold_values(
    cs: Seq<CollateralBalance>,
    infos: Seq<CollateralInfo>,
    book: Seq<PricedFeed>,
) -> Result<(u128, u128), ErrorCode>
    decreases cs.len(),
{
    if cs.len() == 0 {
        Ok((0, 0))
    } else {
        match threshold_values(cs.drop_last(), infos, book) {
            Err(e) => Err(e),
            Ok(acc) => {
                let c = cs.last();
                let j = index_of(collateral_info_mints(infos), c.mint);
                if j < 0 {
                    Ok(acc)
                } else {
                    match book_price(book, infos[j].price_feed) {
                        Err(e) => Err(e),
                        Ok(p) => {
                            let value = c.amount as int * p as int;
                            let value_total = acc.0 as int + value;
                            let weighted_total = acc.1 as int + value
                                * infos[j].liquidation_threshold as int;
                            if value_total > u128::MAX as int || weighted_total > u128::MAX as int {
                                Err(ErrorCode::MathOverflow)
                            } else {
                                Ok((value_total as u128, weighted_total as u128))
                            }
                        },
                    }
                }
            },
        }
    }
}

/// Verdict of the borrow/withdraw check: debt value within the LTV-weighted collateral value.
pub open spec fn ltv_verdict(
    cs: Seq<CollateralBalance>,
    ds: Seq<DebtBalance>,
    cinfos: Seq<CollateralInfo>,
    binfos: Seq<BorrowAssetInfo>,
    book: Seq<PricedFeed>,
) -> Result<(), ErrorCode> {
    match ltv_collateral_value(cs, cinfos, book) {
        Err(e) => Err(e),
        Ok(c) => match debt_value(ds, binfos, book) {
            Err(e) => Err(e),
            Ok(d) => if d > c {
                Err(ErrorCode::LTVExceeded)
            } else {
                Ok(())
            },
        },
    }
}

/// Collateral-value-weighted average liquidation threshold (0 without collateral).
pub open spec fn weighted_threshold_of(collateral_value: u128, weighted_numerator: u128) -> int {
    if collateral_value > 0 {
        weighted_numerator as int / collateral_value as int
    } else {
        0
    }
}

/// Verdict of the liquidation check: `Ok` exactly for an unhealthy position, one whose
/// `debt_value * 10000` reaches `collateral_value * weighted_threshold`.
pub open spec fn liquidation_verdict(
    cs: Seq<CollateralBalance>,
    ds: Seq<DebtBalance>,
    cinfos: Seq<CollateralInfo>,
    binfos: Seq<BorrowAssetInfo>,
    book: Seq<PricedFeed>,
) -> Result<(), ErrorCode> {
    match threshold_values(cs, cinfos, book) {
        Err(e) => Err(e),
        Ok(t) => match debt_value(ds, binfos, book) {
            Err(e) => Err(e),
            Ok(d) => if (d as int) * (BPS as int) < (t.0 as int) * weighted_threshold_of(t.0, t.1) {
                Err(ErrorCode::Unauthorized)
            } else {
                Ok(())
            },
        },
    }
}

proof fn lemma_ltv_value_err(
    cs: Seq<CollateralBalance>,
    infos: Seq<CollateralInfo>,
    book: Seq<PricedFeed>,
    i: int,
)
    requires
        0 <= i <= cs.len(),
        ltv_collateral_value(cs.take(i), infos, book) is Err,
    ensures
        ltv_collateral_value(cs, infos, book) == ltv_collateral_value(cs.take(i), infos, book),
    decreases cs.len(),
{
    if i == cs.len() {
        assert(cs.take(i) =~= cs);
    } else {
        assert(cs.drop_last().take(i) =~= cs.take(i));
        lemma_ltv_value_err(cs.drop_last(), infos, book, i);
    }
}

proof fn lemma_debt_value_err(
    ds: Seq<DebtBalance>,
    infos: Seq<BorrowAssetInfo>,
    book: Seq<PricedFeed>,
    i: int,
)
    requires
        0 <= i <= ds.len(),
        debt_value(ds.take(i), infos, book) is Err,
    ensures
        debt_value(ds, infos, book) == debt_value(ds.take(i), infos, book),
    decreases ds.len(),
{
    if i == ds.len() {
        assert(ds.take(i) =~= ds);
    } else {
        assert(ds.drop_last().take(i) =~= ds.take(i));
        lemma_debt_value_err(ds.drop_last(), infos, book, i);
    }
}

proof fn lemma_threshold_values_err(
    cs: Seq<CollateralBalance>,
    infos: Seq<CollateralInfo>,
    book: Seq<PricedFeed>,
    i: int,
)
    requires
        0 <= i <= cs.len(),
        threshold_values(cs.take(i), infos, book) is Err,
    ensures
        threshold_values(cs, infos, book) == threshold_values(cs.take(i), infos, book),
    decreases cs.len(),
{
    if i == cs.len() {
        assert(cs.take(i) =~= cs);
    } else {
        assert(cs.drop_last().take(i) =~= cs.take(i));
        lemma_threshold_values_err(cs.drop_last(), infos, book, i);
    }
}

/// Price of the feed `feed` among the readings supplied.
pub fn price_of_feed(book: &Vec<PricedFeed>, feed: Pubkey) -> (r: Result<u64, ErrorCode>)
    ensures
        r == book_price(book@, feed),
{
    match find_feed(book, feed) {
        None => Err(ErrorCode::InvalidPriceFeed),
        Some(i) => get_price_from_feed(&book[i].reading),
    }
}

/// Collateral value of a position weighted by each asset's loan-to-value ratio.
pub fn collateral_value_with_ltv(
    cs: &Vec<CollateralBalance>,
    infos: &Vec<CollateralInfo>,
    book: &Vec<PricedFeed>,
) -> (r: Result<u128, ErrorCode>)
    ensures
        r == ltv_collateral_value(cs@, infos@, book@),
{
    let mut acc: u128 = 0;
    let mut i: usize = 0;
    while i < cs.len()
        invariant
            i <= cs@.len(),
            ltv_collateral_value(cs@.take(i as int), infos@, book@) == Ok::<u128, ErrorCode>(acc),
        decreases cs@.len() - i,
    {
        proof {
            assert(cs@.take(i + 1).drop_last() =~= cs@.take(i as int));
        }
        let c = cs[i];
        if let Some(j) = find_collateral_info(infos, c.mint) {
            let info = infos[j];
            let p = match price_of_feed(book, info.price_feed) {
                Ok(p) => p,
                Err(e) => {
                    proof {
                        lemma_ltv_value_err(cs@, infos@, book@, i + 1);
                    }
                    return Err(e);
                },
            };
            proof {
                assert(c.amount as int * p as int <= u128::MAX as int) by (nonlinear_arith)
                    requires
                        c.amount <= u64::MAX,
                        p <= u64::MAX,
                ;
            }
            let value = (c.amount as u128) * (p as u128);
            let weighted = match value.checked_mul(info.ltv as u128) {
                Some(w) => w,
                None => {
                    proof {
                        lemma_ltv_value_err(cs@, infos@, book@, i + 1);
                    }
                    return Err(ErrorCode::MathOverflow);
                },
            };
            acc = match acc.checked_add(weighted / BPS) {
                Some(t) => t,
                None => {
                    proof {
                        lemma_ltv_value_err(cs@, infos@, book@, i + 1);
                    }
                    return Err(ErrorCode::MathOverflow);
                },
            };
        }
        i = i + 1;
    }
    proof {
        assert(cs@.take(cs@.len() as int) =~= cs@);
    }
    Ok(acc)
}

/// Value of a position's debts at the assets' current indices.
pub fn total_debt_value(
    ds: &Vec<DebtBalance>,
    infos: &Vec<BorrowAssetInfo>,
    book: &Vec<PricedFeed>,
) -> (r: Result<u128, ErrorCode>)
    ensures
        r == debt_value(ds@, infos@, book@),
{
    let mut acc: u128 = 0;
    let mut i: usize = 0;
    while i < ds.len()
        invariant
            i <= ds@.len(),
            debt_value(ds@.take(i as int), infos@, book@) == Ok::<u128, ErrorCode>(acc),
        decreases ds@.len() - i,
    {
        proof {
            assert(ds@.take(i + 1).drop_last() =~= ds@.take(i as int));
        }
        let d = ds[i];
        let found = if d.principal == 0 {
            None
        } else {
            find_borrow_info(infos, d.borrow_mint)
        };
        if let Some(j) = found {
            let info = infos[j];
            let p = match price_of_feed(book, info.price_feed) {
                Ok(p) => p,
                Err(e) => {
                    proof {
                        lemma_debt_value_err(ds@, infos@, book@, i + 1);
                    }
                    return Err(e);
                },
            };
            let owed = match calculate_owed_amount(
                d.principal,
                d.interest_index_snapshot,
                info.global_index,
            ) {
                Ok(o) => o,
                Err(e) => {
                    proof {
                        lemma_debt_value_err(ds@, infos@, book@, i + 1);
                    }
                    return Err(e);
                },
            };
            proof {
                assert(owed as int * p as int <= u128::MAX as int) by (nonlinear_arith)
                    requires
                        owed <= u64::MAX,
                        p <= u64::MAX,
                ;
            }
            acc = match acc.checked_add((owed as u128) * (p as u128)) {
                Some(t) => t,
                None => {
                    proof {
                        lemma_debt_value_err(ds@, infos@, book@, i + 1);
                    }
                    return Err(ErrorCode::MathOverflow);
                },
            };
        }
        i = i + 1;
    }
    proof {
        assert(ds@.take(ds@.len() as int) =~= ds@);
    }
    Ok(acc)
}

/// Collateral value and threshold-weighted collateral value of a position.
pub fn collateral_threshold_values(
    cs: &Vec<CollateralBalance>,
    infos: &Vec<CollateralInfo>,
    book: &Vec<PricedFeed>,
) -> (r: Result<(u128, u128), ErrorCode>)
    ensures
        r == threshold_values(cs@, infos@, book@),
{
    let mut total: u128 = 0;
    let mut numerator: u128 = 0;
    let mut i: usize = 0;
    while i < cs.len()
        invariant
            i <= cs@.len(),
            threshold_values(cs@.take(i as int), infos@, book@) == Ok::<(u128, u128), ErrorCode>(
                (total, numerator),
            ),
        decreases cs@.len() - i,
    {
        proof {
            assert(cs@.take(i + 1).drop_last() =~= cs@.take(i as int));
        }
        let c = cs[i];
        if let Some(j) = find_collateral_info(infos, c.mint) {
            let info = infos[j];
            let p = match price_of_feed(book, info.price_feed) {
                Ok(p) => p,
                Err(e) => {
                    proof {
                        lemma_threshold_values_err(cs@, infos@, book@, i + 1);
                    }
                    return Err(e);
                },
            };
            proof {
                assert(c.amount as int * p as int <= u128::MAX as int) by (nonlinear_arith)
                    requires
                        c.amount <= u64::MAX,
                        p <= u64::MAX,
                ;
            }
            let value = (c.amount as u128) * (p as u128);
            let next_total = total.checked_add(value);
            let weighted = value.checked_mul(info.liquidation_threshold as u128);
            let next_numerator = match weighted {
                Some(w) => numerator.checked_add(w),
                None => None,
            };
            match (next_total, next_numerator) {
                (Some(t), Some(n)) => {
                    total = t;
                    numerator = n;
                },
                _ => {
                    proof {
                        lemma_threshold_values_err(cs@, infos@, book@, i + 1);
                    }
                    return Err(ErrorCode::MathOverflow);
                },
            }
        }
        i = i + 1;
    }
    proof {
        assert(cs@.take(cs@.len() as int) =~= cs@);
    }
    Ok((total, numerator))
}

/// The borrow/withdraw health check: passes when the debt value does not exceed the
/// LTV-weighted collateral value.
pub fn check_ltv(
    cs: &Vec<CollateralBalance>,
    ds: &Vec<DebtBalance>,
    cinfos: &Vec<CollateralInfo>,
    binfos: &Vec<BorrowAssetInfo>,
    book: &Vec<PricedFeed>,
) -> (r: Result<(), ErrorCode>)
    ensures
        r == ltv_verdict(cs@, ds@, cinfos@, binfos@, book@),
{
    let collateral = collateral_value_with_ltv(cs, cinfos, book)?;
    let debt = total_debt_value(ds, binfos, book)?;
    if debt > collateral {
        return Err(ErrorCode::LTVExceeded);
    }
    Ok(())
}

/// The liquidation check: passes only for a position whose debt value reaches its
/// threshold-weighted collateral value; a healthy one is refused with `Unauthorized`.
pub fn check_liquidatable(
    cs: &Vec<CollateralBalance>,
    ds: &Vec<DebtBalance>,
    cinfos: &Vec<CollateralInfo>,
    binfos: &Vec<BorrowAssetInfo>,
    book: &Vec<PricedFeed>,
) -> (r: Result<(), ErrorCode>)
    ensures
        r == liquidation_verdict(cs@, ds@, cinfos@, binfos@, book@),
{
    let (collateral, numerator) = collateral_threshold_values(cs, cinfos, book)?;
    let debt = total_debt_value(ds, binfos, book)?;
    let weighted_threshold: u128 = if collateral > 0 {
        numerator / collateral
    } else {
        0
    };
    proof {
        if collateral > 0 {
            vstd::arithmetic::div_mod::lemma_fundamental_div_mod(
                numerator as int,
                collateral as int,
            );
            vstd::arithmetic::div_mod::lemma_mod_pos_bound(numerator as int, collateral as int);
        }
        assert(collateral as int * weighted_threshold as int <= numerator as int);
    }
    let bound = collateral * weighted_threshold;
    if debt > u128::MAX / BPS {
        return Ok(());
    }
    if debt * BPS < bound {
        return Err(ErrorCode::Unauthorized);
    }
    Ok(())
}

/// Whether any debt of the position still has a principal.
pub open spec fn has_open_debt(ds: Seq<DebtBalance>) -> bool {
    exists|i: int| 0 <= i < ds.len() && #[trigger] ds[i].principal > 0
}

pub fn any_open_debt(ds: &Vec<DebtBalance>) -> (r: bool)
    ensures
        r == has_open_debt(ds@),
{
    let mut i: usize = 0;
    while i < ds.len()
        invariant
            i <= ds@.len(),
            forall|j: int| 0 <= j < i ==> #[trigger] ds@[j].principal == 0,
        decreases ds@.len() - i,
    {
        if ds[i].principal > 0 {
            return true;
        }
        i = i + 1;
    }
    false
}

/// A position whose debt value equals its LTV-weighted collateral value passes the
/// borrow/withdraw check; one whose debt value is larger fails it with `LTVExceeded`.
pub proof fn lemma_ltv_boundary(
    cs: Seq<CollateralBalance>,
    ds: Seq<DebtBalance>,
    cinfos: Seq<CollateralInfo>,
    binfos: Seq<BorrowAssetInfo>,
    book: Seq<PricedFeed>,
)
    requires
        ltv_collateral_value(cs, cinfos, book) is Ok,
        debt_value(ds, binfos, book) is Ok,
    ensures
        debt_value(ds, binfos, book)->Ok_0 == ltv_collateral_value(cs, cinfos, book)->Ok_0
            ==> ltv_verdict(cs, ds, cinfos, binfos, book) is Ok,
        debt_value(ds, binfos, book)->Ok_0 > ltv_collateral_value(cs, cinfos, book)->Ok_0
            ==> ltv_verdict(cs, ds, cinfos, binfos, book) == Err::<(), ErrorCode>(
            ErrorCode::LTVExceeded,
        ),
{
}

} // verus!
