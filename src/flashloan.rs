use vstd::prelude::*;

use crate::errors::ErrorCode;

verus! {

/// Fee of a flash loan, in basis points of the amount lent.
pub const FLASH_LOAN_FEE_BPS: u64 = 5;

/// Fee owed on a flash loan of `amount`, rounded down.
pub open spec fn flash_fee_of(amount: u64) -> int {
    amount as int * FLASH_LOAN_FEE_BPS as int / 10000
}

/// The fee of a flash loan of `amount`; refused when the amount and its fee together
/// do not fit in 64 bits.
pub fn flash_loan_fee(amount: u64) -> (r: Result<u64, ErrorCode>)
    ensures
        r is Ok <==> amount as int + flash_fee_of(amount) <= u64::MAX as int,
        r is Ok ==> r->Ok_0 as int == flash_fee_of(amount),
        r is Err ==> r->Err_0 == ErrorCode::MathOverflow,
{
    assert(amount as int * 5 <= u128::MAX as int) by (nonlinear_arith)
        requires
            amount <= u64::MAX,
    ;
    let fee = (amount as u128) * (FLASH_LOAN_FEE_BPS as u128) / 10000;
    assert(fee <= amount) by (nonlinear_arith)
        requires
            fee == amount as int * 5 / 10000,
            amount >= 0,
    ;
    if amount > u64::MAX - fee as u64 {
        return Err(ErrorCode::MathOverflow);
    }
    Ok(fee as u64)
}

/// After the borrower's callback, the vault must hold at least what it held before
/// the loan plus the fee.
pub fn check_flash_loan_repayment(balance_before: u64, balance_after: u64, fee: u64) -> (r: Result<
    (),
    ErrorCode,
>)
    ensures
        r is Ok <==> balance_after as int >= balance_before as int + fee as int,
        r is Err ==> r->Err_0 == ErrorCode::FlashReplyError,
{
    if balance_before > u64::MAX - fee || balance_after < balance_before + fee {
        return Err(ErrorCode::FlashReplyError);
    }
    Ok(())
}

} // verus!
