use vstd::prelude::*;

verus! {

/// Every way in which an operation of the engine can be refused.
#[derive(PartialEq, Eq, Structural, Clone, Copy, Debug)]
pub enum ErrorCode {
    MathOverflow,
    Unauthorized,
    UnsupportedCollateral,
    UnsupportedBorrowAsset,
    InsufficientCollateral,
    LTVExceeded,
    DebtAccountAlreadyExists,
    NoDebtToRepay,
    InvalidPriceFeed,
    PriceTooOld,
    InvalidPrice,
    FlashReplyError,
    AssetAlreadySupported,
    InvalidParameters,
    CapacityExceeded,
}

impl ErrorCode {
    /// Human-readable description of the error.
    pub fn message(&self) -> (r: &'static str) {
        match self {
            ErrorCode::MathOverflow => "Math operation overflowed",
            ErrorCode::Unauthorized => "Unauthorized access",
            ErrorCode::UnsupportedCollateral => "Collateral not supported",
            ErrorCode::UnsupportedBorrowAsset => "Borrow asset not supported",
            ErrorCode::InsufficientCollateral => "Insufficient collateral",
            ErrorCode::LTVExceeded => "LTV exceeded",
            ErrorCode::DebtAccountAlreadyExists => "Debt account already exists",
            ErrorCode::NoDebtToRepay => "No debt to repay",
            ErrorCode::InvalidPriceFeed => "Invalid Price Feed",
            ErrorCode::PriceTooOld => "Price Too Old",
            ErrorCode::InvalidPrice => "Invalid Price",
            ErrorCode::FlashReplyError => "Flashloan repayment failed",
            ErrorCode::AssetAlreadySupported => "Asset already supported",
            ErrorCode::InvalidParameters => "Invalid asset parameters",
            ErrorCode::CapacityExceeded => "Too many entries",
        }
    }
}

} // verus!
