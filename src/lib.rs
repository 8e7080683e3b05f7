//! Accounting engine of a collateralised lending protocol: interest indices,
//! debt projection, price normalisation, position valuation and liquidation.
//!
//! The engine works on plain values. Reading accounts, the clock and price feeds, and
//! moving tokens, are left to the caller, which hands the results in (a `PriceFeedReading`
//! per feed, the current time) and settles the amounts that the engine returns.
pub mod errors;
pub mod flashloan;
pub mod instructions;
pub mod math;
pub mod oracle;
pub mod risk;
pub mod state;
