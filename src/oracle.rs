use vstd::prelude::*;

use crate::errors::ErrorCode;
use crate::math::PRICE_DECIMALS;

verus! {

/// What a price feed yielded when it was read at the current time, within the
/// staleness window.
#[derive(PartialEq, Eq, Structural, Clone, Copy, Debug)]
pub enum PriceFeedReading {
    /// The account does not hold a valid price record.
    Unresolvable,
    /// The latest price is older than the staleness window.
    Stale,
    /// A fresh price, worth `price * 10^expo`.
    Fresh { price: i64, expo: i32 },
}

pub open spec fn pow10(n: nat) -> nat
    decreases n,
{
    if n == 0 {
        1
    } else {
        10 * pow10((n - 1) as nat)
    }
}

/// The price of a reading with `PRICE_DECIMALS` decimals, rounded toward zero.
pub open spec fn normalized_price(reading: PriceFeedReading) -> Result<u64, ErrorCode> {
    match reading {
        PriceFeedReading::Unresolvable => Err(ErrorCode::InvalidPriceFeed),
        PriceFeedReading::Stale => Err(ErrorCode::PriceTooOld),
        PriceFeedReading::Fresh { price, expo } => {
            let shift = expo as int + PRICE_DECIMALS as int;
            if price <= 0 {
                Err(ErrorCode::InvalidPrice)
            } else if shift >= 0 {
                let v = price as int * pow10(shift as nat);
                if v > u64::MAX as int {
                    Err(ErrorCode::MathOverflow)
                } else {
                    Ok(v as u64)
                }
            } else {
                Ok((price as int / pow10((-shift) as nat) as int) as u64)
            }
        },
    }
}

proof fn lemma_pow10_positive(n: nat)
    ensures
        pow10(n) >= 1,
    decreases n,
{
    if n > 0 {
        lemma_pow10_positive((n - 1) as nat);
    }
}

proof fn lemma_pow10_monotonic(a: nat, b: nat)
    requires
        a <= b,
    ensures
        pow10(a) <= pow10(b),
    decreases b,
{
    if a < b {
        lemma_pow10_monotonic(a, (b - 1) as nat);
        lemma_pow10_positive((b - 1) as nat);
    }
}

/// Validates a price reading and scales it to `PRICE_DECIMALS` decimals.
pub fn get_price_from_feed(reading: &PriceFeedReading) -> (r: Result<u64, ErrorCode>)
    ensures
        r == normalized_price(*reading),
{
    let (price, expo) = match *reading {
        PriceFeedReading::Unresolvable => return Err(ErrorCode::InvalidPriceFeed),
        PriceFeedReading::Stale => return Err(ErrorCode::PriceTooOld),
        PriceFeedReading::Fresh { price, expo } => (price, expo),
    };
    if price <= 0 {
        return Err(ErrorCode::InvalidPrice);
    }
    let shift: i64 = expo as i64 + PRICE_DECIMALS as i64;
    proof {
        reveal_with_fuel(pow10, 21);
        assert(pow10(18) == 1_000_000_000_000_000_000nat);
        assert(pow10(19) == 10_000_000_000_000_000_000nat);
        assert(pow10(0) == 1);
        assert(pow10(20) == 100_000_000_000_000_000_000nat);
    }
    if shift >= 0 {
        if shift >= 20 {
            proof {
                lemma_pow10_monotonic(20, shift as nat);
                assert(price as int * pow10(shift as nat) >= pow10(shift as nat)) by (nonlinear_arith)
                    requires
                        price >= 1,
                ;
            }
            return Err(ErrorCode::MathOverflow);
        }
        let mut v: u128 = price as u128;
        let mut i: i64 = 0;
        while i < shift
            invariant
                0 <= i <= shift < 20,
                1 <= price,
                v as int == price as int * pow10(i as nat),
                pow10(18) == 1_000_000_000_000_000_000nat,
            decreases shift - i,
        {
            proof {
                lemma_pow10_monotonic(i as nat, 18);
                assert(price as int * pow10(i as nat) * 10 <= u128::MAX as int) by (nonlinear_arith)
                    requires
                        price <= i64::MAX,
                        pow10(i as nat) <= 1_000_000_000_000_000_000nat,
                ;
                assert(price as int * pow10((i + 1) as nat) == price as int * pow10(i as nat) * 10)
                    by (nonlinear_arith)
                    requires
                        pow10((i + 1) as nat) == 10 * pow10(i as nat),
                ;
            }
            v = v * 10;
            i = i + 1;
        }
        if v > u64::MAX as u128 {
            return Err(ErrorCode::MathOverflow);
        }
        Ok(v as u64)
    } else {
        let down: i64 = -shift;
        if down >= 19 {
            proof {
                lemma_pow10_monotonic(19, down as nat);
                vstd::arithmetic::div_mod::lemma_basic_div(price as int, pow10(down as nat) as int);
            }
            return Ok(0);
        }
        let mut v: u64 = price as u64;
        let mut i: i64 = 0;
        while i < down
            invariant
                0 <= i <= down,
                1 <= price,
                v as int == price as int / pow10(i as nat) as int,
            decreases down - i,
        {
            proof {
                lemma_pow10_positive(i as nat);
                vstd::arithmetic::div_mod::lemma_div_denominator(price as int, pow10(i as nat) as int, 10);
                assert(pow10((i + 1) as nat) == pow10(i as nat) * 10);
            }
            v = v / 10;
            i = i + 1;
        }
        Ok(v)
    }
}

/// Oldest price, in seconds either side of the current time, that the protocol accepts.
pub const MAX_PRICE_AGE: u64 = 60;

/// The current price record of a Pyth price account: `price * 10^expo`, published at
/// `publish_time`.
#[derive(PartialEq, Eq, Structural, Clone, Copy, Debug)]
pub struct PublishedPrice {
    pub price: i64,
    pub expo: i32,
    pub publish_time: i64,
}

/// What the bytes of a Pyth price account decode to; `None` when they are not one.
pub uninterp spec fn pyth_price_record(data: Seq<u8>) -> Option<PublishedPrice>;

/// Relies on pyth_sdk_solana::state::load_price_account to decode a price account, and on
/// its to_price_feed and get_price_unchecked to read the current record out of it; the
/// result depends on the bytes alone. The bytes are first copied into 8-byte-aligned
/// storage (bytemuck's cast_slice views it as bytes), since the decoder casts in place
/// and panics on a misaligned slice.
#[verifier::external_body]
fn decode_price_account(data: &[u8]) -> (r: Option<PublishedPrice>)
    ensures
        r == pyth_price_record(data@),
{
    let mut words: Vec<u64> = vec![0u64; data.len()];
    bytemuck::cast_slice_mut::<u64, u8>(&mut words)[..data.len()].copy_from_slice(data);
    let aligned: &[u8] = &bytemuck::cast_slice::<u64, u8>(&words)[..data.len()];
    match pyth_sdk_solana::state::load_price_account::<32, ()>(aligned) {
        Ok(account) => {
            let p = account.to_price_feed(&Default::default()).get_price_unchecked();
            Some(PublishedPrice { price: p.price, expo: p.expo, publish_time: p.publish_time })
        },
        Err(_) => None,
    }
}

/// A record is fresh when it was published within `max_age` seconds of `now`, either side.
pub open spec fn reading_of(record: Option<PublishedPrice>, now: i64, max_age: u64) -> PriceFeedReading {
    match record {
        None => PriceFeedReading::Unresolvable,
        Some(r) => {
            let diff = r.publish_time as int - now as int;
            let distance = if diff < 0 {
                -diff
            } else {
                diff
            };
            if distance > max_age as int {
                PriceFeedReading::Stale
            } else {
                PriceFeedReading::Fresh { price: r.price, expo: r.expo }
            }
        },
    }
}

/// The reading of a decoded price record at time `now`.
pub fn price_reading_at(record: Option<PublishedPrice>, now: i64, max_age: u64) -> (r:
    PriceFeedReading)
    ensures
        r == reading_of(record, now, max_age),
{
    match record {
        None => PriceFeedReading::Unresolvable,
        Some(rec) => {
            let diff: i128 = rec.publish_time as i128 - now as i128;
            let distance: i128 = if diff < 0 {
                -diff
            } else {
                diff
            };
            if distance > max_age as i128 {
                PriceFeedReading::Stale
            } else {
                PriceFeedReading::Fresh { price: rec.price, expo: rec.expo }
            }
        },
    }
}

/// The reading of a price account's bytes at time `now`, within `MAX_PRICE_AGE`.
pub fn read_price_account(data: &[u8], now: i64) -> (r: PriceFeedReading)
    ensures
        r == reading_of(pyth_price_record(data@), now, MAX_PRICE_AGE),
{
    price_reading_at(decode_price_account(data), now, MAX_PRICE_AGE)
}

} // verus!
