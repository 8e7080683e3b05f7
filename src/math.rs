use vstd::prelude::*;

use crate::errors::ErrorCode;

verus! {

/// Fixed-point scale of interest indices and annual rates (1.0).
pub const INDEX_SCALE: u128 = 1_000_000_000_000_000_000;

pub const SECONDS_PER_YEAR: u128 = 31_536_000;

/// Normalised prices carry six decimals.
pub const PRICE_PRECISION: u64 = 1_000_000;

pub const PRICE_DECIMALS: i32 = 6;

/// Utilisation is expressed in basis points of this.
pub const UTILIZATION_PRECISION: u64 = 10000;

/// Rates are expressed in basis points of this.
pub const RATE_PRECISION: u64 = 10000;

/// Utilisation of an asset in basis points: borrows over deposits, 0 without deposits.
pub open spec fn utilization_of(total_borrows: u64, total_deposits: u64) -> int {
    if total_deposits == 0 {
        0
    } else {
        total_borrows as int * 10000 / total_deposits as int
    }
}

/// Optimal utilisation of a rate curve that the engine can evaluate.
pub open spec fn rate_model_valid(optimal_utilization: u64) -> bool {
    0 < optimal_utilization <= 10000
}

/// Borrow rate in basis points on the kinked curve; fails when it leaves 64 bits, or
/// above the kink of a curve whose kink is at full utilisation (a division by zero).
pub open spec fn borrow_rate_of(
    utilization: int,
    base_rate: int,
    optimal_utilization: int,
    slope1: int,
    slope2: int,
) -> Result<u64, ErrorCode> {
    if utilization <= optimal_utilization {
        let rate = base_rate + utilization * slope1 / optimal_utilization;
        if rate > u64::MAX as int {
            Err(ErrorCode::MathOverflow)
        } else {
            Ok(rate as u64)
        }
    } else if optimal_utilization >= 10000 {
        Err(ErrorCode::MathOverflow)
    } else {
        let rate = base_rate + slope1 + (utilization - optimal_utilization) * slope2 / (10000
            - optimal_utilization);
        if rate > u64::MAX as int {
            Err(ErrorCode::MathOverflow)
        } else {
            Ok(rate as u64)
        }
    }
}

/// Annual rate as a fixed-point number of scale `INDEX_SCALE`.
pub open spec fn annual_rate_of(borrow_rate: int) -> int {
    borrow_rate * INDEX_SCALE as int / RATE_PRECISION as int
}

/// Per-second rate derived from a fixed-point annual rate.
pub open spec fn rate_per_second(annual_rate_fixed: u128) -> int {
    annual_rate_fixed as int / SECONDS_PER_YEAR as int
}

/// Multiplier applied to the index after `dt` seconds (scale `INDEX_SCALE`).
pub open spec fn growth_multiplier(annual_rate_fixed: u128, dt: int) -> int {
    INDEX_SCALE as int + rate_per_second(annual_rate_fixed) * dt
}

/// Index advanced from `last_ts` to `now_ts`; unchanged when time has not moved forward.
/// The interest factor, the multiplier and the new index must each fit in 128 bits.
pub open spec fn index_update(
    global_index: u128,
    annual_rate_fixed: u128,
    last_ts: u64,
    now_ts: u64,
) -> Result<u128, ErrorCode> {
    if now_ts <= last_ts {
        Ok(global_index)
    } else {
        let dt = now_ts as int - last_ts as int;
        let factor = rate_per_second(annual_rate_fixed) * dt;
        let m = growth_multiplier(annual_rate_fixed, dt);
        let index = global_index as int * m / INDEX_SCALE as int;
        if factor > u128::MAX as int || m > u128::MAX as int || index > u128::MAX as int {
            Err(ErrorCode::MathOverflow)
        } else {
            Ok(index as u128)
        }
    }
}

/// Amount owed on `principal` recorded at index `snapshot_index` once the index is
/// `current_index`; a zero snapshot means the principal has not accrued yet. Fails only
/// when the amount leaves 64 bits.
pub open spec fn owed_amount(principal: u64, snapshot_index: u128, current_index: u128) -> Result<
    u64,
    ErrorCode,
> {
    if snapshot_index == 0 {
        Ok(principal)
    } else {
        let owed = principal as int * current_index as int / snapshot_index as int;
        if owed > u64::MAX as int {
            Err(ErrorCode::MathOverflow)
        } else {
            Ok(owed as u64)
        }
    }
}

pub open spec fn two_pow(n: nat) -> nat
    decreases n,
{
    if n == 0 {
        1
    } else {
        2 * two_pow((n - 1) as nat)
    }
}

/// `a * b / INDEX_SCALE`, rounded down, when it fits in 128 bits; the product itself
/// may be wider.
fn mul_div_index_scale(a: u128, b: u128) -> (r: Option<u128>)
    ensures
        r is Some <==> a as int * b as int / INDEX_SCALE as int <= u128::MAX as int,
        r is Some ==> r->0 as int == a as int * b as int / INDEX_SCALE as int,
{
    let s = INDEX_SCALE;
    let q = a / s;
    let r = a % s;
    let bq = b / s;
    let br = b % s;
    let ghost exact = a as int * b as int / s as int;
    proof {
        vstd::arithmetic::div_mod::lemma_fundamental_div_mod(a as int, s as int);
        vstd::arithmetic::div_mod::lemma_fundamental_div_mod(b as int, s as int);
        assert(a as int * b as int == (q as int * b as int + r as int * bq as int) * s as int
            + r as int * br as int) by (nonlinear_arith)
            requires
                a as int == s as int * q as int + r as int,
                b as int == s as int * bq as int + br as int,
        ;
        assert(0 <= r as int * br as int <= 1_000_000_000_000_000_000_000_000_000_000_000_000int)
            by (nonlinear_arith)
            requires
                0 <= r < 1_000_000_000_000_000_000u128,
                0 <= br < 1_000_000_000_000_000_000u128,
        ;
        vstd::arithmetic::div_mod::lemma_hoist_over_denominator(
            r as int * br as int,
            q as int * b as int + r as int * bq as int,
            s as nat,
        );
        vstd::arithmetic::div_mod::lemma_div_pos_is_pos(r as int * br as int, s as int);
        assert(0 <= q as int * b as int && 0 <= r as int * bq as int) by (nonlinear_arith)
            requires
                q >= 0,
                b >= 0,
                r >= 0,
                bq >= 0,
        ;
        assert(exact == q as int * b as int + r as int * bq as int + r as int * br as int / s as int);
    }
    let t1 = match q.checked_mul(b) {
        Some(t) => t,
        None => return None,
    };
    let t2 = match r.checked_mul(bq) {
        Some(t) => t,
        None => return None,
    };
    let t3 = r * br / s;
    match t1.checked_add(t2) {
        Some(t) => t.checked_add(t3),
        None => None,
    }
}

/// `p * x / s`, rounded down, for `x < s`, without forming the product: the quotient
/// is built one bit of `p` at a time, keeping `prefix * x == q * s + rem` with `rem < s`.
fn mul_div_below(p: u64, x: u128, s: u128) -> (r: u128)
    requires
        x < s,
    ensures
        r as int == p as int * x as int / s as int,
        r <= p,
{
    proof {
        reveal_with_fuel(two_pow, 65);
        assert(two_pow(64) == 18446744073709551616nat);
    }
    let mut div: u128 = 18446744073709551616;
    let ghost mut k: nat = 64;
    let mut q: u128 = 0;
    let mut rem: u128 = 0;
    proof {
        vstd::arithmetic::div_mod::lemma_basic_div(p as int, div as int);
    }
    while div > 1
        invariant
            div as int == two_pow(k),
            div >= 1,
            x < s,
            rem < s,
            p as int / div as int * x as int == q as int * s as int + rem as int,
            q as int <= p as int / div as int,
            p as int / div as int <= p as int,
        decreases div,
    {
        proof {
            if k == 0 {
                assert(two_pow(0) == 1);
            }
            assert(two_pow(k) == 2 * two_pow((k - 1) as nat));
        }
        let half = div / 2;
        let prefix = (p as u128) / div;
        let next = (p as u128) / half;
        proof {
            assert(div as int == 2 * half as int);
            vstd::arithmetic::div_mod::lemma_div_denominator(p as int, half as int, 2);
            vstd::arithmetic::div_mod::lemma_fundamental_div_mod(next as int, 2);
            vstd::arithmetic::div_mod::lemma_mod_pos_bound(next as int, 2);
            vstd::arithmetic::div_mod::lemma_div_is_ordered_by_denominator(p as int, 1, half as int);
        }
        let bit = next - 2 * prefix;
        let mut q2: u128;
        let mut rem2: u128;
        if rem >= s - rem {
            q2 = 2 * q + 1;
            rem2 = rem - (s - rem);
        } else {
            q2 = 2 * q;
            rem2 = 2 * rem;
        }
        proof {
            assert(q2 as int * s as int + rem2 as int == 2 * (q as int * s as int + rem as int))
                by (nonlinear_arith)
                requires
                    (q2 == 2 * q + 1 && rem2 as int == 2 * rem as int - s as int) || (q2 == 2 * q
                        && rem2 == 2 * rem),
            ;
        }
        let ghost doubled = q2 as int * s as int + rem2 as int;
        if bit == 1 {
            if rem2 >= s - x {
                q2 = q2 + 1;
                rem2 = rem2 - (s - x);
                proof {
                    assert(q2 as int * s as int == (q2 as int - 1) * s as int + s as int)
                        by (nonlinear_arith);
                }
            } else {
                rem2 = rem2 + x;
            }
        }
        proof {
            assert(next as int * x as int == 2 * (prefix as int * x as int) + bit as int * x as int)
                by (nonlinear_arith)
                requires
                    next as int == 2 * prefix as int + bit as int,
            ;
            assert(bit == 0 || bit == 1);
            assert(bit as int * x as int == if bit == 0 { 0 } else { x as int }) by (nonlinear_arith)
                requires
                    bit == 0 || bit == 1,
            ;
            assert(next as int * x as int == q2 as int * s as int + rem2 as int);
            assert(q2 as int <= next as int) by (nonlinear_arith)
                requires
                    next as int * x as int == q2 as int * s as int + rem2 as int,
                    0 <= x < s,
                    rem2 >= 0,
                    q2 >= 0,
                    next >= 0,
            ;
        }
        q = q2;
        rem = rem2;
        div = half;
        proof {
            k = (k - 1) as nat;
        }
    }
    proof {
        assert(div == 1);
        vstd::arithmetic::div_mod::lemma_fundamental_div_mod_converse(
            p as int * x as int,
            s as int,
            q as int,
            rem as int,
        );
    }
    q
}

/// Utilisation of an asset in basis points; fails when it leaves 64 bits.
pub fn calculate_utilization(total_borrows: u64, total_deposits: u64) -> (r: Result<u64, ErrorCode>)
    ensures
        r is Ok <==> utilization_of(total_borrows, total_deposits) <= u64::MAX as int,
        r is Ok ==> r->Ok_0 as int == utilization_of(total_borrows, total_deposits),
        r is Err ==> r->Err_0 == ErrorCode::MathOverflow,
        total_borrows <= total_deposits ==> r is Ok && r->Ok_0 <= UTILIZATION_PRECISION,
{
    if total_deposits == 0 {
        return Ok(0);
    }
    assert(total_borrows as int * 10000 <= u128::MAX as int) by (nonlinear_arith)
        requires
            total_borrows <= u64::MAX,
    ;
    proof {
        if total_borrows <= total_deposits {
            assert(total_borrows as int * 10000 <= total_deposits as int * 10000) by (nonlinear_arith)
                requires
                    total_borrows <= total_deposits,
            ;
            vstd::arithmetic::div_mod::lemma_div_is_ordered(
                total_borrows as int * 10000,
                total_deposits as int * 10000,
                total_deposits as int,
            );
            vstd::arithmetic::div_mod::lemma_div_multiples_vanish(10000, total_deposits as int);
            assert(total_deposits as int * 10000 == total_deposits as int * 10000int);
        }
    }
    let u = (total_borrows as u128) * (UTILIZATION_PRECISION as u128) / (total_deposits as u128);
    if u > u64::MAX as u128 {
        return Err(ErrorCode::MathOverflow);
    }
    Ok(u as u64)
}

/// Borrow rate in basis points for a utilisation on the two-slope curve.
pub fn calculate_borrow_rate(
    utilization: u64,
    base_rate: u64,
    optimal_utilization: u64,
    slope1: u64,
    slope2: u64,
) -> (r: Result<u64, ErrorCode>)
    requires
        rate_model_valid(optimal_utilization),
    ensures
        r == borrow_rate_of(
            utilization as int,
            base_rate as int,
            optimal_utilization as int,
            slope1 as int,
            slope2 as int,
        ),
{
    if utilization <= optimal_utilization {
        assert(utilization as int * slope1 as int <= u128::MAX as int) by (nonlinear_arith)
            requires
                utilization <= u64::MAX,
                slope1 <= u64::MAX,
        ;
        let t = (utilization as u128) * (slope1 as u128) / (optimal_utilization as u128);
        let rate = match (base_rate as u128).checked_add(t) {
            Some(v) => v,
            None => return Err(ErrorCode::MathOverflow),
        };
        if rate > u64::MAX as u128 {
            return Err(ErrorCode::MathOverflow);
        }
        Ok(rate as u64)
    } else {
        if optimal_utilization >= UTILIZATION_PRECISION {
            return Err(ErrorCode::MathOverflow);
        }
        let excess_utilization = utilization - optimal_utilization;
        let max_excess = UTILIZATION_PRECISION - optimal_utilization;
        assert(excess_utilization as int * slope2 as int <= u128::MAX as int) by (nonlinear_arith)
            requires
                excess_utilization <= u64::MAX,
                slope2 <= u64::MAX,
        ;
        let t = (excess_utilization as u128) * (slope2 as u128) / (max_excess as u128);
        let rate = match (base_rate as u128 + slope1 as u128).checked_add(t) {
            Some(v) => v,
            None => return Err(ErrorCode::MathOverflow),
        };
        if rate > u64::MAX as u128 {
            return Err(ErrorCode::MathOverflow);
        }
        Ok(rate as u64)
    }
}

pub fn calculate_annual_rate_from_borrow_rate(borrow_rate: u64) -> (r: u128)
    ensures
        r as int == annual_rate_of(borrow_rate as int),
{
    assert(borrow_rate as int * INDEX_SCALE as int <= u128::MAX as int) by (nonlinear_arith)
        requires
            borrow_rate <= u64::MAX,
    ;
    (borrow_rate as u128) * INDEX_SCALE / (RATE_PRECISION as u128)
}

/// Advances a global interest index over the time elapsed since `last_ts`.
pub fn update_global_index(global_index: u128, annual_rate_fixed: u128, last_ts: u64, now_ts: u64) -> (r:
    Result<u128, ErrorCode>)
    ensures
        r == index_update(global_index, annual_rate_fixed, last_ts, now_ts),
{
    if now_ts <= last_ts {
        return Ok(global_index);
    }
    let delta_t = (now_ts - last_ts) as u128;
    let rate_per_second_fixed = annual_rate_fixed / SECONDS_PER_YEAR;
    let interest_factor = match rate_per_second_fixed.checked_mul(delta_t) {
        Some(v) => v,
        None => return Err(ErrorCode::MathOverflow),
    };
    let multiplier = match INDEX_SCALE.checked_add(interest_factor) {
        Some(v) => v,
        None => return Err(ErrorCode::MathOverflow),
    };
    match mul_div_index_scale(global_index, multiplier) {
        Some(v) => Ok(v),
        None => Err(ErrorCode::MathOverflow),
    }
}

/// Amount owed today on a debt entry (principal projected along the index).
pub fn calculate_owed_amount(principal: u64, snapshot_index: u128, current_index: u128) -> (r: Result<
    u64,
    ErrorCode,
>)
    ensures
        r == owed_amount(principal, snapshot_index, current_index),
{
    if snapshot_index == 0 {
        return Ok(principal);
    }
    let ghost p = principal as int;
    let cq = current_index / snapshot_index;
    let cr = current_index % snapshot_index;
    proof {
        vstd::arithmetic::div_mod::lemma_fundamental_div_mod(
            current_index as int,
            snapshot_index as int,
        );
        assert(p * current_index as int == p * cr as int + (p * cq as int) * snapshot_index as int)
            by (nonlinear_arith)
            requires
                current_index as int == snapshot_index as int * cq as int + cr as int,
        ;
        vstd::arithmetic::div_mod::lemma_hoist_over_denominator(
            p * cr as int,
            p * cq as int,
            snapshot_index as nat,
        );
        assert(p * cr as int >= 0 && p * cq as int >= 0) by (nonlinear_arith)
            requires
                p >= 0,
                cr >= 0,
                cq >= 0,
        ;
        vstd::arithmetic::div_mod::lemma_div_pos_is_pos(p * cr as int, snapshot_index as int);
    }
    let whole = match (principal as u128).checked_mul(cq) {
        Some(v) => v,
        None => return Err(ErrorCode::MathOverflow),
    };
    if whole > u64::MAX as u128 {
        return Err(ErrorCode::MathOverflow);
    }
    let part = mul_div_below(principal, cr, snapshot_index);
    let owed = whole + part;
    if owed > u64::MAX as u128 {
        return Err(ErrorCode::MathOverflow);
    }
    Ok(owed as u64)
}

/// An index never decreases when it is advanced. It stays put, whatever its size, when
/// no time passed or the per-second rate is zero, and it strictly grows once time has
/// passed at a non-zero per-second rate from an index of at least one.
pub proof fn lemma_index_monotonic(
    global_index: u128,
    annual_rate_fixed: u128,
    last_ts: u64,
    now_ts: u64,
)
    ensures
        (now_ts <= last_ts || rate_per_second(annual_rate_fixed) == 0) ==> index_update(
            global_index,
            annual_rate_fixed,
            last_ts,
            now_ts,
        ) == Ok::<u128, ErrorCode>(global_index),
        ({
            let r = index_update(global_index, annual_rate_fixed, last_ts, now_ts);
            &&& r is Ok ==> r->Ok_0 >= global_index
            &&& (r is Ok && now_ts > last_ts && rate_per_second(annual_rate_fixed) > 0
                && global_index >= INDEX_SCALE) ==> r->Ok_0 > global_index
        }),
{
    if now_ts > last_ts {
        let dt = now_ts as int - last_ts as int;
        let rps = rate_per_second(annual_rate_fixed);
        let s = INDEX_SCALE as int;
        let g = global_index as int;
        assert(rps >= 0);
        assert(rps * dt >= 0) by (nonlinear_arith)
            requires
                rps >= 0,
                dt > 0,
        ;
        let f = rps * dt;
        vstd::arithmetic::div_mod::lemma_hoist_over_denominator(g * f, g, s as nat);
        assert(g * f + g * s == g * (s + f)) by (nonlinear_arith);
        assert(g * f >= 0) by (nonlinear_arith)
            requires
                g >= 0,
                f >= 0,
        ;
        vstd::arithmetic::div_mod::lemma_div_pos_is_pos(g * f, s);
        if rps == 0 {
            assert(g * f == 0) by (nonlinear_arith)
                requires
                    f == rps * dt,
                    rps == 0,
            ;
            assert(f == 0) by (nonlinear_arith)
                requires
                    f == rps * dt,
                    rps == 0,
            ;
        }
        if rps > 0 && g >= s {
            assert(f >= 1) by (nonlinear_arith)
                requires
                    f == rps * dt,
                    rps > 0,
                    dt > 0,
            ;
            assert(g * f >= s) by (nonlinear_arith)
                requires
                    s > 0,
                    g >= s,
                    f >= 1,
            ;
            vstd::arithmetic::div_mod::lemma_div_is_ordered(s, g * f, s);
        }
    }
}

/// Advancing an index a second time to the same moment changes nothing.
pub proof fn lemma_index_update_idempotent(
    global_index: u128,
    annual_rate_fixed: u128,
    last_ts: u64,
    now_ts: u64,
)
    requires
        index_update(global_index, annual_rate_fixed, last_ts, now_ts) is Ok,
    ensures
        ({
            let once = index_update(global_index, annual_rate_fixed, last_ts, now_ts)->Ok_0;
            let last = if now_ts > last_ts { now_ts } else { last_ts };
            index_update(once, annual_rate_fixed, last, now_ts) == Ok::<u128, ErrorCode>(once)
        }),
{
}

/// Projecting a principal to the index it was recorded at gives the principal back.
pub proof fn lemma_owed_at_snapshot(principal: u64, snapshot_index: u128)
    requires
        snapshot_index > 0,
    ensures
        owed_amount(principal, snapshot_index, snapshot_index) == Ok::<u64, ErrorCode>(principal),
{
    vstd::arithmetic::div_mod::lemma_div_multiples_vanish(
        principal as int,
        snapshot_index as int,
    );
    assert(principal as int * snapshot_index as int == snapshot_index as int * principal as int)
        by (nonlinear_arith);
}

/// For a fixed principal and snapshot, the owed amount does not decrease as the
/// index grows; a projection that succeeds at the larger index succeeds at the smaller.
pub proof fn lemma_owed_monotonic(principal: u64, snapshot_index: u128, index_a: u128, index_b: u128)
    requires
        index_a <= index_b,
        owed_amount(principal, snapshot_index, index_b) is Ok,
    ensures
        owed_amount(principal, snapshot_index, index_a) is Ok,
        owed_amount(principal, snapshot_index, index_a)->Ok_0 <= owed_amount(
            principal,
            snapshot_index,
            index_b,
        )->Ok_0,
{
    if snapshot_index != 0 {
        let p = principal as int;
        assert(p * index_a <= p * index_b) by (nonlinear_arith)
            requires
                p >= 0,
                index_a <= index_b,
        ;
        vstd::arithmetic::div_mod::lemma_div_is_ordered(
            p * index_a,
            p * index_b,
            snapshot_index as int,
        );
    }
}

} // verus!
