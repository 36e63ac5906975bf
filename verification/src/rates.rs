//! Interest rate model: utilization-driven borrow rate, deposit rate, interest growth
//! factors and the borrow/supply index updates that accrue interest.
//!
//! Rates, utilizations and indexes are RAY raw units; the reserve factor is in BPS.
use crate::math::{
    add_checked, lemma_half_up_nonneg, div_half_up, div_half_up_spec, lemma_div_round_bound, lemma_div_round_exact, lemma_div_round_monotone,
    lemma_pow10_values, mul_half_up, mul_half_up_spec, pow10, rescale, rescale_spec, BPS, RAY,
    RAY_PRECISION, SECONDS_PER_YEAR,
};
use crate::wide::{div_round, fit, max_u128, mul_div_floor};
use vstd::arithmetic::div_mod::*;
use vstd::prelude::*;

verus! {

/// Interest rate parameters of one market.
#[derive(Clone, Copy, Debug, PartialEq, Eq)]
pub struct MarketParams {
    /// Cap on the annual borrow rate (RAY).
    pub max_borrow_rate: u128,
    /// Annual borrow rate at zero utilization (RAY).
    pub base_borrow_rate: u128,
    /// Rate added while utilization rises up to `mid_utilization` (RAY).
    pub slope1: u128,
    /// Rate added between `mid_utilization` and `optimal_utilization` (RAY).
    pub slope2: u128,
    /// Rate added from `optimal_utilization` up to full utilization (RAY).
    pub slope3: u128,
    /// First kink of the rate curve (RAY).
    pub mid_utilization: u128,
    /// Second kink of the rate curve (RAY).
    pub optimal_utilization: u128,
    /// Share of the interest kept by the protocol (BPS).
    pub reserve_factor: u128,
    /// Decimals of the pool asset.
    pub asset_decimals: usize,
}

/// Why a set of market parameters is refused.
#[derive(Clone, Copy, Debug, PartialEq, Eq)]
pub enum ParamsError {
    /// The maximum borrow rate is not above the base rate.
    InvalidBorrowRateParams,
    /// The optimal utilization is not above the mid utilization.
    InvalidUtilizationRange,
    /// The optimal utilization is not below one.
    OptimalUtilizationTooHigh,
    /// The reserve factor is not below one hundred percent.
    InvalidReserveFactor,
    /// The asset has more decimals than a 128-bit scale factor can express.
    InvalidAssetDecimals,
}

impl MarketParams {
    /// The parameter invariants that market creation and upgrades enforce.
    pub open spec fn valid(&self) -> bool {
        &&& self.max_borrow_rate > self.base_borrow_rate
        &&& self.optimal_utilization > self.mid_utilization
        &&& self.optimal_utilization < RAY
        &&& self.reserve_factor < BPS
        &&& self.asset_decimals <= 38
    }
}

/// The error that parameter validation reports first, if any.
pub open spec fn params_error(p: MarketParams) -> Option<ParamsError> {
    if !(p.max_borrow_rate > p.base_borrow_rate) {
        Some(ParamsError::InvalidBorrowRateParams)
    } else if !(p.optimal_utilization > p.mid_utilization) {
        Some(ParamsError::InvalidUtilizationRange)
    } else if !(p.optimal_utilization < RAY) {
        Some(ParamsError::OptimalUtilizationTooHigh)
    } else if !(p.reserve_factor < BPS) {
        Some(ParamsError::InvalidReserveFactor)
    } else if !(p.asset_decimals <= 38) {
        Some(ParamsError::InvalidAssetDecimals)
    } else {
        None
    }
}

/// Checks market parameters in the order market creation does.
pub fn validate_market_params(p: MarketParams) -> (r: Result<MarketParams, ParamsError>)
    ensures
        match params_error(p) {
            Some(e) => r == Err::<MarketParams, ParamsError>(e),
            None => r == Ok::<MarketParams, ParamsError>(p),
        },
        r is Ok ==> r->Ok_0.valid(),
{
    if !(p.max_borrow_rate > p.base_borrow_rate) {
        Err(ParamsError::InvalidBorrowRateParams)
    } else if !(p.optimal_utilization > p.mid_utilization) {
        Err(ParamsError::InvalidUtilizationRange)
    } else if !(p.optimal_utilization < RAY) {
        Err(ParamsError::OptimalUtilizationTooHigh)
    } else if !(p.reserve_factor < BPS) {
        Err(ParamsError::InvalidReserveFactor)
    } else if !(p.asset_decimals <= 38) {
        Err(ParamsError::InvalidAssetDecimals)
    } else {
        Ok(p)
    }
}

/// Annual borrow rate of the three-slope curve, before the cap.
pub open spec fn annual_borrow_rate(u: int, p: MarketParams) -> int {
    if u < p.mid_utilization {
        p.base_borrow_rate + (u * p.slope1) / (p.mid_utilization as int)
    } else if u < p.optimal_utilization {
        p.base_borrow_rate + p.slope1 + ((u - p.mid_utilization) * p.slope2) / ((
        p.optimal_utilization - p.mid_utilization) as int)
    } else {
        p.base_borrow_rate + p.slope1 + p.slope2 + ((u - p.optimal_utilization) * p.slope3) / ((
        RAY - p.optimal_utilization) as int)
    }
}

/// Annual borrow rate capped at `max_borrow_rate`.
pub open spec fn capped_annual_rate(u: int, p: MarketParams) -> int {
    let a = annual_borrow_rate(u, p);
    if a > p.max_borrow_rate {
        p.max_borrow_rate as int
    } else {
        a
    }
}

/// The per-second borrow rate: the capped annual rate divided (half up) by the
/// seconds in a year, both expressed in RAY.
pub open spec fn borrow_rate_spec(u: int, p: MarketParams) -> int {
    div_half_up_spec(
        capped_annual_rate(u, p),
        SECONDS_PER_YEAR as int * pow10(27) as int,
        27,
    )
}

/// Per-second borrow rate for a given utilization (both RAY).
///
/// Below `mid_utilization` the annual rate grows by `slope1`, then by `slope2` up to
/// `optimal_utilization`, then by `slope3`; it is capped at `max_borrow_rate` and
/// divided by the seconds in a year.
pub fn calc_borrow_rate(utilization: u128, params: &MarketParams) -> (r: u128)
    requires
        params.valid(),
    ensures
        r == borrow_rate_spec(utilization as int, *params),
{
    let p = params;
    let ghost a = annual_borrow_rate(utilization as int, *p);
    // `None` stands for an annual rate above what a u128 holds, hence above the cap.
    let annual: Option<u128> = if utilization < p.mid_utilization {
        match mul_div_floor(utilization, p.slope1, p.mid_utilization) {
            Some(t) => add_checked(p.base_borrow_rate, t),
            None => None,
        }
    } else if utilization < p.optimal_utilization {
        match mul_div_floor(
            utilization - p.mid_utilization,
            p.slope2,
            p.optimal_utilization - p.mid_utilization,
        ) {
            Some(t) => match add_checked(p.base_borrow_rate, p.slope1) {
                Some(s) => add_checked(s, t),
                None => None,
            },
            None => None,
        }
    } else {
        match mul_div_floor(utilization - p.optimal_utilization, p.slope3, RAY - p.optimal_utilization) {
            Some(t) => match add_checked(p.base_borrow_rate, p.slope1) {
                Some(s) => match add_checked(s, p.slope2) {
                    Some(s2) => add_checked(s2, t),
                    None => None,
                },
                None => None,
            },
            None => None,
        }
    };
    proof {
        let u = utilization as int;
        if u < p.mid_utilization {
            lemma_div_pos_is_pos(u * p.slope1, p.mid_utilization as int);
        } else if u < p.optimal_utilization {
            lemma_div_pos_is_pos((u - p.mid_utilization) * p.slope2, (p.optimal_utilization
                - p.mid_utilization) as int);
        } else {
            lemma_div_pos_is_pos((u - p.optimal_utilization) * p.slope3, (RAY
                - p.optimal_utilization) as int);
        }
        match annual {
            Some(v) => {
                assert(v == a);
            },
            None => {
                assert(a > p.max_borrow_rate);
            },
        }
    }
    let capped = match annual {
        Some(v) => if v > p.max_borrow_rate {
            p.max_borrow_rate
        } else {
            v
        },
        None => p.max_borrow_rate,
    };
    proof {
        lemma_pow10_values();
    }
    let year_ray: u128 = (SECONDS_PER_YEAR as u128) * RAY;
    let r = div_half_up(capped, year_ray, RAY_PRECISION);
    proof {
        let d = year_ray as int;
        let q = div_half_up_spec(capped as int, d, 27);
        assert(capped <= max_u128());
        assert((capped as int) * pow10(27) <= (capped as int) * d) by (nonlinear_arith)
            requires
                d == 31_556_926 * pow10(27),
                capped >= 0,
                pow10(27) > 0,
        ;
        lemma_div_round_bound((capped as int) * pow10(27), d, capped as int);
    }
    r.unwrap()
}

/// Per-second deposit rate: `utilization × borrow_rate × (1 - reserve_factor)`, each
/// product rounded half up at RAY precision (`None` when the first product overflows).
pub open spec fn deposit_rate_spec(u: int, br: int, rf: int) -> Option<u128> {
    if u == 0 {
        Some(0)
    } else {
        let m = mul_half_up_spec(u, br, 27);
        if m > max_u128() {
            None
        } else {
            fit(mul_half_up_spec(m, (BPS - rf) * pow10(23), 27))
        }
    }
}

/// Deposit (supply) rate from utilization, borrow rate and reserve factor.
pub fn calc_deposit_rate(utilization: u128, borrow_rate: u128, reserve_factor: u128) -> (r: Option<u128>)
    requires
        reserve_factor <= BPS,
    ensures
        r == deposit_rate_spec(utilization as int, borrow_rate as int, reserve_factor as int),
{
    if utilization == 0 {
        return Some(0);
    }
    proof {
        lemma_pow10_values();
    }
    match mul_half_up(utilization, borrow_rate, RAY_PRECISION) {
        None => None,
        Some(m) => {
            let share: u128 = (BPS - reserve_factor) * 100_000_000_000_000_000_000_000;
            let r = mul_half_up(m, share, RAY_PRECISION);
            proof {
                lemma_mul_half_up_le_one(m as int, share as int);
            }
            r
        },
    }
}

/// Multiplying by a factor of at most one (RAY) never increases a value.
/// The interest accrued over a period is distributed in full: it first covers the
/// pool's bad debt; what is left (at RAY precision) is split between the protocol's
/// fee, at most that remainder, and the suppliers.
pub proof fn lemma_interest_split_conserves(
    borrowed: u128,
    old_index: u128,
    new_index: u128,
    bad_debt: u128,
    reserve_factor: u128,
    decimals: nat,
)
    requires
        old_index <= new_index,
        reserve_factor <= BPS,
        supplier_rewards_spec(borrowed as int, old_index as int, new_index as int, bad_debt as int, reserve_factor as int, decimals) is Some,
    ensures
        ({
            let split = supplier_rewards_spec(borrowed as int, old_index as int, new_index as int, bad_debt as int, reserve_factor as int, decimals)->Some_0;
            let accrued = accrued_interest_spec(borrowed as int, old_index as int, new_index as int, decimals);
            &&& accrued >= 0
            &&& accrued <= bad_debt ==> split.bad_debt == bad_debt - accrued && split.protocol_fee == 0 && split.supplier_rewards == 0
            &&& accrued > bad_debt ==> split.bad_debt == 0
                && split.protocol_fee + split.supplier_rewards == rescale_spec(accrued - bad_debt, decimals, 27)
                && split.protocol_fee <= rescale_spec(accrued - bad_debt, decimals, 27)
        }),
{
    lemma_pow10_values();
    let b = borrowed as int;
    assert(0 <= b * (old_index as int) <= b * (new_index as int)) by (nonlinear_arith)
        requires
            0 <= b,
            0 <= old_index <= new_index,
    ;
    crate::math::lemma_div_round_monotone(b * (old_index as int), b * (new_index as int), pow10(27) as int);
    let diff = mul_half_up_spec(b, new_index as int, 27) - mul_half_up_spec(b, old_index as int, 27);
    assert(diff >= 0);
    crate::math::lemma_half_up_nonneg(diff, 1, decimals);
    let accrued = accrued_interest_spec(b, old_index as int, new_index as int, decimals);
    assert(accrued >= 0);
    if accrued > bad_debt {
        let left = rescale_spec(accrued - bad_debt, decimals, 27);
        crate::pool::lemma_rescale_nonneg(accrued - bad_debt, decimals);
        assert(0 <= (reserve_factor as int) * pow10(23) <= pow10(27)) by (nonlinear_arith)
            requires
                0 <= reserve_factor <= 10_000,
                pow10(23) == 100_000_000_000_000_000_000_000,
                pow10(27) == 1_000_000_000_000_000_000_000_000_000,
        ;
        lemma_mul_half_up_le_one(left, (reserve_factor as int) * pow10(23));
    }
}

pub proof fn lemma_mul_half_up_le_one(x: int, f: int)
    requires
        0 <= x,
        0 <= f <= pow10(27),
    ensures
        0 <= mul_half_up_spec(x, f, 27) <= x,
{
    lemma_pow10_values();
    assert(x * f <= x * pow10(27)) by (nonlinear_arith)
        requires
            0 <= x,
            0 <= f <= pow10(27),
    ;
    assert(0 <= x * f) by (nonlinear_arith)
        requires
            0 <= x,
            0 <= f,
    ;
    lemma_div_round_bound(x * f, pow10(27) as int, x);
}

/// Interest factor with simple (linear) accrual: `1 + rate × seconds` in RAY.
pub open spec fn linear_interest_spec(rate: int, t: int) -> Option<u128> {
    fit(RAY + rate * t)
}

/// Linear interest factor over `time_passed` seconds at a per-second `rate`.
///
/// The product of a RAY rate by a whole number of seconds is exact, so rounding plays
/// no part here.
pub fn calculate_linear_interest(rate: u128, time_passed: u64) -> (r: Option<u128>)
    ensures
        r == linear_interest_spec(rate as int, time_passed as int),
{
    match mul_div_floor(rate, time_passed as u128, 1) {
        None => {
            proof {
                assert(rate * time_passed >= 0) by (nonlinear_arith)
                    requires
                        rate >= 0,
                        time_passed >= 0,
                ;
            }
            None
        },
        Some(x) => add_checked(RAY, x),
    }
}

/// The terms `x`, `x²`, `x³` of the Taylor expansion of `e^x`, with
/// `x = rate × seconds` and each power rounded half up at RAY precision.
pub open spec fn taylor_powers(rate: int, t: int) -> (int, int, int) {
    let x = rate * t;
    let x2 = mul_half_up_spec(x, x, 27);
    let x3 = mul_half_up_spec(x2, x, 27);
    (x, x2, x3)
}

/// Compounded interest factor `1 + x + x²/2 + x³/6` in RAY, with `x = rate × seconds`
/// (a third-order Taylor expansion of `e^x`); exactly one (RAY) when no time has
/// passed. `None` when a power of `x` or the sum exceeds 128 bits.
pub open spec fn compounded_interest_spec(rate: int, t: int) -> Option<u128> {
    if t == 0 {
        Some(RAY)
    } else {
        let (x, x2, x3) = taylor_powers(rate, t);
        if x > max_u128() || x2 > max_u128() || x3 > max_u128() {
            None
        } else {
            fit(
                RAY + x + div_half_up_spec(x2, 2 * (pow10(27) as int), 27)
                    + div_half_up_spec(x3, 6 * (pow10(27) as int), 27),
            )
        }
    }
}

/// Interest growth factor over `exp` seconds at a per-second `rate`, by a third-order
/// Taylor expansion of `e^(rate × exp)`.
pub fn calculate_compounded_interest(rate: u128, exp: u64) -> (r: Option<u128>)
    ensures
        r == compounded_interest_spec(rate as int, exp as int),
{
    if exp == 0 {
        return Some(RAY);
    }
    proof {
        lemma_pow10_values();
        assert(rate * exp >= 0) by (nonlinear_arith)
            requires
                rate >= 0,
                exp >= 0,
        ;
    }
    let x = match mul_div_floor(rate, exp as u128, 1) {
        Some(v) => v,
        None => return None,
    };
    let x2 = match mul_half_up(x, x, RAY_PRECISION) {
        Some(v) => v,
        None => return None,
    };
    let x3 = match mul_half_up(x2, x, RAY_PRECISION) {
        Some(v) => v,
        None => return None,
    };
    let term2 = div_half_up(x2, 2 * RAY, RAY_PRECISION);
    let term3 = div_half_up(x3, 6 * RAY, RAY_PRECISION);
    proof {
        lemma_div_half_up_le(x2 as int, 2);
        lemma_div_half_up_le(x3 as int, 6);
    }
    let t2 = term2.unwrap();
    let t3 = term3.unwrap();
    let s1 = match add_checked(RAY, x) {
        Some(v) => v,
        None => return None,
    };
    let s2 = match add_checked(s1, t2) {
        Some(v) => v,
        None => return None,
    };
    add_checked(s2, t3)
}

/// Dividing (half up, at RAY) by a whole number `k ≥ 1` never increases a value.
pub proof fn lemma_div_half_up_le(x: int, k: int)
    requires
        0 <= x,
        k >= 1,
    ensures
        0 <= div_half_up_spec(x, k * (pow10(27) as int), 27) <= x,
{
    lemma_pow10_values();
    let p = pow10(27) as int;
    assert(x * p <= x * (k * p)) by (nonlinear_arith)
        requires
            0 <= x,
            k >= 1,
            p > 0,
    ;
    assert(0 <= x * p) by (nonlinear_arith)
        requires
            0 <= x,
            p > 0,
    ;
    assert(k * p > 0) by (nonlinear_arith)
        requires
            k >= 1,
            p > 0,
    ;
    lemma_div_round_bound(x * p, k * p, x);
}

/// New borrow index: the old index times the growth factor, at RAY precision.
pub fn update_borrow_index(borrow_index: u128, interest_factor: u128) -> (r: Option<u128>)
    ensures
        r == fit(mul_half_up_spec(borrow_index as int, interest_factor as int, 27)),
{
    mul_half_up(borrow_index, interest_factor, RAY_PRECISION)
}

/// New supply index after distributing `rewards` (RAY) over the scaled supply.
///
/// The index grows by the ratio of the rewards to the supplied value; with nothing
/// supplied it is unchanged. `None` when the supplied value rounds to zero (a
/// division by zero) or a value exceeds 128 bits.
pub open spec fn supply_index_spec(supplied: int, index: int, rewards: int) -> Option<u128> {
    if supplied == 0 {
        fit(index)
    } else {
        let total = mul_half_up_spec(supplied, index, 27);
        if total > max_u128() || total == 0 {
            None
        } else {
            let ratio = div_half_up_spec(rewards, total, 27);
            if ratio > max_u128() || RAY + ratio > max_u128() {
                None
            } else {
                fit(mul_half_up_spec(index, RAY + ratio, 27))
            }
        }
    }
}

/// Supply index update after interest accrual (see `supply_index_spec`).
pub fn update_supply_index(supplied: u128, supply_index: u128, rewards: u128) -> (r: Option<u128>)
    ensures
        r == supply_index_spec(supplied as int, supply_index as int, rewards as int),
{
    if supplied == 0 {
        return Some(supply_index);
    }
    proof {
        lemma_half_up_nonneg(supplied as int, supply_index as int, 27);
        lemma_half_up_nonneg(rewards as int, 1, 27);
    }
    let total = match mul_half_up(supplied, supply_index, RAY_PRECISION) {
        Some(v) => v,
        None => return None,
    };
    if total == 0 {
        return None;
    }
    proof {
        lemma_half_up_nonneg(rewards as int, total as int, 27);
    }
    let ratio = match div_half_up(rewards, total, RAY_PRECISION) {
        Some(v) => v,
        None => return None,
    };
    let factor = match add_checked(RAY, ratio) {
        Some(v) => v,
        None => return None,
    };
    mul_half_up(supply_index, factor, RAY_PRECISION)
}

/// How the interest accrued over one period is split.
#[derive(Clone, Copy, Debug, PartialEq, Eq)]
pub struct InterestSplit {
    /// Bad debt still to be covered by future interest (asset decimals).
    pub bad_debt: u128,
    /// The protocol's share of the interest (RAY).
    pub protocol_fee: u128,
    /// The suppliers' share of the interest (RAY).
    pub supplier_rewards: u128,
}

/// Interest accrued on the scaled debt between two borrow indexes, truncated to the
/// asset's decimals.
pub open spec fn accrued_interest_spec(borrowed: int, old_index: int, new_index: int, decimals: nat) -> int {
    rescale_spec(
        mul_half_up_spec(borrowed, new_index, 27) - mul_half_up_spec(borrowed, old_index, 27),
        27,
        decimals,
    )
}

/// Split of the accrued interest: it first pays down outstanding bad debt; what is
/// left is divided between the protocol (reserve factor) and the suppliers.
pub open spec fn supplier_rewards_spec(
    borrowed: int,
    old_index: int,
    new_index: int,
    bad_debt: int,
    reserve_factor: int,
    decimals: nat,
) -> Option<InterestSplit> {
    let new_debt = mul_half_up_spec(borrowed, new_index, 27);
    let accrued = accrued_interest_spec(borrowed, old_index, new_index, decimals);
    if new_debt > max_u128() || accrued > max_u128() {
        None
    } else if accrued <= bad_debt {
        Some(InterestSplit { bad_debt: (bad_debt - accrued) as u128, protocol_fee: 0, supplier_rewards: 0 })
    } else {
        let left = rescale_spec(accrued - bad_debt, decimals, 27);
        if left > max_u128() {
            None
        } else {
            let fee = mul_half_up_spec(left, reserve_factor * pow10(23), 27);
            Some(InterestSplit { bad_debt: 0, protocol_fee: fee as u128, supplier_rewards: (left - fee) as u128 })
        }
    }
}

/// Splits the interest accrued on `borrowed` (scaled, RAY) between bad debt, protocol
/// fee and supplier rewards.
#[verifier::spinoff_prover]
pub fn calc_supplier_rewards(
    borrowed: u128,
    old_borrow_index: u128,
    new_borrow_index: u128,
    bad_debt: u128,
    params: &MarketParams,
) -> (r: Option<InterestSplit>)
    requires
        params.valid(),
        old_borrow_index <= new_borrow_index,
    ensures
        r == supplier_rewards_spec(
            borrowed as int,
            old_borrow_index as int,
            new_borrow_index as int,
            bad_debt as int,
            params.reserve_factor as int,
            params.asset_decimals as nat,
        ),
{
    let ghost d = params.asset_decimals as nat;
    proof {
        lemma_pow10_values();
        assert(borrowed * old_borrow_index <= borrowed * new_borrow_index) by (nonlinear_arith)
            requires
                old_borrow_index <= new_borrow_index,
                borrowed >= 0,
        ;
        assert(0 <= borrowed * old_borrow_index) by (nonlinear_arith)
            requires
                old_borrow_index >= 0,
                borrowed >= 0,
        ;
        lemma_div_round_monotone(borrowed * old_borrow_index, borrowed * new_borrow_index, pow10(27) as int);
    }
    proof {
        lemma_half_up_nonneg(borrowed as int, new_borrow_index as int, 27);
    }
    let new_debt = match mul_half_up(borrowed, new_borrow_index, RAY_PRECISION) {
        Some(v) => v,
        None => return None,
    };
    let old_debt = mul_half_up(borrowed, old_borrow_index, RAY_PRECISION).unwrap();
    let accrued_ray = new_debt - old_debt;
    proof {
        lemma_half_up_nonneg(accrued_ray as int, 1, d);
    }
    let accrued = match rescale(accrued_ray, RAY_PRECISION, params.asset_decimals) {
        Some(v) => v,
        None => return None,
    };
    if accrued <= bad_debt {
        return Some(InterestSplit { bad_debt: bad_debt - accrued, protocol_fee: 0, supplier_rewards: 0 });
    }
    let left = match rescale(accrued - bad_debt, params.asset_decimals, RAY_PRECISION) {
        Some(v) => v,
        None => {
            proof {
                crate::pool::lemma_rescale_nonneg((accrued - bad_debt) as int, d);
                assert(rescale_spec((accrued - bad_debt) as int, d, 27) > max_u128());
            }
            return None;
        },
    };
    let share: u128 = params.reserve_factor * 100_000_000_000_000_000_000_000;
    let fee = mul_half_up(left, share, RAY_PRECISION);
    proof {
        lemma_mul_half_up_le_one(left as int, share as int);
    }
    let fee = fee.unwrap();
    Some(InterestSplit { bad_debt: 0, protocol_fee: fee, supplier_rewards: left - fee })
}

proof fn lemma_floor_ratio_le(x: int, s: int, d: int)
    requires
        0 <= x <= d,
        d > 0,
        s >= 0,
    ensures
        0 <= (x * s) / d <= s,
{
    assert(0 <= x * s <= d * s) by (nonlinear_arith)
        requires
            0 <= x <= d,
            s >= 0,
    ;
    lemma_div_is_ordered(x * s, d * s, d);
    lemma_div_by_multiple(s, d);
    vstd::arithmetic::mul::lemma_mul_is_commutative(d, s);
    lemma_div_pos_is_pos(x * s, d);
}

proof fn lemma_floor_ratio_monotone(x: int, y: int, s: int, d: int)
    requires
        0 <= x <= y,
        d > 0,
        s >= 0,
    ensures
        (x * s) / d <= (y * s) / d,
{
    assert(x * s <= y * s) by (nonlinear_arith)
        requires
            0 <= x <= y,
            s >= 0,
    ;
    lemma_div_is_ordered(x * s, y * s, d);
}

/// Law: the annual borrow rate never decreases as utilization grows.
pub proof fn lemma_annual_rate_monotone(u1: int, u2: int, p: MarketParams)
    requires
        p.valid(),
        0 <= u1 <= u2,
    ensures
        annual_borrow_rate(u1, p) <= annual_borrow_rate(u2, p),
{
    let mid = p.mid_utilization as int;
    let opt = p.optimal_utilization as int;
    let r = RAY as int;
    if u1 < mid {
        if u2 < mid {
            lemma_floor_ratio_monotone(u1, u2, p.slope1 as int, mid);
        } else {
            lemma_floor_ratio_le(u1, p.slope1 as int, mid);
            if u2 < opt {
                lemma_floor_ratio_le(u2 - mid, p.slope2 as int, opt - mid);
            } else {
                lemma_div_pos_is_pos((u2 - opt) * p.slope3, r - opt);
            }
        }
    } else if u1 < opt {
        if u2 < opt {
            lemma_floor_ratio_monotone(u1 - mid, u2 - mid, p.slope2 as int, opt - mid);
        } else {
            lemma_floor_ratio_le(u1 - mid, p.slope2 as int, opt - mid);
            lemma_div_pos_is_pos((u2 - opt) * p.slope3, r - opt);
        }
    } else {
        lemma_floor_ratio_monotone(u1 - opt, u2 - opt, p.slope3 as int, r - opt);
    }
}

/// Law: the per-second borrow rate never decreases as utilization grows, and never
/// exceeds the per-second equivalent of `max_borrow_rate`.
pub proof fn lemma_borrow_rate_monotone_and_capped(u1: int, u2: int, p: MarketParams)
    requires
        p.valid(),
        0 <= u1 <= u2,
    ensures
        borrow_rate_spec(u1, p) <= borrow_rate_spec(u2, p),
        borrow_rate_spec(u2, p) <= div_half_up_spec(
            p.max_borrow_rate as int,
            SECONDS_PER_YEAR as int * pow10(27) as int,
            27,
        ),
{
    lemma_annual_rate_monotone(u1, u2, p);
    lemma_pow10_values();
    let d = SECONDS_PER_YEAR as int * pow10(27) as int;
    let c1 = capped_annual_rate(u1, p);
    let c2 = capped_annual_rate(u2, p);
    let m = p.max_borrow_rate as int;
    assert(0 <= annual_borrow_rate(u1, p)) by {
        let mid = p.mid_utilization as int;
        let opt = p.optimal_utilization as int;
        if u1 < mid {
            lemma_floor_ratio_monotone(0, u1, p.slope1 as int, mid);
        } else if u1 < opt {
            lemma_floor_ratio_monotone(0, u1 - mid, p.slope2 as int, opt - mid);
        } else {
            lemma_floor_ratio_monotone(0, u1 - opt, p.slope3 as int, RAY - opt);
        }
    }
    assert(c1 * pow10(27) <= c2 * pow10(27)) by (nonlinear_arith)
        requires
            0 <= c1 <= c2,
            pow10(27) > 0,
    ;
    assert(c2 * pow10(27) <= m * pow10(27)) by (nonlinear_arith)
        requires
            0 <= c2 <= m,
            pow10(27) > 0,
    ;
    assert(0 <= c1 * pow10(27)) by (nonlinear_arith)
        requires
            0 <= c1,
            pow10(27) > 0,
    ;
    lemma_div_round_monotone(c1 * pow10(27), c2 * pow10(27), d);
    lemma_div_round_monotone(c2 * pow10(27), m * pow10(27), d);
}

/// Law: the compounded growth factor is exactly one when no time passes or the rate is
/// zero, and never below one otherwise.
pub proof fn lemma_compounded_interest_at_least_one(rate: int, t: int)
    requires
        0 <= rate,
        0 <= t,
    ensures
        t == 0 ==> compounded_interest_spec(rate, t) == Some(RAY),
        rate == 0 ==> compounded_interest_spec(rate, t) == Some(RAY),
        compounded_interest_spec(rate, t) matches Some(f) ==> f >= RAY,
{
    lemma_pow10_values();
    if t != 0 {
        let (x, x2, x3) = taylor_powers(rate, t);
        assert(0 <= x) by (nonlinear_arith)
            requires
                0 <= rate,
                0 <= t,
                x == rate * t,
        ;
        lemma_half_up_nonneg(x, x, 27);
        lemma_half_up_nonneg(x2, x, 27);
        lemma_div_half_up_le(x2, 2);
        lemma_div_half_up_le(x3, 6);
        if rate == 0 {
            assert(x == rate * t);
            assert(x == 0) by (nonlinear_arith)
                requires
                    x == rate * t,
                    rate == 0,
            ;
            lemma_div_round_exact(0, pow10(27) as int);
            assert(x2 == 0);
            assert(x3 == 0);
        }
    }
}

/// The borrow rate is never negative.
pub proof fn lemma_borrow_rate_nonneg(u: int, p: MarketParams)
    requires
        p.valid(),
        0 <= u,
    ensures
        borrow_rate_spec(u, p) >= 0,
{
    let mid = p.mid_utilization as int;
    let opt = p.optimal_utilization as int;
    if u < mid {
        lemma_floor_ratio_monotone(0, u, p.slope1 as int, mid);
    } else if u < opt {
        lemma_floor_ratio_monotone(0, u - mid, p.slope2 as int, opt - mid);
    } else {
        lemma_floor_ratio_monotone(0, u - opt, p.slope3 as int, RAY - opt);
    }
    lemma_pow10_values();
    lemma_half_up_nonneg(capped_annual_rate(u, p), SECONDS_PER_YEAR as int * pow10(27) as int, 27);
}

} // verus!
