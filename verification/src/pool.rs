//! Accounting state of one single-asset liquidity pool and the index synchronisation
//! that accrues interest on it.
//!
//! Supplied, borrowed and treasury (revenue) balances are kept as scaled amounts in
//! RAY: an actual amount is its scaled amount times the current index. Interest and
//! losses move the indexes, never the scaled balances.
use crate::math::{
    add_checked, div_half_up, div_half_up_spec, lemma_half_up_nonneg, mul_half_up,
    mul_half_up_spec, rescale, rescale_half_up, rescale_half_up_spec, rescale_spec, RAY,
    RAY_PRECISION,
};
use crate::rates::{
    borrow_rate_spec, calc_borrow_rate, calc_supplier_rewards, calculate_compounded_interest,
    compounded_interest_spec, lemma_compounded_interest_at_least_one, supplier_rewards_spec,
    supply_index_spec, update_borrow_index, update_supply_index, InterestSplit, MarketParams,
};
use crate::wide::{fit, max_u128};
use vstd::prelude::*;

verus! {

/// Balances and indexes of a liquidity pool.
#[derive(Clone, Copy, Debug, PartialEq, Eq)]
pub struct PoolState {
    /// Interest rate parameters and asset decimals.
    pub params: MarketParams,
    /// Total scaled supply, the treasury's share included (RAY).
    pub supplied: u128,
    /// Total scaled debt (RAY).
    pub borrowed: u128,
    /// Bad debt waiting to be covered by future interest (asset decimals).
    pub bad_debt: u128,
    /// Scaled supply owned by the protocol treasury (RAY).
    pub revenue: u128,
    /// Borrow index (RAY), the value of one scaled unit of debt.
    pub borrow_index: u128,
    /// Supply index (RAY), the value of one scaled unit of supply.
    pub supply_index: u128,
    /// Time of the last index update (seconds).
    pub last_timestamp: u64,
}

impl PoolState {
    /// Well-formed pool: valid parameters, a borrow index of at least one and a
    /// positive supply index.
    pub open spec fn valid(&self) -> bool {
        &&& self.params.valid()
        &&& self.borrow_index >= RAY
        &&& self.supply_index >= 1
    }

    /// A fresh pool: both indexes at one, all balances empty.
    pub open spec fn initial_spec(params: MarketParams, now: u64) -> PoolState {
        PoolState {
            params,
            supplied: 0,
            borrowed: 0,
            bad_debt: 0,
            revenue: 0,
            borrow_index: RAY,
            supply_index: RAY,
            last_timestamp: now,
        }
    }
}

/// Scaled amount of an actual `amount` (at `decimals`) at the given index:
/// `amount / index` rounded half up at RAY precision.
pub open spec fn scaled_of(amount: int, decimals: nat, index: int) -> Option<u128> {
    let a = rescale_spec(amount, decimals, 27);
    if a > max_u128() {
        None
    } else {
        fit(div_half_up_spec(a, index, 27))
    }
}

/// Actual amount (at `decimals`) of a scaled amount at the given index:
/// `scaled × index` rounded half up, then rounded half up to the asset decimals.
pub open spec fn original_of(scaled: int, index: int, decimals: nat) -> Option<u128> {
    let m = mul_half_up_spec(scaled, index, 27);
    if m > max_u128() {
        None
    } else {
        fit(rescale_half_up_spec(m, 27, decimals))
    }
}

/// Scaled amount of an actual amount (see `scaled_of`).
pub fn to_scaled(amount: u128, decimals: usize, index: u128) -> (r: Option<u128>)
    requires
        decimals <= 38,
        index > 0,
    ensures
        r == scaled_of(amount as int, decimals as nat, index as int),
{
    proof {
        lemma_half_up_nonneg(amount as int, 1, decimals as nat);
        lemma_rescale_nonneg(amount as int, decimals as nat);
    }
    match rescale(amount, decimals, RAY_PRECISION) {
        None => None,
        Some(a) => div_half_up(a, index, RAY_PRECISION),
    }
}

/// Actual amount of a scaled amount (see `original_of`).
pub fn to_original(scaled: u128, index: u128, decimals: usize) -> (r: Option<u128>)
    requires
        decimals <= 38,
    ensures
        r == original_of(scaled as int, index as int, decimals as nat),
{
    proof {
        lemma_half_up_nonneg(scaled as int, index as int, 27);
    }
    match mul_half_up(scaled, index, RAY_PRECISION) {
        None => None,
        Some(m) => rescale_half_up(m, RAY_PRECISION, decimals),
    }
}

pub proof fn lemma_rescale_nonneg(a: int, from: nat)
    requires
        0 <= a,
    ensures
        0 <= rescale_spec(a, from, 27),
        0 <= rescale_half_up_spec(a, from, 27),
{
    crate::math::lemma_pow10_pos(from);
    if from <= 27 {
        crate::math::lemma_pow10_pos((27 - from) as nat);
        assert(0 <= a * crate::math::pow10((27 - from) as nat)) by (nonlinear_arith)
            requires
                0 <= a,
                crate::math::pow10((27 - from) as nat) > 0,
        ;
    } else {
        crate::math::lemma_pow10_pos((from - 27) as nat);
        vstd::arithmetic::div_mod::lemma_div_pos_is_pos(a, crate::math::pow10((from - 27) as nat) as int);
        vstd::arithmetic::div_mod::lemma_div_pos_is_pos(
            a + (crate::math::pow10((from - 27) as nat) as int) / 2,
            crate::math::pow10((from - 27) as nat) as int,
        );
    }
}

/// Utilization `borrowed value / supplied value` (RAY); zero when nothing is supplied.
pub open spec fn utilization_spec(s: PoolState) -> Option<u128> {
    if s.supplied == 0 {
        Some(0)
    } else {
        let d = s.params.asset_decimals as nat;
        match (original_of(s.borrowed as int, s.borrow_index as int, d), original_of(s.supplied as int, s.supply_index as int, d)) {
            (Some(b), Some(sp)) => {
                let bb = rescale_spec(b as int, d, 27);
                let ss = rescale_spec(sp as int, d, 27);
                if bb > max_u128() || ss > max_u128() || ss == 0 {
                    None
                } else {
                    fit(div_half_up_spec(bb, ss, 27))
                }
            },
            _ => None,
        }
    }
}

/// The pool after minting the scaled value of `amount` (at `decimals`) to the treasury:
/// both the treasury balance and the total supply grow by that scaled amount.
pub open spec fn add_protocol_revenue_spec(s: PoolState, amount: int, decimals: nat) -> Option<PoolState> {
    if amount == 0 {
        Some(s)
    } else {
        match scaled_of(amount, decimals, s.supply_index as int) {
            None => None,
            Some(f) => if s.revenue + f > max_u128() || s.supplied + f > max_u128() {
                None
            } else {
                Some(PoolState { revenue: (s.revenue + f) as u128, supplied: (s.supplied + f) as u128, ..s })
            },
        }
    }
}

/// The pool after accruing interest up to `now`; `None` when the computation has no result
/// (time going backwards, a zero divisor) or a value leaves 128 bits.
///
/// The borrow index grows by the compounded interest factor at the current borrow
/// rate; the accrued interest first covers bad debt, then the reserve factor's share
/// is minted to the treasury and the rest raises the supply index.
pub open spec fn global_sync_spec(s: PoolState, now: u64) -> Option<PoolState> {
    if now < s.last_timestamp {
        None
    } else if now == s.last_timestamp {
        Some(s)
    } else {
        let delta = now - s.last_timestamp;
        match utilization_spec(s) {
            None => None,
            Some(u) => {
                let rate = borrow_rate_spec(u as int, s.params);
                match compounded_interest_spec(rate, delta) {
                    None => None,
                    Some(factor) => match fit(mul_half_up_spec(s.borrow_index as int, factor as int, 27)) {
                        None => None,
                        Some(new_bi) => match supplier_rewards_spec(
                            s.borrowed as int,
                            s.borrow_index as int,
                            new_bi as int,
                            s.bad_debt as int,
                            s.params.reserve_factor as int,
                            s.params.asset_decimals as nat,
                        ) {
                            None => None,
                            Some(split) => match supply_index_spec(s.supplied as int, s.supply_index as int, split.supplier_rewards as int) {
                                None => None,
                                Some(new_si) => {
                                    let s2 = PoolState {
                                        borrow_index: new_bi,
                                        supply_index: new_si,
                                        bad_debt: split.bad_debt,
                                        ..s
                                    };
                                    match add_protocol_revenue_spec(s2, split.protocol_fee as int, 27) {
                                        None => None,
                                        Some(s3) => Some(PoolState { last_timestamp: now, ..s3 }),
                                    }
                                },
                            },
                        },
                    },
                }
            },
        }
    }
}

proof fn lemma_mul_half_up_grows(index: int, factor: int)
    requires
        index >= 0,
        factor >= RAY,
    ensures
        mul_half_up_spec(index, factor, 27) >= index,
{
    crate::math::lemma_pow10_values();
    assert(index * factor >= index * crate::math::pow10(27)) by (nonlinear_arith)
        requires
            index >= 0,
            factor >= crate::math::pow10(27),
    ;
    assert(0 <= index * crate::math::pow10(27)) by (nonlinear_arith)
        requires
            index >= 0,
            crate::math::pow10(27) > 0,
    ;
    crate::math::lemma_div_round_monotone(index * crate::math::pow10(27), index * factor, crate::math::pow10(27) as int);
    crate::math::lemma_div_round_exact(index, crate::math::pow10(27) as int);
}

impl PoolState {
    /// A freshly created pool.
    pub fn initial(params: MarketParams, now: u64) -> (r: PoolState)
        ensures
            r == PoolState::initial_spec(params, now),
    {
        PoolState {
            params,
            supplied: 0,
            borrowed: 0,
            bad_debt: 0,
            revenue: 0,
            borrow_index: RAY,
            supply_index: RAY,
            last_timestamp: now,
        }
    }

    /// Current utilization of the pool (see `utilization_spec`).
    pub fn get_utilization(&self) -> (r: Option<u128>)
        requires
            self.valid(),
        ensures
            r == utilization_spec(*self),
    {
        if self.supplied == 0 {
            return Some(0);
        }
        let d = self.params.asset_decimals;
        let b = match to_original(self.borrowed, self.borrow_index, d) {
            Some(v) => v,
            None => return None,
        };
        let sp = match to_original(self.supplied, self.supply_index, d) {
            Some(v) => v,
            None => return None,
        };
        proof {
            lemma_rescale_to_ray_nonneg(b as int, d as nat);
            lemma_rescale_to_ray_nonneg(sp as int, d as nat);
        }
        let bb = match rescale(b, d, RAY_PRECISION) {
            Some(v) => v,
            None => return None,
        };
        let ss = match rescale(sp, d, RAY_PRECISION) {
            Some(v) => v,
            None => return None,
        };
        if ss == 0 {
            return None;
        }
        div_half_up(bb, ss, RAY_PRECISION)
    }

    /// Mints the scaled value of `amount` (at `decimals`) to the treasury
    /// (see `add_protocol_revenue_spec`).
    pub fn internal_add_protocol_revenue(&self, amount: u128, decimals: usize) -> (r: Option<PoolState>)
        requires
            self.valid(),
            decimals <= 38,
        ensures
            r == add_protocol_revenue_spec(*self, amount as int, decimals as nat),
            r matches Some(n) ==> n.valid(),
    {
        if amount == 0 {
            return Some(*self);
        }
        let f = match to_scaled(amount, decimals, self.supply_index) {
            Some(v) => v,
            None => return None,
        };
        let revenue = match add_checked(self.revenue, f) {
            Some(v) => v,
            None => return None,
        };
        let supplied = match add_checked(self.supplied, f) {
            Some(v) => v,
            None => return None,
        };
        Some(PoolState { revenue, supplied, ..*self })
    }

    /// Accrues interest up to `now` (see `global_sync_spec`).
    pub fn global_sync(&self, now: u64) -> (r: Option<PoolState>)
        requires
            self.valid(),
        ensures
            r == global_sync_spec(*self, now),
            r matches Some(n) ==> n.valid(),
    {
        if now < self.last_timestamp {
            return None;
        }
        if now == self.last_timestamp {
            return Some(*self);
        }
        let delta = now - self.last_timestamp;
        let u = match self.get_utilization() {
            Some(v) => v,
            None => return None,
        };
        let rate = calc_borrow_rate(u, &self.params);
        let factor = match calculate_compounded_interest(rate, delta) {
            Some(v) => v,
            None => return None,
        };
        proof {
            lemma_compounded_interest_at_least_one(rate as int, delta as int);
            lemma_mul_half_up_grows(self.borrow_index as int, factor as int);
        }
        let new_bi = match update_borrow_index(self.borrow_index, factor) {
            Some(v) => v,
            None => return None,
        };
        let split = match calc_supplier_rewards(self.borrowed, self.borrow_index, new_bi, self.bad_debt, &self.params) {
            Some(v) => v,
            None => return None,
        };
        let new_si = match update_supply_index(self.supplied, self.supply_index, split.supplier_rewards) {
            Some(v) => v,
            None => return None,
        };
        proof {
            if self.supplied != 0 {
                let total = mul_half_up_spec(self.supplied as int, self.supply_index as int, 27);
                lemma_half_up_nonneg(self.supplied as int, self.supply_index as int, 27);
                assert(supply_index_spec(self.supplied as int, self.supply_index as int, split.supplier_rewards as int) == Some(new_si));
                assert(total > 0);
                let ratio = div_half_up_spec(split.supplier_rewards as int, total, 27);
                lemma_half_up_nonneg(split.supplier_rewards as int, total, 27);
                assert(ratio >= 0);
                assert(RAY + ratio <= max_u128());
                lemma_mul_half_up_grows(self.supply_index as int, RAY + ratio);
                assert(new_si as int == mul_half_up_spec(self.supply_index as int, RAY + ratio, 27));
            }
        }
        assert(new_bi >= RAY);
        assert(new_si >= 1);
        let s2 = PoolState { borrow_index: new_bi, supply_index: new_si, bad_debt: split.bad_debt, ..*self };
        match s2.internal_add_protocol_revenue(split.protocol_fee, RAY_PRECISION) {
            None => None,
            Some(s3) => Some(PoolState { last_timestamp: now, ..s3 }),
        }
    }
}

impl PoolState {
    /// Scaled amount of a supply of `amount` at the current supply index.
    pub fn get_scaled_supply_amount(&self, amount: u128) -> (r: Option<u128>)
        requires
            self.valid(),
        ensures
            r == scaled_of(amount as int, self.params.asset_decimals as nat, self.supply_index as int),
    {
        to_scaled(amount, self.params.asset_decimals, self.supply_index)
    }

    /// Scaled amount of a debt of `amount` at the current borrow index.
    pub fn get_scaled_borrow_amount(&self, amount: u128) -> (r: Option<u128>)
        requires
            self.valid(),
        ensures
            r == scaled_of(amount as int, self.params.asset_decimals as nat, self.borrow_index as int),
    {
        to_scaled(amount, self.params.asset_decimals, self.borrow_index)
    }

    /// Actual amount of a scaled supply at the current supply index.
    pub fn get_original_supply_amount(&self, scaled: u128) -> (r: Option<u128>)
        requires
            self.valid(),
        ensures
            r == original_of(scaled as int, self.supply_index as int, self.params.asset_decimals as nat),
    {
        to_original(scaled, self.supply_index, self.params.asset_decimals)
    }

    /// Actual amount of a scaled debt at the current borrow index.
    pub fn get_original_borrow_amount(&self, scaled: u128) -> (r: Option<u128>)
        requires
            self.valid(),
        ensures
            r == original_of(scaled as int, self.borrow_index as int, self.params.asset_decimals as nat),
    {
        to_original(scaled, self.borrow_index, self.params.asset_decimals)
    }
}

proof fn lemma_round_trip_core(a: int, k: int, i: int)
    requires
        a >= 0,
        k >= 1_000_000_000,
        k % 2 == 0,
        1 <= i <= 100_000_000_000_000_000_000_000_000_000_000_000int,
    ensures
        ({
            let big_r = 1_000_000_000_000_000_000_000_000_000int;
            let q = (a * k * big_r + i / 2) / i;
            let m = (q * i + big_r / 2) / big_r;
            &&& q >= 0
            &&& a * k - 50_000_000 <= m <= a * k + 50_000_000
            &&& (m + k / 2) / k == a
        }),
{
    let big_r = 1_000_000_000_000_000_000_000_000_000int;
    let big_a = a * k;
    assert(big_a >= 0) by (nonlinear_arith)
        requires
            a >= 0,
            k >= 0,
            big_a == a * k,
    ;
    let x = big_a * big_r + i / 2;
    assert(x >= 0) by (nonlinear_arith)
        requires
            big_a >= 0,
            i >= 1,
            x == big_a * big_r + i / 2,
            big_r > 0,
    ;
    let q = x / i;
    let r = x % i;
    vstd::arithmetic::div_mod::lemma_fundamental_div_mod(x, i);
    vstd::arithmetic::div_mod::lemma_div_pos_is_pos(x, i);
    let y = q * i + big_r / 2;
    let m = y / big_r;
    let r2 = y % big_r;
    vstd::arithmetic::div_mod::lemma_fundamental_div_mod(y, big_r);
    assert(x == i * q + r && 0 <= r < i);
    assert(y == big_r * m + r2 && 0 <= r2 < big_r);
    assert(q * i == i * q) by (nonlinear_arith);
    // big_r * (m - big_a) == i / 2 - r + big_r / 2 - r2
    assert(big_r * m - big_a * big_r == i / 2 - r + big_r / 2 - r2);
    assert(big_r * (m - big_a) == big_r * m - big_a * big_r) by (nonlinear_arith);
    let d = m - big_a;
    assert(big_r * d < big_r * 50_000_001);
    assert(big_r * d > big_r * -50_000_001);
    assert(d < 50_000_001) by (nonlinear_arith)
        requires
            big_r * d < big_r * 50_000_001,
            big_r > 0,
    ;
    assert(d > -50_000_001) by (nonlinear_arith)
        requires
            big_r * d > big_r * -50_000_001,
            big_r > 0,
    ;
    let t = m + k / 2 - big_a;
    assert(0 <= t < k);
    assert(m + k / 2 == a * k + t);
    vstd::arithmetic::div_mod::lemma_fundamental_div_mod_converse(m + k / 2, k, a, t);
}

/// Converting an amount to scaled units and back gives the amount again, for assets
/// of at most 18 decimals, indexes up to 1e35 (a hundred-million-fold growth) and
/// amounts whose RAY value stays below `2^127`.
pub proof fn lemma_scaled_round_trip(amount: int, decimals: nat, index: int)
    requires
        0 <= amount,
        decimals <= 18,
        1 <= index <= 100_000_000_000_000_000_000_000_000_000_000_000int,
        amount * crate::math::pow10((27 - decimals) as nat) < crate::wide::two128() / 2,
    ensures
        scaled_of(amount, decimals, index) matches Some(sc) ==> original_of(sc as int, index, decimals) == Some(amount as u128),
{
    crate::math::lemma_pow10_values();
    reveal_with_fuel(crate::math::pow10, 10);
    let k = crate::math::pow10((27 - decimals) as nat) as int;
    crate::math::lemma_pow10_monotone(9, (27 - decimals) as nat);
    crate::math::lemma_pow10_adds(1, (26 - decimals) as nat);
    assert(k == 10 * crate::math::pow10((26 - decimals) as nat));
    assert(k % 2 == 0);
    lemma_round_trip_core(amount, k, index);
}

pub proof fn lemma_rescale_to_ray_nonneg(a: int, d: nat)
    requires
        0 <= a,
    ensures
        0 <= rescale_spec(a, d, 27),
{
    lemma_rescale_nonneg(a, d);
}

/// `a - b` when it is not negative.
pub open spec fn sub_opt(a: int, b: int) -> Option<u128> {
    if b <= a {
        fit(a - b)
    } else {
        None
    }
}

/// Checked subtraction.
pub fn sub_checked(a: u128, b: u128) -> (r: Option<u128>)
    ensures
        r == sub_opt(a as int, b as int),
{
    if b <= a {
        Some(a - b)
    } else {
        None
    }
}

/// Scaled and actual amounts a withdrawal takes from a position: everything when the
/// request reaches the position's current value, else the scaled value of the request.
pub open spec fn gross_withdrawal_spec(s: PoolState, position_scaled: int, requested: int) -> Option<(u128, u128)> {
    let d = s.params.asset_decimals as nat;
    match original_of(position_scaled, s.supply_index as int, d) {
        None => None,
        Some(current) => if requested >= current {
            Some((position_scaled as u128, current))
        } else {
            match scaled_of(requested, d, s.supply_index as int) {
                None => None,
                Some(sc) => Some((sc, requested as u128)),
            }
        },
    }
}

/// Scaled debt a repayment clears and the overpaid part to refund: a payment reaching
/// the current debt clears the whole position and refunds the excess.
pub open spec fn repayment_details_spec(s: PoolState, position_scaled: int, payment: int) -> Option<(u128, u128)> {
    let d = s.params.asset_decimals as nat;
    match original_of(position_scaled, s.borrow_index as int, d) {
        None => None,
        Some(debt) => if payment >= debt {
            Some((position_scaled as u128, (payment - debt) as u128))
        } else {
            match scaled_of(payment, d, s.borrow_index as int) {
                None => None,
                Some(sc) => Some((sc, 0u128)),
            }
        },
    }
}

/// Loss socialisation: the supply index shrinks by the share of the supplied value
/// that `bad_debt` (asset decimals) represents, capped at the whole value, and never
/// drops below one raw unit. `None` when nothing is supplied (a division
/// by zero) or a value leaves 128 bits.
pub open spec fn bad_debt_index_spec(s: PoolState, bad_debt: int) -> Option<u128> {
    let total = mul_half_up_spec(s.supplied as int, s.supply_index as int, 27);
    let bad = rescale_spec(bad_debt, s.params.asset_decimals as nat, 27);
    if total > max_u128() || bad > max_u128() || total == 0 {
        None
    } else {
        let capped = if bad < total { bad } else { total };
        let reduction = div_half_up_spec(total - capped, total, 27);
        let new_index = mul_half_up_spec(s.supply_index as int, reduction, 27);
        Some(if new_index > 1 { new_index as u128 } else { 1u128 })
    }
}

impl PoolState {
    /// Scaled and actual gross amounts of a withdrawal (see `gross_withdrawal_spec`).
    pub fn determine_gross_withdrawal_amounts(&self, position_scaled: u128, requested: u128) -> (r: Option<(u128, u128)>)
        requires
            self.valid(),
        ensures
            r == gross_withdrawal_spec(*self, position_scaled as int, requested as int),
    {
        let d = self.params.asset_decimals;
        let current = match to_original(position_scaled, self.supply_index, d) {
            Some(v) => v,
            None => return None,
        };
        if requested >= current {
            Some((position_scaled, current))
        } else {
            match to_scaled(requested, d, self.supply_index) {
                None => None,
                Some(sc) => Some((sc, requested)),
            }
        }
    }

    /// Scaled debt cleared and overpayment of a repayment (see `repayment_details_spec`).
    pub fn determine_repayment_details(&self, position_scaled: u128, payment: u128) -> (r: Option<(u128, u128)>)
        requires
            self.valid(),
        ensures
            r == repayment_details_spec(*self, position_scaled as int, payment as int),
    {
        let d = self.params.asset_decimals;
        let debt = match to_original(position_scaled, self.borrow_index, d) {
            Some(v) => v,
            None => return None,
        };
        if payment >= debt {
            Some((position_scaled, payment - debt))
        } else {
            match to_scaled(payment, d, self.borrow_index) {
                None => None,
                Some(sc) => Some((sc, 0)),
            }
        }
    }

    /// New supply index after socialising `bad_debt` (see `bad_debt_index_spec`).
    pub fn apply_bad_debt_to_supply_index(&self, bad_debt: u128) -> (r: Option<PoolState>)
        requires
            self.valid(),
        ensures
            match bad_debt_index_spec(*self, bad_debt as int) {
                None => r is None,
                Some(i) => r == Some(PoolState { supply_index: i, ..*self }),
            },
            r matches Some(n) ==> n.valid(),
    {
        proof {
            lemma_half_up_nonneg(self.supplied as int, self.supply_index as int, 27);
            lemma_rescale_nonneg(bad_debt as int, self.params.asset_decimals as nat);
        }
        let total = match mul_half_up(self.supplied, self.supply_index, RAY_PRECISION) {
            Some(v) => v,
            None => return None,
        };
        let bad = match rescale(bad_debt, self.params.asset_decimals, RAY_PRECISION) {
            Some(v) => v,
            None => return None,
        };
        if total == 0 {
            return None;
        }
        let capped = if bad < total { bad } else { total };
        proof {
            lemma_half_up_nonneg((total - capped) as int, total as int, 27);
            crate::math::lemma_pow10_values();
            assert((total - capped) * crate::math::pow10(27) <= total * crate::math::pow10(27)) by (nonlinear_arith)
                requires
                    0 <= total - capped <= total,
                    crate::math::pow10(27) > 0,
            ;
            assert(0 <= (total - capped) * crate::math::pow10(27)) by (nonlinear_arith)
                requires
                    0 <= total - capped,
                    crate::math::pow10(27) > 0,
            ;
            assert(total * crate::math::pow10(27) <= crate::math::pow10(27) * total) by (nonlinear_arith);
            crate::math::lemma_div_round_bound((total - capped) * crate::math::pow10(27), total as int, crate::math::pow10(27) as int);
        }
        let reduction = div_half_up(total - capped, total, RAY_PRECISION).unwrap();
        proof {
            lemma_half_up_nonneg(self.supply_index as int, reduction as int, 27);
            crate::rates::lemma_mul_half_up_le_one(self.supply_index as int, reduction as int);
        }
        let new_index = mul_half_up(self.supply_index, reduction, RAY_PRECISION).unwrap();
        let idx = if new_index > 1 { new_index } else { 1 };
        Some(PoolState { supply_index: idx, ..*self })
    }
}

/// Law: accruing interest never lowers either index, leaves the scaled debt and the
/// users' scaled supply untouched (fees are minted to the treasury on top), and records
/// `now` as the time of the last update.
pub proof fn lemma_global_sync_monotone(s: PoolState, now: u64)
    requires
        s.valid(),
        global_sync_spec(s, now) is Some,
    ensures
        ({
            let s1 = global_sync_spec(s, now)->Some_0;
            &&& s1.valid()
            &&& s1.borrow_index >= s.borrow_index
            &&& s1.supply_index >= s.supply_index
            &&& s1.borrowed == s.borrowed
            &&& s1.revenue >= s.revenue
            &&& s1.supplied - s1.revenue == s.supplied - s.revenue
            &&& s1.params == s.params
            &&& s1.last_timestamp == now
        }),
{
    if now > s.last_timestamp {
        let delta = (now - s.last_timestamp) as u64;
        let u = utilization_spec(s)->Some_0;
        let rate = borrow_rate_spec(u as int, s.params);
        crate::rates::lemma_borrow_rate_monotone_and_capped(0, u as int, s.params);
        crate::math::lemma_pow10_values();
        lemma_half_up_nonneg(s.params.max_borrow_rate as int, 1, 27);
        crate::rates::lemma_borrow_rate_nonneg(u as int, s.params);
        lemma_compounded_interest_at_least_one(rate, delta as int);
        let factor = compounded_interest_spec(rate, delta as int)->Some_0;
        lemma_mul_half_up_grows(s.borrow_index as int, factor as int);
        let new_bi = fit(mul_half_up_spec(s.borrow_index as int, factor as int, 27))->Some_0;
        let split = supplier_rewards_spec(
            s.borrowed as int,
            s.borrow_index as int,
            new_bi as int,
            s.bad_debt as int,
            s.params.reserve_factor as int,
            s.params.asset_decimals as nat,
        )->Some_0;
        let new_si = supply_index_spec(s.supplied as int, s.supply_index as int, split.supplier_rewards as int)->Some_0;
        if s.supplied != 0 {
            let total = mul_half_up_spec(s.supplied as int, s.supply_index as int, 27);
            lemma_half_up_nonneg(s.supplied as int, s.supply_index as int, 27);
            let ratio = div_half_up_spec(split.supplier_rewards as int, total, 27);
            lemma_half_up_nonneg(split.supplier_rewards as int, total, 27);
            lemma_mul_half_up_grows(s.supply_index as int, RAY + ratio);
        }
        assert(new_si >= s.supply_index);
        let s2 = PoolState { borrow_index: new_bi, supply_index: new_si, bad_debt: split.bad_debt, ..s };
        if split.protocol_fee != 0 {
            let f = scaled_of(split.protocol_fee as int, 27, s2.supply_index as int)->Some_0;
        }
    }
}

/// Law: synchronising twice at the same time is the same as synchronising once.
pub proof fn lemma_global_sync_idempotent(s: PoolState, now: u64)
    requires
        s.valid(),
        global_sync_spec(s, now) is Some,
    ensures
        global_sync_spec(global_sync_spec(s, now)->Some_0, now) == global_sync_spec(s, now),
{
    lemma_global_sync_monotone(s, now);
}


/// The reserves a pool may lend or pay out: its token balance less the protocol's
/// revenue (the treasury's scaled supply at the supply index, in asset decimals),
/// and none when the revenue exceeds the balance.
pub open spec fn available_reserves_spec(s: PoolState, balance: int) -> int {
    match original_of(s.revenue as int, s.supply_index as int, s.params.asset_decimals as nat) {
        None => 0,
        Some(revenue) => if balance >= revenue { balance - revenue } else { 0 },
    }
}

/// Available reserves of a pool with token balance `balance` (see
/// `available_reserves_spec`).
pub fn available_reserves(s: &PoolState, balance: u128) -> (r: u128)
    requires
        s.params.asset_decimals <= 38,
    ensures
        r == available_reserves_spec(*s, balance as int),
        r <= balance,
{
    match to_original(s.revenue, s.supply_index, s.params.asset_decimals) {
        None => 0,
        Some(revenue) => if balance >= revenue { balance - revenue } else { 0 },
    }
}

proof fn lemma_div_round_close(n: int, d: int)
    requires
        d > 0,
    ensures
        n - d < crate::wide::div_round(n, d) * d <= n + d,
{
    let q = (n + d / 2) / d;
    vstd::arithmetic::div_mod::lemma_fundamental_div_mod(n + d / 2, d);
    assert(q * d == d * q) by (nonlinear_arith);
}

/// Law: writing off a loss of `bad_debt` tokens scales the supply index by the share
/// of the supplied value (scaled supply at the index, RAY) that survives the loss:
/// with `v` that value and `l` the loss at RAY precision (capped at `v`), the new
/// index `i'` satisfies `i' * v ≈ i * (v - l)`, within `v * (i + 2 RAY) / RAY`.
pub proof fn lemma_bad_debt_index_share(s: PoolState, bad_debt: int)
    requires
        s.valid(),
        bad_debt >= 0,
        bad_debt_index_spec(s, bad_debt) is Some,
    ensures
        ({
            let ray = crate::math::pow10(27) as int;
            let v = mul_half_up_spec(s.supplied as int, s.supply_index as int, 27);
            let bad = rescale_spec(bad_debt, s.params.asset_decimals as nat, 27);
            let l = if bad < v { bad } else { v };
            let i = s.supply_index as int;
            let ni = bad_debt_index_spec(s, bad_debt)->Some_0 as int;
            &&& v > 0
            &&& ray * (ni * v - i * (v - l)) <= v * (i + 2 * ray)
            &&& ray * (i * (v - l) - ni * v) <= v * (i + 2 * ray)
        }),
{
    crate::math::lemma_pow10_values();
    let ray = crate::math::pow10(27) as int;
    let v = mul_half_up_spec(s.supplied as int, s.supply_index as int, 27);
    let bad = rescale_spec(bad_debt, s.params.asset_decimals as nat, 27);
    crate::pool::lemma_rescale_nonneg(bad_debt, s.params.asset_decimals as nat);
    crate::math::lemma_half_up_nonneg(s.supplied as int, s.supply_index as int, 27);
    let l = if bad < v { bad } else { v };
    let i = s.supply_index as int;
    let r = crate::math::div_half_up_spec(v - l, v, 27);
    let m = mul_half_up_spec(i, r, 27);
    lemma_div_round_close((v - l) * ray, v);
    lemma_div_round_close(i * r, ray);
    let e1 = r * v - (v - l) * ray;
    let e2 = m * ray - i * r;
    assert(m * ray * v == i * (v - l) * ray + i * e1 + e2 * v) by (nonlinear_arith)
        requires
            e1 == r * v - (v - l) * ray,
            e2 == m * ray - i * r,
    ;
    assert(i * e1 + v * i >= 0 && i * e1 <= v * i) by (nonlinear_arith)
        requires
            -v < e1 <= v,
            i >= 1,
    ;
    assert(e2 * v + ray * v >= 0 && e2 * v <= ray * v) by (nonlinear_arith)
        requires
            -ray < e2 <= ray,
            v > 0,
    ;
    assert(m >= 0) by {
        assert(0 <= (v - l) * ray) by (nonlinear_arith)
            requires
                0 <= v - l,
                ray > 0,
        ;
        lemma_div_round_close((v - l) * ray, v);
        crate::math::lemma_half_up_nonneg(i, r, 27);
        assert(r >= 0) by {
            vstd::arithmetic::div_mod::lemma_div_pos_is_pos((v - l) * ray + v / 2, v);
        }
    }
    let ni = bad_debt_index_spec(s, bad_debt)->Some_0 as int;
    assert(v * (i + 2 * ray) == v * i + ray * v + ray * v) by (nonlinear_arith);
    assert(v * i == i * v) by (nonlinear_arith);
    assert(ray * (m * v - i * (v - l)) == i * e1 + e2 * v) by (nonlinear_arith)
        requires
            m * ray * v == i * (v - l) * ray + i * e1 + e2 * v,
    ;
    assert(ray * (i * (v - l) - m * v) == -(i * e1 + e2 * v)) by (nonlinear_arith)
        requires
            ray * (m * v - i * (v - l)) == i * e1 + e2 * v,
    ;
    if m <= 1 {
        assert(ni == 1);
        assert(ray * ((ni - m) * v) <= ray * v) by (nonlinear_arith)
            requires
                0 <= ni - m <= 1,
                v > 0,
                ray > 0,
        ;
        assert(0 <= ray * ((ni - m) * v)) by (nonlinear_arith)
            requires
                0 <= ni - m,
                v > 0,
                ray > 0,
        ;
        assert(ray * (ni * v - i * (v - l)) == ray * (m * v - i * (v - l)) + ray * ((ni - m) * v)) by (nonlinear_arith);
        assert(ray * (i * (v - l) - ni * v) == -(ray * (m * v - i * (v - l))) - ray * ((ni - m) * v)) by (nonlinear_arith);
        assert(v > 0);
        assert(ray * (ni * v - i * (v - l)) <= v * (i + 2 * ray));
        assert(ray * (i * (v - l) - ni * v) <= v * (i + 2 * ray));
    } else {
        assert((v - l) * ray <= ray * v) by (nonlinear_arith)
            requires
                0 <= v - l <= v,
                ray > 0,
        ;
        assert(0 <= (v - l) * ray) by (nonlinear_arith)
            requires
                0 <= v - l,
                ray > 0,
        ;
        crate::math::lemma_div_round_bound((v - l) * ray, v, ray);
        crate::rates::lemma_mul_half_up_le_one(i, r);
        assert(m <= i);
        assert(ni == m);
        assert(ray * (ni * v - i * (v - l)) <= v * (i + 2 * ray));
        assert(ray * (i * (v - l) - ni * v) <= v * (i + 2 * ray));
    }
}
} // verus!
