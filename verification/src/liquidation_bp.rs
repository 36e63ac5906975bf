//! Single-asset liquidation model and protocol fee, in basis points of `BP = 1e21`.
//!
//! Health factors, thresholds, bonuses and fees here are `BP`-scaled (`BP` is 100%),
//! EGLD values are WAD raw units. As in `liquidation`, the formulas abort (`None`) on
//! a negative difference or a zero divisor, are computed through 256-bit
//! intermediates, and each function states when it is guaranteed to be computed.
use crate::liquidation::{amount_ok, two96};
use crate::u256::{
    two256, u256_add, u256_div, u256_from, u256_is_zero, u256_le, u256_lt, u256_mul,
    u256_mul_small, u256_sub, u256_to_u128, U256,
};
use crate::wide::{fit, max_u128, two128, two64};
use vstd::arithmetic::div_mod::*;
use vstd::prelude::*;

verus! {

/// 100% in `BP` units.
pub const BP: u128 = 1_000_000_000_000_000_000_000;

/// Largest fee reduction the protocol grants on a liquidation (30% of `BP`).
pub const MAX_BONUS: u128 = 300_000_000_000_000_000_000;

/// `2^80`: the bound under which `BP`-scaled inputs are guaranteed to be computed.
pub open spec fn two80() -> int {
    0x1_0000_0000_0000_0000_0000int
}

/// A `BP`-scaled input within the guaranteed range.
pub open spec fn ratio_ok(x: int) -> bool {
    0 <= x < two80()
}

proof fn lemma_mul_lt(a: int, b: int, x: int, y: int)
    requires
        0 <= a < x,
        0 <= b < y,
    ensures
        0 <= a * b < x * y,
{
    assert(0 <= a * b) by (nonlinear_arith)
        requires
            0 <= a,
            0 <= b,
    ;
    assert(a * b < x * y) by (nonlinear_arith)
        requires
            0 <= a < x,
            0 <= b < y,
    ;
}

/// Health factor in `BP` units: weighted collateral times `BP` over debt (truncated);
/// with no debt, the largest `u128`.
pub open spec fn health_factor_bp_spec(w: int, b: int) -> int {
    if b == 0 {
        max_u128()
    } else {
        w * (BP as int) / b
    }
}

/// Health factor (`BP` units) of weighted collateral against debt; `None` only when
/// it exceeds `u128::MAX`.
pub fn compute_health_factor(weighted_collateral: u128, borrowed: u128) -> (r: Option<u128>)
    ensures
        r == fit(health_factor_bp_spec(weighted_collateral as int, borrowed as int)),
{
    if borrowed == 0 {
        return Some(u128::MAX);
    }
    proof {
        lemma_mul_lt(weighted_collateral as int, BP as int, two128(), two128());
    }
    let num = u256_mul_small(u256_from(weighted_collateral), BP).unwrap();
    u256_to_u128(u256_div(num, u256_from(borrowed)))
}

/// Largest bonus (`BP`) with which liquidating towards `t` stays feasible, never
/// below `bmin`; `lt` is the liquidation threshold of the collateral.
pub open spec fn max_feasible_bonus_bp_spec(c: int, d: int, lt: int, t: int, bmin: int) -> Option<int> {
    let bp = BP as int;
    let n = t * d - lt * c;
    if n < 0 || lt == 0 || t * bp / lt < bp {
        None
    } else if c * t * bp - c * lt * bp - n < 0 || n + c * lt == 0 {
        None
    } else {
        let bound1 = t * bp / lt - bp;
        let bound2 = (c * t * bp - c * lt * bp - n) / (n + c * lt);
        let m = if bound1 <= bound2 { bound1 } else { bound2 };
        Some(if m <= bmin { bmin } else { m })
    }
}

/// Largest feasible liquidation bonus (`BP` units).
pub fn get_max_feasible_bonus(
    total_collateral: u128,
    total_debt: u128,
    liquidation_threshold: u128,
    target_hf: u128,
    bonus_min: u128,
) -> (r: Option<u128>)
    ensures
        r matches Some(v) ==> max_feasible_bonus_bp_spec(total_collateral as int, total_debt as int, liquidation_threshold as int, target_hf as int, bonus_min as int) == Some(v as int),
        max_feasible_bonus_bp_spec(total_collateral as int, total_debt as int, liquidation_threshold as int, target_hf as int, bonus_min as int) is None ==> r is None,
        amount_ok(total_collateral as int) && amount_ok(total_debt as int) && ratio_ok(liquidation_threshold as int) && ratio_ok(target_hf as int)
            && max_feasible_bonus_bp_spec(total_collateral as int, total_debt as int, liquidation_threshold as int, target_hf as int, bonus_min as int) is Some
            && max_feasible_bonus_bp_spec(total_collateral as int, total_debt as int, liquidation_threshold as int, target_hf as int, bonus_min as int).unwrap() <= max_u128()
            ==> r is Some,
{
    let ghost bounded = amount_ok(total_collateral as int) && amount_ok(total_debt as int)
        && ratio_ok(liquidation_threshold as int) && ratio_ok(target_hf as int);
    let bp = u256_from(BP);
    let c = u256_from(total_collateral);
    let lt = u256_from(liquidation_threshold);
    let t = u256_from(target_hf);
    proof {
        lemma_mul_lt(target_hf as int, total_debt as int, two128(), two128());
        lemma_mul_lt(liquidation_threshold as int, total_collateral as int, two128(), two128());
        lemma_mul_lt(target_hf as int, BP as int, two128(), two128());
        lemma_mul_lt(total_collateral as int, target_hf as int, two128(), two128());
        if bounded {
            let two70 = 0x40_0000_0000_0000_0000int;
            lemma_mul_lt(total_collateral as int, target_hf as int, two96(), two80());
            lemma_mul_lt((total_collateral as int) * (target_hf as int), BP as int, two96() * two80(), two70);
            lemma_mul_lt(total_collateral as int, liquidation_threshold as int, two96(), two80());
            lemma_mul_lt((total_collateral as int) * (liquidation_threshold as int), BP as int, two96() * two80(), two70);
            lemma_mul_lt(target_hf as int, total_debt as int, two80(), two96());
            assert(two96() * two80() * two70 < two256());
        }
    }
    let n = u256_sub(u256_mul(t, u256_from(total_debt)).unwrap(), u256_mul(lt, c).unwrap())?;
    if u256_is_zero(lt) {
        return None;
    }
    let bound1 = u256_sub(u256_div(u256_mul_small(t, BP).unwrap(), lt), bp)?;
    let ctb = u256_mul_small(u256_mul(c, t).unwrap(), BP)?;
    let clt = u256_mul(c, lt).unwrap();
    proof {
        assert((total_collateral as int) * (liquidation_threshold as int) == (liquidation_threshold as int) * (total_collateral as int)) by (nonlinear_arith);
    }
    let cltb = u256_mul_small(clt, BP)?;
    let num = u256_sub(u256_sub(ctb, cltb)?, n)?;
    let den = u256_add(n, clt)?;
    if u256_is_zero(den) {
        return None;
    }
    let bound2 = u256_div(num, den);
    let m = if u256_le(bound1, bound2) { bound1 } else { bound2 };
    let bmin = u256_from(bonus_min);
    let res = if u256_le(m, bmin) { bmin } else { m };
    u256_to_u128(res)
}

/// Bonus scaled linearly from `bmin` (at a health factor of 100%) to `bmax` (at
/// `min_hf`), capped at `bmax`; `None` where the computation has no result.
pub open spec fn dynamic_bonus_bp_spec(old_hf: int, bmin: int, bmax: int, min_hf: int) -> Option<int> {
    let bp = BP as int;
    if old_hf > bp || min_hf >= bp || bmax < bmin {
        None
    } else {
        let scaling = (bp - old_hf) * bp / (bp - min_hf);
        let bonus = bmin + scaling * (bmax - bmin) / bp;
        Some(if bonus <= bmax { bonus } else { bmax })
    }
}

/// Liquidation bonus (`BP` units) of a position at `old_hf`.
pub fn calculate_dynamic_liquidation_bonus(old_hf: u128, bonus_min: u128, bonus_max: u128, min_hf: u128) -> (r: Option<u128>)
    ensures
        r matches Some(v) ==> dynamic_bonus_bp_spec(old_hf as int, bonus_min as int, bonus_max as int, min_hf as int) == Some(v as int),
        dynamic_bonus_bp_spec(old_hf as int, bonus_min as int, bonus_max as int, min_hf as int) is None ==> r is None,
        min_hf <= BP / 2 && dynamic_bonus_bp_spec(old_hf as int, bonus_min as int, bonus_max as int, min_hf as int) is Some ==> r is Some,
{
    if old_hf > BP || min_hf >= BP || bonus_max < bonus_min {
        return None;
    }
    let range = bonus_max - bonus_min;
    proof {
        lemma_mul_lt((BP - old_hf) as int, BP as int, two128(), two128());
    }
    let scaling = u256_div(u256_mul_small(u256_from(BP - old_hf), BP).unwrap(), u256_from(BP - min_hf));
    proof {
        if min_hf <= BP / 2 {
            let x = ((BP - old_hf) as int) * (BP as int);
            lemma_div_is_ordered_by_denominator(x, (BP / 2) as int, (BP - min_hf) as int);
            lemma_mul_lt((BP - old_hf) as int, BP as int, (BP + 1) as int, (BP + 1) as int);
            lemma_div_is_ordered(x, ((BP + 1) as int) * ((BP + 1) as int), (BP / 2) as int);
            assert(((BP + 1) as int) * ((BP + 1) as int) / ((BP / 2) as int) < two96());
            lemma_mul_lt(scaling.value(), range as int, two96(), two128());
            assert(two96() * two128() < two256());
        }
    }
    let prod = u256_mul(scaling, u256_from(range))?;
    let inc = u256_div(prod, u256_from(BP));
    let bonus = u256_add(u256_from(bonus_min), inc)?;
    if u256_le(bonus, u256_from(bonus_max)) {
        u256_to_u128(bonus)
    } else {
        Some(bonus_max)
    }
}


/// Debt to repay to bring the health factor to `t` with bonus `bonus`, the collateral
/// seized for it (debt plus bonus), and whether that exceeds the collateral `c`.
/// `None` where the computation has no result (negative gap or non-positive divisor).
pub open spec fn liquidation_bp_spec(c: int, lt: int, bonus: int, d: int, t: int) -> Option<(int, int, bool)> {
    let bp = BP as int;
    let a = t * d - lt * c;
    let den = t - lt * (bp + bonus) / bp;
    if a < 0 || den <= 0 {
        None
    } else {
        let debt = a / den;
        let seize = debt + debt * bonus / bp;
        Some((debt, seize, seize > c))
    }
}

/// Debt, seized collateral (both 256-bit) and over-seizure flag of a liquidation
/// towards `target_hf`.
pub fn calculate_liquidation(
    total_collateral: u128,
    liquidation_threshold: u128,
    liquidation_bonus: u128,
    total_debt: u128,
    target_hf: u128,
) -> (r: Option<(U256, U256, bool)>)
    ensures
        r matches Some((debt, seize, over)) ==> liquidation_bp_spec(total_collateral as int, liquidation_threshold as int, liquidation_bonus as int, total_debt as int, target_hf as int) == Some((debt.value(), seize.value(), over)),
        liquidation_bp_spec(total_collateral as int, liquidation_threshold as int, liquidation_bonus as int, total_debt as int, target_hf as int) is None ==> r is None,
        amount_ok(total_collateral as int) && amount_ok(total_debt as int) && ratio_ok(liquidation_threshold as int) && ratio_ok(target_hf as int)
            && ratio_ok(liquidation_bonus as int)
            && liquidation_bp_spec(total_collateral as int, liquidation_threshold as int, liquidation_bonus as int, total_debt as int, target_hf as int) is Some
            ==> r is Some,
{
    let ghost bounded = amount_ok(total_collateral as int) && amount_ok(total_debt as int) && ratio_ok(liquidation_threshold as int)
        && ratio_ok(target_hf as int) && ratio_ok(liquidation_bonus as int);
    proof {
        lemma_mul_lt(target_hf as int, total_debt as int, two128(), two128());
        lemma_mul_lt(liquidation_threshold as int, total_collateral as int, two128(), two128());
        if bounded {
            lemma_mul_lt(liquidation_threshold as int, (BP + liquidation_bonus) as int, two80(), two96());
            assert(two80() * two96() < two256());
            lemma_mul_lt(target_hf as int, total_debt as int, two80(), two96());
        }
    }
    let a = u256_sub(
        u256_mul(u256_from(target_hf), u256_from(total_debt)).unwrap(),
        u256_mul(u256_from(liquidation_threshold), u256_from(total_collateral)).unwrap(),
    )?;
    let bp_bonus = u256_add(u256_from(BP), u256_from(liquidation_bonus)).unwrap();
    let x = u256_div(u256_mul(u256_from(liquidation_threshold), bp_bonus)?, u256_from(BP));
    let den = u256_sub(u256_from(target_hf), x)?;
    if u256_is_zero(den) {
        return None;
    }
    let debt = u256_div(a, den);
    proof {
        if bounded {
            lemma_div_is_ordered_by_denominator(a.value(), 1, den.value());
            lemma_mul_lt(debt.value(), liquidation_bonus as int, two80() * two96(), two80());
            assert(two80() * two96() * two80() == two256());
        }
    }
    let extra = u256_div(u256_mul(debt, u256_from(liquidation_bonus))?, u256_from(BP));
    let seize = u256_add(debt, extra)?;
    let over = u256_lt(u256_from(total_collateral), seize);
    Some((debt, seize, over))
}

/// Single-asset liquidation estimate: aim at a health factor of 108% with a bonus
/// scaled between `bmin` (at 100%) and the largest feasible one (at 50%); if that
/// would seize more than the collateral, repay what the collateral covers with the
/// minimum bonus. Yields the debt to repay, the collateral seized and the bonus.
pub open spec fn estimate_bp_spec(c: int, d: int, lt: int, bmin: int, old_hf: int) -> Option<(int, int, int)> {
    let bp = BP as int;
    let target = bp * 8 / 100 + bp;
    match max_feasible_bonus_bp_spec(c, d, lt, target, bmin) {
        None => None,
        Some(max_bonus) => match dynamic_bonus_bp_spec(old_hf, bmin, max_bonus, bp / 2) {
            None => None,
            Some(bonus) => match liquidation_bp_spec(c, lt, bonus, d, target) {
                None => None,
                Some((debt, seize, over)) => if !over {
                    Some((debt, seize, bonus))
                } else {
                    Some((c * bp / (bp + bmin), c, bmin))
                },
            },
        },
    }
}

proof fn lemma_max_feasible_bp_bound(c: int, d: int, lt: int, t: int, bmin: int)
    requires
        max_feasible_bonus_bp_spec(c, d, lt, t, bmin) is Some,
        0 <= bmin,
    ensures
        max_feasible_bonus_bp_spec(c, d, lt, t, bmin).unwrap() <= if bmin <= t * (BP as int) / lt { t * (BP as int) / lt } else { bmin },
{
}

/// Debt to repay, collateral seized and bonus of a single-asset liquidation (see
/// `estimate_bp_spec`).
pub fn estimate_liquidation_amount(
    total_collateral: u128,
    total_debt: u128,
    liquidation_threshold: u128,
    bonus_min: u128,
    old_hf: u128,
) -> (r: Option<(u128, u128, u128)>)
    ensures
        r matches Some((debt, seize, bonus)) ==> estimate_bp_spec(total_collateral as int, total_debt as int, liquidation_threshold as int, bonus_min as int, old_hf as int) == Some((debt as int, seize as int, bonus as int)),
        estimate_bp_spec(total_collateral as int, total_debt as int, liquidation_threshold as int, bonus_min as int, old_hf as int) is None ==> r is None,
        amount_ok(total_collateral as int) && amount_ok(total_debt as int)
            && BP / 1000 <= liquidation_threshold && ratio_ok(liquidation_threshold as int) && ratio_ok(bonus_min as int)
            && estimate_bp_spec(total_collateral as int, total_debt as int, liquidation_threshold as int, bonus_min as int, old_hf as int) is Some
            ==> r is Some,
{
    let ghost bounded = amount_ok(total_collateral as int) && amount_ok(total_debt as int)
        && BP / 1000 <= liquidation_threshold && ratio_ok(liquidation_threshold as int) && ratio_ok(bonus_min as int);
    let target = BP * 8 / 100 + BP;
    let ghost spec_mb = max_feasible_bonus_bp_spec(total_collateral as int, total_debt as int, liquidation_threshold as int, target as int, bonus_min as int);
    proof {
        if bounded && spec_mb is Some {
            lemma_max_feasible_bp_bound(total_collateral as int, total_debt as int, liquidation_threshold as int, target as int, bonus_min as int);
            lemma_div_is_ordered_by_denominator((target as int) * (BP as int), (BP / 1000) as int, liquidation_threshold as int);
            assert((target as int) * (BP as int) / ((BP / 1000) as int) < two80());
        }
    }
    let max_bonus = get_max_feasible_bonus(total_collateral, total_debt, liquidation_threshold, target, bonus_min)?;
    let bonus = calculate_dynamic_liquidation_bonus(old_hf, bonus_min, max_bonus, BP / 2)?;
    let (debt, seize, over) = calculate_liquidation(total_collateral, liquidation_threshold, bonus, total_debt, target)?;
    if !over {
        proof {
            lemma_div_pos_is_pos(debt.value() * (bonus as int), BP as int);
        }
        Some((u256_to_u128(debt).unwrap(), u256_to_u128(seize).unwrap(), bonus))
    } else {
        proof {
            lemma_mul_lt(total_collateral as int, BP as int, two128(), two128());
        }
        let bp_min = u256_add(u256_from(BP), u256_from(bonus_min)).unwrap();
        let fallback = u256_div(u256_mul_small(u256_from(total_collateral), BP).unwrap(), bp_min);
        proof {
            lemma_div_is_ordered_by_denominator((total_collateral as int) * (BP as int), BP as int, bp_min.value());
            lemma_div_multiples_vanish(total_collateral as int, BP as int);
            assert((total_collateral as int) * (BP as int) == (BP as int) * (total_collateral as int)) by (nonlinear_arith);
        }
        Some((u256_to_u128(fallback).unwrap(), total_collateral, bonus_min))
    }
}

/// Debt a liquidator repays and the bonus, for the collateral position's
/// liquidation threshold (`None`: the account holds no such collateral, and the
/// computation has no result); capped by the liquidator's payment when one is given.
pub open spec fn single_asset_liquidation_spec(d: int, c: int, position_lt: Option<u128>, payment: Option<u128>, base_bonus: int, hf: int) -> Option<(int, int)> {
    match position_lt {
        None => None,
        Some(lt) => match estimate_bp_spec(c, d, lt as int, base_bonus, hf) {
            None => None,
            Some((max_debt, _, bonus)) => match payment {
                Some(p) => Some((if p <= max_debt { p as int } else { max_debt }, bonus)),
                None => Some((max_debt, bonus)),
            },
        },
    }
}

/// Debt to repay and bonus for liquidating one collateral asset of an account.
pub fn calculate_single_asset_liquidation_amount(
    total_debt: u128,
    total_collateral: u128,
    position_liquidation_threshold: Option<u128>,
    debt_payment: Option<u128>,
    base_liquidation_bonus: u128,
    health_factor: u128,
) -> (r: Option<(u128, u128)>)
    ensures
        r matches Some((debt, bonus)) ==> single_asset_liquidation_spec(total_debt as int, total_collateral as int, position_liquidation_threshold, debt_payment, base_liquidation_bonus as int, health_factor as int) == Some((debt as int, bonus as int)),
        single_asset_liquidation_spec(total_debt as int, total_collateral as int, position_liquidation_threshold, debt_payment, base_liquidation_bonus as int, health_factor as int) is None ==> r is None,
        amount_ok(total_collateral as int) && amount_ok(total_debt as int) && ratio_ok(base_liquidation_bonus as int)
            && (position_liquidation_threshold matches Some(lt) ==> BP / 1000 <= lt && ratio_ok(lt as int))
            && single_asset_liquidation_spec(total_debt as int, total_collateral as int, position_liquidation_threshold, debt_payment, base_liquidation_bonus as int, health_factor as int) is Some
            ==> r is Some,
{
    let lt = match position_liquidation_threshold {
        Some(lt) => lt,
        None => return None,
    };
    let (max_debt, _seized, bonus) = estimate_liquidation_amount(total_collateral, total_debt, lt, base_liquidation_bonus, health_factor)?;
    match debt_payment {
        Some(p) => Some((if p <= max_debt { p } else { max_debt }, bonus)),
        None => Some((max_debt, bonus)),
    }
}

/// Protocol fee (`BP`) on a liquidation bonus: the base fee while the health factor
/// is above 90%; below, reduced by twice the distance to 90% times the base fee
/// (capped at `MAX_BONUS`), but by at most half of the base fee.
pub open spec fn dynamic_protocol_fee_spec(hf: int, base: int) -> int {
    let bp = BP as int;
    let threshold = bp * 9 / 10;
    if hf > threshold {
        base
    } else {
        let impact = (threshold - hf) * 2;
        let reduction = if impact * base / bp <= MAX_BONUS { impact * base / bp } else { MAX_BONUS as int };
        let final_reduction = if reduction <= base / 2 { reduction } else { base / 2 };
        base - final_reduction
    }
}

/// Protocol fee of a liquidation at health factor `health_factor` (`BP` units).
pub fn calculate_dynamic_protocol_fee(health_factor: u128, base_protocol_fee: u128) -> (r: u128)
    ensures
        r == dynamic_protocol_fee_spec(health_factor as int, base_protocol_fee as int),
{
    let threshold = BP * 9 / 10;
    if health_factor > threshold {
        return base_protocol_fee;
    }
    let impact = (threshold - health_factor) * 2;
    proof {
        lemma_mul_lt(impact as int, base_protocol_fee as int, two128(), two128());
    }
    let scaled = u256_div(u256_mul(u256_from(impact), u256_from(base_protocol_fee)).unwrap(), u256_from(BP));
    let reduction = if u256_le(scaled, u256_from(MAX_BONUS)) { u256_to_u128(scaled).unwrap() } else { MAX_BONUS };
    let max_allowed = base_protocol_fee / 2;
    let final_reduction = if reduction <= max_allowed { reduction } else { max_allowed };
    base_protocol_fee - final_reduction
}

/// Protocol share of a liquidation bonus: `bonus_amount` times the dynamic fee over
/// `BP`; `None` only when it exceeds `u128::MAX`.
pub fn calculate_liquidation_fees(bonus_amount: u128, liquidation_max_fee: u128, health_factor: u128) -> (r: Option<u128>)
    ensures
        r == fit(bonus_amount * dynamic_protocol_fee_spec(health_factor as int, liquidation_max_fee as int) / (BP as int)),
{
    let fee = calculate_dynamic_protocol_fee(health_factor, liquidation_max_fee);
    proof {
        lemma_mul_lt(bonus_amount as int, fee as int, two128(), two128());
    }
    u256_to_u128(u256_div(u256_mul(u256_from(bonus_amount), u256_from(fee)).unwrap(), u256_from(BP)))
}

/// The protocol fee stays between half of the base fee (rounded up) and the base fee.
pub proof fn lemma_protocol_fee_bounds(hf: int, base: int)
    requires
        0 <= hf,
        0 <= base,
    ensures
        base - base / 2 <= dynamic_protocol_fee_spec(hf, base) <= base,
{
    let bp = BP as int;
    let threshold = bp * 9 / 10;
    if hf <= threshold {
        let impact = (threshold - hf) * 2;
        assert(0 <= impact * base) by (nonlinear_arith)
            requires
                0 <= impact,
                0 <= base,
        ;
        lemma_div_pos_is_pos(impact * base, bp);
    }
}

/// A healthier position never pays a lower protocol fee.
pub proof fn lemma_protocol_fee_monotone(hf1: int, hf2: int, base: int)
    requires
        0 <= hf1 <= hf2,
        0 <= base,
    ensures
        dynamic_protocol_fee_spec(hf1, base) <= dynamic_protocol_fee_spec(hf2, base),
{
    let bp = BP as int;
    let threshold = bp * 9 / 10;
    lemma_protocol_fee_bounds(hf1, base);
    lemma_protocol_fee_bounds(hf2, base);
    if hf2 <= threshold {
        let i1 = (threshold - hf1) * 2;
        let i2 = (threshold - hf2) * 2;
        assert(i2 * base <= i1 * base) by (nonlinear_arith)
            requires
                0 <= i2 <= i1,
                0 <= base,
        ;
        assert(0 <= i2 * base) by (nonlinear_arith)
            requires
                0 <= i2,
                0 <= base,
        ;
        lemma_div_is_ordered(i2 * base, i1 * base, bp);
    }
}

/// The dynamic bonus lies between the minimum and the maximum bonus.
pub proof fn lemma_dynamic_bonus_bp_bounds(old_hf: int, bmin: int, bmax: int, min_hf: int)
    requires
        dynamic_bonus_bp_spec(old_hf, bmin, bmax, min_hf) is Some,
        0 <= old_hf,
    ensures
        bmin <= dynamic_bonus_bp_spec(old_hf, bmin, bmax, min_hf).unwrap() <= bmax,
{
    let bp = BP as int;
    assert(0 <= (bp - old_hf) * bp) by (nonlinear_arith)
        requires
            bp - old_hf >= 0,
            bp > 0,
    ;
    lemma_div_pos_is_pos((bp - old_hf) * bp, bp - min_hf);
    let scaling = (bp - old_hf) * bp / (bp - min_hf);
    assert(0 <= scaling * (bmax - bmin)) by (nonlinear_arith)
        requires
            0 <= scaling,
            0 <= bmax - bmin,
    ;
    lemma_div_pos_is_pos(scaling * (bmax - bmin), bp);
}
} // verus!
