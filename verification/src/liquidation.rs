//! Risk math of the controller: health factors, oracle tolerance bands and the
//! liquidation model that picks how much debt a liquidator repays.
//!
//! EGLD values are WAD raw units; health factors, proportions and bonuses are BPS
//! raw units (10000 = 100%). The liquidation model aims at health factors given in
//! WAD internally (1.02 and 1.0), against which a health factor is scaled up. The
//! formulas work on unbounded integers and abort (here: `None`) on a negative
//! difference or a zero divisor. They are computed through 256-bit
//! intermediates; every function states its exact result, and states that it is
//! computed whenever its amounts stay below `2^96` (about 7.9e28, i.e. 79 billion
//! EGLD in WAD) and its BPS inputs below `2^32`.
use crate::math::{lemma_pow10_fits, lemma_pow10_pos, pow10, pow10_u128, rescale_spec, BPS, WAD};
use crate::u256::{
    two256, u256_add, u256_div, u256_from, u256_is_zero, u256_le, u256_lt, u256_mul,
    u256_mul_small, u256_sub, u256_to_u128, U256,
};
use crate::wide::{div_round, fit, max_u128, two128, two64};
use vstd::arithmetic::div_mod::*;
use vstd::prelude::*;

verus! {

/// `2^96`: the bound under which amounts are guaranteed to be computed.
pub open spec fn two96() -> int {
    0x1_0000_0000_0000_0000_0000_0000int
}

/// `2^32`: the bound under which BPS inputs are guaranteed to be computed.
pub open spec fn two32() -> int {
    0x1_0000_0000int
}

/// An amount (WAD value or health factor) within the guaranteed range.
pub open spec fn amount_ok(x: int) -> bool {
    0 <= x < two96()
}

/// A liquidation bonus within the guaranteed range (below `2^110`).
pub open spec fn bonus_ok(x: int) -> bool {
    0 <= x < two96() * 16384
}

/// A BPS input within the guaranteed range.
pub open spec fn bps_ok(x: int) -> bool {
    0 <= x < two32()
}

/// Lowest first tolerance an oracle may be configured with (0.5%).
pub const MIN_FIRST_TOLERANCE: u128 = 50;

/// Highest first tolerance an oracle may be configured with (50%).
pub const MAX_FIRST_TOLERANCE: u128 = 5_000;

/// Lowest last tolerance an oracle may be configured with (1.5%).
pub const MIN_LAST_TOLERANCE: u128 = 150;

/// Highest last tolerance an oracle may be configured with (100%).
pub const MAX_LAST_TOLERANCE: u128 = 10_000;

/// Health factor of weighted collateral `w` against debt `b` (both WAD), in basis
/// points (10000 = 100%): `w * 10000 / b`, truncated. With no debt it is the largest
/// `u128`.
pub open spec fn health_factor_spec(w: int, b: int) -> int {
    if b == 0 {
        max_u128()
    } else {
        w * (BPS as int) / b
    }
}

/// How many WAD units one basis point of health factor is worth.
pub const HF_BPS_TO_WAD: u128 = 100_000_000_000_000;

proof fn lemma_mul_lt(a: int, b: int, x: int, y: int)
    requires
        0 <= a < x,
        0 <= b < y,
    ensures
        0 <= a * b < x * y,
{
    assert(0 <= a * b) by (nonlinear_arith)
        requires
            0 <= a,
            0 <= b,
    ;
    assert(a * b < x * y) by (nonlinear_arith)
        requires
            0 <= a < x,
            0 <= b < y,
    ;
}

proof fn lemma_mul_le(a: int, b: int, x: int, y: int)
    requires
        0 <= a <= x,
        0 <= b <= y,
    ensures
        0 <= a * b <= x * y,
{
    assert(0 <= a * b) by (nonlinear_arith)
        requires
            0 <= a,
            0 <= b,
    ;
    assert(a * b <= x * y) by (nonlinear_arith)
        requires
            0 <= a <= x,
            0 <= b <= y,
    ;
}

/// Health factor of a position in basis points: weighted collateral over debt
/// (both WAD) times 10000, truncated; `None` only when it exceeds `u128::MAX`.
pub fn compute_health_factor(weighted_collateral: u128, borrowed: u128) -> (r: Option<u128>)
    ensures
        r == fit(health_factor_spec(weighted_collateral as int, borrowed as int)),
{
    if borrowed == 0 {
        return Some(u128::MAX);
    }
    proof {
        lemma_mul_lt(weighted_collateral as int, BPS as int, two128(), two128());
    }
    let num = u256_mul_small(u256_from(weighted_collateral), BPS).unwrap();
    u256_to_u128(u256_div(num, u256_from(borrowed)))
}

/// Upper and lower ratios (BPS) of a tolerance band: `BPS + tolerance` and its
/// reciprocal `BPS * BPS / (BPS + tolerance)` rounded half up (a 5% tolerance gives
/// 10500 and 9524).
pub fn get_range(tolerance: u128) -> (r: (u128, u128))
    requires
        tolerance <= u128::MAX - BPS,
    ensures
        r.0 == BPS + tolerance,
        r.1 == div_round(BPS * BPS, BPS + tolerance),
{
    let upper = BPS + tolerance;
    (upper, (BPS * BPS + upper / 2) / upper)
}

/// Ratio bands of an oracle: prices within the first band are used as they are,
/// within the last band they are averaged, beyond it they are unsafe.
#[derive(Clone, Copy, Debug, PartialEq, Eq)]
pub struct OraclePriceFluctuation {
    pub first_upper_ratio: u128,
    pub first_lower_ratio: u128,
    pub last_upper_ratio: u128,
    pub last_lower_ratio: u128,
}

/// Why a pair of oracle tolerances is refused.
#[derive(Clone, Copy, Debug, PartialEq, Eq)]
pub enum ToleranceError {
    /// The first tolerance is outside `[MIN_FIRST_TOLERANCE, MAX_FIRST_TOLERANCE]`.
    UnexpectedFirstTolerance,
    /// The last tolerance is outside `[MIN_LAST_TOLERANCE, MAX_LAST_TOLERANCE]`.
    UnexpectedLastTolerance,
    /// The last tolerance is below the first.
    UnexpectedAnchorTolerances,
}

/// Bands of a tolerance pair, or why the pair is refused (checks in this order).
pub open spec fn anchor_tolerances_spec(first: int, last: int) -> Result<OraclePriceFluctuation, ToleranceError> {
    if !(MIN_FIRST_TOLERANCE <= first <= MAX_FIRST_TOLERANCE) {
        Err(ToleranceError::UnexpectedFirstTolerance)
    } else if !(MIN_LAST_TOLERANCE <= last <= MAX_LAST_TOLERANCE) {
        Err(ToleranceError::UnexpectedLastTolerance)
    } else if last < first {
        Err(ToleranceError::UnexpectedAnchorTolerances)
    } else {
        Ok(OraclePriceFluctuation {
            first_upper_ratio: (BPS + first) as u128,
            first_lower_ratio: div_round(BPS * BPS, BPS + first) as u128,
            last_upper_ratio: (BPS + last) as u128,
            last_lower_ratio: div_round(BPS * BPS, BPS + last) as u128,
        })
    }
}

/// Checks an oracle's tolerance pair and computes its ratio bands.
pub fn get_anchor_tolerances(first_tolerance: u128, last_tolerance: u128) -> (r: Result<OraclePriceFluctuation, ToleranceError>)
    ensures
        r == anchor_tolerances_spec(first_tolerance as int, last_tolerance as int),
{
    if !(MIN_FIRST_TOLERANCE <= first_tolerance && first_tolerance <= MAX_FIRST_TOLERANCE) {
        return Err(ToleranceError::UnexpectedFirstTolerance);
    }
    if !(MIN_LAST_TOLERANCE <= last_tolerance && last_tolerance <= MAX_LAST_TOLERANCE) {
        return Err(ToleranceError::UnexpectedLastTolerance);
    }
    if last_tolerance < first_tolerance {
        return Err(ToleranceError::UnexpectedAnchorTolerances);
    }
    let (first_upper_ratio, first_lower_ratio) = get_range(first_tolerance);
    let (last_upper_ratio, last_lower_ratio) = get_range(last_tolerance);
    Ok(OraclePriceFluctuation { first_upper_ratio, first_lower_ratio, last_upper_ratio, last_lower_ratio })
}

/// Bonus scaled linearly from `bmin` towards `bmax` by how far `old_hf` is below
/// `target`, capped at `bmax`; `None` where the computation has no result (`bmin > bmax`,
/// `old_hf > target`, `target == 0`).
pub open spec fn dynamic_bonus_spec(old_hf: int, target: int, bmin: int, bmax: int) -> Option<int> {
    if bmin > bmax || old_hf > target || target == 0 {
        None
    } else {
        let bonus = bmin + (bmax - bmin) * (target - old_hf) / target;
        Some(if bonus <= bmax { bonus } else { bmax })
    }
}

/// Liquidation bonus (BPS) for a position at `old_hf` liquidated towards `target_hf`.
pub fn calculate_dynamic_liquidation_bonus(old_hf: u128, target_hf: u128, bonus_min: u128, bonus_max: u128) -> (r: Option<u128>)
    ensures
        r matches Some(v) ==> dynamic_bonus_spec(old_hf as int, target_hf as int, bonus_min as int, bonus_max as int) == Some(v as int),
        r is Some <==> dynamic_bonus_spec(old_hf as int, target_hf as int, bonus_min as int, bonus_max as int) is Some,
{
    if bonus_min > bonus_max || old_hf > target_hf || target_hf == 0 {
        return None;
    }
    let range = bonus_max - bonus_min;
    let gap = target_hf - old_hf;
    proof {
        lemma_mul_lt(range as int, gap as int, two128(), two128());
    }
    let prod = u256_mul(u256_from(range), u256_from(gap)).unwrap();
    let inc = u256_div(prod, u256_from(target_hf));
    proof {
        assert(range * gap <= range * target_hf) by (nonlinear_arith)
            requires
                0 <= gap <= target_hf,
                0 <= range,
        ;
        lemma_div_is_ordered(range * gap, range * target_hf, target_hf as int);
        lemma_div_multiples_vanish(range as int, target_hf as int);
        assert(range * target_hf == target_hf * range) by (nonlinear_arith);
    }
    let inc = u256_to_u128(inc).unwrap();
    let bonus = bonus_min + inc;
    if bonus <= bonus_max {
        Some(bonus)
    } else {
        Some(bonus_max)
    }
}

/// Largest bonus (BPS) with which a liquidation can still reach `target` (WAD):
/// bounded by `target / p - 1` and by the bonus at which repaying debt stops raising
/// the health factor, and never below `bmin`. `c` is the total collateral, `d` the
/// total debt (WAD), `s` the proportion of weighted collateral seized (BPS) and `p`
/// that proportion as WAD.
pub open spec fn max_feasible_bonus_spec(c: int, d: int, s: int, t: int, bmin: int) -> Option<int> {
    let w = WAD as int;
    let bps = BPS as int;
    let p = s * w / bps;
    let n = t * d - p * c;
    if n < 0 || p == 0 || t * w / p < w {
        None
    } else if c * t * w - c * p * w - n < 0 || n + c * p == 0 {
        None
    } else {
        let bound1 = t * w / p - w;
        let bound2 = (c * t * w - c * p * w - n) / (n + c * p);
        let bonus_min = bmin * w / bps;
        let m = if bound1 <= bound2 { bound1 } else { bound2 };
        let bw = if m <= bonus_min { bonus_min } else { m };
        Some(bw * bps / w)
    }
}

proof fn lemma_feasible_bounds(c: int, d: int, s: int, t: int, bmin: int)
    requires
        amount_ok(c),
        amount_ok(d),
        amount_ok(t),
        bps_ok(s),
        bps_ok(bmin),
    ensures
        0 <= s * (WAD as int) < two128(),
        0 <= s * (WAD as int) / (BPS as int) < two32() * two128(),
        c * (s * (WAD as int) / (BPS as int)) < two256() / 1024,
        c * (s * (WAD as int) / (BPS as int)) * (WAD as int) < two256() / 4,
        0 <= c * t < two256() / 1024,
        c * t * (WAD as int) < two256() / 4,
        t * d < two256() / 1024,
        0 <= t * (WAD as int) < two96() * two64(),
        0 <= bmin * (WAD as int) < two128(),
{
    let w = WAD as int;
    let two60 = 0x1000_0000_0000_0000int;
    let p = s * w / (BPS as int);
    lemma_mul_lt(s, w, two32(), two60);
    assert(two32() * two60 < two96());
    assert(two96() < two128());
    lemma_div_is_ordered(s * w, two96(), BPS as int);
    lemma_div_pos_is_pos(s * w, BPS as int);
    assert(two96() / (BPS as int) < two96());
    lemma_mul_lt(c, p, two96(), two96());
    assert(two96() * two96() < two256() / 1024);
    lemma_mul_lt(c * p, w, two96() * two96(), two60);
    assert(two96() * two96() * two60 < two256() / 4);
    lemma_mul_lt(c, t, two96(), two96());
    lemma_mul_lt(c * t, w, two96() * two96(), two60);
    lemma_mul_lt(t, d, two96(), two96());
    lemma_mul_lt(t, w, two96(), two64());
    lemma_mul_lt(bmin, w, two32(), two96());
}

/// Largest liquidation bonus (BPS) that still lets a liquidation reach `target_hf`.
pub fn get_max_feasible_bonus(
    total_collateral: u128,
    total_debt: u128,
    proportion_seized: u128,
    target_hf: u128,
    bonus_min: u128,
) -> (r: Option<u128>)
    ensures
        r matches Some(v) ==> max_feasible_bonus_spec(total_collateral as int, total_debt as int, proportion_seized as int, target_hf as int, bonus_min as int) == Some(v as int),
        max_feasible_bonus_spec(total_collateral as int, total_debt as int, proportion_seized as int, target_hf as int, bonus_min as int) is None ==> r is None,
        amount_ok(total_collateral as int) && amount_ok(total_debt as int) && amount_ok(target_hf as int)
            && bps_ok(proportion_seized as int) && bps_ok(bonus_min as int)
            && max_feasible_bonus_spec(total_collateral as int, total_debt as int, proportion_seized as int, target_hf as int, bonus_min as int) is Some
            ==> r is Some,
        amount_ok(total_collateral as int) && amount_ok(total_debt as int) && amount_ok(target_hf as int)
            && bps_ok(proportion_seized as int) && bps_ok(bonus_min as int)
            ==> (r matches Some(v) ==> bonus_ok(v as int)),
{
    let ghost bounded = amount_ok(total_collateral as int) && amount_ok(total_debt as int) && amount_ok(target_hf as int)
        && bps_ok(proportion_seized as int) && bps_ok(bonus_min as int);
    proof {
        if bounded {
            lemma_feasible_bounds(total_collateral as int, total_debt as int, proportion_seized as int, target_hf as int, bonus_min as int);
        }
        lemma_mul_lt(proportion_seized as int, WAD as int, two128(), two128());
        lemma_mul_lt(target_hf as int, total_debt as int, two128(), two128());
        lemma_mul_lt(target_hf as int, WAD as int, two128(), two128());
        lemma_mul_lt(total_collateral as int, target_hf as int, two128(), two128());
        lemma_mul_lt(bonus_min as int, WAD as int, two128(), two128());
    }
    let w = u256_from(WAD);
    let bps = u256_from(BPS);
    let c = u256_from(total_collateral);
    let t = u256_from(target_hf);
    let p = u256_div(u256_mul_small(u256_from(proportion_seized), WAD)?, bps);
    let td = u256_mul(t, u256_from(total_debt))?;
    let pc = u256_mul(p, c)?;
    proof {
        assert(p.value() * c.value() == c.value() * p.value()) by (nonlinear_arith);
    }
    let n = u256_sub(td, pc)?;
    if u256_is_zero(p) {
        return None;
    }
    let tw_p = u256_div(u256_mul_small(t, WAD)?, p);
    let bound1 = u256_sub(tw_p, w)?;
    let ctw = u256_mul_small(u256_mul(c, t)?, WAD)?;
    let cp = u256_mul(c, p)?;
    let cpw = u256_mul_small(cp, WAD)?;
    let diff = u256_sub(ctw, cpw)?;
    let num = u256_sub(diff, n)?;
    let den = u256_add(n, cp)?;
    if u256_is_zero(den) {
        return None;
    }
    let bound2 = u256_div(num, den);
    let bmin_wad = u256_div(u256_mul_small(u256_from(bonus_min), WAD)?, bps);
    let m = if u256_le(bound1, bound2) { bound1 } else { bound2 };
    let bw = if u256_le(m, bmin_wad) { bmin_wad } else { m };
    proof {
        if bounded {
            let tv = target_hf as int;
            lemma_div_is_ordered(tv * (WAD as int), tv * (WAD as int), p.value());
            assert(tw_p.value() <= tv * (WAD as int)) by {
                lemma_div_is_ordered_by_denominator(tv * (WAD as int), 1, p.value());
            }
            assert(bmin_wad.value() <= (bonus_min as int) * (WAD as int)) by {
                lemma_div_is_ordered_by_denominator((bonus_min as int) * (WAD as int), 1, BPS as int);
            }
            assert(bw.value() < two96() * two64());
            lemma_mul_lt(bw.value(), BPS as int, two96() * two64(), 16384);
            assert(two96() * two64() * 16384 < two256());
        }
    }
    let scaled = u256_mul_small(bw, BPS)?;
    let res = u256_div(scaled, w);
    proof {
        if bounded {
            let tv = target_hf as int;
            let wv = WAD as int;
            if bw.value() == bmin_wad.value() {
                // bmin * W / BPS * BPS / W <= bmin
                lemma_fundamental_div_mod((bonus_min as int) * wv, BPS as int);
                assert(bw.value() * (BPS as int) <= (bonus_min as int) * wv);
                lemma_div_is_ordered(bw.value() * (BPS as int), (bonus_min as int) * wv, wv);
                lemma_div_multiples_vanish(bonus_min as int, wv);
                assert((bonus_min as int) * wv == wv * (bonus_min as int)) by (nonlinear_arith);
                assert(res.value() <= bonus_min);
            } else {
                assert(bw.value() <= tw_p.value());
                lemma_mul_le(bw.value(), BPS as int, tv * wv, BPS as int);
                lemma_div_is_ordered(bw.value() * (BPS as int), tv * wv * (BPS as int), wv);
                assert(tv * wv * (BPS as int) == wv * (tv * (BPS as int))) by (nonlinear_arith);
                lemma_div_multiples_vanish(tv * (BPS as int), wv);
                lemma_mul_lt(tv, BPS as int, two96(), 16384);
                assert(res.value() < two96() * 16384);
            }
        }
    }
    u256_to_u128(res)
}

/// Debt repayment (WAD) that would bring the health factor to `t`: the gap between
/// the weighted collateral `wc` and what the debt `d` needs at `t`, over the net loss
/// of weighted collateral per unit repaid (the proportion seized `s` with the bonus,
/// less `t`). The signed quotient truncates towards zero; `None` where the computation has
/// no result because it is not positive (or its divisor is zero).
pub open spec fn ideal_repayment_spec(wc: int, s: int, bonus: int, d: int, t: int) -> Option<int> {
    let w = WAD as int;
    let bps = BPS as int;
    let gap = wc - d * t / w;
    let p = s * w / bps;
    let denom = (p * (bps + bonus) + bps / 2) / bps - t;
    let gap_abs = if gap >= 0 { gap } else { -gap };
    let denom_abs = if denom >= 0 { denom } else { -denom };
    if gap == 0 || denom == 0 || (gap > 0) != (denom > 0) || gap_abs * w < denom_abs {
        None
    } else {
        Some(gap_abs * w / denom_abs)
    }
}

/// Outcome of a liquidation with bonus `bonus` (BPS) aiming at `t` (WAD): the debt to
/// repay, the bonus, and the health factor afterwards. The ideal repayment is capped
/// by what the whole collateral `ctot` can pay with the bonus, and the collateral
/// seized is capped by `wc`. `None` where the computation has no result: no positive ideal
/// repayment, or the whole debt would be repaid.
pub open spec fn liquidation_spec(ctot: int, wc: int, s: int, bonus: int, d: int, t: int) -> Option<(int, int, int)> {
    let w = WAD as int;
    let bps = BPS as int;
    match ideal_repayment_spec(wc, s, bonus, d, t) {
        None => None,
        Some(ideal) => {
            let max_debt = ctot * bps / (bps + bonus);
            let debt = if max_debt <= ideal { max_debt } else { ideal };
            let raw_seized = s * debt * (bps + bonus) / bps / bps;
            let seized = if raw_seized <= wc { raw_seized } else { wc };
            if d <= debt {
                None
            } else {
                Some((debt, bonus, (wc - seized) * w / (d - debt)))
            }
        },
    }
}

proof fn lemma_capped_by_collateral(ctot: int, bonus: int)
    requires
        0 <= ctot,
        0 <= bonus,
    ensures
        0 <= ctot * (BPS as int) / ((BPS as int) + bonus) <= ctot,
{
    let bps = BPS as int;
    lemma_mul_le(ctot, bps, ctot, bps);
    lemma_div_is_ordered_by_denominator(ctot * bps, bps, bps + bonus);
    lemma_div_multiples_vanish(ctot, bps);
    assert(ctot * bps == bps * ctot) by (nonlinear_arith);
    lemma_div_pos_is_pos(ctot * bps, bps + bonus);
}

fn ideal_repayment(weighted_collateral: u128, proportion_seized: u128, liquidation_bonus: u128, total_debt: u128, target_hf: u128) -> (r: Option<U256>)
    ensures
        r matches Some(v) ==> ideal_repayment_spec(weighted_collateral as int, proportion_seized as int, liquidation_bonus as int, total_debt as int, target_hf as int) == Some(v.value()),
        ideal_repayment_spec(weighted_collateral as int, proportion_seized as int, liquidation_bonus as int, total_debt as int, target_hf as int) is None ==> r is None,
        amount_ok(weighted_collateral as int) && amount_ok(total_debt as int) && amount_ok(target_hf as int)
            && bps_ok(proportion_seized as int) && bonus_ok(liquidation_bonus as int)
            && ideal_repayment_spec(weighted_collateral as int, proportion_seized as int, liquidation_bonus as int, total_debt as int, target_hf as int) is Some
            ==> r is Some,
{
    let ghost bounded = amount_ok(weighted_collateral as int) && amount_ok(total_debt as int)
        && amount_ok(target_hf as int) && bps_ok(proportion_seized as int) && bonus_ok(liquidation_bonus as int);
    let w = u256_from(WAD);
    let bps = u256_from(BPS);
    proof {
        lemma_mul_lt(total_debt as int, target_hf as int, two128(), two128());
        lemma_mul_lt(proportion_seized as int, WAD as int, two128(), two128());
    }
    let required = u256_div(u256_mul(u256_from(total_debt), u256_from(target_hf))?, w);
    let wc = u256_from(weighted_collateral);
    let gap_pos = u256_le(required, wc);
    let gap_abs = if gap_pos { u256_sub(wc, required).unwrap() } else { u256_sub(required, wc).unwrap() };
    let p = u256_div(u256_mul_small(u256_from(proportion_seized), WAD)?, bps);
    let bps_bonus = u256_add(bps, u256_from(liquidation_bonus)).unwrap();
    proof {
        if bounded {
            let two60 = 0x1000_0000_0000_0000int;
            lemma_mul_lt(proportion_seized as int, WAD as int, two32(), two60);
            lemma_div_is_ordered_by_denominator((proportion_seized as int) * (WAD as int), 1, BPS as int);
            lemma_mul_lt(p.value(), bps_bonus.value(), two32() * two60, two96() * 16384 + 10000);
            assert((two32() * two60) * (two96() * 16384 + 10000) < two256() / 2);
            assert(required.value() <= (total_debt as int) * (target_hf as int)) by {
                lemma_div_is_ordered_by_denominator((total_debt as int) * (target_hf as int), 1, WAD as int);
            }
            lemma_mul_lt(total_debt as int, target_hf as int, two96(), two96());
            lemma_mul_lt(gap_abs.value(), WAD as int, two96() * two96() + two96(), two60);
            assert((two96() * two96() + two96()) * two60 < two256());
        }
    }
    let lf = u256_div(u256_add(u256_mul(p, bps_bonus)?, u256_from(BPS / 2))?, bps);
    let t = u256_from(target_hf);
    let denom_pos = u256_le(t, lf);
    let denom_abs = if denom_pos { u256_sub(lf, t).unwrap() } else { u256_sub(t, lf).unwrap() };
    if u256_is_zero(denom_abs) || u256_is_zero(gap_abs) || gap_pos != denom_pos {
        return None;
    }
    let ideal = u256_div(u256_mul_small(gap_abs, WAD)?, denom_abs);
    proof {
        if gap_abs.value() * (WAD as int) >= denom_abs.value() {
            lemma_div_is_ordered(denom_abs.value(), gap_abs.value() * (WAD as int), denom_abs.value());
            lemma_div_by_self(denom_abs.value());
        } else {
            lemma_basic_div(gap_abs.value() * (WAD as int), denom_abs.value());
        }
    }
    if u256_is_zero(ideal) {
        return None;
    }
    Some(ideal)
}

/// Debt to repay, bonus and resulting health factor of a liquidation (see
/// `liquidation_spec`); the health factor is returned as a 256-bit value.
pub fn calculate_liquidation(
    total_collateral: u128,
    weighted_collateral: u128,
    proportion_seized: u128,
    liquidation_bonus: u128,
    total_debt: u128,
    target_hf: u128,
) -> (r: Option<(u128, u128, U256)>)
    ensures
        r matches Some((debt, bonus, hf)) ==> liquidation_spec(total_collateral as int, weighted_collateral as int, proportion_seized as int, liquidation_bonus as int, total_debt as int, target_hf as int) == Some((debt as int, bonus as int, hf.value())),
        liquidation_spec(total_collateral as int, weighted_collateral as int, proportion_seized as int, liquidation_bonus as int, total_debt as int, target_hf as int) is None ==> r is None,
        amount_ok(total_collateral as int) && amount_ok(weighted_collateral as int) && amount_ok(total_debt as int) && amount_ok(target_hf as int)
            && bps_ok(proportion_seized as int) && bonus_ok(liquidation_bonus as int)
            && liquidation_spec(total_collateral as int, weighted_collateral as int, proportion_seized as int, liquidation_bonus as int, total_debt as int, target_hf as int) is Some
            ==> r is Some,
{
    let ghost bounded = amount_ok(total_collateral as int) && amount_ok(weighted_collateral as int) && amount_ok(total_debt as int)
        && amount_ok(target_hf as int) && bps_ok(proportion_seized as int) && bonus_ok(liquidation_bonus as int);
    let ideal = ideal_repayment(weighted_collateral, proportion_seized, liquidation_bonus, total_debt, target_hf)?;
    let bps = u256_from(BPS);
    let bps_bonus = u256_add(bps, u256_from(liquidation_bonus)).unwrap();
    proof {
        lemma_mul_lt(total_collateral as int, BPS as int, two128(), two128());
    }
    let max_debt = u256_div(u256_mul_small(u256_from(total_collateral), BPS).unwrap(), bps_bonus);
    let debt_u = if u256_le(max_debt, ideal) { max_debt } else { ideal };
    proof {
        lemma_capped_by_collateral(total_collateral as int, liquidation_bonus as int);
    }
    let debt = u256_to_u128(debt_u).unwrap();
    proof {
        lemma_mul_lt(proportion_seized as int, debt as int, two128(), two128());
        if bounded {
            lemma_mul_lt(proportion_seized as int, debt as int, two32(), two96());
            lemma_mul_lt((proportion_seized as int) * (debt as int), bps_bonus.value(), two32() * two96(), two96() * 16384 + 10000);
            assert((two32() * two96()) * (two96() * 16384 + 10000) < two256());
        }
    }
    let raw = u256_mul(u256_mul_small(u256_from(proportion_seized), debt).unwrap(), bps_bonus)?;
    let raw_seized = u256_div(u256_div(raw, bps), bps);
    let wc = u256_from(weighted_collateral);
    let seized = if u256_le(raw_seized, wc) { raw_seized } else { wc };
    if debt >= total_debt {
        return None;
    }
    let new_weighted = u256_sub(wc, seized).unwrap();
    proof {
        lemma_mul_lt(new_weighted.value(), WAD as int, two128(), two128());
    }
    let new_hf = u256_div(u256_mul_small(new_weighted, WAD).unwrap(), u256_from(total_debt - debt));
    Some((debt, liquidation_bonus, new_hf))
}

/// One simulated liquidation towards `t` (WAD) of a position at health factor
/// `old_hf` (BPS): the largest feasible bonus, scaled by how far the health factor
/// (in WAD) is below `t`, then the liquidation with that bonus.
pub open spec fn simulation_spec(wc: int, s: int, ctot: int, d: int, bmin: int, old_hf: int, t: int) -> Option<(int, int, int)> {
    match max_feasible_bonus_spec(ctot, d, s, t, bmin) {
        None => None,
        Some(max_bonus) => match dynamic_bonus_spec(old_hf * (HF_BPS_TO_WAD as int), t, bmin, max_bonus) {
            None => None,
            Some(bonus) => liquidation_spec(ctot, wc, s, bonus, d, t),
        },
    }
}

/// Debt to repay and bonus of a liquidation of a position at health factor `old_hf`
/// (BPS): aim at a health factor of 1.02, else at 1.0, keeping the first simulation that ends at a health factor of at least 1.0;
/// when neither does, repay what the whole collateral covers with the minimum bonus
/// (rounded half up) at that bonus.
pub open spec fn estimate_spec(wc: int, s: int, ctot: int, d: int, bmin: int, old_hf: int) -> Option<(int, int)> {
    let w = WAD as int;
    let bps = BPS as int;
    match simulation_spec(wc, s, ctot, d, bmin, old_hf, w * 2 / 100 + w) {
        None => None,
        Some((d1, b1, h1)) => if h1 >= w {
            Some((d1, b1))
        } else {
            match simulation_spec(wc, s, ctot, d, bmin, old_hf, w) {
                None => None,
                Some((d2, b2, h2)) => if h2 >= w {
                    Some((d2, b2))
                } else {
                    Some(((ctot * bps + (bps + bmin) / 2) / (bps + bmin), bmin))
                },
            }
        },
    }
}

/// Simulates a liquidation aiming at `target_hf`.
pub fn simulation_target_liquidation(
    weighted_collateral: u128,
    proportion_seized: u128,
    total_collateral: u128,
    total_debt: u128,
    bonus_min: u128,
    old_hf: u128,
    target_hf: u128,
) -> (r: Option<(u128, u128, U256)>)
    ensures
        r matches Some((debt, bonus, hf)) ==> simulation_spec(weighted_collateral as int, proportion_seized as int, total_collateral as int, total_debt as int, bonus_min as int, old_hf as int, target_hf as int) == Some((debt as int, bonus as int, hf.value())),
        simulation_spec(weighted_collateral as int, proportion_seized as int, total_collateral as int, total_debt as int, bonus_min as int, old_hf as int, target_hf as int) is None ==> r is None,
        amount_ok(weighted_collateral as int) && amount_ok(total_collateral as int) && amount_ok(total_debt as int) && amount_ok(target_hf as int)
            && bps_ok(proportion_seized as int) && bps_ok(bonus_min as int)
            && simulation_spec(weighted_collateral as int, proportion_seized as int, total_collateral as int, total_debt as int, bonus_min as int, old_hf as int, target_hf as int) is Some
            ==> r is Some,
{
    let max_bonus = get_max_feasible_bonus(total_collateral, total_debt, proportion_seized, target_hf, bonus_min)?;
    if old_hf > u128::MAX / HF_BPS_TO_WAD {
        proof {
            assert(old_hf * (HF_BPS_TO_WAD as int) > max_u128()) by (nonlinear_arith)
                requires
                    old_hf >= max_u128() / (HF_BPS_TO_WAD as int) + 1,
                    HF_BPS_TO_WAD > 0,
            ;
        }
        return None;
    }
    proof {
        assert(old_hf * (HF_BPS_TO_WAD as int) <= max_u128()) by (nonlinear_arith)
            requires
                old_hf <= max_u128() / (HF_BPS_TO_WAD as int),
                HF_BPS_TO_WAD > 0,
        ;
    }
    let bonus = calculate_dynamic_liquidation_bonus(old_hf * HF_BPS_TO_WAD, target_hf, bonus_min, max_bonus)?;
    calculate_liquidation(total_collateral, weighted_collateral, proportion_seized, bonus, total_debt, target_hf)
}

proof fn lemma_rounded_cap(ctot: int, bmin: int)
    requires
        0 <= ctot,
        0 <= bmin,
    ensures
        0 <= (ctot * (BPS as int) + ((BPS as int) + bmin) / 2) / ((BPS as int) + bmin) <= ctot,
{
    let bps = BPS as int;
    let x = bps + bmin;
    assert(ctot * bps + x / 2 < (ctot + 1) * x) by (nonlinear_arith)
        requires
            x >= bps,
            bps > 0,
            ctot >= 0,
            x / 2 < x,
    ;
    lemma_mul_le(ctot, bps, ctot, bps);
    lemma_div_pos_is_pos(ctot * bps + x / 2, x);
    lemma_div_is_ordered(ctot * bps + x / 2, (ctot + 1) * x - 1, x);
    assert((ctot + 1) * x - 1 == ctot * x + (x - 1)) by (nonlinear_arith);
    lemma_fundamental_div_mod_converse((ctot + 1) * x - 1, x, ctot, x - 1);
}

/// Debt to repay (WAD) and bonus (BPS) for liquidating a position (see `estimate_spec`).
pub fn estimate_liquidation_amount(
    weighted_collateral: u128,
    proportion_seized: u128,
    total_collateral: u128,
    total_debt: u128,
    bonus_min: u128,
    old_hf: u128,
) -> (r: Option<(u128, u128)>)
    ensures
        r matches Some((debt, bonus)) ==> estimate_spec(weighted_collateral as int, proportion_seized as int, total_collateral as int, total_debt as int, bonus_min as int, old_hf as int) == Some((debt as int, bonus as int)),
        estimate_spec(weighted_collateral as int, proportion_seized as int, total_collateral as int, total_debt as int, bonus_min as int, old_hf as int) is None ==> r is None,
        amount_ok(weighted_collateral as int) && amount_ok(total_collateral as int) && amount_ok(total_debt as int)
            && bps_ok(proportion_seized as int) && bps_ok(bonus_min as int)
            && estimate_spec(weighted_collateral as int, proportion_seized as int, total_collateral as int, total_debt as int, bonus_min as int, old_hf as int) is Some
            ==> r is Some,
{
    let target_best = WAD * 2 / 100 + WAD;
    let (d1, b1, h1) = simulation_target_liquidation(weighted_collateral, proportion_seized, total_collateral, total_debt, bonus_min, old_hf, target_best)?;
    if u256_le(u256_from(WAD), h1) {
        return Some((d1, b1));
    }
    let (d2, b2, h2) = simulation_target_liquidation(weighted_collateral, proportion_seized, total_collateral, total_debt, bonus_min, old_hf, WAD)?;
    if u256_le(u256_from(WAD), h2) {
        return Some((d2, b2));
    }
    let denominator = u256_add(u256_from(BPS), u256_from(bonus_min)).unwrap();
    proof {
        lemma_mul_lt(total_collateral as int, BPS as int, two128(), two128());
        lemma_rounded_cap(total_collateral as int, bonus_min as int);
    }
    let numerator = u256_add(u256_mul_small(u256_from(total_collateral), BPS).unwrap(), u256_div(denominator, u256_from(2))).unwrap();
    let max_debt = u256_to_u128(u256_div(numerator, denominator)).unwrap();
    Some((max_debt, bonus_min))
}

/// Debt a liquidator may repay and the bonus: the estimate, capped by what the
/// liquidator pays when a payment is given.
pub open spec fn max_debt_repayment_spec(d: int, ctot: int, wc: int, s: int, bonus: int, hf: int, payment: Option<u128>) -> Option<(int, int)> {
    match estimate_spec(wc, s, ctot, d, bonus, hf) {
        None => None,
        Some((max_debt, b)) => match payment {
            Some(p) => Some((if p <= max_debt { p as int } else { max_debt }, b)),
            None => Some((max_debt, b)),
        },
    }
}

/// Debt (WAD) a liquidator repays and the bonus (BPS) it earns.
pub fn calculate_max_debt_repayment(
    total_debt: u128,
    total_collateral: u128,
    weighted_collateral: u128,
    proportion_seized: u128,
    base_liquidation_bonus: u128,
    health_factor: u128,
    debt_payment: Option<u128>,
) -> (r: Option<(u128, u128)>)
    ensures
        r matches Some((debt, bonus)) ==> max_debt_repayment_spec(total_debt as int, total_collateral as int, weighted_collateral as int, proportion_seized as int, base_liquidation_bonus as int, health_factor as int, debt_payment) == Some((debt as int, bonus as int)),
        max_debt_repayment_spec(total_debt as int, total_collateral as int, weighted_collateral as int, proportion_seized as int, base_liquidation_bonus as int, health_factor as int, debt_payment) is None ==> r is None,
        amount_ok(weighted_collateral as int) && amount_ok(total_collateral as int) && amount_ok(total_debt as int)
            && bps_ok(proportion_seized as int) && bps_ok(base_liquidation_bonus as int)
            && max_debt_repayment_spec(total_debt as int, total_collateral as int, weighted_collateral as int, proportion_seized as int, base_liquidation_bonus as int, health_factor as int, debt_payment) is Some
            ==> r is Some,
{
    let (max_debt, bonus) = estimate_liquidation_amount(weighted_collateral, proportion_seized, total_collateral, total_debt, base_liquidation_bonus, health_factor)?;
    match debt_payment {
        Some(p) => Some((if p <= max_debt { p } else { max_debt }, bonus)),
        None => Some((max_debt, bonus)),
    }
}

/// Raw token units (at `decimals`) worth `amount` EGLD (WAD) at `price` (WAD per
/// token): the quotient at RAY precision rounded half up, re-expressed at the token's
/// decimals (truncating). `None` when the price is zero or the result exceeds `u128`.
pub open spec fn egld_in_tokens_spec(amount: int, price: int, decimals: nat) -> Option<u128> {
    if price == 0 {
        None
    } else {
        fit(rescale_spec(div_round(amount * 1_000_000_000_000_000_000_000_000_000_000_000_000int, price * 1_000_000_000int), 27, decimals))
    }
}

/// EGLD value (WAD) of `amount` raw units at `decimals` priced `price` (WAD): the
/// product at RAY precision rounded half up, truncated to WAD.
pub open spec fn egld_value_spec(amount: int, price: int, decimals: nat) -> int {
    div_round(rescale_spec(amount, decimals, 27) * (price * 1_000_000_000int), 1_000_000_000_000_000_000_000_000_000int) / 1_000_000_000int
}

proof fn lemma_huge_value(y: int)
    requires
        y >= two128() * 1_000_000_000_000_000_000_000_000_000_000_000_000int,
    ensures
        y / 1_000_000_000_000_000_000_000_000_000int / 1_000_000_000int >= two128(),
{
    let e27 = 1_000_000_000_000_000_000_000_000_000int;
    let e9 = 1_000_000_000int;
    assert(two128() * 1_000_000_000_000_000_000_000_000_000_000_000_000int == (two128() * e9) * e27);
    lemma_div_is_ordered((two128() * e9) * e27, y, e27);
    lemma_div_multiples_vanish(two128() * e9, e27);
    assert((two128() * e9) * e27 == e27 * (two128() * e9)) by (nonlinear_arith);
    lemma_div_is_ordered(two128() * e9, y / e27, e9);
    lemma_div_multiples_vanish(two128(), e9);
    assert(two128() * e9 == e9 * two128()) by (nonlinear_arith);
}

/// Amount of a token (raw units at `decimals`) worth `amount_in_egld` (WAD) at
/// `price` (WAD).
pub fn compute_egld_in_tokens(amount_in_egld: u128, price: u128, decimals: usize) -> (r: Option<u128>)
    requires
        decimals <= 38,
    ensures
        r == egld_in_tokens_spec(amount_in_egld as int, price as int, decimals as nat),
{
    if price == 0 {
        return None;
    }
    let e36: u128 = 1_000_000_000_000_000_000_000_000_000_000_000_000;
    proof {
        lemma_mul_lt(amount_in_egld as int, e36 as int, two128(), two128() / 4);
        lemma_mul_lt(price as int, 1_000_000_000, two128(), two128() / 4);
    }
    let num = u256_mul_small(u256_from(amount_in_egld), e36).unwrap();
    let den = u256_mul_small(u256_from(price), 1_000_000_000).unwrap();
    let q = u256_div(u256_add(num, u256_div(den, u256_from(2))).unwrap(), den);
    assert(q.value() == div_round(amount_in_egld * 1_000_000_000_000_000_000_000_000_000_000_000_000int, price * 1_000_000_000int));
    if decimals <= 27 {
        let f = pow10_u128(27 - decimals);
        proof {
            lemma_pow10_pos((27 - decimals) as nat);
            if decimals == 27 {
                assert(pow10(0) == 1);
                assert(q.value() * pow10(0) == q.value()) by (nonlinear_arith)
                    requires
                        pow10(0) == 1,
                ;
            }
        }
        let res = u256_div(q, u256_from(f));
        assert(res.value() == rescale_spec(q.value(), 27, decimals as nat));
        u256_to_u128(res)
    } else {
        let f = pow10_u128(decimals - 27);
        match u256_mul_small(q, f) {
            Some(v) => u256_to_u128(v),
            None => {
                proof {
                    assert(two256() > max_u128());
                }
                None
            },
        }
    }
}

fn egld_value(amount: u128, price: u128, decimals: usize) -> (r: Option<u128>)
    requires
        decimals <= 38,
    ensures
        r == fit(egld_value_spec(amount as int, price as int, decimals as nat)),
{
    let e27: u128 = 1_000_000_000_000_000_000_000_000_000;
    let e9: u128 = 1_000_000_000;
    let sa = if decimals <= 27 {
        let f = pow10_u128(27 - decimals);
        proof {
            lemma_pow10_fits((27 - decimals) as nat);
            lemma_mul_lt(amount as int, f as int, two128(), two128());
        }
        u256_mul_small(u256_from(amount), f).unwrap()
    } else {
        let f = pow10_u128(decimals - 27);
        proof {
            lemma_pow10_pos((decimals - 27) as nat);
        }
        u256_div(u256_from(amount), u256_from(f))
    };
    proof {
        lemma_mul_lt(price as int, e9 as int, two128(), two128());
    }
    let sb = u256_mul_small(u256_from(price), e9).unwrap();
    let ghost value = egld_value_spec(amount as int, price as int, decimals as nat);
    proof {
        assert(two256() >= two128() * 1_000_000_000_000_000_000_000_000_000_000_000_000int);
        if sa.value() * sb.value() + 500_000_000_000_000_000_000_000_000int >= two256() {
            lemma_huge_value(sa.value() * sb.value() + 500_000_000_000_000_000_000_000_000int);
            assert(value >= two128());
        }
    }
    let prod = match u256_mul(sa, sb) {
        Some(v) => v,
        None => return None,
    };
    let biased = match u256_add(prod, u256_from(500_000_000_000_000_000_000_000_000)) {
        Some(v) => v,
        None => return None,
    };
    let res = u256_div(u256_div(biased, u256_from(e27)), u256_from(e9));
    u256_to_u128(res)
}

/// EGLD value (WAD) of `amount` raw units of a token with `decimals` at `price` (WAD).
pub fn get_token_amount_in_egld_raw(amount: u128, price: u128, decimals: usize) -> (r: Option<u128>)
    requires
        decimals <= 38,
    ensures
        r == fit(egld_value_spec(amount as int, price as int, decimals as nat)),
{
    egld_value(amount, price, decimals)
}

/// Dollar value (WAD) of an EGLD amount at the EGLD price (WAD dollars per EGLD); the
/// same rounding as `get_token_amount_in_egld_raw`.
pub fn get_token_amount_in_dollars_raw(amount: u128, price: u128, decimals: usize) -> (r: Option<u128>)
    requires
        decimals <= 38,
    ensures
        r == fit(egld_value_spec(amount as int, price as int, decimals as nat)),
{
    egld_value(amount, price, decimals)
}

/// A position with debt is healthy (health factor at least 1.0, 10000 basis points)
/// exactly when its weighted collateral covers its debt.
pub proof fn lemma_health_factor_threshold(w: int, b: int)
    requires
        0 <= w,
        0 < b,
    ensures
        health_factor_spec(w, b) >= BPS <==> w >= b,
{
    let bps = BPS as int;
    if w >= b {
        assert(w * bps >= b * bps) by (nonlinear_arith)
            requires
                w >= b,
                bps > 0,
        ;
        lemma_div_is_ordered(b * bps, w * bps, b);
        lemma_div_multiples_vanish(bps, b);
        assert(b * bps == bps * b) by (nonlinear_arith);
    } else {
        assert(w * bps < bps * b) by (nonlinear_arith)
            requires
                w < b,
                bps > 0,
        ;
        lemma_multiply_divide_lt(w * bps, b, bps);
    }
}

/// More weighted collateral never lowers the health factor.
pub proof fn lemma_health_factor_monotone(w1: int, w2: int, b: int)
    requires
        0 <= w1 <= w2,
        0 <= b,
    ensures
        health_factor_spec(w1, b) <= health_factor_spec(w2, b),
{
    if b > 0 {
        let bps = BPS as int;
        assert(w1 * bps <= w2 * bps) by (nonlinear_arith)
            requires
                w1 <= w2,
                bps > 0,
        ;
        lemma_div_is_ordered(w1 * bps, w2 * bps, b);
    }
}

/// The dynamic bonus lies between the minimum and the maximum bonus.
pub proof fn lemma_dynamic_bonus_bounds(old_hf: int, target: int, bmin: int, bmax: int)
    requires
        dynamic_bonus_spec(old_hf, target, bmin, bmax) is Some,
        0 <= old_hf,
    ensures
        bmin <= dynamic_bonus_spec(old_hf, target, bmin, bmax).unwrap() <= bmax,
{
    assert(0 <= (bmax - bmin) * (target - old_hf)) by (nonlinear_arith)
        requires
            bmax - bmin >= 0,
            target - old_hf >= 0,
    ;
    lemma_div_pos_is_pos((bmax - bmin) * (target - old_hf), target);
}

/// Tolerance bands nest: the first band lies within the last, and both contain 100%.
pub proof fn lemma_tolerance_bands_nest(first: int, last: int)
    requires
        anchor_tolerances_spec(first, last) is Ok,
    ensures
        ({
            let f = anchor_tolerances_spec(first, last).unwrap();
            &&& f.last_lower_ratio <= f.first_lower_ratio <= BPS <= f.first_upper_ratio <= f.last_upper_ratio
        }),
{
    let n = (BPS * BPS) as int;
    let d1 = (BPS as int) + first;
    let d2 = (BPS as int) + last;
    lemma_round_reciprocal_order(n, d1, d2);
    crate::math::lemma_div_round_bound(n, d1, BPS as int);
}

proof fn lemma_round_reciprocal_order(n: int, d1: int, d2: int)
    requires
        0 <= n,
        0 < d1 <= d2,
    ensures
        div_round(n, d2) <= div_round(n, d1),
{
    let q1 = div_round(n, d1);
    let q2 = div_round(n, d2);
    lemma_fundamental_div_mod(n + d1 / 2, d1);
    lemma_fundamental_div_mod(n + d2 / 2, d2);
    if q2 > q1 {
        assert(false) by (nonlinear_arith)
            requires
                n + d1 / 2 == d1 * q1 + (n + d1 / 2) % d1,
                0 <= (n + d1 / 2) % d1 < d1,
                n + d2 / 2 == d2 * q2 + (n + d2 / 2) % d2,
                0 <= (n + d2 / 2) % d2 < d2,
                q2 >= q1 + 1,
                0 < d1 <= d2,
                0 <= n,
                d1 / 2 * 2 <= d1,
                d1 <= d1 / 2 * 2 + 1,
                d2 / 2 * 2 <= d2,
                d2 <= d2 / 2 * 2 + 1,
        ;
    }
}

/// A liquidation never repays more debt than the whole collateral pays for with the
/// bonus, nor the whole debt, and hands out the bonus it was given.
pub proof fn lemma_liquidation_caps(ctot: int, wc: int, s: int, bonus: int, d: int, t: int)
    requires
        liquidation_spec(ctot, wc, s, bonus, d, t) is Some,
        0 <= ctot,
        0 <= bonus,
    ensures
        ({
            let (debt, b, _) = liquidation_spec(ctot, wc, s, bonus, d, t).unwrap();
            &&& 0 <= debt <= ctot * (BPS as int) / ((BPS as int) + bonus)
            &&& debt <= ctot
            &&& debt < d
            &&& b == bonus
        }),
{
    lemma_capped_by_collateral(ctot, bonus);
    lemma_ideal_nonneg(wc, s, bonus, d, t);
}

proof fn lemma_floor_between(n: int, dd: int, lo: int, hi: int)
    requires
        dd > 0,
        lo * dd <= n,
        n < hi * dd,
    ensures
        lo <= n / dd < hi,
{
    lemma_fundamental_div_mod(n, dd);
    let q = n / dd;
    let r = n % dd;
    if q < lo {
        assert(dd * q <= dd * (lo - 1)) by (nonlinear_arith)
            requires
                q <= lo - 1,
                dd > 0,
        ;
        assert(dd * (lo - 1) + dd == lo * dd) by (nonlinear_arith);
    }
    if q >= hi {
        assert(dd * q >= dd * hi) by (nonlinear_arith)
            requires
                q >= hi,
                dd > 0,
        ;
        assert(dd * hi == hi * dd) by (nonlinear_arith);
    }
}

/// A liquidation that is limited neither by what the whole collateral can pay nor by
/// the weighted collateral available leaves the account's health factor at the
/// target, within two raw units either way, when at least one EGLD and at least the
/// target's raw value of debt remain, for seized proportions and bonuses of at most
/// 100%.
pub proof fn lemma_liquidation_reaches_target(ctot: int, wc: int, s: int, bonus: int, d: int, t: int)
    requires
        0 <= wc,
        0 <= t,
        0 <= s <= BPS,
        0 <= bonus <= BPS,
        ideal_repayment_spec(wc, s, bonus, d, t) matches Some(ideal)
            && ideal <= ctot * (BPS as int) / ((BPS as int) + bonus)
            && s * ideal * ((BPS as int) + bonus) / (BPS as int) / (BPS as int) <= wc
            && d - ideal >= WAD
            && d - ideal >= t,
    ensures
        liquidation_spec(ctot, wc, s, bonus, d, t) matches Some((_, _, hf)) && t - 2 <= hf <= t + 2,
{
    let w = WAD as int;
    let b = BPS as int;
    let debt = ideal_repayment_spec(wc, s, bonus, d, t).unwrap();
    let dd = d - debt;
    // The seized proportion and the loss factor are exact.
    let p = s * w / b;
    assert(s * w == b * (s * 100_000_000_000_000)) by (nonlinear_arith)
        requires
            w == 1_000_000_000_000_000_000,
            b == 10_000,
    ;
    lemma_div_multiples_vanish(s * 100_000_000_000_000, b);
    assert(p == s * 100_000_000_000_000);
    let x = s * (b + bonus) * 10_000_000_000;
    assert(p * (b + bonus) == b * x) by (nonlinear_arith)
        requires
            p == s * 100_000_000_000_000,
            x == s * (b + bonus) * 10_000_000_000,
            b == 10_000,
    ;
    lemma_fundamental_div_mod_converse(p * (b + bonus) + b / 2, b, x, b / 2);
    let loss = (p * (b + bonus) + b / 2) / b;
    assert(loss == x);
    let denom = loss - t;
    assert(0 <= x <= 2 * w) by (nonlinear_arith)
        requires
            x == s * (b + bonus) * 10_000_000_000,
            0 <= s <= b,
            0 <= bonus <= b,
            b == 10_000,
            w == 1_000_000_000_000_000_000,
    ;
    // The collateral seized: `debt * loss / WAD`, truncated.
    let q = s * debt * (b + bonus);
    lemma_div_denominator(q, b, b);
    let seized = q / b / b;
    assert(q / b / b == q / (b * b));
    lemma_fundamental_div_mod(q, b * b);
    let e = q % (b * b);
    assert(q == b * b * seized + e && 0 <= e < b * b);
    assert(debt * loss == w * seized + e * 10_000_000_000) by (nonlinear_arith)
        requires
            q == s * debt * (b + bonus),
            q == b * b * seized + e,
            loss == s * (b + bonus) * 10_000_000_000,
            b == 10_000,
            w == 1_000_000_000_000_000_000,
    ;
    // The debt's requirement at the target, truncated.
    lemma_fundamental_div_mod(d * t, w);
    let f = (d * t) / w;
    let big_e = (d * t) % w;
    let gap = wc - f;
    assert(gap * w == wc * w - d * t + big_e) by (nonlinear_arith)
        requires
            gap == wc - f,
            d * t == w * f + big_e,
    ;
    // The ideal repayment divides the gap by the net loss, towards zero.
    let gap_abs = if gap >= 0 { gap } else { -gap };
    let denom_abs = if denom >= 0 { denom } else { -denom };
    lemma_fundamental_div_mod(gap_abs * w, denom_abs);
    let r = (gap_abs * w) % denom_abs;
    assert(gap_abs * w == denom_abs * debt + r && 0 <= r < denom_abs);
    let n = (wc - seized) * w;
    assert(debt * loss == debt * denom + debt * t) by (nonlinear_arith)
        requires
            denom == loss - t,
    ;
    assert(t * dd == t * d - t * debt) by (nonlinear_arith)
        requires
            dd == d - debt,
    ;
    assert(n == wc * w - seized * w) by (nonlinear_arith)
        requires
            n == (wc - seized) * w,
    ;
    assert(d * t == t * d && debt * t == t * debt) by (nonlinear_arith);
    if gap > 0 {
        assert(denom > 0);
        assert(gap_abs * w == gap * w);
        assert(denom_abs * debt == debt * denom) by (nonlinear_arith)
            requires
                denom_abs == denom,
        ;
        assert(n == t * dd - big_e + r + e * 10_000_000_000);
        assert(denom <= 2 * w);
    } else {
        assert(denom < 0);
        assert(gap_abs * w == -(gap * w)) by (nonlinear_arith)
            requires
                gap_abs == -gap,
        ;
        assert(denom_abs * debt == -(debt * denom)) by (nonlinear_arith)
            requires
                denom_abs == -denom,
        ;
        assert(n == t * dd - big_e - r + e * 10_000_000_000);
        assert(denom_abs <= t);
    }
    assert((t - 2) * dd <= n) by (nonlinear_arith)
        requires
            n > t * dd - w - t,
            dd >= w,
            dd >= t,
            t >= 0,
    ;
    assert(n < (t + 3) * dd) by (nonlinear_arith)
        requires
            n < t * dd + 3 * w,
            dd >= w,
    ;
    lemma_floor_between(n, dd, t - 2, t + 3);
}

/// The estimated repayment never exceeds the collateral, and the liquidator is never
/// offered less than the minimum bonus.
pub proof fn lemma_estimate_bounds(wc: int, s: int, ctot: int, d: int, bmin: int, old_hf: int)
    requires
        estimate_spec(wc, s, ctot, d, bmin, old_hf) is Some,
        0 <= ctot,
        0 <= bmin,
        0 <= old_hf,
    ensures
        ({
            let (debt, bonus) = estimate_spec(wc, s, ctot, d, bmin, old_hf).unwrap();
            &&& 0 <= debt <= ctot
            &&& bmin <= bonus
        }),
{
    let w = WAD as int;
    let t1 = w * 2 / 100 + w;
    let h1 = simulation_spec(wc, s, ctot, d, bmin, old_hf, t1).unwrap().2;
    lemma_simulation_bounds(wc, s, ctot, d, bmin, old_hf, t1);
    if h1 < w {
        lemma_simulation_bounds(wc, s, ctot, d, bmin, old_hf, w);
        lemma_rounded_cap(ctot, bmin);
    }
}

proof fn lemma_simulation_bounds(wc: int, s: int, ctot: int, d: int, bmin: int, old_hf: int, t: int)
    requires
        0 <= ctot,
        0 <= bmin,
        0 <= old_hf,
    ensures
        simulation_spec(wc, s, ctot, d, bmin, old_hf, t) matches Some((debt, bonus, _)) ==> 0 <= debt <= ctot && bmin <= bonus,
{
    if let Some(max_bonus) = max_feasible_bonus_spec(ctot, d, s, t, bmin) {
        let scaled = old_hf * (HF_BPS_TO_WAD as int);
        assert(scaled >= 0) by (nonlinear_arith)
            requires
                old_hf >= 0,
                scaled == old_hf * (HF_BPS_TO_WAD as int),
        ;
        if let Some(bonus) = dynamic_bonus_spec(scaled, t, bmin, max_bonus) {
            lemma_dynamic_bonus_bounds(scaled, t, bmin, max_bonus);
            if liquidation_spec(ctot, wc, s, bonus, d, t) is Some {
                lemma_liquidation_caps(ctot, wc, s, bonus, d, t);
            }
        }
    }
}

proof fn lemma_ideal_nonneg(wc: int, s: int, bonus: int, d: int, t: int)
    requires
        ideal_repayment_spec(wc, s, bonus, d, t) is Some,
    ensures
        ideal_repayment_spec(wc, s, bonus, d, t).unwrap() >= 0,
{
    let w = WAD as int;
    let bps = BPS as int;
    let gap = wc - d * t / w;
    let p = s * w / bps;
    let denom = (p * (bps + bonus) + bps / 2) / bps - t;
    let gap_abs = if gap >= 0 { gap } else { -gap };
    let denom_abs = if denom >= 0 { denom } else { -denom };
    lemma_mul_le(gap_abs, w, gap_abs, w);
    lemma_div_pos_is_pos(gap_abs * w, denom_abs);
}

/// A liquidator repays at most what it paid.
pub proof fn lemma_repayment_within_payment(d: int, ctot: int, wc: int, s: int, bonus: int, hf: int, payment: u128)
    requires
        max_debt_repayment_spec(d, ctot, wc, s, bonus, hf, Some(payment)) is Some,
    ensures
        max_debt_repayment_spec(d, ctot, wc, s, bonus, hf, Some(payment)).unwrap().0 <= payment,
{
}
} // verus!
