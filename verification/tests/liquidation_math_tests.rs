use lending_pool::liquidation::{
    calculate_dynamic_liquidation_bonus, calculate_liquidation, calculate_max_debt_repayment,
    compute_egld_in_tokens, compute_health_factor, estimate_liquidation_amount, get_anchor_tolerances,
    get_max_feasible_bonus, get_range, get_token_amount_in_dollars_raw, get_token_amount_in_egld_raw,
    simulation_target_liquidation, OraclePriceFluctuation, ToleranceError,
};
use lending_pool::liquidation_bp;
use lending_pool::math::WAD;
use lending_pool::u256::u256_from;

const E18: u128 = 1_000_000_000_000_000_000;
const BP: u128 = liquidation_bp::BP;

#[test]
fn health_factor_of_weighted_collateral_over_debt() {
    // 80 EGLD of weighted collateral against 50 EGLD of debt: 1.6.
    assert_eq!(compute_health_factor(80 * E18, 50 * E18), Some(16_000));
    assert_eq!(compute_health_factor(80 * E18, 85 * E18), Some(9_411));
    // No debt: the largest factor.
    assert_eq!(compute_health_factor(80 * E18, 0), Some(u128::MAX));
    // Exactly covered debt is at the threshold.
    assert_eq!(compute_health_factor(7 * E18, 7 * E18), Some(10_000));
}

#[test]
fn health_factor_threshold_on_concrete_values() {
    assert!(compute_health_factor(100 * E18, 100 * E18).unwrap() >= 10_000);
    assert!(compute_health_factor(100 * E18 - 1, 100 * E18).unwrap() < 10_000);
    assert!(compute_health_factor(101 * E18, 100 * E18).unwrap() >= 10_000);
}

#[test]
fn range_of_a_tolerance() {
    assert_eq!(get_range(500), (10_500, 9_524));
    assert_eq!(get_range(1_000), (11_000, 9_091));
    assert_eq!(get_range(0), (10_000, 10_000));
}

#[test]
fn anchor_tolerances_documented_example() {
    assert_eq!(
        get_anchor_tolerances(500, 1_000),
        Ok(OraclePriceFluctuation {
            first_upper_ratio: 10_500,
            first_lower_ratio: 9_524,
            last_upper_ratio: 11_000,
            last_lower_ratio: 9_091,
        })
    );
}

#[test]
fn anchor_tolerances_errors() {
    assert_eq!(get_anchor_tolerances(49, 1_000), Err(ToleranceError::UnexpectedFirstTolerance));
    assert_eq!(get_anchor_tolerances(5_001, 6_000), Err(ToleranceError::UnexpectedFirstTolerance));
    assert_eq!(get_anchor_tolerances(500, 149), Err(ToleranceError::UnexpectedLastTolerance));
    assert_eq!(get_anchor_tolerances(500, 10_001), Err(ToleranceError::UnexpectedLastTolerance));
    assert_eq!(get_anchor_tolerances(1_000, 500), Err(ToleranceError::UnexpectedAnchorTolerances));
    assert!(get_anchor_tolerances(50, 150).is_ok());
    assert!(get_anchor_tolerances(5_000, 10_000).is_ok());
}

#[test]
fn tolerance_bands_nest_on_concrete_values() {
    let t = get_anchor_tolerances(300, 2_000).unwrap();
    assert!(t.last_lower_ratio <= t.first_lower_ratio);
    assert!(t.first_lower_ratio <= 10_000);
    assert!(10_000 <= t.first_upper_ratio);
    assert!(t.first_upper_ratio <= t.last_upper_ratio);
}

#[test]
fn dynamic_bonus_scales_with_distance_to_target() {
    let old = 941_176_470_588_235_294u128;
    let target = 102 * WAD / 100;
    assert_eq!(calculate_dynamic_liquidation_bonus(old, target, 500, 2_537), Some(657));
    // At the target the bonus is the minimum; at zero it is the maximum.
    assert_eq!(calculate_dynamic_liquidation_bonus(target, target, 500, 2_537), Some(500));
    assert_eq!(calculate_dynamic_liquidation_bonus(0, target, 500, 2_537), Some(2_537));
    // No result above the target or with an inverted range.
    assert_eq!(calculate_dynamic_liquidation_bonus(target + 1, target, 500, 2_537), None);
    assert_eq!(calculate_dynamic_liquidation_bonus(old, target, 600, 500), None);
}

#[test]
fn max_feasible_bonus_example() {
    assert_eq!(get_max_feasible_bonus(100 * E18, 85 * E18, 8_000, 102 * WAD / 100, 500), Some(2_537));
    // Never below the minimum bonus.
    assert!(get_max_feasible_bonus(100 * E18, 85 * E18, 8_000, 102 * WAD / 100, 3_000).unwrap() >= 3_000);
}

#[test]
fn liquidation_reaching_the_target() {
    // 100 EGLD of collateral (80 weighted), 85 EGLD of debt, 5% bonus, target 1.0.
    assert_eq!(
        calculate_liquidation(100 * E18, 80 * E18, 8_000, 500, 85 * E18, WAD),
        Some((31_250_000_000_000_000_000, 500, u256_from(WAD)))
    );
    // A healthy position has no positive repayment: no result.
    assert_eq!(calculate_liquidation(100 * E18, 80 * E18, 8_000, 500, 50 * E18, WAD), None);
}

#[test]
fn simulation_towards_a_safer_factor() {
    let old = compute_health_factor(80 * E18, 85 * E18).unwrap();
    assert_eq!(
        simulation_target_liquidation(80 * E18, 8_000, 100 * E18, 85 * E18, 500, old, 102 * WAD / 100),
        Some((40_014_333_492_594_362_159, 657, u256_from(102 * WAD / 100)))
    );
}

#[test]
fn estimate_prefers_the_safer_target() {
    let old = compute_health_factor(80 * E18, 85 * E18).unwrap();
    assert_eq!(
        estimate_liquidation_amount(80 * E18, 8_000, 100 * E18, 85 * E18, 500, old),
        Some((40_014_333_492_594_362_159, 657))
    );
}

#[test]
fn estimate_falls_back_when_no_target_is_reachable() {
    // Debt above the collateral: the whole collateral at the minimum bonus.
    let old = compute_health_factor(80 * E18, 120 * E18).unwrap();
    assert_eq!(
        estimate_liquidation_amount(80 * E18, 8_000, 100 * E18, 120 * E18, 500, old),
        Some((95_238_095_238_095_238_095, 500))
    );
}

#[test]
fn max_debt_repayment_limited_by_payment() {
    let old = compute_health_factor(80 * E18, 85 * E18).unwrap();
    assert_eq!(
        calculate_max_debt_repayment(85 * E18, 100 * E18, 80 * E18, 8_000, 500, old, Some(10 * E18)),
        Some((10 * E18, 657))
    );
    assert_eq!(
        calculate_max_debt_repayment(85 * E18, 100 * E18, 80 * E18, 8_000, 500, old, None),
        Some((40_014_333_492_594_362_159, 657))
    );
    assert_eq!(
        calculate_max_debt_repayment(85 * E18, 100 * E18, 80 * E18, 8_000, 500, old, Some(500 * E18)),
        Some((40_014_333_492_594_362_159, 657))
    );
}

#[test]
fn egld_conversions() {
    // 100 EGLD at 2 EGLD per token is 50 tokens of 6 decimals.
    assert_eq!(compute_egld_in_tokens(100 * E18, 2 * E18, 6), Some(50_000_000));
    assert_eq!(get_token_amount_in_egld_raw(50_000_000, 2 * E18, 6), Some(100 * E18));
    // 3 EGLD at 40 USD each.
    assert_eq!(get_token_amount_in_dollars_raw(3 * E18, 40 * E18, 18), Some(120 * E18));
}

#[test]
fn legacy_health_factor_in_bp_units() {
    assert_eq!(liquidation_bp::compute_health_factor(80 * E18, 85 * E18), Some(941_176_470_588_235_294_117));
    assert_eq!(liquidation_bp::compute_health_factor(80 * E18, 0), Some(u128::MAX));
}

#[test]
fn legacy_liquidation_estimate() {
    let lt = 8 * BP / 10;
    let bmin = 5 * BP / 100;
    let target = BP * 108 / 100;
    let old = 941_176_470_588_235_294_117u128;
    assert_eq!(liquidation_bp::get_max_feasible_bonus(100 * E18, 85 * E18, lt, target, bmin), Some(305_010_893_246_187_363_834));
    assert_eq!(
        liquidation_bp::calculate_dynamic_liquidation_bonus(old, bmin, 305_010_893_246_187_363_834, BP / 2),
        Some(80_001_281_558_374_983_980)
    );
    assert_eq!(
        liquidation_bp::calculate_liquidation(100 * E18, lt, bmin, 85 * E18, target),
        Some((u256_from(49_166_666_666_666_666_666), u256_from(51_624_999_999_999_999_999), false))
    );
    assert_eq!(
        liquidation_bp::estimate_liquidation_amount(100 * E18, 85 * E18, lt, bmin, old),
        Some((54_629_888_931_080_311_372, 59_000_350_056_958_420_352, 80_001_281_558_374_983_980))
    );
}

#[test]
fn legacy_single_asset_liquidation() {
    let lt = 8 * BP / 10;
    let bmin = 5 * BP / 100;
    let old = 941_176_470_588_235_294_117u128;
    assert_eq!(
        liquidation_bp::calculate_single_asset_liquidation_amount(85 * E18, 100 * E18, Some(lt), Some(E18), bmin, old),
        Some((E18, 80_001_281_558_374_983_980))
    );
    // No deposit position in the token: refused.
    assert_eq!(liquidation_bp::calculate_single_asset_liquidation_amount(85 * E18, 100 * E18, None, None, bmin, old), None);
}

#[test]
fn protocol_fee_shrinks_with_health() {
    let base = 2 * BP / 10;
    assert_eq!(liquidation_bp::calculate_dynamic_protocol_fee(BP, base), base);
    assert_eq!(liquidation_bp::calculate_dynamic_protocol_fee(9 * BP / 10, base), base);
    assert_eq!(liquidation_bp::calculate_dynamic_protocol_fee(8 * BP / 10, base), 16 * BP / 100);
    // Never below half the base fee.
    assert_eq!(liquidation_bp::calculate_dynamic_protocol_fee(BP / 2, base), base / 2);
    assert_eq!(liquidation_bp::calculate_dynamic_protocol_fee(0, base), base / 2);
    assert_eq!(liquidation_bp::calculate_liquidation_fees(10 * E18, base, 8 * BP / 10), Some(16 * E18 / 10));
}

#[test]
fn uncapped_liquidation_lands_on_the_target() {
    // Neither the collateral nor the weighted collateral limits this liquidation: the
    // health factor afterwards is the 1.05 target, within rounding.
    let target = 105 * WAD / 100;
    let (debt, bonus, hf) = calculate_liquidation(123_456 * E18 / 1_000, 971 * E18 / 10, 7_865, 432, 110 * E18, target).unwrap();
    assert_eq!(debt, 80_166_187_993_196_330_479);
    assert_eq!(bonus, 432);
    assert_eq!(hf, u256_from(1_049_999_999_999_999_999));
    assert!(hf.lo + 2 >= target && hf.lo <= target + 2);
}
