use lending_pool::math::{BPS, RAY};
use lending_pool::rates::{
    calc_borrow_rate, calc_deposit_rate, calc_supplier_rewards, calculate_compounded_interest,
    calculate_linear_interest, update_borrow_index, update_supply_index, validate_market_params,
    InterestSplit, MarketParams, ParamsError,
};

fn params() -> MarketParams {
    MarketParams {
        max_borrow_rate: 2 * RAY,
        base_borrow_rate: RAY / 100,
        slope1: 4 * RAY / 100,
        slope2: 10 * RAY / 100,
        slope3: 3 * RAY,
        mid_utilization: RAY / 2,
        optimal_utilization: 8 * RAY / 10,
        reserve_factor: 1_000,
        asset_decimals: 18,
    }
}

#[test]
fn market_params_accepted_when_consistent() {
    assert_eq!(validate_market_params(params()), Ok(params()));
}

#[test]
fn market_params_errors_in_order() {
    let mut p = params();
    p.max_borrow_rate = p.base_borrow_rate;
    p.mid_utilization = p.optimal_utilization;
    assert_eq!(validate_market_params(p), Err(ParamsError::InvalidBorrowRateParams));

    let mut p = params();
    p.mid_utilization = p.optimal_utilization;
    assert_eq!(validate_market_params(p), Err(ParamsError::InvalidUtilizationRange));

    let mut p = params();
    p.optimal_utilization = RAY;
    assert_eq!(validate_market_params(p), Err(ParamsError::OptimalUtilizationTooHigh));

    let mut p = params();
    p.reserve_factor = BPS;
    assert_eq!(validate_market_params(p), Err(ParamsError::InvalidReserveFactor));

    let mut p = params();
    p.asset_decimals = 39;
    assert_eq!(validate_market_params(p), Err(ParamsError::InvalidAssetDecimals));
}

#[test]
fn borrow_rate_in_each_region_of_the_curve() {
    let p = params();
    // No utilization: the base rate (1% a year) per second.
    assert_eq!(calc_borrow_rate(0, &p), 316_887_646_154_127_940);
    // A quarter utilized: 1% + 25% * 4% / 50% = 3% a year.
    assert_eq!(calc_borrow_rate(RAY / 4, &p), 950_662_938_462_383_820);
    // Between the kinks: 1% + 4% + 10% * 10% / 30% = 8.333..% a year.
    assert_eq!(calc_borrow_rate(6 * RAY / 10, &p), 2_640_730_384_617_732_834);
    // Past the optimal point: 15% + 10% * 300% / 20% = 165% a year.
    assert_eq!(calc_borrow_rate(9 * RAY / 10, &p), 52_286_461_615_431_110_115);
}

#[test]
fn borrow_rate_capped_at_maximum() {
    let p = params();
    // Full utilization would give 315% a year; the cap is 200%.
    assert_eq!(calc_borrow_rate(RAY, &p), 63_377_529_230_825_588_018);
    assert_eq!(calc_borrow_rate(RAY, &p), calc_borrow_rate(u128::MAX / 2, &p));
}

#[test]
fn borrow_rate_never_decreases_with_utilization() {
    let p = params();
    let mut last = 0u128;
    let mut u = 0u128;
    while u <= RAY {
        let r = calc_borrow_rate(u, &p);
        assert!(r >= last);
        last = r;
        u += RAY / 40;
    }
}

#[test]
fn deposit_rate_shares_interest_after_reserve() {
    let br = calc_borrow_rate(RAY / 4, &params());
    assert_eq!(calc_deposit_rate(RAY / 4, br, 1_000), Some(213_899_161_154_036_360));
    assert_eq!(calc_deposit_rate(0, br, 1_000), Some(0));
    // With no reserve and full utilization suppliers earn the borrow rate.
    assert_eq!(calc_deposit_rate(RAY, br, 0), Some(br));
}

#[test]
fn linear_interest_is_exact() {
    assert_eq!(calculate_linear_interest(950_662_938_462_383_820, 3_600), Some(1_000_003_422_386_578_464_581_752_000));
    assert_eq!(calculate_linear_interest(5, 0), Some(RAY));
    assert_eq!(calculate_linear_interest(u128::MAX, 2), None);
}

#[test]
fn compounded_interest_taylor_expansion() {
    let rate = 950_662_938_462_383_820u128;
    assert_eq!(calculate_compounded_interest(rate, 0), Some(RAY));
    assert_eq!(calculate_compounded_interest(rate, 3_600), Some(1_000_003_422_392_434_836_208_894_184));
    // A year at 3% compounds to about 3.0454% (third order).
    assert_eq!(calculate_compounded_interest(rate, 31_556_926), Some(1_030_454_499_999_999_999_991_073_542));
    // Compounding is at least the linear factor.
    assert!(calculate_compounded_interest(rate, 3_600).unwrap() >= calculate_linear_interest(rate, 3_600).unwrap());
}

#[test]
fn borrow_index_grows_by_the_factor() {
    let f = 1_030_454_499_999_999_999_991_073_542u128;
    assert_eq!(update_borrow_index(RAY, f), Some(f));
    assert_eq!(update_borrow_index(11 * RAY / 10, f), Some(1_133_499_949_999_999_999_990_180_896));
}

#[test]
fn supply_index_grows_by_rewards_share() {
    // 5 units of rewards over 100 units supplied: +5%.
    assert_eq!(update_supply_index(100 * RAY, RAY, 5 * RAY), Some(1_050_000_000_000_000_000_000_000_000));
    // Nothing supplied: the index stays.
    assert_eq!(update_supply_index(0, 7 * RAY, 5 * RAY), Some(7 * RAY));
}

#[test]
fn supplier_rewards_split_between_fee_and_suppliers() {
    let p = params();
    // 100 units borrowed while the index goes from 1.0 to 1.1: 10 units of interest.
    assert_eq!(
        calc_supplier_rewards(100 * RAY, RAY, 11 * RAY / 10, 0, &p),
        Some(InterestSplit { bad_debt: 0, protocol_fee: RAY, supplier_rewards: 9 * RAY })
    );
    // Bad debt of 4 units is covered first.
    assert_eq!(
        calc_supplier_rewards(100 * RAY, RAY, 11 * RAY / 10, 4_000_000_000_000_000_000, &p),
        Some(InterestSplit { bad_debt: 0, protocol_fee: 6 * RAY / 10, supplier_rewards: 54 * RAY / 10 })
    );
    // Interest below the bad debt only reduces it.
    assert_eq!(
        calc_supplier_rewards(100 * RAY, RAY, 11 * RAY / 10, 20_000_000_000_000_000_000, &p),
        Some(InterestSplit { bad_debt: 10_000_000_000_000_000_000, protocol_fee: 0, supplier_rewards: 0 })
    );
}

#[test]
fn compounded_interest_is_third_order() {
    // x = 1 (one RAY per second over one second): 1 + 1 + 1/2 + 1/6.
    assert_eq!(calculate_compounded_interest(RAY, 1), Some(2_666_666_666_666_666_666_666_666_667));
}
