use lending_pool::liquidity::{flash_loan_required_repayment, LiquidityPool, PoolError};
use lending_pool::math::RAY;
use lending_pool::pool::{to_original, to_scaled};
use lending_pool::position::{AccountPosition, AccountPositionType};
use lending_pool::rates::{MarketParams, ParamsError};
use lending_pool::token::TokenId;

const E18: u128 = 1_000_000_000_000_000_000;
const YEAR: u64 = 31_556_926;

fn params() -> MarketParams {
    MarketParams {
        max_borrow_rate: 2 * RAY,
        base_borrow_rate: RAY / 100,
        slope1: 4 * RAY / 100,
        slope2: 10 * RAY / 100,
        slope3: 3 * RAY,
        mid_utilization: RAY / 2,
        optimal_utilization: 8 * RAY / 10,
        reserve_factor: 1_000,
        asset_decimals: 18,
    }
}

fn token(s: &str) -> TokenId {
    TokenId::new(s.as_bytes().to_vec())
}

fn position(kind: AccountPositionType, t: &str) -> AccountPosition {
    AccountPosition::new(kind, token(t), 1, 8_000, 500, 100, 7_500, false)
}

fn pool() -> LiquidityPool {
    LiquidityPool::init(token("EGLD"), params(), 0).unwrap()
}

#[test]
fn init_starts_with_unit_indexes() {
    let p = pool();
    assert_eq!(p.state.borrow_index, RAY);
    assert_eq!(p.state.supply_index, RAY);
    assert_eq!(p.state.supplied, 0);
    assert_eq!(p.state.borrowed, 0);
    assert_eq!(p.get_capital_utilisation(), Some(0));
}

#[test]
fn init_refuses_invalid_params() {
    let mut bad = params();
    bad.reserve_factor = 10_000;
    assert!(matches!(LiquidityPool::init(token("EGLD"), bad, 0), Err(ParamsError::InvalidReserveFactor)));
}

#[test]
fn upgrade_keeps_asset_decimals_and_balances() {
    let mut p = pool();
    let dep = p.supply(&token("EGLD"), 100 * E18, position(AccountPositionType::Deposit, "EGLD"), 0).unwrap();
    let mut np = params();
    np.slope1 = RAY / 10;
    np.asset_decimals = 6;
    assert_eq!(p.upgrade(np), Ok(()));
    assert_eq!(p.state.params.slope1, RAY / 10);
    assert_eq!(p.state.params.asset_decimals, 18);
    assert_eq!(p.state.supplied, dep.scaled_amount);
    let mut refused = params();
    refused.max_borrow_rate = 0;
    assert_eq!(p.upgrade(refused), Err(ParamsError::InvalidBorrowRateParams));
    assert_eq!(p.state.params.slope1, RAY / 10);
}

#[test]
fn supply_and_borrow_track_scaled_amounts() {
    let mut p = pool();
    let dep = p.supply(&token("EGLD"), 100 * E18, position(AccountPositionType::Deposit, "EGLD"), 0).unwrap();
    assert_eq!(dep.scaled_amount, 100 * RAY);
    assert_eq!(p.state.supplied, 100 * RAY);
    let debt = p.borrow(50 * E18, position(AccountPositionType::Borrow, "EGLD"), 100 * E18, 0).unwrap();
    assert_eq!(debt.scaled_amount, 50 * RAY);
    assert_eq!(p.state.borrowed, 50 * RAY);
    assert_eq!(p.get_capital_utilisation(), Some(RAY / 2));
}

#[test]
fn supply_refuses_other_asset() {
    let mut p = pool();
    let before = p.state;
    let r = p.supply(&token("USDC-123456"), E18, position(AccountPositionType::Deposit, "EGLD"), 0);
    assert!(matches!(r, Err(PoolError::InvalidAsset)));
    assert_eq!(p.state, before);
    let r = p.supply(&token("EGLD"), E18, position(AccountPositionType::Deposit, "USDC-123456"), 0);
    assert!(matches!(r, Err(PoolError::InvalidAsset)));
}

#[test]
fn borrow_needs_reserves() {
    let mut p = pool();
    let r = p.borrow(10 * E18, position(AccountPositionType::Borrow, "EGLD"), 5 * E18, 0);
    assert!(matches!(r, Err(PoolError::InsufficientLiquidity)));
}

#[test]
fn time_going_backwards_is_refused() {
    let mut p = LiquidityPool::init(token("EGLD"), params(), 100).unwrap();
    assert_eq!(p.update_indexes(99), Err(PoolError::Arithmetic));
    assert_eq!(p.update_indexes(100), Ok((RAY, RAY)));
}

#[test]
fn a_year_of_interest_at_half_utilization() {
    let mut p = pool();
    let dep = p.supply(&token("EGLD"), 100 * E18, position(AccountPositionType::Deposit, "EGLD"), 0).unwrap();
    let debt = p.borrow(50 * E18, position(AccountPositionType::Borrow, "EGLD"), 100 * E18, 0).unwrap();
    // At 50% utilization the borrow rate is 5% a year, compounded.
    assert_eq!(
        p.update_indexes(YEAR),
        Ok((1_051_270_833_333_333_333_318_155_596, 1_023_071_874_999_999_999_985_000_000))
    );
    assert_eq!(p.state.revenue, 250_572_978_234_463_406_106_006_574);
    assert_eq!(p.get_borrowed_amount(), Some(52_563_541_666_666_666_666));
    assert_eq!(p.get_protocol_revenue(), Some(256_354_166_666_666_667));
    assert_eq!(p.get_capital_utilisation(), Some(512_497_333_969_795_147_318_140_831));

    // Repaying 60 covers the whole debt; the rest is refunded.
    let (left, refund) = p.repay(&token("EGLD"), 60 * E18, debt, YEAR).unwrap();
    assert_eq!(left.scaled_amount, 0);
    assert_eq!(refund, 7_436_458_333_333_333_334);
    assert_eq!(p.state.borrowed, 0);

    // Withdrawing 10 burns its scaled value at the new supply index.
    let (dep2, sent) = p.withdraw(10 * E18, dep, false, None, 100 * E18, YEAR).unwrap();
    assert_eq!(sent, 10 * E18);
    assert_eq!(dep2.scaled_amount, 90_225_515_680_411_017_065_495_405_917);
    assert_eq!(p.state.supplied, 90_476_088_658_645_480_471_601_412_491);

    // The treasury claims its whole share when the reserves cover it.
    assert_eq!(p.claim_revenue(100 * E18, YEAR), Ok(256_354_166_666_666_667));
    assert_eq!(p.state.revenue, 0);
}

#[test]
fn withdraw_more_than_held_takes_everything() {
    let mut p = pool();
    let dep = p.supply(&token("EGLD"), 10 * E18, position(AccountPositionType::Deposit, "EGLD"), 0).unwrap();
    let (left, sent) = p.withdraw(1_000 * E18, dep, false, None, 10 * E18, 0).unwrap();
    assert_eq!(left.scaled_amount, 0);
    assert_eq!(sent, 10 * E18);
    assert_eq!(p.state.supplied, 0);
}

#[test]
fn liquidation_withdraw_keeps_the_protocol_fee() {
    let mut p = pool();
    let dep = p.supply(&token("EGLD"), 10 * E18, position(AccountPositionType::Deposit, "EGLD"), 0).unwrap();
    let (_, sent) = p.withdraw(4 * E18, dep.clone(), true, Some(E18), 10 * E18, 0).unwrap();
    assert_eq!(sent, 3 * E18);
    assert_eq!(p.state.revenue, RAY);
    let r = p.withdraw(E18 / 2, dep, true, Some(E18), 10 * E18, 0);
    assert!(matches!(r, Err(PoolError::WithdrawAmountLessThanFee)));
}

#[test]
fn withdraw_needs_reserves() {
    let mut p = pool();
    let dep = p.supply(&token("EGLD"), 10 * E18, position(AccountPositionType::Deposit, "EGLD"), 0).unwrap();
    let r = p.withdraw(5 * E18, dep, false, None, E18, 0);
    assert!(matches!(r, Err(PoolError::InsufficientLiquidity)));
}

#[test]
fn bad_debt_is_socialised_through_the_supply_index() {
    let mut p = pool();
    p.supply(&token("EGLD"), 100 * E18, position(AccountPositionType::Deposit, "EGLD"), 0).unwrap();
    let debt = p.borrow(50 * E18, position(AccountPositionType::Borrow, "EGLD"), 100 * E18, 0).unwrap();
    let cleared = p.add_bad_debt(debt, 0).unwrap();
    assert_eq!(cleared.scaled_amount, 0);
    assert_eq!(p.state.borrowed, 0);
    assert_eq!(p.state.supply_index, RAY / 2);
}

#[test]
fn dust_collateral_goes_to_the_treasury() {
    let mut p = pool();
    let dep = p.supply(&token("EGLD"), 3, position(AccountPositionType::Deposit, "EGLD"), 0).unwrap();
    let scaled = dep.scaled_amount;
    let seized = p.seize_dust_collateral(dep, 0).unwrap();
    assert_eq!(seized.scaled_amount, 0);
    assert_eq!(p.state.revenue, scaled);
}

#[test]
fn flash_loan_repayment_and_settlement() {
    assert_eq!(flash_loan_required_repayment(1_000 * E18, 50, 18), Some(1_005 * E18));
    assert_eq!(flash_loan_required_repayment(333, 9, 6), Some(333));
    let mut p = pool();
    assert_eq!(p.flash_loan(&token("EGLD"), 1_000 * E18, 50, 2_000 * E18, 0), Ok(1_005 * E18));
    assert_eq!(p.flash_loan(&token("EGLD"), 1_000 * E18, 50, 10 * E18, 0), Err(PoolError::FlashloanReserveAsset));
    assert_eq!(p.flash_loan(&token("USDC-123456"), E18, 50, 10 * E18, 0), Err(PoolError::InvalidAsset));
    assert_eq!(
        p.validate_flash_repayment(1, &token("EGLD"), 1_004 * E18, 1_005 * E18, 1_000 * E18),
        Err(PoolError::InvalidFlashloanRepayment)
    );
    assert_eq!(
        p.validate_flash_repayment(2, &token("EGLD"), 1_005 * E18, 1_005 * E18, 1_000 * E18),
        Err(PoolError::InvalidFlashloanRepayment)
    );
    assert_eq!(p.validate_flash_repayment(1, &token("EGLD"), 1_005 * E18, 1_005 * E18, 1_000 * E18), Ok(()));
    assert_eq!(p.state.revenue, 5 * RAY);
}

#[test]
fn scaled_and_original_round_trip() {
    assert_eq!(to_scaled(100 * E18, 18, 2 * RAY), Some(50 * RAY));
    assert_eq!(to_original(50 * RAY, 2 * RAY, 18), Some(100 * E18));
    assert_eq!(to_scaled(1_000_000, 6, RAY), Some(RAY));
}

#[test]
fn delta_time_in_milliseconds() {
    let p = LiquidityPool::init(token("EGLD"), params(), 1_000).unwrap();
    assert_eq!(p.get_delta_time(1_010), Some(10_000));
    assert_eq!(p.get_delta_time(1_000), Some(0));
    assert_eq!(p.get_delta_time(5), None);
}

#[test]
fn supply_then_withdraw_at_once_returns_the_amount() {
    let mut p = pool();
    p.supply(&token("EGLD"), 100 * E18, position(AccountPositionType::Deposit, "EGLD"), 0).unwrap();
    p.borrow(50 * E18, position(AccountPositionType::Borrow, "EGLD"), 100 * E18, 0).unwrap();
    p.update_indexes(YEAR).unwrap();
    let before = p.state;
    let dep = p.supply(&token("EGLD"), 123_456_789_012_345_678, position(AccountPositionType::Deposit, "EGLD"), YEAR).unwrap();
    let (left, sent) = p.withdraw(123_456_789_012_345_678, dep, false, None, 100 * E18, YEAR).unwrap();
    assert_eq!(sent, 123_456_789_012_345_678);
    assert_eq!(left.scaled_amount, 0);
    assert_eq!(p.state, before);
}

#[test]
fn borrow_then_repay_at_once_clears_the_debt() {
    let mut p = pool();
    p.supply(&token("EGLD"), 100 * E18, position(AccountPositionType::Deposit, "EGLD"), 0).unwrap();
    p.borrow(50 * E18, position(AccountPositionType::Borrow, "EGLD"), 100 * E18, 0).unwrap();
    p.update_indexes(YEAR).unwrap();
    let before = p.state;
    let debt = p.borrow(987_654_321_987_654_321, position(AccountPositionType::Borrow, "EGLD"), 100 * E18, YEAR).unwrap();
    let (left, refund) = p.repay(&token("EGLD"), 987_654_321_987_654_321, debt, YEAR).unwrap();
    assert_eq!(left.scaled_amount, 0);
    assert_eq!(refund, 0);
    assert_eq!(p.state, before);
}

#[test]
fn cached_conversions_follow_the_indexes() {
    let mut p = pool();
    p.supply(&token("EGLD"), 100 * E18, position(AccountPositionType::Deposit, "EGLD"), 0).unwrap();
    p.borrow(50 * E18, position(AccountPositionType::Borrow, "EGLD"), 100 * E18, 0).unwrap();
    assert_eq!(p.state.get_scaled_supply_amount(100 * E18), Some(100 * RAY));
    assert_eq!(p.state.get_original_borrow_amount(50 * RAY), Some(50 * E18));
    p.update_indexes(YEAR).unwrap();
    // After a year at 5% the debt of 50 is worth about 52.56 and its scaled units shrink.
    assert_eq!(p.state.get_original_borrow_amount(50 * RAY), Some(52_563_541_666_666_666_666));
    assert_eq!(p.state.get_original_supply_amount(100 * RAY), Some(102_307_187_499_999_999_999));
    let scaled = p.state.get_scaled_borrow_amount(52_563_541_666_666_666_666).unwrap();
    assert_eq!(p.state.get_original_borrow_amount(scaled), Some(52_563_541_666_666_666_666));
}
