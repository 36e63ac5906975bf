use lending_pool::controller::{enter, AssetConfig, ControllerError};
use lending_pool::lending::{complete_multiply, new_position, open_multiply, principal_after_repay};
use lending_pool::liquidation_bp::BP;
use lending_pool::liquidation_flow::{
    handle_liquidation, process_liquidation, process_liquidation_same_asset, single_asset_liquidation, RepaymentInput,
    SingleAssetLiquidation,
};
use lending_pool::liquidity::{LiquidityPool, PoolError};
use lending_pool::math::RAY;
use lending_pool::pool::{available_reserves, to_original};
use lending_pool::position::{AccountPosition, AccountPositionType};
use lending_pool::rates::MarketParams;
use lending_pool::token::TokenId;
use lending_pool::valuation::{CollateralValue, DebtValue};

const E18: u128 = 1_000_000_000_000_000_000;
const DAY: u64 = 86_400;
const LSD_PRICE: u128 = 125 * E18 / 100;
const USDC_PRICE: u128 = 25 * E18 / 1_000;

fn token(s: &str) -> TokenId {
    TokenId::new(s.as_bytes().to_vec())
}

fn config() -> AssetConfig {
    AssetConfig {
        ltv: 7_500,
        liquidation_threshold: 8_000,
        liquidation_base_bonus: 1_000,
        liquidation_max_fee: 500,
        is_e_mode_enabled: false,
        is_isolated: false,
        debt_ceiling_usd: 0,
        is_siloed: false,
        flashloan_enabled: true,
        flash_loan_fee: 5 * BP / 1_000,
        can_be_collateral: true,
        can_be_borrowed: true,
        can_borrow_in_isolation: false,
        borrow_cap: None,
        supply_cap: None,
    }
}

fn params(decimals: usize) -> MarketParams {
    MarketParams {
        max_borrow_rate: RAY,
        base_borrow_rate: RAY / 100,
        slope1: 5 * RAY / 100,
        slope2: RAY / 10,
        slope3: 3 * RAY / 10,
        mid_utilization: 65 * RAY / 100,
        optimal_utilization: 9 * RAY / 10,
        reserve_factor: 2_500,
        asset_decimals: decimals,
    }
}

/// A market whose borrow rate is at least 200% a year.
fn steep(decimals: usize) -> MarketParams {
    MarketParams { max_borrow_rate: 4 * RAY, base_borrow_rate: 2 * RAY, ..params(decimals) }
}

fn pool(t: &str, p: MarketParams) -> LiquidityPool {
    LiquidityPool::init(token(t), p, 0).unwrap()
}

fn deposit(pool: &mut LiquidityPool, t: &str, nonce: u64, amount: u128) -> AccountPosition {
    let p = new_position(AccountPositionType::Deposit, &token(t), nonce, &config(), false);
    pool.supply(&token(t), amount, p, 0).unwrap()
}

fn borrow(pool: &mut LiquidityPool, t: &str, nonce: u64, amount: u128, reserves: u128) -> AccountPosition {
    let p = new_position(AccountPositionType::Borrow, &token(t), nonce, &config(), false);
    pool.borrow(amount, p, reserves, 0).unwrap()
}

fn owed(pool: &LiquidityPool, p: &AccountPosition) -> u128 {
    to_original(p.scaled_amount, pool.state.borrow_index, pool.state.params.asset_decimals).unwrap()
}

fn held(pool: &LiquidityPool, p: &AccountPosition) -> u128 {
    to_original(p.scaled_amount, pool.state.supply_index, pool.state.params.asset_decimals).unwrap()
}

fn collateral(amount: u128, price: u128, decimals: u8) -> CollateralValue {
    CollateralValue { amount, price, decimals, liquidation_threshold: 8_000, liquidation_bonus: 1_000, ltv: 7_500 }
}

/// Plans the liquidation of a single collateral asset worth `value` EGLD (80%
/// threshold) against `debt` EGLD of debt, paid with `payment` EGLD.
fn plan(value: u128, debt: u128, payment: u128) -> Result<SingleAssetLiquidation, ControllerError> {
    single_asset_liquidation(value * 8 / 10, value, debt, Some(8 * BP / 10), BP / 10, BP / 5, payment, E18, 18, LSD_PRICE, 18)
}

#[test]
fn test_liquidation_single_position() {
    // 100 XEGLD (125 EGLD) backs 70 EGLD; 1150 days at a steep rate make it liquidatable.
    let mut egld = pool("EGLD", MarketParams { slope1: RAY / 5, ..params(18) });
    let mut xegld = pool("XEGLD-abcdef", params(18));
    deposit(&mut egld, "EGLD", 1, 100 * E18);
    let xegld_deposit = deposit(&mut xegld, "XEGLD-abcdef", 2, 100 * E18);
    let debt = borrow(&mut egld, "EGLD", 2, 70 * E18, 100 * E18);
    let now = DAY * 1150;
    egld.update_indexes(now).unwrap();
    let before = owed(&egld, &debt);
    assert!(before > 100 * E18);
    let attrs = enter(false, false, None);
    // First liquidation: 50 EGLD.
    let p1 = plan(held(&xegld, &xegld_deposit) * LSD_PRICE / E18, before, 50 * E18).unwrap();
    assert!(p1.protocol_fee <= p1.bonus_amount);
    let (debt, refund, iso, out) = process_liquidation(
        &mut egld, &mut xegld, Some(debt), Some(xegld_deposit), p1, &token("EGLD"), E18, 18, &attrs, None, None, 0, 100 * E18, now,
    )
    .unwrap();
    assert_eq!(refund, 0);
    assert_eq!(iso, None);
    assert_eq!(out.amount, p1.collateral_after_bonus);
    assert_eq!(out.to_caller, p1.collateral_after_bonus - p1.protocol_fee);
    assert!(out.keep_position);
    let after = owed(&egld, &debt);
    assert!(after < before);
    assert!(before - after >= p1.debt_to_repay - 1);
    // Second liquidation: 40 EGLD against what is left.
    let left = held(&xegld, &out.position);
    assert_eq!(left, 100 * E18 - p1.collateral_after_bonus);
    let p2 = plan(left * LSD_PRICE / E18, after, 40 * E18).unwrap();
    let (debt2, _, _, out2) = process_liquidation(
        &mut egld, &mut xegld, Some(debt), Some(out.position), p2, &token("EGLD"), E18, 18, &attrs, None, None, 0,
        100 * E18 - out.to_caller, now,
    )
    .unwrap();
    assert!(owed(&egld, &debt2) < after);
    assert_eq!(out2.amount, p2.collateral_after_bonus);
}

#[test]
fn failed_collateral_withdrawal_leaves_both_pools_unchanged() {
    let mut egld = pool("EGLD", MarketParams { slope1: RAY / 5, ..params(18) });
    let mut xegld = pool("XEGLD-abcdef", params(18));
    deposit(&mut egld, "EGLD", 1, 100 * E18);
    let debt = borrow(&mut egld, "EGLD", 2, 70 * E18, 100 * E18);
    let now = DAY * 1150;
    egld.update_indexes(now).unwrap();
    let (e0, x0) = (egld.state, xegld.state);
    let p = plan(125 * E18, owed(&egld, &debt), 50 * E18).unwrap();
    let r = process_liquidation(&mut egld, &mut xegld, Some(debt), None, p, &token("EGLD"), E18, 18, &enter(false, false, None), None, None, 0, 0, now);
    assert!(matches!(r, Err(ControllerError::PositionNotFound)));
    assert_eq!((egld.state, xegld.state), (e0, x0));
    // Without a debt position nothing is repaid.
    let r = process_liquidation(&mut egld, &mut xegld, None, None, p, &token("EGLD"), E18, 18, &enter(false, false, None), None, None, 0, 0, now);
    assert!(matches!(r, Err(ControllerError::PositionNotFound)));
}

#[test]
fn liquidation_in_one_asset_goes_through_one_pool() {
    // 100 EGLD deposited and 70 EGLD borrowed in the same market, for 120 days.
    let mut egld = pool("EGLD", steep(18));
    let dep = deposit(&mut egld, "EGLD", 2, 100 * E18);
    let debt = borrow(&mut egld, "EGLD", 2, 70 * E18, 100 * E18);
    let now = DAY * 120;
    egld.update_indexes(now).unwrap();
    let value = held(&egld, &dep);
    let d = owed(&egld, &debt);
    assert!(d * 10 > value * 8);
    let p = single_asset_liquidation(value * 8 / 10, value, d, Some(8 * BP / 10), BP / 10, BP / 5, 10 * E18, E18, 18, E18, 18).unwrap();
    let (debt2, _, _, out) = process_liquidation_same_asset(
        &mut egld, Some(debt), Some(dep), p, &token("EGLD"), E18, 18, &enter(false, false, None), None, None, 0, 30 * E18, now,
    )
    .unwrap();
    assert!(owed(&egld, &debt2) < d);
    assert_eq!(out.amount, p.collateral_after_bonus);
}

#[test]
fn test_liquidation() {
    // 20 XEGLD and 80 SEGLD (125 EGLD) back 39 EGLD and 1000 USDC; 100 days at 200%+.
    let mut egld = pool("EGLD", steep(18));
    let mut usdc = pool("USDC-abcdef", steep(6));
    deposit(&mut egld, "EGLD", 1, 100 * E18);
    deposit(&mut usdc, "USDC-abcdef", 1, 1_000_000_000);
    let e_debt = borrow(&mut egld, "EGLD", 2, 39 * E18, 100 * E18);
    let u_debt = borrow(&mut usdc, "USDC-abcdef", 2, 1_000_000_000, 1_000_000_000);
    let collaterals = vec![collateral(20 * E18, LSD_PRICE, 18), collateral(80 * E18, LSD_PRICE, 18)];
    let debts = |e: &LiquidityPool, u: &LiquidityPool| {
        vec![
            DebtValue { amount: owed(e, &e_debt), price: E18, decimals: 18 },
            DebtValue { amount: owed(u, &u_debt), price: USDC_PRICE, decimals: 6 },
        ]
    };
    assert!(owed(&egld, &e_debt) > 0 && owed(&usdc, &u_debt) > 0);
    egld.update_indexes(DAY * 100).unwrap();
    usdc.update_indexes(DAY * 100).unwrap();
    let ds = debts(&egld, &usdc);
    let usdc_owed = ds[1].amount;
    // The liquidator pays 10000 USDC.
    let payments = vec![RepaymentInput { token: token("USDC-abcdef"), amount: 10_000_000_000, price: USDC_PRICE, decimals: 6, borrowed: Some(usdc_owed) }];
    let o = handle_liquidation(&collaterals, &ds, &payments).unwrap();
    assert!(o.health_factor < 10_000);
    assert_eq!(o.total_collateral, 125 * E18);
    let kept: u128 = o.repaid.iter().map(|t| t.egld_value).sum();
    assert_eq!(kept, o.max_debt_to_repay);
    let kept_amount: u128 = o.repaid.iter().map(|t| t.amount).sum();
    let refunded: u128 = o.refunds.iter().map(|r| r.amount).sum();
    assert_eq!(kept_amount + refunded, 10_000_000_000);
}

#[test]
fn test_liquidation_bad_debt_multi_asset() {
    // The same account left for 1000 days: its debt exceeds all its collateral.
    let mut egld = pool("EGLD", steep(18));
    let mut usdc = pool("USDC-abcdef", steep(6));
    deposit(&mut egld, "EGLD", 1, 100 * E18);
    deposit(&mut usdc, "USDC-abcdef", 1, 1_000_000_000);
    let e_debt = borrow(&mut egld, "EGLD", 2, 39 * E18, 100 * E18);
    let u_debt = borrow(&mut usdc, "USDC-abcdef", 2, 1_000_000_000, 1_000_000_000);
    egld.update_indexes(DAY * 1000).unwrap();
    usdc.update_indexes(DAY * 1000).unwrap();
    let collaterals = vec![collateral(20 * E18, LSD_PRICE, 18), collateral(80 * E18, LSD_PRICE, 18)];
    let e_owed = owed(&egld, &e_debt);
    let u_owed = owed(&usdc, &u_debt);
    let ds = vec![DebtValue { amount: e_owed, price: E18, decimals: 18 }, DebtValue { amount: u_owed, price: USDC_PRICE, decimals: 6 }];
    assert!(e_owed > 125 * E18);
    // 100 EGLD from the liquidator, then 10000 USDC.
    let pay_egld = vec![RepaymentInput { token: token("EGLD"), amount: 100 * E18, price: E18, decimals: 18, borrowed: Some(e_owed) }];
    let o = handle_liquidation(&collaterals, &ds, &pay_egld).unwrap();
    let kept: u128 = o.repaid.iter().map(|t| t.egld_value).sum();
    assert_eq!(kept, o.max_debt_to_repay);
    assert!(o.max_debt_to_repay <= 100 * E18);
    let pay_usdc = vec![RepaymentInput { token: token("USDC-abcdef"), amount: 10_000_000_000, price: USDC_PRICE, decimals: 6, borrowed: Some(u_owed) }];
    let o = handle_liquidation(&collaterals, &ds, &pay_usdc).unwrap();
    let kept: u128 = o.repaid.iter().map(|t| t.egld_value).sum();
    assert_eq!(kept, o.max_debt_to_repay);
}

#[test]
fn test_liquidation_and_left_bad_debt() {
    // 100 EGLD backs 2000 USDC; after about 19 years the debt outgrows the collateral.
    let mut usdc = pool("USDC-abcdef", params(6));
    let mut egld = pool("EGLD", params(18));
    deposit(&mut usdc, "USDC-abcdef", 1, 5_000_000_000);
    let dep = deposit(&mut egld, "EGLD", 2, 100 * E18);
    let debt = borrow(&mut usdc, "USDC-abcdef", 2, 2_000_000_000, 5_000_000_000);
    let now = 600_000_000u64;
    usdc.update_indexes(now).unwrap();
    egld.update_indexes(now).unwrap();
    let d = owed(&usdc, &debt);
    let debt_egld = d * USDC_PRICE / 1_000_000;
    let value = held(&egld, &dep);
    assert!(debt_egld * 10 > value * 8);
    // The liquidator pays 8000 USDC for the EGLD collateral.
    let p = single_asset_liquidation(value * 8 / 10, value, debt_egld, Some(8 * BP / 10), BP / 10, BP / 5, 8_000_000_000, USDC_PRICE, 6, E18, 18).unwrap();
    let (debt2, _, _, out) = process_liquidation(
        &mut usdc, &mut egld, Some(debt), Some(dep), p, &token("USDC-abcdef"), USDC_PRICE, 6, &enter(false, false, None), None, None, 0, 100 * E18, now,
    )
    .unwrap();
    assert!(out.amount > 0);
    // Debt is left although the collateral went.
    assert!(owed(&usdc, &debt2) > 0);
}

#[test]
fn test_interest_accrual_test() {
    let mut egld = pool("EGLD", params(18));
    let supply = deposit(&mut egld, "EGLD", 1, 110 * E18);
    let d1 = borrow(&mut egld, "EGLD", 1, 10 * E18, 110 * E18);
    let d2 = borrow(&mut egld, "EGLD", 2, 100 * E18, 100 * E18);
    let initial_borrow = owed(&egld, &d2);
    let initial_supply = held(&egld, &supply);
    let year = 31_556_926u64;
    egld.update_indexes(year / 2).unwrap();
    egld.update_indexes(year).unwrap();
    assert!(owed(&egld, &d2) > initial_borrow);
    assert!(owed(&egld, &d1) > 10 * E18);
    assert!(held(&egld, &supply) > initial_supply);
}

#[test]
fn leveraged_position_records_principal_and_fee_apart() {
    // 10 XEGLD (12.5 EGLD) at 2x: 12.5 EGLD flash-borrowed with a 0.5% fee.
    let mut egld = pool("EGLD", params(18));
    deposit(&mut egld, "EGLD", 1, 100 * E18);
    let o = open_multiply(
        &mut egld, &token("EGLD"), 3, 0, None, true, config(), false, None, config(), false, None, 2 * BP, 10 * E18, LSD_PRICE, 18, E18, 18, 0,
        100 * E18, 0,
    )
    .unwrap();
    assert_eq!(o.principal, 125 * E18 / 10);
    assert_eq!(o.accumulated_interest, 625 * E18 / 10_000);
    assert_eq!(o.debt_position.scaled_amount, (125 * E18 / 10 + 625 * E18 / 10_000) * 1_000_000_000);
    assert_eq!(o.debt_position.account_nonce, 3);
    assert!(!o.attributes.is_isolated);
    // The swap gives 10 XEGLD for 12.5 EGLD: 20 XEGLD against 12.5625 EGLD is healthy.
    let mut xegld = pool("XEGLD-abcdef", params(18));
    let debts = vec![DebtValue { amount: owed(&egld, &o.debt_position), price: E18, decimals: 18 }];
    let pos = complete_multiply(&mut xegld, &token("XEGLD-abcdef"), 20 * E18, 3, &o.collateral_config, LSD_PRICE, 18, &debts, 0).unwrap();
    assert_eq!(pos.scaled_amount, 20 * RAY);
    // Too little liquidity in the debt pool: refused, the pool unchanged.
    let before = egld.state;
    let r = open_multiply(
        &mut egld, &token("EGLD"), 4, 0, None, true, config(), false, None, config(), false, None, 100 * BP, 10 * E18, LSD_PRICE, 18, E18, 18, 0,
        100 * E18, 0,
    );
    assert!(matches!(r, Err(ControllerError::Pool(PoolError::InsufficientLiquidity))));
    assert_eq!(egld.state, before);
    // An isolated collateral cannot be levered in e-mode, nor a non-collateral asset at all.
    let no_collateral = AssetConfig { can_be_collateral: false, ..config() };
    let r = open_multiply(
        &mut egld, &token("EGLD"), 4, 0, None, true, no_collateral, false, None, config(), false, None, 2 * BP, 10 * E18, LSD_PRICE, 18, E18, 18, 0,
        100 * E18, 0,
    );
    assert!(matches!(r, Err(ControllerError::AssetNotSupportedAsCollateral)));
}

#[test]
fn repayments_cover_interest_before_principal() {
    // 100 lent, 110 owed: 30 repays the 10 of interest and 20 of principal.
    assert_eq!(principal_after_repay(100, 110, 30), (80, 10));
    assert_eq!(principal_after_repay(100, 110, 5), (100, 10));
    assert_eq!(principal_after_repay(100, 100, 150), (0, 0));
}

#[test]
fn revenue_is_not_available_to_lend() {
    let mut egld = pool("EGLD", steep(18));
    deposit(&mut egld, "EGLD", 1, 100 * E18);
    assert_eq!(available_reserves(&egld.state, 100 * E18), 100 * E18);
    borrow(&mut egld, "EGLD", 2, 50 * E18, 100 * E18);
    egld.update_indexes(DAY * 30).unwrap();
    let revenue = to_original(egld.state.revenue, egld.state.supply_index, 18).unwrap();
    assert!(revenue > 0);
    // The pool holds 50 EGLD; the revenue's share of it cannot be lent.
    assert_eq!(available_reserves(&egld.state, 50 * E18), 50 * E18 - revenue);
    let p = new_position(AccountPositionType::Borrow, &token("EGLD"), 3, &config(), false);
    assert!(matches!(egld.borrow(50 * E18, p, 50 * E18, DAY * 30), Err(PoolError::InsufficientLiquidity)));
    assert_eq!(available_reserves(&egld.state, revenue / 2), 0);
}
