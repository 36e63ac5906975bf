use lending_pool::factory::{create_liquidity_pool, upgrade_liquidity_pool, FactoryError, FactoryModule, PoolFactory};
use lending_pool::math::RAY;
use lending_pool::rates::{MarketParams, ParamsError};
use lending_pool::token::TokenId;
use lending_pool::valuation::{proportion_of_weighted_seized, sum_borrows, sum_collaterals, CollateralValue, DebtValue};
use lending_pool::views::{
    can_be_liquidated, get_health_factor, get_liquidation_collateral_available, get_ltv_collateral_in_egld,
    get_total_collateral_in_egld,
};

const E18: u128 = 1_000_000_000_000_000_000;
const USDC_PRICE: u128 = 25 * E18 / 1_000;

fn collaterals() -> Vec<CollateralValue> {
    vec![
        CollateralValue { amount: 100 * E18, price: E18, decimals: 18, liquidation_threshold: 8_000, liquidation_bonus: 500, ltv: 7_500 },
        CollateralValue { amount: 1_000_000_000, price: USDC_PRICE, decimals: 6, liquidation_threshold: 8_500, liquidation_bonus: 300, ltv: 8_000 },
    ]
}

fn debts() -> Vec<DebtValue> {
    vec![
        DebtValue { amount: 50 * E18, price: E18, decimals: 18 },
        DebtValue { amount: 500_000_000, price: USDC_PRICE, decimals: 6 },
    ]
}

#[test]
fn collateral_sums_weighted_and_unweighted() {
    // 100 EGLD at 80% and 25 EGLD of a token at 85%.
    assert_eq!(sum_collaterals(&collaterals()), Some((101_250_000_000_000_000_000, 125 * E18, 95 * E18)));
    assert_eq!(get_liquidation_collateral_available(&collaterals()), Some(101_250_000_000_000_000_000));
    assert_eq!(get_total_collateral_in_egld(&collaterals()), Some(125 * E18));
    assert_eq!(get_ltv_collateral_in_egld(&collaterals()), Some(95 * E18));
    assert_eq!(sum_collaterals(&vec![]), Some((0, 0, 0)));
}

#[test]
fn debt_sum_in_egld() {
    assert_eq!(sum_borrows(&debts()), Some(625 * E18 / 10));
    assert_eq!(sum_borrows(&vec![]), Some(0));
}

#[test]
fn seized_proportion_weights_each_collateral() {
    // 80% of the collateral at 80% and 20% at 85%; bonuses 5% and 3%.
    assert_eq!(proportion_of_weighted_seized(125 * E18, &collaterals()), Some((8_100, 460)));
    assert_eq!(proportion_of_weighted_seized(0, &collaterals()), None);
}

#[test]
fn account_health_and_liquidatability() {
    assert_eq!(get_health_factor(&collaterals(), &debts()), Some(16_200));
    assert_eq!(can_be_liquidated(&collaterals(), &debts()), Some(false));
    // With more debt than weighted collateral the account may be liquidated.
    let heavy = vec![DebtValue { amount: 102 * E18, price: E18, decimals: 18 }];
    assert_eq!(can_be_liquidated(&collaterals(), &heavy), Some(true));
    let exact = vec![DebtValue { amount: 101_250_000_000_000_000_000, price: E18, decimals: 18 }];
    assert_eq!(can_be_liquidated(&collaterals(), &exact), Some(false));
    // Without debt the factor is the largest one.
    assert_eq!(get_health_factor(&collaterals(), &vec![]), Some(u128::MAX));
    assert_eq!(can_be_liquidated(&collaterals(), &vec![]), Some(false));
}

#[test]
fn documented_health_factor_example() {
    // 100 EGLD of collateral at 80% against 50 EGLD of debt: 16000 basis points.
    let cs = vec![CollateralValue { amount: 100 * E18, price: E18, decimals: 18, liquidation_threshold: 8_000, liquidation_bonus: 500, ltv: 7_500 }];
    let ds = vec![DebtValue { amount: 50 * E18, price: E18, decimals: 18 }];
    assert_eq!(get_health_factor(&cs, &ds), Some(16_000));
}

fn params() -> MarketParams {
    MarketParams {
        max_borrow_rate: 2 * RAY,
        base_borrow_rate: RAY / 100,
        slope1: 4 * RAY / 100,
        slope2: 10 * RAY / 100,
        slope3: 3 * RAY,
        mid_utilization: RAY / 2,
        optimal_utilization: 8 * RAY / 10,
        reserve_factor: 1_000,
        asset_decimals: 0,
    }
}

fn create(factory: &PoolFactory, exists: bool, asset: &str, decimals: Option<u8>, p: MarketParams) -> Result<(lending_pool::liquidity::LiquidityPool, lending_pool::controller::AssetConfig), FactoryError> {
    create_liquidity_pool(
        factory, exists, TokenId::new(asset.as_bytes().to_vec()), decimals, p, 0,
        7_500, 8_000, 500, 100, true, true, false, 0, 50, false, true, false, None, Some(1_000),
    )
}

#[test]
fn market_creation() {
    let factory = PoolFactory { template_configured: true };
    assert!(factory.has_template());
    let (pool, config) = create(&factory, false, "USDC-c76f1f", Some(6), params()).unwrap();
    assert_eq!(pool.state.params.asset_decimals, 6);
    assert_eq!(pool.state.borrow_index, RAY);
    assert!(!config.is_e_mode_enabled);
    assert_eq!(config.supply_cap, Some(1_000));

    assert!(matches!(create(&factory, true, "USDC-c76f1f", Some(6), params()), Err(FactoryError::AssetAlreadySupported)));
    assert!(matches!(create(&factory, false, "usdc-c76f1f", Some(6), params()), Err(FactoryError::InvalidTicker)));
    assert!(matches!(create(&factory, false, "USDC-c76f1f", None, params()), Err(FactoryError::OracleTokenNotFound)));
    let no_template = PoolFactory { template_configured: false };
    assert!(matches!(create(&no_template, false, "USDC-c76f1f", Some(6), params()), Err(FactoryError::TemplateEmpty)));
    let bad = MarketParams { reserve_factor: 10_000, ..params() };
    assert!(matches!(create(&factory, false, "USDC-c76f1f", Some(6), bad), Err(FactoryError::Params(ParamsError::InvalidReserveFactor))));
    assert!(create(&factory, false, "EGLD", Some(18), params()).is_ok());
}

#[test]
fn market_upgrade() {
    let factory = PoolFactory { template_configured: true };
    let (mut pool, _) = create(&factory, false, "USDC-c76f1f", Some(6), params()).unwrap();
    let newer = MarketParams { slope2: RAY / 5, asset_decimals: 18, ..params() };
    assert_eq!(upgrade_liquidity_pool(&factory, true, &mut pool, newer), Ok(()));
    assert_eq!(pool.state.params.slope2, RAY / 5);
    assert_eq!(pool.state.params.asset_decimals, 6);
    assert_eq!(upgrade_liquidity_pool(&factory, false, &mut pool, newer), Err(FactoryError::NoPoolFound));
    let no_template = PoolFactory { template_configured: false };
    assert_eq!(upgrade_liquidity_pool(&no_template, true, &mut pool, newer), Err(FactoryError::TemplateEmpty));
}
