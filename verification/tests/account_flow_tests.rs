use lending_pool::account::{
    switch_account_vault, update_account_threshold, update_accounts_thresholds, withdraw_collateral, ThresholdAccount, VaultMarket,
    disable_vault_deposit, enable_vault_deposit, set_borrow_vault_flags, update_position_threshold,
    internal_withdraw, process_vault_withdrawal, withdraw_from_market, THRESHOLD_UPDATE_SAFETY_FACTOR,
};
use lending_pool::controller::{AssetConfig, ControllerError, EModeCategory, NftAccountAttributes};
use lending_pool::lending::{
    complete_multiply, handle_borrow_position, internal_repay, multiply_amounts, multiply_checks, new_position,
    open_multiply_debt, update_supply_position, IsolatedDebt, IsolatedRepay,
};
use lending_pool::liquidation_bp::BP;
use lending_pool::liquidity::{LiquidityPool, PoolError};
use lending_pool::math::RAY;
use lending_pool::position::{AccountPosition, AccountPositionType};
use lending_pool::rates::MarketParams;
use lending_pool::token::TokenId;
use lending_pool::valuation::DebtValue;

const E18: u128 = 1_000_000_000_000_000_000;

fn token(s: &str) -> TokenId {
    TokenId::new(s.as_bytes().to_vec())
}

fn params() -> MarketParams {
    MarketParams {
        max_borrow_rate: 2 * RAY,
        base_borrow_rate: RAY / 100,
        slope1: 4 * RAY / 100,
        slope2: 10 * RAY / 100,
        slope3: 3 * RAY,
        mid_utilization: RAY / 2,
        optimal_utilization: 8 * RAY / 10,
        reserve_factor: 1_000,
        asset_decimals: 18,
    }
}

fn config() -> AssetConfig {
    AssetConfig {
        ltv: 7_500,
        liquidation_threshold: 8_000,
        liquidation_base_bonus: 500,
        liquidation_max_fee: 100,
        is_e_mode_enabled: false,
        is_isolated: false,
        debt_ceiling_usd: 1_000 * E18,
        is_siloed: false,
        flashloan_enabled: true,
        flash_loan_fee: 50,
        can_be_collateral: true,
        can_be_borrowed: true,
        can_borrow_in_isolation: true,
        borrow_cap: None,
        supply_cap: None,
    }
}

fn pool() -> LiquidityPool {
    LiquidityPool::init(token("EGLD"), params(), 0).unwrap()
}

fn plain_account() -> NftAccountAttributes {
    NftAccountAttributes { is_isolated: false, e_mode_category: 0, is_vault: false }
}

fn deposit(amount: u128, vault: bool) -> AccountPosition {
    AccountPosition::new(AccountPositionType::Deposit, token("EGLD"), 1, 8_000, 500, 100, 7_500, vault).with_scaled_amount(amount)
}

#[test]
fn vault_withdrawal_caps_and_fees() {
    let o = process_vault_withdrawal(deposit(10 * E18, true), 4 * E18, false, None, None, 50 * E18).unwrap();
    assert_eq!((o.amount, o.to_caller, o.protocol_fee, o.vault_supplied), (4 * E18, 4 * E18, 0, 46 * E18));
    assert_eq!(o.position.scaled_amount, 6 * E18);
    assert!(o.keep_position);

    // More than the position holds takes all of it, and the position goes.
    let o = process_vault_withdrawal(deposit(10 * E18, true), 40 * E18, false, None, None, 50 * E18).unwrap();
    assert_eq!(o.amount, 10 * E18);
    assert!(!o.keep_position);

    // A liquidation keeps the fee for the protocol.
    let o = process_vault_withdrawal(deposit(10 * E18, true), 4 * E18, true, Some(E18), None, 50 * E18).unwrap();
    assert_eq!((o.to_caller, o.protocol_fee), (3 * E18, E18));

    // A liquidation may demand a minimum net amount.
    assert!(matches!(
        process_vault_withdrawal(deposit(10 * E18, true), 4 * E18, true, Some(E18), Some(5 * E18), 50 * E18),
        Err(ControllerError::LiquidatedAmountAfterFeesLessThanMinAmountToReceive)
    ));
    assert!(matches!(process_vault_withdrawal(deposit(10 * E18, true), 4 * E18, true, Some(5 * E18), None, 50 * E18), Err(ControllerError::Arithmetic)));
}

#[test]
fn market_withdrawal_through_the_pool() {
    let mut p = pool();
    let dep = p.supply(&token("EGLD"), 10 * E18, deposit(0, false), 0).unwrap();
    let o = withdraw_from_market(&mut p, dep, 4 * E18, false, None, None, 0, 10 * E18, 0).unwrap();
    assert_eq!(o.amount, 4 * E18);
    assert_eq!(o.to_caller, 4 * E18);
    assert_eq!(o.position.scaled_amount, 6 * RAY);
    assert_eq!(p.state.supplied, 6 * RAY);
    // Not enough reserves: the pool refuses and is left as it was.
    let before = p.state;
    let r = withdraw_from_market(&mut p, o.position, 4 * E18, false, None, None, 0, E18, 0);
    assert!(matches!(r, Err(ControllerError::Pool(PoolError::InsufficientLiquidity))));
    assert_eq!(p.state, before);
}

#[test]
fn internal_withdraw_dispatches_on_vault_flag() {
    let mut p = pool();
    let before = p.state;
    let o = internal_withdraw(&mut p, Some(deposit(10 * E18, true)), 4 * E18, false, None, None, 10 * E18, 0, 0).unwrap();
    assert_eq!(o.vault_supplied, 6 * E18);
    assert_eq!(p.state, before);
    // The account must hold a position in the asset.
    assert!(matches!(
        internal_withdraw(&mut p, None, 4 * E18, false, None, None, 10 * E18, 0, 0),
        Err(ControllerError::PositionNotFound)
    ));
}

#[test]
fn vault_switching_moves_the_deposit() {
    let mut p = pool();
    // Out of the vault: supplied to the pool.
    let (moved, vault) = disable_vault_deposit(&mut p, deposit(10 * E18, true), 25 * E18, 0).unwrap();
    assert!(!moved.is_vault);
    assert_eq!(moved.scaled_amount, 10 * RAY);
    assert_eq!(vault, 15 * E18);
    assert_eq!(p.state.supplied, 10 * RAY);
    // Back into the vault: its whole value leaves the pool.
    let (back, vault) = enable_vault_deposit(&mut p, moved, vault, 10 * E18, 0).unwrap();
    assert!(back.is_vault);
    assert_eq!(back.scaled_amount, 10 * E18);
    assert_eq!(vault, 25 * E18);
    assert_eq!(p.state.supplied, 0);
    // The vault's total must hold the position.
    assert!(matches!(disable_vault_deposit(&mut p, deposit(10 * E18, true), 5 * E18, 0), Err(ControllerError::Arithmetic)));
}

#[test]
fn borrow_flags_follow_the_account() {
    let b1 = AccountPosition::new(AccountPositionType::Borrow, token("EGLD"), 1, 0, 0, 0, 0, false).with_scaled_amount(5);
    let b2 = AccountPosition::new(AccountPositionType::Borrow, token("USDC-c76f1f"), 1, 0, 0, 0, 0, true).with_scaled_amount(7);
    let (out, changed) = set_borrow_vault_flags(vec![b1, b2], true);
    assert!(out.iter().all(|p| p.is_vault));
    assert_eq!(out[1].scaled_amount, 7);
    assert_eq!(changed, vec![true, false]);
}

#[test]
fn position_thresholds_follow_configuration() {
    let acct = plain_account();
    let p = deposit(5, false);
    let new_config = AssetConfig { ltv: 7_000, liquidation_threshold: 7_800, ..config() };
    let (q, changed) = update_position_threshold(Some(p.clone()), &acct, None, &new_config, false).unwrap();
    assert_eq!(q.liquidation_threshold, 7_800);
    assert_eq!(q.loan_to_value, 7_500);
    assert!(changed);
    let (q, changed) = update_position_threshold(Some(p.clone()), &acct, None, &config(), true).unwrap();
    assert_eq!(q.loan_to_value, 7_500);
    assert!(!changed);
    // In e-mode the category's values apply, and the category must exist.
    let in_e_mode = NftAccountAttributes { e_mode_category: 1, ..acct };
    let cat = EModeCategory { id: 1, ltv: 9_000, liquidation_threshold: 9_300, liquidation_bonus: 200, is_deprecated: false };
    let (q, _) = update_position_threshold(Some(p.clone()), &in_e_mode, Some(cat), &config(), true).unwrap();
    assert_eq!(q.loan_to_value, 9_000);
    assert!(matches!(update_position_threshold(Some(p), &in_e_mode, None, &config(), true), Err(ControllerError::EModeCategoryNotFound)));
    assert!(matches!(update_position_threshold(None, &acct, None, &config(), true), Err(ControllerError::PositionNotFound)));
    assert_eq!(THRESHOLD_UPDATE_SAFETY_FACTOR, 20);
}

#[test]
fn supply_to_vault_or_market() {
    let mut p = pool();
    let (v, total) = update_supply_position(&mut p, None, &token("EGLD"), 3 * E18, 2, &config(), true, 10 * E18, 0).unwrap();
    assert_eq!(v.scaled_amount, 3 * E18);
    assert!(v.is_vault);
    assert_eq!(v.account_nonce, 2);
    assert_eq!(total, 13 * E18);
    assert_eq!(p.state.supplied, 0);
    let (m, total) = update_supply_position(&mut p, None, &token("EGLD"), 3 * E18, 2, &config(), false, 10 * E18, 0).unwrap();
    assert_eq!(m.scaled_amount, 3 * RAY);
    assert_eq!(total, 10 * E18);
    // An existing position takes the asset's current LTV.
    let updated = AssetConfig { ltv: 6_000, ..config() };
    let (m2, _) = update_supply_position(&mut p, Some(m), &token("EGLD"), E18, 2, &updated, false, 0, 0).unwrap();
    assert_eq!(m2.scaled_amount, 4 * RAY);
    assert_eq!(m2.loan_to_value, 6_000);
}

#[test]
fn borrow_position_with_isolated_debt_ceiling() {
    let mut p = pool();
    p.supply(&token("EGLD"), 100 * E18, deposit(0, false), 0).unwrap();
    let isolated = NftAccountAttributes { is_isolated: true, ..plain_account() };
    let ceiling = IsolatedDebt { collateral_config: config(), current_debt_usd: 900 * E18 };
    // 200 USD more would pass the 1000 USD ceiling: refused, the pool untouched.
    let before = p.state;
    let r = handle_borrow_position(&mut p, None, &token("EGLD"), 5 * E18, 1, &config(), &isolated, 200 * E18, Some(ceiling), 100 * E18, 0);
    assert!(matches!(r, Err(ControllerError::DebtCeilingReached)));
    assert_eq!(p.state, before);
    // 100 USD fits, and the recorded debt grows by it.
    let (pos, debt) = handle_borrow_position(&mut p, None, &token("EGLD"), 5 * E18, 1, &config(), &isolated, 100 * E18, Some(ceiling), 100 * E18, 0).unwrap();
    assert_eq!(pos.scaled_amount, 5 * RAY);
    assert_eq!(debt, Some(1_000 * E18));
    // A plain account records no isolated debt.
    let (_, debt) = handle_borrow_position(&mut p, None, &token("EGLD"), E18, 1, &config(), &plain_account(), 40 * E18, None, 100 * E18, 0).unwrap();
    assert_eq!(debt, None);
}

#[test]
fn repay_lowers_isolated_debt_by_principal() {
    let mut p = pool();
    p.supply(&token("EGLD"), 100 * E18, deposit(0, false), 0).unwrap();
    let b = new_position(AccountPositionType::Borrow, &token("EGLD"), 1, &config(), false);
    let b = p.borrow(10 * E18, b, 100 * E18, 0).unwrap();
    let isolated = NftAccountAttributes { is_isolated: true, ..plain_account() };
    let info = IsolatedRepay { collateral_debt_usd: 1_000 * E18, accumulated_interest: 0, principal: 10 * E18, egld_usd_price: 40 * E18 };
    // Repaying 4 EGLD of principal lowers the debt by 160 USD.
    let (left, refund, keep, debt) =
        internal_repay(&mut p, Some(b), &token("EGLD"), 4 * E18, E18, 18, 4 * E18, &isolated, Some(info), 0).unwrap();
    assert_eq!(left.scaled_amount, 6 * RAY);
    assert_eq!(refund, 0);
    assert!(keep);
    assert_eq!(debt, Some(840 * E18));
    assert!(matches!(
        internal_repay(&mut p, None, &token("EGLD"), E18, E18, 18, E18, &isolated, Some(info), 0),
        Err(ControllerError::PositionNotFound)
    ));
}

#[test]
fn leverage_sizing_and_opening() {
    // Tripling 10 EGLD of collateral borrows 20 EGLD worth of a 6-decimal token at
    // 0.025 EGLD, with a 0.5% flash fee.
    assert_eq!(
        multiply_amounts(3 * BP, 10 * E18, E18, 18, 25 * E18 / 1_000, 6, 5 * BP / 1_000, &config(), 0),
        Ok((800_000_000, 4_000_000))
    );
    let capped = AssetConfig { borrow_cap: Some(800_000_000), ..config() };
    assert_eq!(
        multiply_amounts(3 * BP, 10 * E18, E18, 18, 25 * E18 / 1_000, 6, 5 * BP / 1_000, &capped, 0),
        Err(ControllerError::BorrowCap)
    );
    // A leverage below one is refused.
    assert_eq!(
        multiply_amounts(BP / 2, 10 * E18, E18, 18, 25 * E18 / 1_000, 6, 5 * BP / 1_000, &config(), 0),
        Err(ControllerError::Arithmetic)
    );

    let (c, d, attrs) = multiply_checks(0, None, true, true, config(), false, None, config(), false, None).unwrap();
    assert_eq!(c, config());
    assert_eq!(d, config());
    assert_eq!(attrs, plain_account());
    assert!(matches!(
        multiply_checks(1, None, true, true, config(), false, None, config(), false, None),
        Err(ControllerError::EModeCategoryNotFound)
    ));
    assert!(matches!(
        multiply_checks(0, None, false, true, config(), false, None, config(), false, None),
        Err(ControllerError::AssetNotSupported)
    ));

    let mut p = pool();
    let debt = open_multiply_debt(&mut p, None, &token("EGLD"), 20 * E18, E18 / 10, 3, &config(), 100 * E18, 0).unwrap();
    assert_eq!(debt.scaled_amount, 201 * RAY / 10);
    assert_eq!(p.state.revenue, RAY / 10);
}

fn threshold_account(debt: u128) -> ThresholdAccount {
    ThresholdAccount {
        in_market: true,
        position: Some(deposit(100 * E18, false)),
        attributes: plain_account(),
        category: None,
        amount: 100 * E18,
        price: E18,
        decimals: 18,
        other_collaterals: vec![],
        debts: vec![DebtValue { amount: debt, price: E18, decimals: 18 }],
    }
}

#[test]
fn lowered_threshold_must_keep_a_safety_margin() {
    let lowered = AssetConfig { liquidation_threshold: 7_000, ..config() };
    // 100 EGLD at 70% against 60 EGLD of debt: above 1.05.
    let (q, changed) = update_account_threshold(&threshold_account(60 * E18), &lowered, false).unwrap();
    assert!(changed);
    assert_eq!(q.liquidation_threshold, 7_000);
    assert_eq!(q.loan_to_value, 7_500);
    // Against 67 EGLD of debt the factor would be about 1.045.
    assert!(matches!(update_account_threshold(&threshold_account(67 * E18), &lowered, false), Err(ControllerError::HealthFactorWithdraw)));
    // An LTV update runs no health check.
    let (q, changed) = update_account_threshold(&threshold_account(99 * E18), &AssetConfig { ltv: 6_000, ..config() }, true).unwrap();
    assert!(changed);
    assert_eq!(q.loan_to_value, 6_000);
    // An unchanged threshold runs no check either.
    let (_, changed) = update_account_threshold(&threshold_account(99 * E18), &config(), false).unwrap();
    assert!(!changed);
}

#[test]
fn threshold_update_walks_the_accounts_in_order() {
    let lowered = AssetConfig { liquidation_threshold: 7_000, ..config() };
    let accounts = vec![threshold_account(10 * E18), threshold_account(20 * E18)];
    let out = update_accounts_thresholds(true, &accounts, &lowered, false).unwrap();
    assert_eq!(out.len(), 2);
    assert!(out[1].1);
    assert_eq!(out[1].0.liquidation_threshold, 7_000);
    assert!(matches!(update_accounts_thresholds(false, &accounts, &lowered, false), Err(ControllerError::AssetNotSupported)));
    let absent = ThresholdAccount { in_market: false, ..threshold_account(0) };
    let missing = ThresholdAccount { position: None, ..threshold_account(0) };
    let accounts = vec![threshold_account(10 * E18), absent, missing];
    assert!(matches!(update_accounts_thresholds(true, &accounts, &lowered, false), Err(ControllerError::AccountNotInTheMarket)));
    let accounts = vec![ThresholdAccount { position: None, ..threshold_account(0) }, threshold_account(90 * E18)];
    assert!(matches!(update_accounts_thresholds(true, &accounts, &lowered, false), Err(ControllerError::PositionNotFound)));
    let e_mode = ThresholdAccount { attributes: NftAccountAttributes { e_mode_category: 2, ..plain_account() }, ..threshold_account(0) };
    assert!(matches!(update_accounts_thresholds(true, &vec![e_mode], &lowered, false), Err(ControllerError::EModeCategoryNotFound)));
}

#[test]
fn leveraged_position_must_end_healthy() {
    // 10 EGLD of swapped collateral at 80% against 5 EGLD of debt.
    let mut p = pool();
    let debts = vec![DebtValue { amount: 5 * E18, price: E18, decimals: 18 }];
    let pos = complete_multiply(&mut p, &token("EGLD"), 10 * E18, 3, &config(), E18, 18, &debts, 0).unwrap();
    // Scaled amounts carry RAY precision; the supply index is one.
    assert_eq!(pos.scaled_amount, 10 * RAY);
    assert_eq!(pos.account_nonce, 3);
    assert_eq!(pos.liquidation_threshold, 8_000);
    assert_eq!(p.state.supplied, 10 * RAY);
    // Against 9 EGLD of debt the factor is below 1.0: refused, the pool unchanged.
    let mut p = pool();
    let debts = vec![DebtValue { amount: 9 * E18, price: E18, decimals: 18 }];
    assert_eq!(complete_multiply(&mut p, &token("EGLD"), 10 * E18, 3, &config(), E18, 18, &debts, 0).map(|x| x.scaled_amount), Err(ControllerError::HealthFactorWithdraw));
    assert_eq!(p.state.supplied, 0);
    // Another asset's tokens cannot be supplied to this pool.
    assert!(complete_multiply(&mut p, &token("USDC-abcdef"), 10 * E18, 3, &config(), E18, 18, &debts, 0).is_err());
}

#[test]
fn account_deposits_switch_into_and_out_of_the_vault() {
    let mut egld = pool();
    let d = egld.supply(&token("EGLD"), 10 * E18, deposit(0, false), 0).unwrap();
    let usdc = LiquidityPool::init(token("USDC-abcdef"), MarketParams { asset_decimals: 6, ..params() }, 0).unwrap();
    let in_vault = AccountPosition::new(AccountPositionType::Deposit, token("USDC-abcdef"), 1, 8_000, 500, 100, 7_500, true).with_scaled_amount(5_000_000);
    let markets = vec![
        VaultMarket { pool: egld, vault_supplied: 0, reserves: 10 * E18 },
        VaultMarket { pool: usdc, vault_supplied: 5_000_000, reserves: 0 },
    ];
    let (markets, positions) = switch_account_vault(markets, vec![d, in_vault], true, 0).unwrap();
    assert!(positions[0].is_vault);
    assert_eq!(positions[0].scaled_amount, 10 * E18);
    assert_eq!(markets[0].vault_supplied, 10 * E18);
    assert_eq!(markets[0].pool.state.supplied, 0);
    assert_eq!(positions[1].scaled_amount, 5_000_000);
    assert_eq!(markets[1].vault_supplied, 5_000_000);
    // And back out of the vault: both deposits return to their pools.
    let (markets, positions) = switch_account_vault(markets, positions, false, 0).unwrap();
    assert!(!positions[0].is_vault && !positions[1].is_vault);
    assert_eq!(positions[0].scaled_amount, 10 * RAY);
    assert_eq!(markets[0].vault_supplied, 0);
    assert_eq!(markets[1].vault_supplied, 0);
    assert_eq!(markets[1].pool.state.supplied, 5 * RAY);
    // The vault must hold what a position claims.
    let short = vec![VaultMarket { pool: pool(), vault_supplied: E18, reserves: 0 }];
    let claim = deposit(2 * E18, true);
    assert!(matches!(switch_account_vault(short, vec![claim], false, 0), Err(ControllerError::Arithmetic)));
}

#[test]
fn vault_withdrawal_keeps_the_account_healthy() {
    let mut p = pool();
    let debts = vec![DebtValue { amount: 5 * E18, price: E18, decimals: 18 }];
    // 10 EGLD in the vault at 80%: 3 EGLD may leave (7 * 0.8 = 5.6), 4 may not.
    let o = withdraw_collateral(&mut p, deposit(10 * E18, true), 3 * E18, 10 * E18, 0, 0, E18, 18, &vec![], &debts).unwrap();
    assert_eq!(o.to_caller, 3 * E18);
    assert_eq!(o.vault_supplied, 7 * E18);
    assert_eq!(o.position.scaled_amount, 7 * E18);
    assert!(matches!(
        withdraw_collateral(&mut p, deposit(10 * E18, true), 4 * E18, 10 * E18, 0, 0, E18, 18, &vec![], &debts),
        Err(ControllerError::HealthFactorWithdraw)
    ));
}
