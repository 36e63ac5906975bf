use lending_pool::account::{internal_withdraw, validate_account_withdraw_health, withdraw_collateral};
use lending_pool::controller::{
    enter, handle_nft_after_withdraw, validate_borrow_asset, validate_e_mode_not_isolated, validate_supply_payment, validate_token_of_emode,
    AssetConfig, ControllerError, EModeAssetConfig, EModeCategory, NftAccountAttributes, Payment,
};
use lending_pool::lending::{new_position, validate_borrow, validate_supply};
use lending_pool::liquidity::LiquidityPool;
use lending_pool::math::RAY;
use lending_pool::pool::to_original;
use lending_pool::position::AccountPositionType;
use lending_pool::rates::MarketParams;
use lending_pool::token::TokenId;
use lending_pool::valuation::{CollateralValue, DebtValue};

const E18: u128 = 1_000_000_000_000_000_000;
const EGLD_USD: u128 = 40 * E18;
const USDC_PRICE: u128 = 25 * E18 / 1_000;
const SILOED_PRICE: u128 = E18 / 10;
const SECONDS_PER_DAY: u64 = 86_400;

fn token(s: &str) -> TokenId {
    TokenId::new(s.as_bytes().to_vec())
}

fn base() -> AssetConfig {
    AssetConfig {
        ltv: 7_500,
        liquidation_threshold: 8_000,
        liquidation_base_bonus: 1_000,
        liquidation_max_fee: 500,
        is_e_mode_enabled: false,
        is_isolated: false,
        debt_ceiling_usd: 0,
        is_siloed: false,
        flashloan_enabled: true,
        flash_loan_fee: 50,
        can_be_collateral: true,
        can_be_borrowed: true,
        can_borrow_in_isolation: false,
        borrow_cap: None,
        supply_cap: None,
    }
}

fn egld_config() -> AssetConfig {
    AssetConfig { is_e_mode_enabled: true, ..base() }
}

fn usdc_config() -> AssetConfig {
    AssetConfig { can_borrow_in_isolation: true, ..base() }
}

fn isolated_config() -> AssetConfig {
    AssetConfig { is_isolated: true, debt_ceiling_usd: 1_000 * E18, ..base() }
}

fn siloed_config() -> AssetConfig {
    AssetConfig { is_siloed: true, ..base() }
}

fn category() -> EModeCategory {
    EModeCategory { id: 1, ltv: 7_500, liquidation_threshold: 8_500, liquidation_bonus: 500, is_deprecated: false }
}

fn entry(can_be_collateral: bool, can_be_borrowed: bool) -> EModeAssetConfig {
    EModeAssetConfig { can_be_collateral, can_be_borrowed }
}

fn plain() -> NftAccountAttributes {
    enter(false, false, None)
}

fn params(decimals: usize) -> MarketParams {
    MarketParams {
        max_borrow_rate: RAY,
        base_borrow_rate: RAY / 100,
        slope1: 5 * RAY / 100,
        slope2: RAY / 10,
        slope3: 3 * RAY / 10,
        mid_utilization: 65 * RAY / 100,
        optimal_utilization: 9 * RAY / 10,
        reserve_factor: 2_500,
        asset_decimals: decimals,
    }
}

#[test]
fn test_e_mode_category_not_found_at_supply_error() {
    // A new account in e-mode category 1 supplying USDC, which the category does not list.
    let account = enter(false, false, Some(1));
    assert_eq!(validate_token_of_emode(account.e_mode_category, false, None), Err(ControllerError::EModeCategoryNotFound));
}

#[test]
fn test_e_mode_asset_not_supported_as_collateral_error() {
    // Supplying the isolated asset opens an isolated account, which cannot borrow EGLD.
    let account = enter(isolated_config().is_isolated, false, None);
    let iso = token("ISOLATED-abcdef");
    assert!(validate_supply(isolated_config(), &account, false, None, None, None, &iso, None, 1_000 * E18, 0, 0).is_ok());
    assert_eq!(
        validate_borrow(egld_config(), &token("EGLD"), &account, &vec![], None, None, 100 * E18, E18, 18, 0, 0, 0, EGLD_USD),
        Err(ControllerError::AssetNotBorrowableInIsolation)
    );
}

#[test]
fn test_borrow_asset_not_supported_in_e_mode_error() {
    let account = enter(false, false, Some(1));
    let egld_entry = validate_token_of_emode(1, true, Some(entry(true, true))).unwrap();
    let c = validate_supply(egld_config(), &account, false, None, Some(category()), egld_entry, &token("EGLD"), None, 100 * E18, 0, 0).unwrap();
    assert_eq!(c.liquidation_threshold, 8_500);
    // USDC is not listed in the account's category.
    assert_eq!(validate_token_of_emode(account.e_mode_category, false, None), Err(ControllerError::EModeCategoryNotFound));
}

#[test]
fn test_borrow_asset_not_borrowable_in_e_mode_error() {
    let account = enter(false, false, Some(1));
    let legld_entry = validate_token_of_emode(1, true, Some(entry(false, false))).unwrap();
    assert_eq!(
        validate_borrow(egld_config(), &token("LEGLD-abcdef"), &account, &vec![], Some(category()), legld_entry, 10 * E18, 125 * E18 / 100, 18, 0, 75 * E18, 0, EGLD_USD),
        Err(ControllerError::AssetNotBorrowable)
    );
}

#[test]
fn test_supply_isolated_asset_with_e_mode_error() {
    // The supplier's account is in e-mode category 1 after supplying XEGLD.
    let account = enter(false, false, Some(1));
    assert!(validate_supply(egld_config(), &account, false, None, Some(category()), Some(entry(true, true)), &token("XEGLD-abcdef"), None, 100 * E18, 0, 0).is_ok());
    assert_eq!(validate_e_mode_not_isolated(&isolated_config(), account.e_mode_category), Err(ControllerError::CannotUseEModeWithIsolatedAssets));
}

#[test]
fn test_mix_isolated_collateral_with_others_error() {
    let iso = token("ISOLATED-abcdef");
    let account = enter(true, false, None);
    assert!(validate_supply(isolated_config(), &account, false, None, None, None, &iso, None, 100 * E18, 0, 0).is_ok());
    assert_eq!(
        validate_supply(egld_config(), &account, false, None, None, None, &token("XEGLD-abcdef"), Some(&iso), 100 * E18, 0, 0),
        Err(ControllerError::MixIsolatedCollateral)
    );
}

#[test]
fn test_borrow_asset_not_supported_in_isolation_error() {
    // SEGLD may not be collateral in category 1.
    let account = enter(false, false, Some(1));
    let segld_entry = validate_token_of_emode(1, true, Some(entry(false, true))).unwrap();
    assert_eq!(
        validate_supply(egld_config(), &account, false, None, Some(category()), segld_entry, &token("SEGLD-abcdef"), None, 100 * E18, 0, 0),
        Err(ControllerError::AssetNotSupportedAsCollateral)
    );
}

#[test]
fn test_borrow_asset_as_siloed() {
    // 100 EGLD of collateral (75 EGLD at LTV) covers a borrow of 1 SILOED (0.1 EGLD).
    let r = validate_borrow(siloed_config(), &token("SILOED-abcdef"), &plain(), &vec![], None, None, E18, SILOED_PRICE, 18, 0, 75 * E18, 0, EGLD_USD);
    let (_, egld, usd) = r.unwrap();
    assert_eq!(egld, E18 / 10);
    assert_eq!(usd, 4 * E18);
}

#[test]
fn test_borrow_asset_as_siloed_with_another_asset_error() {
    let siloed = token("SILOED-abcdef");
    assert!(validate_borrow(egld_config(), &token("EGLD"), &plain(), &vec![], None, None, 10 * E18, E18, 18, 0, 75 * E18, 0, EGLD_USD).is_ok());
    let one = vec![(token("EGLD"), false)];
    assert_eq!(validate_borrow_asset(&siloed_config(), &siloed, &plain(), &one), Err(ControllerError::AssetNotBorrowableInSiloed));
    // With a second borrow the siloed asset is refused early.
    assert!(validate_borrow(usdc_config(), &token("USDC-abcdef"), &plain(), &one, None, None, 10_000_000, USDC_PRICE, 6, 0, 75 * E18, 10 * E18, EGLD_USD).is_ok());
    let two = vec![(token("EGLD"), false), (token("USDC-abcdef"), false)];
    assert_eq!(validate_borrow_asset(&siloed_config(), &siloed, &plain(), &two), Err(ControllerError::AssetNotBorrowableInSiloed));
}

#[test]
fn test_borrow_asset_then_borrow_siloed_asset_error() {
    // 1000 USDC (18.75 EGLD at LTV) covers 100 SILOED (10 EGLD); EGLD may then not be borrowed.
    let siloed = token("SILOED-abcdef");
    assert!(validate_borrow(siloed_config(), &siloed, &plain(), &vec![], None, None, 100 * E18, SILOED_PRICE, 18, 0, 1875 * E18 / 100, 0, EGLD_USD).is_ok());
    let borrows = vec![(siloed, true)];
    assert_eq!(
        validate_borrow(egld_config(), &token("EGLD"), &plain(), &borrows, None, None, E18, E18, 18, 0, 1875 * E18 / 100, 10 * E18, EGLD_USD),
        Err(ControllerError::AssetNotBorrowableInSiloed)
    );
}

#[test]
fn test_borrow_not_enough_collateral_error() {
    // 600 SILOED (60 EGLD) against 1000 USDC (18.75 EGLD at LTV).
    assert_eq!(
        validate_borrow(siloed_config(), &token("SILOED-abcdef"), &plain(), &vec![], None, None, 600 * E18, SILOED_PRICE, 18, 0, 1875 * E18 / 100, 0, EGLD_USD),
        Err(ControllerError::InsufficientCollateral)
    );
}

#[test]
fn test_withdraw_auto_liquidation_protection_error() {
    let usdc_token = token("USDC-abcdef");
    let mut usdc = LiquidityPool::init(usdc_token.clone(), params(6), 0).unwrap();
    let deposit = new_position(AccountPositionType::Deposit, &usdc_token, 2, &usdc_config(), false);
    let deposit = usdc.supply(&usdc_token, 5_000_000_000, deposit, 0).unwrap();
    let debt = vec![DebtValue { amount: 50 * E18, price: E18, decimals: 18 }];
    let before = usdc.state;
    // Withdrawing all 5000 USDC would leave the 50 EGLD debt uncovered.
    let r = withdraw_collateral(&mut usdc, deposit.clone(), 5_000_000_000, 0, 5_000_000_000, 0, USDC_PRICE, 6, &vec![], &debt);
    assert!(matches!(r, Err(ControllerError::HealthFactorWithdraw)));
    assert_eq!(usdc.state, before);
    // 1000 USDC may go: 4000 USDC at 80% is 80 EGLD against 50.
    let o = withdraw_collateral(&mut usdc, deposit, 1_000_000_000, 0, 5_000_000_000, 0, USDC_PRICE, 6, &vec![], &debt).unwrap();
    assert_eq!(o.to_caller, 1_000_000_000);
    assert!(o.keep_position);
    let usdc_left = vec![CollateralValue { amount: 4_000_000_000, price: USDC_PRICE, decimals: 6, liquidation_threshold: 8_000, liquidation_bonus: 1_000, ltv: 7_500 }];
    assert_eq!(validate_account_withdraw_health(&usdc_left, &debt, None), Ok(()));
}

#[test]
fn test_withdraw_non_borrowed_asset_error() {
    let mut pool = LiquidityPool::init(token("XEGLD-abcdef"), params(18), 0).unwrap();
    let r = internal_withdraw(&mut pool, None, 50 * E18, false, None, None, 0, 0, 0);
    assert!(matches!(r, Err(ControllerError::PositionNotFound)));
}

#[test]
fn test_basic_supply_and_borrow() {
    let mut egld = LiquidityPool::init(token("EGLD"), params(18), 0).unwrap();
    let mut usdc = LiquidityPool::init(token("USDC-abcdef"), params(6), 0).unwrap();
    let supplier = new_position(AccountPositionType::Deposit, &token("EGLD"), 1, &egld_config(), false);
    egld.supply(&token("EGLD"), 100 * E18, supplier, 0).unwrap();
    let c = validate_supply(usdc_config(), &plain(), false, None, None, None, &token("USDC-abcdef"), None, 5_000_000_000, 0, 0).unwrap();
    let deposit = new_position(AccountPositionType::Deposit, &token("USDC-abcdef"), 2, &c, false);
    let deposit = usdc.supply(&token("USDC-abcdef"), 5_000_000_000, deposit, 0).unwrap();
    // 5000 USDC is 125 EGLD, 93.75 EGLD at LTV: 50 EGLD may be borrowed.
    let (bc, _, _) = validate_borrow(egld_config(), &token("EGLD"), &plain(), &vec![], None, None, 50 * E18, E18, 18, 0, 9375 * E18 / 100, 0, EGLD_USD).unwrap();
    let debt = new_position(AccountPositionType::Borrow, &token("EGLD"), 2, &bc, false);
    let debt = egld.borrow(50 * E18, debt, 100 * E18, 0).unwrap();
    assert!(debt.scaled_amount > 0);
    assert!(deposit.scaled_amount > 0);
}

#[test]
fn test_repay_debt_in_full_and_extra() {
    let mut egld = LiquidityPool::init(token("EGLD"), params(18), 0).unwrap();
    let supplier = new_position(AccountPositionType::Deposit, &token("EGLD"), 1, &egld_config(), false);
    egld.supply(&token("EGLD"), 100 * E18, supplier, 0).unwrap();
    let debt = new_position(AccountPositionType::Borrow, &token("EGLD"), 2, &egld_config(), false);
    let debt = egld.borrow(50 * E18, debt, 100 * E18, 0).unwrap();
    let borrowed = debt.scaled_amount;
    assert!(borrowed > 0);
    // Ten days later 51 EGLD repays the whole debt and the rest is refunded.
    let (after, refund) = egld.repay(&token("EGLD"), 51 * E18, debt, SECONDS_PER_DAY * 10).unwrap();
    assert_eq!(after.scaled_amount, 0);
    assert!(refund > 0);
    assert!(refund < E18);
}

#[test]
fn test_supply_asset_payment_count_error() {
    let pay = || Payment { token: token("XEGLD-abcdef"), nonce: 0, amount: 100 * E18 };
    assert_eq!(
        validate_supply_payment(false, &token("ACCOUNT-abcdef"), &vec![pay(), pay()], false),
        Err(ControllerError::InvalidNumberOfEsdtTransfers)
    );
}

#[test]
fn test_interest_accrual() {
    let egld_token = token("EGLD");
    let mut egld = LiquidityPool::init(egld_token.clone(), params(18), 0).unwrap();
    let supply = new_position(AccountPositionType::Deposit, &egld_token, 1, &egld_config(), false);
    let supply = egld.supply(&egld_token, 100 * E18, supply, 0).unwrap();
    let debt = new_position(AccountPositionType::Borrow, &egld_token, 2, &egld_config(), false);
    let debt = egld.borrow(50 * E18, debt, 100 * E18, 0).unwrap();
    let initial_borrow = to_original(debt.scaled_amount, egld.state.borrow_index, 18).unwrap();
    let initial_supply = to_original(supply.scaled_amount, egld.state.supply_index, 18).unwrap();
    // Daily index updates for a month.
    for day in 1..=30u64 {
        egld.update_indexes(SECONDS_PER_DAY * day).unwrap();
    }
    let final_borrow = to_original(debt.scaled_amount, egld.state.borrow_index, 18).unwrap();
    let final_supply = to_original(supply.scaled_amount, egld.state.supply_index, 18).unwrap();
    assert!(final_borrow > initial_borrow);
    assert!(final_supply > initial_supply);
}

#[test]
fn test_withdrawal_with_interest() {
    let usdc_token = token("USDC-abcdef");
    let mut usdc = LiquidityPool::init(usdc_token.clone(), params(6), 0).unwrap();
    let supply = new_position(AccountPositionType::Deposit, &usdc_token, 1, &usdc_config(), false);
    let supply = usdc.supply(&usdc_token, 1_000_000_000, supply, 0).unwrap();
    let debt = new_position(AccountPositionType::Borrow, &usdc_token, 2, &usdc_config(), false);
    usdc.borrow(200_000_000, debt, 1_000_000_000, 0).unwrap();
    usdc.update_indexes(SECONDS_PER_DAY * 10).unwrap();
    let initial = to_original(supply.scaled_amount, usdc.state.supply_index, 6).unwrap();
    assert!(initial > 1_000_000_000);
    // Twenty days in, half of the deposit is withdrawn; the rest keeps its interest.
    let o = withdraw_collateral(&mut usdc, supply, 500_000_000, 0, 800_000_000, SECONDS_PER_DAY * 20, USDC_PRICE, 6, &vec![], &vec![]).unwrap();
    assert_eq!(o.to_caller, 500_000_000);
    let left = to_original(o.position.scaled_amount, usdc.state.supply_index, 6).unwrap();
    assert!(left > 500_000_000);
}

#[test]
fn test_basic_supply_and_borrow_with_e_mode() {
    // An account in category 1 supplies 100 EGLD (85% threshold, 75% LTV) and borrows 50 XEGLD.
    let account = enter(false, false, Some(1));
    let egld_entry = validate_token_of_emode(1, true, Some(entry(true, true))).unwrap();
    let c = validate_supply(egld_config(), &account, false, None, Some(category()), egld_entry, &token("EGLD"), None, 100 * E18, 0, 0).unwrap();
    assert_eq!(c.liquidation_threshold, 8_500);
    assert_eq!(c.liquidation_base_bonus, 500);
    let xegld_entry = validate_token_of_emode(1, true, Some(entry(true, true))).unwrap();
    let (_, egld_value, _) = validate_borrow(egld_config(), &token("XEGLD-abcdef"), &account, &vec![], Some(category()), xegld_entry, 50 * E18, 125 * E18 / 100, 18, 0, 75 * E18, 0, EGLD_USD).unwrap();
    assert_eq!(egld_value, 625 * E18 / 10);
}

#[test]
fn test_complete_market_exit() {
    let egld_token = token("EGLD");
    let usdc_token = token("USDC-abcdef");
    let mut egld = LiquidityPool::init(egld_token.clone(), params(18), 0).unwrap();
    let mut usdc = LiquidityPool::init(usdc_token.clone(), params(6), 0).unwrap();
    let supply = new_position(AccountPositionType::Deposit, &egld_token, 1, &egld_config(), false);
    let supply = egld.supply(&egld_token, 100 * E18, supply, 0).unwrap();
    let collateral = new_position(AccountPositionType::Deposit, &usdc_token, 2, &usdc_config(), false);
    let collateral = usdc.supply(&usdc_token, 5_000_000_000, collateral, 0).unwrap();
    let debt = new_position(AccountPositionType::Borrow, &egld_token, 2, &egld_config(), false);
    let debt = egld.borrow(50 * E18, debt, 100 * E18, 6_000).unwrap();
    // 55 EGLD repays the debt in full.
    let (debt, refund) = egld.repay(&egld_token, 55 * E18, debt, 8_000).unwrap();
    assert_eq!(debt.scaled_amount, 0);
    assert!(refund > 0);
    // The borrower takes all the collateral back and its account is closed.
    let o = withdraw_collateral(&mut usdc, collateral, 5_000_000_000, 0, 5_000_000_000, 9_000, USDC_PRICE, 6, &vec![], &vec![]).unwrap();
    assert!(!o.keep_position);
    assert!(handle_nft_after_withdraw(0, 0));
    // The supplier asks for more than it has: it gets its whole deposit with interest.
    let reserves = 100 * E18 + 55 * E18 - refund;
    let o = withdraw_collateral(&mut egld, supply, 102 * E18, 0, reserves, 10_000, E18, 18, &vec![], &vec![]).unwrap();
    assert!(!o.keep_position);
    assert!(o.to_caller > 100 * E18);
    assert!(o.to_caller < 101 * E18);
}
