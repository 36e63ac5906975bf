use lending_pool::controller::{
    add_asset_to_e_mode_category, add_e_mode_category, apply_e_mode_config, edit_asset_config,
    edit_asset_in_e_mode_category, edit_e_mode_category, enter, handle_nft_after_withdraw,
    remove_asset_from_e_mode_category, remove_e_mode_category, update_asset_config_for_e_mode,
    update_isolated_debt_usd, validate_and_get_repay_amounts, validate_borrow_asset,
    validate_borrow_cap, validate_borrow_collateral, validate_can_liquidate, validate_e_mode_exists,
    validate_e_mode_not_isolated, validate_flash_loan, validate_isolated_collateral,
    validate_isolated_debt_ceiling, validate_liquidation_payments, validate_not_depracated_e_mode, validate_remain_healthy,
    validate_supply_cap, validate_supply_payment, validate_token_of_emode, validate_vault_consistency,
    validate_withdraw_health_factor, AssetConfig, ControllerError, EModeAssetConfig, EModeCategory,
    NftAccountAttributes, Payment,
};
use lending_pool::lending::{validate_borrow, validate_supply};
use lending_pool::token::TokenId;

const E18: u128 = 1_000_000_000_000_000_000;

fn token(s: &str) -> TokenId {
    TokenId::new(s.as_bytes().to_vec())
}

fn config() -> AssetConfig {
    AssetConfig {
        ltv: 7_500,
        liquidation_threshold: 8_000,
        liquidation_base_bonus: 500,
        liquidation_max_fee: 100,
        is_e_mode_enabled: false,
        is_isolated: false,
        debt_ceiling_usd: 0,
        is_siloed: false,
        flashloan_enabled: true,
        flash_loan_fee: 50,
        can_be_collateral: true,
        can_be_borrowed: true,
        can_borrow_in_isolation: false,
        borrow_cap: None,
        supply_cap: None,
    }
}

fn category() -> EModeCategory {
    EModeCategory { id: 1, ltv: 9_000, liquidation_threshold: 9_300, liquidation_bonus: 200, is_deprecated: false }
}

fn plain_account() -> NftAccountAttributes {
    NftAccountAttributes { is_isolated: false, e_mode_category: 0, is_vault: false }
}

#[test]
fn edit_asset_config_rules() {
    let r = edit_asset_config(true, Some(config()), 7_000, 8_500, 400, 50, true, 1_000, false, false, 0, true, true, false, 0, 5);
    let c = r.unwrap();
    assert_eq!(c.ltv, 7_000);
    assert_eq!(c.borrow_cap, None);
    assert_eq!(c.supply_cap, Some(5));
    assert!(c.is_isolated);
    assert_eq!(
        edit_asset_config(false, Some(config()), 7_000, 8_500, 400, 50, true, 1_000, false, false, 0, true, true, false, 0, 5),
        Err(ControllerError::AssetNotSupported)
    );
    assert_eq!(
        edit_asset_config(true, None, 7_000, 8_500, 400, 50, true, 1_000, false, false, 0, true, true, false, 0, 5),
        Err(ControllerError::AssetNotSupported)
    );
    assert_eq!(
        edit_asset_config(true, Some(config()), 8_500, 8_500, 400, 50, true, 1_000, false, false, 0, true, true, false, 0, 5),
        Err(ControllerError::InvalidLiquidationThreshold)
    );
}

#[test]
fn e_mode_category_administration() {
    let (id, c) = add_e_mode_category(3, 9_000, 9_300, 200);
    assert_eq!(id, 4);
    assert_eq!(c, EModeCategory { id: 4, ltv: 9_000, liquidation_threshold: 9_300, liquidation_bonus: 200, is_deprecated: false });
    assert_eq!(edit_e_mode_category(true, category()), Ok(category()));
    assert_eq!(edit_e_mode_category(false, category()), Err(ControllerError::EModeCategoryNotFound));
    assert!(remove_e_mode_category(Some(category())).unwrap().is_deprecated);
    assert_eq!(remove_e_mode_category(None), Err(ControllerError::EModeCategoryNotFound));
}

#[test]
fn e_mode_asset_administration() {
    let (c, changed, entry) = add_asset_to_e_mode_category(true, true, false, false, config(), true, false).unwrap();
    assert!(c.is_e_mode_enabled);
    assert!(changed);
    assert_eq!(entry, EModeAssetConfig { can_be_collateral: true, can_be_borrowed: false });
    assert_eq!(add_asset_to_e_mode_category(false, true, false, false, config(), true, false), Err(ControllerError::EModeCategoryNotFound));
    assert_eq!(add_asset_to_e_mode_category(true, false, false, false, config(), true, false), Err(ControllerError::AssetNotSupported));
    assert_eq!(add_asset_to_e_mode_category(true, true, true, false, config(), true, false), Err(ControllerError::AssetAlreadySupportedInEMode));

    assert_eq!(edit_asset_in_e_mode_category(true, true, entry), Ok(entry));
    assert_eq!(edit_asset_in_e_mode_category(false, true, entry), Err(ControllerError::EModeCategoryNotFound));
    assert_eq!(edit_asset_in_e_mode_category(true, false, entry), Err(ControllerError::AssetNotSupportedInEMode));

    assert_eq!(remove_asset_from_e_mode_category(true, true, true, 0, c), Ok((AssetConfig { is_e_mode_enabled: false, ..c }, true)));
    assert_eq!(remove_asset_from_e_mode_category(true, true, true, 2, c), Ok((c, false)));
    assert_eq!(remove_asset_from_e_mode_category(true, true, false, 0, c), Err(ControllerError::AssetNotSupportedInEMode));
}

#[test]
fn e_mode_applies_category_parameters() {
    let entry = EModeAssetConfig { can_be_collateral: true, can_be_borrowed: false };
    let applied = apply_e_mode_config(config(), Some(category()), Some(entry));
    assert_eq!(applied.ltv, 9_000);
    assert_eq!(applied.liquidation_threshold, 9_300);
    assert_eq!(applied.liquidation_base_bonus, 200);
    assert!(!applied.can_be_borrowed);
    assert_eq!(applied.flash_loan_fee, config().flash_loan_fee);
    assert_eq!(apply_e_mode_config(config(), None, Some(entry)), config());

    let enabled = AssetConfig { is_e_mode_enabled: true, ..config() };
    let once = update_asset_config_for_e_mode(enabled, 1, None, Some(category()), Some(entry)).unwrap();
    let twice = update_asset_config_for_e_mode(once, 1, None, Some(category()), Some(entry)).unwrap();
    assert_eq!(once, twice);
    assert_eq!(update_asset_config_for_e_mode(enabled, 1, None, None, Some(entry)), Err(ControllerError::EModeCategoryNotFound));
    let deprecated = EModeCategory { is_deprecated: true, ..category() };
    assert_eq!(update_asset_config_for_e_mode(enabled, 1, None, Some(deprecated), Some(entry)), Err(ControllerError::EModeCategoryDeprecated));
    assert_eq!(update_asset_config_for_e_mode(enabled, 1, None, Some(category()), None), Err(ControllerError::AssetNotSupportedInEMode));
    // Not applied to assets without e-mode or to accounts outside e-mode.
    assert_eq!(update_asset_config_for_e_mode(config(), 1, None, Some(category()), Some(entry)), Ok(config()));
    assert_eq!(update_asset_config_for_e_mode(enabled, 0, None, Some(category()), Some(entry)), Ok(enabled));
}

#[test]
fn e_mode_validations() {
    assert_eq!(validate_e_mode_exists(0, None), Ok(None));
    assert_eq!(validate_e_mode_exists(1, Some(category())), Ok(Some(category())));
    assert_eq!(validate_e_mode_exists(1, None), Err(ControllerError::EModeCategoryNotFound));
    assert_eq!(validate_not_depracated_e_mode(Some(EModeCategory { is_deprecated: true, ..category() })), Err(ControllerError::EModeCategoryDeprecated));
    assert_eq!(validate_not_depracated_e_mode(None), Ok(()));
    let isolated = AssetConfig { is_isolated: true, ..config() };
    assert_eq!(validate_e_mode_not_isolated(&isolated, 1), Err(ControllerError::CannotUseEModeWithIsolatedAssets));
    assert_eq!(validate_e_mode_not_isolated(&isolated, 0), Ok(()));
    let entry = EModeAssetConfig { can_be_collateral: true, can_be_borrowed: true };
    assert_eq!(validate_token_of_emode(0, false, None), Ok(None));
    assert_eq!(validate_token_of_emode(1, true, Some(entry)), Ok(Some(entry)));
    assert_eq!(validate_token_of_emode(1, false, Some(entry)), Err(ControllerError::EModeCategoryNotFound));
    assert_eq!(validate_token_of_emode(1, true, None), Err(ControllerError::EModeCategoryNotFound));
}

#[test]
fn supply_side_validations() {
    let vault = NftAccountAttributes { is_vault: true, ..plain_account() };
    assert_eq!(validate_vault_consistency(&vault, false), Err(ControllerError::PositionShouldBeVault));
    assert_eq!(validate_vault_consistency(&plain_account(), true), Err(ControllerError::PositionShouldBeVault));
    assert_eq!(validate_vault_consistency(&vault, true), Ok(()));

    let isolated = AssetConfig { is_isolated: true, ..config() };
    let first = token("ISO-abcdef");
    assert_eq!(validate_isolated_collateral(&token("EGLD"), &isolated, &plain_account(), Some(&first)), Err(ControllerError::MixIsolatedCollateral));
    assert_eq!(validate_isolated_collateral(&first, &isolated, &plain_account(), Some(&first)), Ok(()));
    assert_eq!(validate_isolated_collateral(&token("EGLD"), &config(), &plain_account(), Some(&first)), Ok(()));

    let capped = AssetConfig { supply_cap: Some(100), ..config() };
    assert_eq!(validate_supply_cap(&capped, 40, false, 60, 10), Ok(()));
    assert_eq!(validate_supply_cap(&capped, 40, true, 60, 10), Err(ControllerError::SupplyCap));
    assert_eq!(validate_supply_cap(&config(), u128::MAX, true, u128::MAX, u128::MAX), Ok(()));
}

#[test]
fn borrow_side_validations() {
    let capped = AssetConfig { borrow_cap: Some(100), ..config() };
    assert_eq!(validate_borrow_cap(&capped, 40, 60), Ok(()));
    assert_eq!(validate_borrow_cap(&capped, 41, 60), Err(ControllerError::BorrowCap));
    assert_eq!(validate_borrow_collateral(100, 60, 40), Ok(()));
    assert_eq!(validate_borrow_collateral(100, 60, 41), Err(ControllerError::InsufficientCollateral));
    let iso = AssetConfig { debt_ceiling_usd: 1_000, ..config() };
    assert_eq!(validate_isolated_debt_ceiling(&iso, 600, 400), Ok(()));
    assert_eq!(validate_isolated_debt_ceiling(&iso, 600, 401), Err(ControllerError::DebtCeilingReached));
}

#[test]
fn siloed_borrowing_rules() {
    let siloed = AssetConfig { is_siloed: true, ..config() };
    let silo = token("SILO-abcdef");
    let egld = token("EGLD");
    let usdc = token("USDC-c76f1f");
    let acct = plain_account();
    // A siloed asset as the first borrow is fine.
    assert_eq!(validate_borrow_asset(&siloed, &silo, &acct, &vec![]), Ok(()));
    // A siloed asset next to another borrow is refused, as is a second asset next to a siloed one.
    assert_eq!(validate_borrow_asset(&siloed, &silo, &acct, &vec![(egld.clone(), false)]), Err(ControllerError::AssetNotBorrowableInSiloed));
    assert_eq!(
        validate_borrow_asset(&siloed, &silo, &acct, &vec![(egld.clone(), false), (usdc.clone(), false)]),
        Err(ControllerError::AssetNotBorrowableInSiloed)
    );
    assert_eq!(validate_borrow_asset(&config(), &egld, &acct, &vec![(silo.clone(), true)]), Err(ControllerError::AssetNotBorrowableInSiloed));
    // More of the same siloed asset is fine.
    assert_eq!(validate_borrow_asset(&siloed, &silo, &acct, &vec![(silo.clone(), true)]), Ok(()));
    // Isolated accounts borrow only assets allowed in isolation.
    let isolated = NftAccountAttributes { is_isolated: true, ..acct };
    assert_eq!(validate_borrow_asset(&config(), &egld, &isolated, &vec![]), Err(ControllerError::AssetNotBorrowableInIsolation));
    let allowed = AssetConfig { can_borrow_in_isolation: true, ..config() };
    assert_eq!(validate_borrow_asset(&allowed, &egld, &isolated, &vec![]), Ok(()));
}

#[test]
fn supply_checks_in_order() {
    let acct = plain_account();
    let egld = token("EGLD");
    // An account in a category that does not exist.
    let in_e_mode = NftAccountAttributes { e_mode_category: 1, ..acct };
    let enabled = AssetConfig { is_e_mode_enabled: true, ..config() };
    assert_eq!(
        validate_supply(enabled, &in_e_mode, false, None, None, None, &egld, None, 1, 0, 0),
        Err(ControllerError::EModeCategoryNotFound)
    );
    // An asset that is not collateral.
    let not_collateral = AssetConfig { can_be_collateral: false, ..config() };
    assert_eq!(
        validate_supply(not_collateral, &acct, false, None, None, None, &egld, None, 1, 0, 0),
        Err(ControllerError::AssetNotSupportedAsCollateral)
    );
    // Mixing an isolated collateral with another one.
    let isolated_account = NftAccountAttributes { is_isolated: true, ..acct };
    let first = token("ISO-abcdef");
    assert_eq!(
        validate_supply(config(), &isolated_account, false, None, None, None, &egld, Some(&first), 1, 0, 0),
        Err(ControllerError::MixIsolatedCollateral)
    );
    // Over the supply cap.
    let capped = AssetConfig { supply_cap: Some(10), ..config() };
    assert_eq!(validate_supply(capped, &acct, false, None, None, None, &egld, None, 11, 0, 0), Err(ControllerError::SupplyCap));
    // Accepted under the category's parameters.
    let entry = EModeAssetConfig { can_be_collateral: true, can_be_borrowed: true };
    let c = validate_supply(enabled, &in_e_mode, false, None, Some(category()), Some(entry), &egld, None, 1, 0, 0).unwrap();
    assert_eq!(c.liquidation_threshold, 9_300);
}

#[test]
fn borrow_checks_in_order() {
    let acct = plain_account();
    let egld = token("EGLD");
    let not_borrowable = AssetConfig { can_be_borrowed: false, ..config() };
    assert_eq!(
        validate_borrow(not_borrowable, &egld, &acct, &vec![], None, None, E18, E18, 18, 0, 100 * E18, 0, 40 * E18),
        Err(ControllerError::AssetNotBorrowable)
    );
    // Borrowing 60 EGLD against 50 EGLD of LTV-weighted collateral.
    assert_eq!(
        validate_borrow(config(), &egld, &acct, &vec![], None, None, 60 * E18, E18, 18, 0, 50 * E18, 0, 40 * E18),
        Err(ControllerError::InsufficientCollateral)
    );
    // 10 EGLD is worth 400 USD at 40 USD an EGLD.
    let (_, egld_value, usd) =
        validate_borrow(config(), &egld, &acct, &vec![], None, None, 10 * E18, E18, 18, 0, 50 * E18, 0, 40 * E18).unwrap();
    assert_eq!(egld_value, 10 * E18);
    assert_eq!(usd, 400 * E18);
}

#[test]
fn isolated_debt_tracking() {
    assert_eq!(update_isolated_debt_usd(100, 50, true), Some(150));
    assert_eq!(update_isolated_debt_usd(150, 50, false), Some(100));
    assert_eq!(update_isolated_debt_usd(30, 50, false), Some(0));
    assert_eq!(update_isolated_debt_usd(30, 0, false), Some(30));
    assert_eq!(update_isolated_debt_usd(u128::MAX, 1, true), None);
    // Raising then lowering by the same amount gives back the recorded debt.
    let raised = update_isolated_debt_usd(1_234, 567, true).unwrap();
    assert_eq!(update_isolated_debt_usd(raised, 567, false), Some(1_234));
}

#[test]
fn repay_covers_interest_before_principal() {
    // 2 tokens of interest and 10 of principal at 1 EGLD each.
    assert_eq!(validate_and_get_repay_amounts(2 * E18, 10 * E18, E18, 18, 5 * E18), Some(3 * E18));
    assert_eq!(validate_and_get_repay_amounts(2 * E18, 10 * E18, E18, 18, E18), Some(0));
    assert_eq!(validate_and_get_repay_amounts(2 * E18, 10 * E18, E18, 18, 50 * E18), Some(10 * E18));
}

#[test]
fn health_checks() {
    assert_eq!(validate_can_liquidate(80 * E18, 85 * E18), Ok(9_411));
    assert_eq!(validate_can_liquidate(80 * E18, 50 * E18), Err(ControllerError::HealthFactor));
    assert_eq!(validate_remain_healthy(80 * E18, 50 * E18), Ok(16_000));
    assert_eq!(validate_remain_healthy(80 * E18, 85 * E18), Err(ControllerError::HealthFactorBecomeLow));
    assert_eq!(validate_withdraw_health_factor(false, true, 80 * E18, 85 * E18, None), Err(ControllerError::HealthFactorWithdraw));
    assert_eq!(validate_withdraw_health_factor(true, true, 80 * E18, 85 * E18, None), Ok(()));
    assert_eq!(validate_withdraw_health_factor(false, false, 0, 85 * E18, None), Ok(()));
    // With a safety factor of 20 the factor must reach 1.05.
    assert_eq!(validate_withdraw_health_factor(false, true, 104 * E18, 100 * E18, Some(20)), Err(ControllerError::HealthFactorWithdraw));
    assert_eq!(validate_withdraw_health_factor(false, true, 105 * E18, 100 * E18, Some(20)), Ok(()));
    assert_eq!(validate_withdraw_health_factor(false, true, 105 * E18, 100 * E18, Some(0)), Err(ControllerError::Arithmetic));
}

#[test]
fn account_lifecycle() {
    assert_eq!(enter(true, false, Some(3)), NftAccountAttributes { is_isolated: true, e_mode_category: 0, is_vault: false });
    assert_eq!(enter(false, true, Some(3)), NftAccountAttributes { is_isolated: false, e_mode_category: 3, is_vault: true });
    assert_eq!(enter(false, false, None).e_mode_category, 0);
    assert!(handle_nft_after_withdraw(0, 0));
    assert!(!handle_nft_after_withdraw(1, 0));
    assert!(!handle_nft_after_withdraw(0, 1));
}

#[test]
fn supply_payment_shapes() {
    let nft = token("ACCOUNT-abcdef");
    let pay = |t: &str, nonce: u64| Payment { token: token(t), nonce, amount: 1 };
    assert_eq!(validate_supply_payment(false, &nft, &vec![], true), Err(ControllerError::InvalidNumberOfEsdtTransfers));
    assert_eq!(validate_supply_payment(true, &nft, &vec![pay("EGLD", 0)], true), Err(ControllerError::AddressIsZero));
    assert_eq!(validate_supply_payment(false, &nft, &vec![pay("EGLD", 0)], true), Ok((0, None)));
    assert_eq!(validate_supply_payment(false, &nft, &vec![pay("ACCOUNT-abcdef", 7)], true), Err(ControllerError::InvalidNumberOfEsdtTransfers));
    assert_eq!(validate_supply_payment(false, &nft, &vec![pay("ACCOUNT-abcdef", 7), pay("EGLD", 0)], false), Err(ControllerError::AccountNotInTheMarket));
    assert_eq!(validate_supply_payment(false, &nft, &vec![pay("ACCOUNT-abcdef", 7), pay("EGLD", 0)], true), Ok((1, Some(7))));
}

#[test]
fn flash_loan_requests() {
    assert_eq!(validate_flash_loan(&config(), true, 5, false, false), Ok(()));
    let disabled = AssetConfig { flashloan_enabled: false, ..config() };
    assert_eq!(validate_flash_loan(&disabled, true, 5, false, false), Err(ControllerError::FlashloanNotEnabled));
    assert_eq!(validate_flash_loan(&config(), false, 5, false, false), Err(ControllerError::InvalidShard));
    assert_eq!(validate_flash_loan(&config(), true, 0, false, false), Err(ControllerError::AmountMustBeGreaterThanZero));
    assert_eq!(validate_flash_loan(&config(), true, 5, true, false), Err(ControllerError::InvalidEndpoint));
    assert_eq!(validate_flash_loan(&config(), true, 5, false, true), Err(ControllerError::InvalidEndpoint));
}

#[test]
fn liquidation_payments_checked_in_order() {
    assert_eq!(validate_liquidation_payments(&vec![(true, 5), (true, 7)], false), Ok(()));
    assert_eq!(validate_liquidation_payments(&vec![(true, 5), (false, 0)], false), Err(ControllerError::AssetNotSupported));
    assert_eq!(validate_liquidation_payments(&vec![(true, 0), (false, 7)], false), Err(ControllerError::AmountMustBeGreaterThanZero));
    assert_eq!(validate_liquidation_payments(&vec![(true, 5)], true), Err(ControllerError::AddressIsZero));
    assert_eq!(validate_liquidation_payments(&vec![], false), Ok(()));
}
