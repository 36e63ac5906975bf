//! Market configuration and the controller's admission rules: asset configurations,
//! e-mode categories, account attributes, and the checks a supply, borrow, repay,
//! withdrawal, flash loan or liquidation must pass, in the order they run
//! them.
//!
//! Risk parameters (LTV, liquidation threshold, bonus, fees) are BPS raw units;
//! EGLD and USD values are WAD raw units.
use crate::liquidation::{compute_health_factor, egld_value_spec, get_token_amount_in_egld_raw, health_factor_spec};
use crate::liquidity::PoolError;
use crate::math::{BPS, WAD};
use crate::token::{same_token, TokenId};
use crate::wide::{fit, max_u128};
use vstd::prelude::*;

verus! {

/// Risk and usage configuration of a market asset.
#[derive(Clone, Copy, Debug, PartialEq, Eq, Structural)]
pub struct AssetConfig {
    pub ltv: u128,
    pub liquidation_threshold: u128,
    pub liquidation_base_bonus: u128,
    pub liquidation_max_fee: u128,
    pub is_e_mode_enabled: bool,
    pub is_isolated: bool,
    pub debt_ceiling_usd: u128,
    pub is_siloed: bool,
    pub flashloan_enabled: bool,
    pub flash_loan_fee: u128,
    pub can_be_collateral: bool,
    pub can_be_borrowed: bool,
    pub can_borrow_in_isolation: bool,
    pub borrow_cap: Option<u128>,
    pub supply_cap: Option<u128>,
}

/// An e-mode category: risk parameters shared by correlated assets.
#[derive(Clone, Copy, Debug, PartialEq, Eq, Structural)]
pub struct EModeCategory {
    pub id: u8,
    pub ltv: u128,
    pub liquidation_threshold: u128,
    pub liquidation_bonus: u128,
    pub is_deprecated: bool,
}

/// How an asset may be used within an e-mode category.
#[derive(Clone, Copy, Debug, PartialEq, Eq, Structural)]
pub struct EModeAssetConfig {
    pub can_be_collateral: bool,
    pub can_be_borrowed: bool,
}

/// Attributes of an account (its position NFT).
#[derive(Clone, Copy, Debug, PartialEq, Eq, Structural)]
pub struct NftAccountAttributes {
    pub is_isolated: bool,
    pub e_mode_category: u8,
    pub is_vault: bool,
}

/// Why the controller refuses an operation.
#[derive(Clone, Copy, Debug, PartialEq, Eq, Structural)]
pub enum ControllerError {
    AssetNotSupported,
    InvalidLiquidationThreshold,
    EModeCategoryNotFound,
    EModeCategoryDeprecated,
    AssetAlreadySupportedInEMode,
    AssetNotSupportedInEMode,
    CannotUseEModeWithIsolatedAssets,
    AssetNotSupportedAsCollateral,
    AssetNotBorrowable,
    AssetNotBorrowableInIsolation,
    AssetNotBorrowableInSiloed,
    PositionShouldBeVault,
    MixIsolatedCollateral,
    SupplyCap,
    BorrowCap,
    InsufficientCollateral,
    DebtCeilingReached,
    HealthFactor,
    HealthFactorBecomeLow,
    HealthFactorWithdraw,
    InvalidNumberOfEsdtTransfers,
    AddressIsZero,
    AccountNotInTheMarket,
    AmountMustBeGreaterThanZero,
    FlashloanNotEnabled,
    InvalidShard,
    InvalidEndpoint,
    PositionNotFound,
    NoCollateralToken,
    LiquidatedAmountAfterFeesLessThanMinAmountToReceive,
    EnableVaultModeFailed,
    /// The liquidity pool refused the operation.
    Pool(PoolError),
    /// A computation that has no result (negative difference, zero
    /// divisor, missing entry), or a value beyond 128 bits.
    Arithmetic,
}

/// The configuration `editAssetConfig` stores: the given parameters, the e-mode flag
/// kept from the old configuration, and a zero cap meaning no cap.
pub open spec fn edited_config_spec(
    old: AssetConfig,
    ltv: u128,
    liquidation_threshold: u128,
    liquidation_base_bonus: u128,
    liquidation_max_fee: u128,
    is_isolated: bool,
    debt_ceiling_usd: u128,
    is_siloed: bool,
    flashloan_enabled: bool,
    flash_loan_fee: u128,
    can_be_collateral: bool,
    can_be_borrowed: bool,
    can_borrow_in_isolation: bool,
    borrow_cap: u128,
    supply_cap: u128,
) -> AssetConfig {
    AssetConfig {
        ltv,
        liquidation_threshold,
        liquidation_base_bonus,
        liquidation_max_fee,
        is_e_mode_enabled: old.is_e_mode_enabled,
        is_isolated,
        debt_ceiling_usd,
        is_siloed,
        flashloan_enabled,
        flash_loan_fee,
        can_be_collateral,
        can_be_borrowed,
        can_borrow_in_isolation,
        borrow_cap: if borrow_cap == 0 { None } else { Some(borrow_cap) },
        supply_cap: if supply_cap == 0 { None } else { Some(supply_cap) },
    }
}

/// Edits an asset's configuration: refused for an asset without a pool or a
/// configuration, and unless the liquidation threshold exceeds the LTV.
pub fn edit_asset_config(
    pool_exists: bool,
    old_config: Option<AssetConfig>,
    ltv: u128,
    liquidation_threshold: u128,
    liquidation_base_bonus: u128,
    liquidation_max_fee: u128,
    is_isolated: bool,
    debt_ceiling_usd: u128,
    is_siloed: bool,
    flashloan_enabled: bool,
    flash_loan_fee: u128,
    can_be_collateral: bool,
    can_be_borrowed: bool,
    can_borrow_in_isolation: bool,
    borrow_cap: u128,
    supply_cap: u128,
) -> (r: Result<AssetConfig, ControllerError>)
    ensures
        !pool_exists || old_config is None ==> r == Err::<AssetConfig, ControllerError>(ControllerError::AssetNotSupported),
        pool_exists && old_config is Some && liquidation_threshold <= ltv ==> r == Err::<AssetConfig, ControllerError>(ControllerError::InvalidLiquidationThreshold),
        pool_exists && old_config is Some && liquidation_threshold > ltv ==> r == Ok::<AssetConfig, ControllerError>(edited_config_spec(
            old_config.unwrap(), ltv, liquidation_threshold, liquidation_base_bonus, liquidation_max_fee, is_isolated,
            debt_ceiling_usd, is_siloed, flashloan_enabled, flash_loan_fee, can_be_collateral, can_be_borrowed,
            can_borrow_in_isolation, borrow_cap, supply_cap)),
{
    if !pool_exists {
        return Err(ControllerError::AssetNotSupported);
    }
    let old = match old_config {
        Some(c) => c,
        None => return Err(ControllerError::AssetNotSupported),
    };
    if liquidation_threshold <= ltv {
        return Err(ControllerError::InvalidLiquidationThreshold);
    }
    Ok(AssetConfig {
        ltv,
        liquidation_threshold,
        liquidation_base_bonus,
        liquidation_max_fee,
        is_e_mode_enabled: old.is_e_mode_enabled,
        is_isolated,
        debt_ceiling_usd,
        is_siloed,
        flashloan_enabled,
        flash_loan_fee,
        can_be_collateral,
        can_be_borrowed,
        can_borrow_in_isolation,
        borrow_cap: if borrow_cap == 0 { None } else { Some(borrow_cap) },
        supply_cap: if supply_cap == 0 { None } else { Some(supply_cap) },
    })
}

/// A new e-mode category, numbered after the last one; returns the new last id too.
pub fn add_e_mode_category(last_id: u8, ltv: u128, liquidation_threshold: u128, liquidation_bonus: u128) -> (r: (u8, EModeCategory))
    requires
        last_id < u8::MAX,
    ensures
        r.0 == last_id + 1,
        r.1 == (EModeCategory { id: (last_id + 1) as u8, ltv, liquidation_threshold, liquidation_bonus, is_deprecated: false }),
{
    let id = last_id + 1;
    (id, EModeCategory { id, ltv, liquidation_threshold, liquidation_bonus, is_deprecated: false })
}

/// Replaces an existing e-mode category.
pub fn edit_e_mode_category(exists: bool, category: EModeCategory) -> (r: Result<EModeCategory, ControllerError>)
    ensures
        r == (if exists { Ok::<EModeCategory, ControllerError>(category) } else { Err(ControllerError::EModeCategoryNotFound) }),
{
    if exists {
        Ok(category)
    } else {
        Err(ControllerError::EModeCategoryNotFound)
    }
}

/// Marks an e-mode category deprecated (its assets are removed from it one by one).
pub fn remove_e_mode_category(existing: Option<EModeCategory>) -> (r: Result<EModeCategory, ControllerError>)
    ensures
        r == (match existing {
            Some(c) => Ok::<EModeCategory, ControllerError>(EModeCategory { is_deprecated: true, ..c }),
            None => Err(ControllerError::EModeCategoryNotFound),
        }),
{
    match existing {
        Some(c) => Ok(EModeCategory { is_deprecated: true, ..c }),
        None => Err(ControllerError::EModeCategoryNotFound),
    }
}

/// Adds an asset to an e-mode category: the category must exist, the asset must have
/// a pool, and neither may already list the other. Returns the asset's configuration
/// with e-mode enabled, whether that changed it, and the asset's e-mode entry.
pub fn add_asset_to_e_mode_category(
    category_exists: bool,
    pool_exists: bool,
    asset_listed_in_category: bool,
    category_listed_for_asset: bool,
    config: AssetConfig,
    can_be_collateral: bool,
    can_be_borrowed: bool,
) -> (r: Result<(AssetConfig, bool, EModeAssetConfig), ControllerError>)
    ensures
        r == (if !category_exists {
            Err(ControllerError::EModeCategoryNotFound)
        } else if !pool_exists {
            Err(ControllerError::AssetNotSupported)
        } else if asset_listed_in_category || category_listed_for_asset {
            Err(ControllerError::AssetAlreadySupportedInEMode)
        } else {
            Ok::<(AssetConfig, bool, EModeAssetConfig), ControllerError>((
                AssetConfig { is_e_mode_enabled: true, ..config },
                !config.is_e_mode_enabled,
                EModeAssetConfig { can_be_collateral, can_be_borrowed },
            ))
        }),
{
    if !category_exists {
        return Err(ControllerError::EModeCategoryNotFound);
    }
    if !pool_exists {
        return Err(ControllerError::AssetNotSupported);
    }
    if asset_listed_in_category || category_listed_for_asset {
        return Err(ControllerError::AssetAlreadySupportedInEMode);
    }
    Ok((AssetConfig { is_e_mode_enabled: true, ..config }, !config.is_e_mode_enabled, EModeAssetConfig { can_be_collateral, can_be_borrowed }))
}

/// Changes an asset's entry in an e-mode category that lists it.
pub fn edit_asset_in_e_mode_category(category_has_assets: bool, asset_listed: bool, entry: EModeAssetConfig) -> (r: Result<EModeAssetConfig, ControllerError>)
    ensures
        r == (if !category_has_assets {
            Err(ControllerError::EModeCategoryNotFound)
        } else if !asset_listed {
            Err(ControllerError::AssetNotSupportedInEMode)
        } else {
            Ok::<EModeAssetConfig, ControllerError>(entry)
        }),
{
    if !category_has_assets {
        return Err(ControllerError::EModeCategoryNotFound);
    }
    if !asset_listed {
        return Err(ControllerError::AssetNotSupportedInEMode);
    }
    Ok(entry)
}

/// Removes an asset from an e-mode category; once the asset is in no category any
/// more, e-mode is disabled in its configuration. Returns the configuration and
/// whether it changed.
pub fn remove_asset_from_e_mode_category(
    category_has_assets: bool,
    pool_exists: bool,
    asset_listed: bool,
    categories_left_for_asset: usize,
    config: AssetConfig,
) -> (r: Result<(AssetConfig, bool), ControllerError>)
    ensures
        r == (if !category_has_assets {
            Err(ControllerError::EModeCategoryNotFound)
        } else if !pool_exists {
            Err(ControllerError::AssetNotSupported)
        } else if !asset_listed {
            Err(ControllerError::AssetNotSupportedInEMode)
        } else if categories_left_for_asset == 0 {
            Ok::<(AssetConfig, bool), ControllerError>((AssetConfig { is_e_mode_enabled: false, ..config }, true))
        } else {
            Ok((config, false))
        }),
{
    if !category_has_assets {
        return Err(ControllerError::EModeCategoryNotFound);
    }
    if !pool_exists {
        return Err(ControllerError::AssetNotSupported);
    }
    if !asset_listed {
        return Err(ControllerError::AssetNotSupportedInEMode);
    }
    if categories_left_for_asset == 0 {
        Ok((AssetConfig { is_e_mode_enabled: false, ..config }, true))
    } else {
        Ok((config, false))
    }
}

/// An asset configuration with an e-mode category's parameters and the asset's
/// e-mode usage flags.
pub open spec fn with_e_mode_spec(config: AssetConfig, category: EModeCategory, entry: EModeAssetConfig) -> AssetConfig {
    AssetConfig {
        can_be_collateral: entry.can_be_collateral,
        can_be_borrowed: entry.can_be_borrowed,
        ltv: category.ltv,
        liquidation_threshold: category.liquidation_threshold,
        liquidation_base_bonus: category.liquidation_bonus,
        ..config
    }
}

/// Applies an account's e-mode to an asset's configuration when both category and
/// the asset's entry are known; otherwise the configuration is unchanged.
pub fn apply_e_mode_config(config: AssetConfig, category: Option<EModeCategory>, entry: Option<EModeAssetConfig>) -> (r: AssetConfig)
    ensures
        r == (match (category, entry) {
            (Some(c), Some(e)) => with_e_mode_spec(config, c, e),
            _ => config,
        }),
{
    match (category, entry) {
        (Some(c), Some(e)) => AssetConfig {
            can_be_collateral: e.can_be_collateral,
            can_be_borrowed: e.can_be_borrowed,
            ltv: c.ltv,
            liquidation_threshold: c.liquidation_threshold,
            liquidation_base_bonus: c.liquidation_bonus,
            ..config
        },
        _ => config,
    }
}

/// Applies the account's e-mode category to an asset's configuration when the asset
/// is not isolated, has e-mode enabled and the account is in a category: the
/// category (given, or else the stored one) must exist and not be deprecated, and
/// the asset must have an entry in it.
pub open spec fn config_for_e_mode_spec(
    config: AssetConfig,
    e_mode_id: u8,
    given: Option<EModeCategory>,
    stored: Option<EModeCategory>,
    entry: Option<EModeAssetConfig>,
) -> Result<AssetConfig, ControllerError> {
    if config.is_isolated || !config.is_e_mode_enabled || e_mode_id == 0 {
        Ok(config)
    } else {
        let category = if given is Some { given } else { stored };
        match category {
            None => Err(ControllerError::EModeCategoryNotFound),
            Some(c) => if c.is_deprecated {
                Err(ControllerError::EModeCategoryDeprecated)
            } else {
                match entry {
                    None => Err(ControllerError::AssetNotSupportedInEMode),
                    Some(e) => Ok(with_e_mode_spec(config, c, e)),
                }
            },
        }
    }
}

/// An asset's configuration under an account's e-mode (see `config_for_e_mode_spec`).
pub fn update_asset_config_for_e_mode(
    config: AssetConfig,
    e_mode_id: u8,
    given: Option<EModeCategory>,
    stored: Option<EModeCategory>,
    entry: Option<EModeAssetConfig>,
) -> (r: Result<AssetConfig, ControllerError>)
    ensures
        r == config_for_e_mode_spec(config, e_mode_id, given, stored, entry),
{
    if config.is_isolated || !config.is_e_mode_enabled || e_mode_id == 0 {
        return Ok(config);
    }
    let category = if given.is_some() { given } else { stored };
    let c = match category {
        Some(c) => c,
        None => return Err(ControllerError::EModeCategoryNotFound),
    };
    if c.is_deprecated {
        return Err(ControllerError::EModeCategoryDeprecated);
    }
    match entry {
        Some(e) => Ok(apply_e_mode_config(config, Some(c), Some(e))),
        None => Err(ControllerError::AssetNotSupportedInEMode),
    }
}

/// The category of an account's e-mode: none for id 0, else it must exist.
pub fn validate_e_mode_exists(e_mode: u8, stored: Option<EModeCategory>) -> (r: Result<Option<EModeCategory>, ControllerError>)
    ensures
        r == (if e_mode == 0 {
            Ok::<Option<EModeCategory>, ControllerError>(None)
        } else if stored is None {
            Err(ControllerError::EModeCategoryNotFound)
        } else {
            Ok(stored)
        }),
{
    if e_mode == 0 {
        return Ok(None);
    }
    match stored {
        Some(c) => Ok(Some(c)),
        None => Err(ControllerError::EModeCategoryNotFound),
    }
}

/// A deprecated category admits no new positions.
pub fn validate_not_depracated_e_mode(category: Option<EModeCategory>) -> (r: Result<(), ControllerError>)
    ensures
        r == (if category is Some && category.unwrap().is_deprecated { Err(ControllerError::EModeCategoryDeprecated) } else { Ok::<(), ControllerError>(()) }),
{
    match category {
        Some(c) => if c.is_deprecated { Err(ControllerError::EModeCategoryDeprecated) } else { Ok(()) },
        None => Ok(()),
    }
}

/// Isolated assets cannot be used in e-mode.
pub fn validate_e_mode_not_isolated(config: &AssetConfig, e_mode: u8) -> (r: Result<(), ControllerError>)
    ensures
        r == (if config.is_isolated && e_mode != 0 { Err(ControllerError::CannotUseEModeWithIsolatedAssets) } else { Ok::<(), ControllerError>(()) }),
{
    if config.is_isolated && e_mode != 0 {
        Err(ControllerError::CannotUseEModeWithIsolatedAssets)
    } else {
        Ok(())
    }
}

/// The asset's entry in the account's e-mode category: none for id 0; otherwise the
/// asset must list the category and the category must list the asset.
pub fn validate_token_of_emode(e_mode: u8, asset_lists_category: bool, entry: Option<EModeAssetConfig>) -> (r: Result<Option<EModeAssetConfig>, ControllerError>)
    ensures
        r == (if e_mode == 0 {
            Ok::<Option<EModeAssetConfig>, ControllerError>(None)
        } else if !asset_lists_category || entry is None {
            Err(ControllerError::EModeCategoryNotFound)
        } else {
            Ok(entry)
        }),
{
    if e_mode == 0 {
        return Ok(None);
    }
    if !asset_lists_category {
        return Err(ControllerError::EModeCategoryNotFound);
    }
    match entry {
        Some(e) => Ok(Some(e)),
        None => Err(ControllerError::EModeCategoryNotFound),
    }
}

/// A vault operation needs a vault account and a vault account only takes vault
/// operations.
pub fn validate_vault_consistency(attributes: &NftAccountAttributes, is_vault: bool) -> (r: Result<(), ControllerError>)
    ensures
        r == (if attributes.is_vault != is_vault { Err(ControllerError::PositionShouldBeVault) } else { Ok::<(), ControllerError>(()) }),
{
    if attributes.is_vault || is_vault {
        if attributes.is_vault != is_vault {
            return Err(ControllerError::PositionShouldBeVault);
        }
    }
    Ok(())
}

/// An isolated asset or account holds a single collateral: a supply must be of the
/// token already deposited first, if any.
pub fn validate_isolated_collateral(token: &TokenId, config: &AssetConfig, attributes: &NftAccountAttributes, first_deposit: Option<&TokenId>) -> (r: Result<(), ControllerError>)
    ensures
        r == (if (config.is_isolated || attributes.is_isolated) && first_deposit is Some && first_deposit.unwrap()@ != token@ {
            Err(ControllerError::MixIsolatedCollateral)
        } else {
            Ok::<(), ControllerError>(())
        }),
{
    if !config.is_isolated && !attributes.is_isolated {
        return Ok(());
    }
    match first_deposit {
        Some(f) => if same_token(f, token) { Ok(()) } else { Err(ControllerError::MixIsolatedCollateral) },
        None => Ok(()),
    }
}

/// A supply may not take the asset's total supplied (with the vaults' share for a
/// vault supply) past its cap.
pub fn validate_supply_cap(config: &AssetConfig, amount: u128, is_vault: bool, total_supplied: u128, vault_supplied: u128) -> (r: Result<(), ControllerError>)
    ensures
        r == (match config.supply_cap {
            Some(cap) => if total_supplied + (if is_vault { vault_supplied as int } else { 0 }) + amount <= cap {
                Ok::<(), ControllerError>(())
            } else {
                Err(ControllerError::SupplyCap)
            },
            None => Ok(()),
        }),
{
    match config.supply_cap {
        Some(cap) => {
            let extra: u128 = if is_vault { vault_supplied } else { 0 };
            if total_supplied <= cap && extra <= cap - total_supplied && amount <= cap - total_supplied - extra {
                Ok(())
            } else {
                Err(ControllerError::SupplyCap)
            }
        },
        None => Ok(()),
    }
}

/// A borrow may not take the asset's total borrowed past its cap.
pub fn validate_borrow_cap(config: &AssetConfig, amount: u128, total_borrowed: u128) -> (r: Result<(), ControllerError>)
    ensures
        r == (match config.borrow_cap {
            Some(cap) => if total_borrowed + amount <= cap { Ok::<(), ControllerError>(()) } else { Err(ControllerError::BorrowCap) },
            None => Ok(()),
        }),
{
    match config.borrow_cap {
        Some(cap) => if total_borrowed <= cap && amount <= cap - total_borrowed { Ok(()) } else { Err(ControllerError::BorrowCap) },
        None => Ok(()),
    }
}

/// Whether a new borrow respects isolation and siloed borrowing, given the account's
/// borrows as `(token, its asset is siloed)`.
pub open spec fn borrow_asset_spec(config: AssetConfig, token: Seq<u8>, attributes: NftAccountAttributes, borrows: Seq<(Seq<u8>, bool)>) -> Result<(), ControllerError> {
    if attributes.is_isolated && !config.can_borrow_in_isolation {
        Err(ControllerError::AssetNotBorrowableInIsolation)
    } else if config.is_siloed && borrows.len() > 1 {
        Err(ControllerError::AssetNotBorrowableInSiloed)
    } else if borrows.len() == 1 && (borrows[0].1 || config.is_siloed) && token != borrows[0].0 {
        Err(ControllerError::AssetNotBorrowableInSiloed)
    } else {
        Ok(())
    }
}

/// The view of an account's borrows as `(token, siloed)` pairs.
pub open spec fn borrows_view(borrows: Seq<(TokenId, bool)>) -> Seq<(Seq<u8>, bool)> {
    borrows.map_values(|b: (TokenId, bool)| (b.0@, b.1))
}

/// Checks isolation and siloed-borrowing rules for a new borrow.
pub fn validate_borrow_asset(config: &AssetConfig, token: &TokenId, attributes: &NftAccountAttributes, borrows: &Vec<(TokenId, bool)>) -> (r: Result<(), ControllerError>)
    ensures
        r == borrow_asset_spec(*config, token@, *attributes, borrows_view(borrows@)),
{
    if attributes.is_isolated && !config.can_borrow_in_isolation {
        return Err(ControllerError::AssetNotBorrowableInIsolation);
    }
    if config.is_siloed && borrows.len() > 1 {
        return Err(ControllerError::AssetNotBorrowableInSiloed);
    }
    if borrows.len() == 1 {
        let first_siloed = borrows[0].1;
        if (first_siloed || config.is_siloed) && !same_token(token, &borrows[0].0) {
            return Err(ControllerError::AssetNotBorrowableInSiloed);
        }
    }
    Ok(())
}

/// The LTV-weighted collateral must cover the existing and the new debt.
pub fn validate_borrow_collateral(ltv_collateral: u128, borrowed: u128, amount_to_borrow: u128) -> (r: Result<(), ControllerError>)
    ensures
        r == (if ltv_collateral >= borrowed + amount_to_borrow { Ok::<(), ControllerError>(()) } else { Err(ControllerError::InsufficientCollateral) }),
{
    if borrowed <= ltv_collateral && amount_to_borrow <= ltv_collateral - borrowed {
        Ok(())
    } else {
        Err(ControllerError::InsufficientCollateral)
    }
}

/// An isolated collateral's debt (USD) may not pass its ceiling.
pub fn validate_isolated_debt_ceiling(config: &AssetConfig, current_debt_usd: u128, amount_usd: u128) -> (r: Result<(), ControllerError>)
    ensures
        r == (if current_debt_usd + amount_usd <= config.debt_ceiling_usd { Ok::<(), ControllerError>(()) } else { Err(ControllerError::DebtCeilingReached) }),
{
    if current_debt_usd <= config.debt_ceiling_usd && amount_usd <= config.debt_ceiling_usd - current_debt_usd {
        Ok(())
    } else {
        Err(ControllerError::DebtCeilingReached)
    }
}

/// Debt (USD) recorded against an isolated collateral after a change: increases add
/// (`None` past 128 bits), decreases subtract down to zero at most.
pub open spec fn isolated_debt_spec(current: int, amount_usd: int, is_increase: bool) -> Option<u128> {
    if amount_usd == 0 {
        fit(current)
    } else if is_increase {
        fit(current + amount_usd)
    } else if current > amount_usd {
        fit(current - amount_usd)
    } else {
        Some(0u128)
    }
}

/// Debt (USD) recorded against an isolated collateral after a change (see
/// `isolated_debt_spec`).
pub fn update_isolated_debt_usd(current: u128, amount_usd: u128, is_increase: bool) -> (r: Option<u128>)
    ensures
        r == isolated_debt_spec(current as int, amount_usd as int, is_increase),
{
    if amount_usd == 0 {
        return Some(current);
    }
    if is_increase {
        if current <= u128::MAX - amount_usd { Some(current + amount_usd) } else { None }
    } else if current > amount_usd {
        Some(current - amount_usd)
    } else {
        Some(0)
    }
}

/// EGLD value of the principal a repayment covers: what exceeds the accrued
/// interest's value, up to the principal's value.
pub open spec fn repay_principal_spec(interest_egld: int, principal_egld: int, repay_egld: int) -> int {
    if repay_egld > interest_egld {
        if repay_egld - interest_egld <= principal_egld { repay_egld - interest_egld } else { principal_egld }
    } else {
        0
    }
}

/// EGLD value (WAD) of the principal repaid, from the position's interest and
/// principal (token units at the feed's decimals) and the repayment's value.
pub fn validate_and_get_repay_amounts(accumulated_interest: u128, principal: u128, price: u128, decimals: u8, repay_egld: u128) -> (r: Option<u128>)
    requires
        decimals <= 38,
    ensures
        r matches Some(v) ==> fit(egld_value_spec(accumulated_interest as int, price as int, decimals as nat)) is Some
            && fit(egld_value_spec(principal as int, price as int, decimals as nat)) is Some
            && v == repay_principal_spec(egld_value_spec(accumulated_interest as int, price as int, decimals as nat), egld_value_spec(principal as int, price as int, decimals as nat), repay_egld as int),
        r is None <==> fit(egld_value_spec(accumulated_interest as int, price as int, decimals as nat)) is None
            || fit(egld_value_spec(principal as int, price as int, decimals as nat)) is None,
{
    let interest_egld = get_token_amount_in_egld_raw(accumulated_interest, price, decimals as usize)?;
    let principal_egld = get_token_amount_in_egld_raw(principal, price, decimals as usize)?;
    if repay_egld > interest_egld {
        let over = repay_egld - interest_egld;
        Some(if over <= principal_egld { over } else { principal_egld })
    } else {
        Some(0)
    }
}

/// Health factor of a position that may be liquidated: below 1.0.
pub fn validate_can_liquidate(weighted_collateral: u128, borrowed: u128) -> (r: Result<u128, ControllerError>)
    ensures
        r == (match fit(health_factor_spec(weighted_collateral as int, borrowed as int)) {
            None => Err(ControllerError::HealthFactor),
            Some(hf) => if hf < BPS { Ok::<u128, ControllerError>(hf) } else { Err(ControllerError::HealthFactor) },
        }),
{
    match compute_health_factor(weighted_collateral, borrowed) {
        Some(hf) => if hf < BPS { Ok(hf) } else { Err(ControllerError::HealthFactor) },
        None => Err(ControllerError::HealthFactor),
    }
}

/// Health factor of a position that must stay healthy: at least 1.0.
pub fn validate_remain_healthy(weighted_collateral: u128, borrowed: u128) -> (r: Result<u128, ControllerError>)
    ensures
        r == (match fit(health_factor_spec(weighted_collateral as int, borrowed as int)) {
            None => Err(ControllerError::Arithmetic),
            Some(hf) => if hf >= BPS { Ok::<u128, ControllerError>(hf) } else { Err(ControllerError::HealthFactorBecomeLow) },
        }),
{
    match compute_health_factor(weighted_collateral, borrowed) {
        Some(hf) => if hf >= BPS { Ok(hf) } else { Err(ControllerError::HealthFactorBecomeLow) },
        None => Err(ControllerError::Arithmetic),
    }
}

/// Whether an account with debt stays healthy after a withdrawal: its health factor
/// must reach 1.0 (10000 basis points), or `1.0 + 1.0 / safety_factor` when a safety factor is given.
/// Liquidations and accounts without debt are not checked.
pub open spec fn withdraw_health_spec(is_liquidation: bool, has_borrows: bool, weighted: int, borrowed: int, safety_factor: Option<u128>) -> Result<(), ControllerError> {
    if is_liquidation || !has_borrows {
        Ok(())
    } else {
        let hf = health_factor_spec(weighted, borrowed);
        match safety_factor {
            Some(0) => Err(ControllerError::Arithmetic),
            _ => {
                let required = match safety_factor {
                    Some(f) => (BPS as int) + (BPS as int) / (f as int),
                    None => BPS as int,
                };
                if hf >= required { Ok(()) } else { Err(ControllerError::HealthFactorWithdraw) }
            },
        }
    }
}

/// Checks the health factor after a withdrawal (see `withdraw_health_spec`).
pub fn validate_withdraw_health_factor(is_liquidation: bool, has_borrows: bool, weighted_collateral: u128, borrowed: u128, safety_factor: Option<u128>) -> (r: Result<(), ControllerError>)
    ensures
        r == withdraw_health_spec(is_liquidation, has_borrows, weighted_collateral as int, borrowed as int, safety_factor),
{
    if is_liquidation || !has_borrows {
        return Ok(());
    }
    let hf: u128 = match compute_health_factor(weighted_collateral, borrowed) {
        Some(v) => v,
        None => u128::MAX,
    };
    let required = match safety_factor {
        Some(f) => {
            if f == 0 {
                return Err(ControllerError::Arithmetic);
            }
            BPS + BPS / f
        },
        None => BPS,
    };
    proof {
        if fit(health_factor_spec(weighted_collateral as int, borrowed as int)) is None {
            assert(health_factor_spec(weighted_collateral as int, borrowed as int) > max_u128());
        }
    }
    if hf >= required {
        Ok(())
    } else {
        Err(ControllerError::HealthFactorWithdraw)
    }
}

/// Attributes of a new account: an isolated account never uses e-mode.
pub fn enter(is_isolated: bool, is_vault: bool, e_mode_category: Option<u8>) -> (r: NftAccountAttributes)
    ensures
        r == (NftAccountAttributes {
            is_isolated,
            e_mode_category: if is_isolated { 0 } else { match e_mode_category { Some(e) => e, None => 0 } },
            is_vault,
        }),
{
    NftAccountAttributes {
        is_isolated,
        e_mode_category: if is_isolated { 0 } else { match e_mode_category { Some(e) => e, None => 0 } },
        is_vault,
    }
}

/// Whether an account's NFT is burnt after a withdrawal: when it holds no position.
pub fn handle_nft_after_withdraw(deposit_positions: usize, borrow_positions: usize) -> (r: bool)
    ensures
        r == (deposit_positions == 0 && borrow_positions == 0),
{
    deposit_positions == 0 && borrow_positions == 0
}

/// A token payment: token, nonce and amount.
#[derive(Debug)]
pub struct Payment {
    pub token: TokenId,
    pub nonce: u64,
    pub amount: u128,
}

/// Splits a supply's payments into its collateral and the account NFT, which may
/// come first: there must be a payment, the caller must not be the zero address,
/// exactly one collateral payment must be sent, and an NFT must belong to an active
/// account. Returns the index of the collateral payment and the NFT's nonce.
pub fn validate_supply_payment(caller_is_zero: bool, account_token: &TokenId, payments: &Vec<Payment>, first_is_active_account: bool) -> (r: Result<(usize, Option<u64>), ControllerError>)
    ensures
        r == (if payments@.len() < 1 {
            Err(ControllerError::InvalidNumberOfEsdtTransfers)
        } else if caller_is_zero {
            Err(ControllerError::AddressIsZero)
        } else if payments@[0].token@ == account_token@ {
            if payments@.len() != 2 {
                Err(ControllerError::InvalidNumberOfEsdtTransfers)
            } else if !first_is_active_account {
                Err(ControllerError::AccountNotInTheMarket)
            } else {
                Ok::<(usize, Option<u64>), ControllerError>((1usize, Some(payments@[0].nonce)))
            }
        } else if payments@.len() != 1 {
            Err(ControllerError::InvalidNumberOfEsdtTransfers)
        } else {
            Ok((0usize, None))
        }),
{
    if payments.len() < 1 {
        return Err(ControllerError::InvalidNumberOfEsdtTransfers);
    }
    if caller_is_zero {
        return Err(ControllerError::AddressIsZero);
    }
    if same_token(&payments[0].token, account_token) {
        if payments.len() != 2 {
            return Err(ControllerError::InvalidNumberOfEsdtTransfers);
        }
        if !first_is_active_account {
            return Err(ControllerError::AccountNotInTheMarket);
        }
        Ok((1, Some(payments[0].nonce)))
    } else if payments.len() != 1 {
        Err(ControllerError::InvalidNumberOfEsdtTransfers)
    } else {
        Ok((0, None))
    }
}

/// The error of the first refused liquidation payment, given as `(its asset has a
/// pool, its amount)` from index `i` on: an asset without a pool, or a zero amount.
pub open spec fn first_payment_error(s: Seq<(bool, u128)>, i: int) -> Option<ControllerError>
    decreases s.len() - i,
{
    if i < 0 || i >= s.len() {
        None
    } else if !s[i].0 {
        Some(ControllerError::AssetNotSupported)
    } else if s[i].1 == 0 {
        Some(ControllerError::AmountMustBeGreaterThanZero)
    } else {
        first_payment_error(s, i + 1)
    }
}

/// Checks a liquidator's payments, in order (each must be of a market asset and of a
/// positive amount), then that the caller is not the zero address.
pub fn validate_liquidation_payments(payments: &Vec<(bool, u128)>, caller_is_zero: bool) -> (r: Result<(), ControllerError>)
    ensures
        r == (match first_payment_error(payments@, 0) {
            Some(e) => Err(e),
            None => if caller_is_zero { Err(ControllerError::AddressIsZero) } else { Ok::<(), ControllerError>(()) },
        }),
{
    let mut i: usize = 0;
    while i < payments.len()
        invariant
            i <= payments@.len(),
            first_payment_error(payments@, 0) == first_payment_error(payments@, i as int),
        decreases payments@.len() - i,
    {
        let (supported, amount) = payments[i];
        if !supported {
            return Err(ControllerError::AssetNotSupported);
        }
        if amount == 0 {
            return Err(ControllerError::AmountMustBeGreaterThanZero);
        }
        i = i + 1;
    }
    if caller_is_zero {
        Err(ControllerError::AddressIsZero)
    } else {
        Ok(())
    }
}

/// Checks a flash loan request: enabled for the asset, to a contract on the same
/// shard, of a positive amount, to a named endpoint that is not a built-in function.
pub fn validate_flash_loan(config: &AssetConfig, same_shard: bool, amount: u128, endpoint_is_builtin: bool, endpoint_is_empty: bool) -> (r: Result<(), ControllerError>)
    ensures
        r == (if !config.flashloan_enabled {
            Err(ControllerError::FlashloanNotEnabled)
        } else if !same_shard {
            Err(ControllerError::InvalidShard)
        } else if amount == 0 {
            Err(ControllerError::AmountMustBeGreaterThanZero)
        } else if endpoint_is_builtin || endpoint_is_empty {
            Err(ControllerError::InvalidEndpoint)
        } else {
            Ok::<(), ControllerError>(())
        }),
{
    if !config.flashloan_enabled {
        return Err(ControllerError::FlashloanNotEnabled);
    }
    if !same_shard {
        return Err(ControllerError::InvalidShard);
    }
    if amount == 0 {
        return Err(ControllerError::AmountMustBeGreaterThanZero);
    }
    if endpoint_is_builtin || endpoint_is_empty {
        return Err(ControllerError::InvalidEndpoint);
    }
    Ok(())
}

/// Repaying exactly what was just borrowed against an isolated collateral brings its
/// recorded debt back to what it was; a decrease never raises the recorded debt.
pub proof fn lemma_isolated_debt_round_trip(current: u128, amount_usd: u128)
    ensures
        isolated_debt_spec(current as int, amount_usd as int, true) matches Some(raised)
            ==> isolated_debt_spec(raised as int, amount_usd as int, false) == Some(current),
        isolated_debt_spec(current as int, amount_usd as int, false) matches Some(lowered)
            ==> lowered <= current,
{
}

/// Resolving an asset's configuration under an account's e-mode a second time, with
/// the same category and entry, leaves the resolved configuration as it is.
pub proof fn lemma_e_mode_config_idempotent(
    config: AssetConfig,
    e_mode_id: u8,
    given: Option<EModeCategory>,
    stored: Option<EModeCategory>,
    entry: Option<EModeAssetConfig>,
)
    ensures
        config_for_e_mode_spec(config, e_mode_id, given, stored, entry) matches Ok(resolved)
            ==> config_for_e_mode_spec(resolved, e_mode_id, given, stored, entry) == Ok::<AssetConfig, ControllerError>(resolved),
{
}

} // verus!
