//! Supply, borrow, repay and leverage flows of the controller: the checks each one
//! runs, in order, and the position updates they make through the
//! asset's liquidity pool.
//!
//! When a later step of a flow fails, the pool is left as it was before the flow,
//! as the aborted transaction leaves it.
use crate::controller::{
    apply_e_mode_config, config_for_e_mode_spec, enter, update_asset_config_for_e_mode,
    update_isolated_debt_usd, validate_borrow_asset, validate_borrow_cap, validate_borrow_collateral,
    validate_e_mode_exists, validate_e_mode_not_isolated, validate_isolated_collateral,
    validate_isolated_debt_ceiling, validate_not_depracated_e_mode, validate_supply_cap,
    validate_token_of_emode, validate_vault_consistency, borrow_asset_spec, borrows_view,
    AssetConfig, ControllerError, EModeAssetConfig, EModeCategory, NftAccountAttributes,
};
use crate::liquidation::{compute_egld_in_tokens, egld_in_tokens_spec, egld_value_spec, get_token_amount_in_egld_raw};
use crate::liquidation_bp::BP;
use crate::liquidity::{borrow_spec, repay_spec, supply_spec, LiquidityPool, PoolError};
use crate::pool::{original_of, to_original, PoolState};
use crate::position::{AccountPosition, AccountPositionType};
use crate::token::TokenId;
use crate::account::{account_withdraw_health_spec, validate_account_withdraw_health};
use crate::valuation::{CollateralValue, DebtValue};
use crate::wide::{fit, max_u128, two128};
use vstd::prelude::*;

verus! {

/// Checks a supply of collateral, in this order: the account's e-mode is
/// applied to the asset's configuration, the asset must be usable as collateral, the
/// supply must match the account's vault kind, respect isolation, and stay within the
/// supply cap. Yields the configuration the position is opened under.
pub open spec fn supply_checks_spec(
    config: AssetConfig,
    attributes: NftAccountAttributes,
    is_vault: bool,
    given: Option<EModeCategory>,
    stored: Option<EModeCategory>,
    entry: Option<EModeAssetConfig>,
    token: Seq<u8>,
    first_deposit: Option<Seq<u8>>,
    amount: int,
    total_supplied: int,
    vault_supplied: int,
) -> Result<AssetConfig, ControllerError> {
    match config_for_e_mode_spec(config, attributes.e_mode_category, given, stored, entry) {
        Err(e) => Err(e),
        Ok(c) => if !c.can_be_collateral {
            Err(ControllerError::AssetNotSupportedAsCollateral)
        } else if attributes.is_vault != is_vault {
            Err(ControllerError::PositionShouldBeVault)
        } else if (c.is_isolated || attributes.is_isolated) && first_deposit is Some && first_deposit.unwrap() != token {
            Err(ControllerError::MixIsolatedCollateral)
        } else if c.supply_cap is Some && total_supplied + (if is_vault { vault_supplied } else { 0 }) + amount > c.supply_cap.unwrap() {
            Err(ControllerError::SupplyCap)
        } else {
            Ok(c)
        },
    }
}

/// The view of an optional identifier reference.
pub open spec fn opt_token_view(t: Option<&TokenId>) -> Option<Seq<u8>> {
    match t {
        Some(x) => Some(x@),
        None => None,
    }
}

/// Checks a supply of collateral (see `supply_checks_spec`).
pub fn validate_supply(
    config: AssetConfig,
    attributes: &NftAccountAttributes,
    is_vault: bool,
    given: Option<EModeCategory>,
    stored: Option<EModeCategory>,
    entry: Option<EModeAssetConfig>,
    token: &TokenId,
    first_deposit: Option<&TokenId>,
    amount: u128,
    total_supplied: u128,
    vault_supplied: u128,
) -> (r: Result<AssetConfig, ControllerError>)
    ensures
        r == supply_checks_spec(config, *attributes, is_vault, given, stored, entry, token@, opt_token_view(first_deposit), amount as int, total_supplied as int, vault_supplied as int),
{
    let c = update_asset_config_for_e_mode(config, attributes.e_mode_category, given, stored, entry)?;
    if !c.can_be_collateral {
        return Err(ControllerError::AssetNotSupportedAsCollateral);
    }
    validate_vault_consistency(attributes, is_vault)?;
    validate_isolated_collateral(token, &c, attributes, first_deposit)?;
    validate_supply_cap(&c, amount, is_vault, total_supplied, vault_supplied)?;
    Ok(c)
}

/// A new position of an account in an asset, opened under the asset's parameters.
pub fn new_position(position_type: AccountPositionType, token: &TokenId, account_nonce: u64, config: &AssetConfig, is_vault: bool) -> (r: AccountPosition)
    ensures
        r.position_type == position_type,
        r.asset_id@ == token@,
        r.scaled_amount == 0,
        r.account_nonce == account_nonce,
        r.liquidation_threshold == config.liquidation_threshold,
        r.liquidation_bonus == config.liquidation_base_bonus,
        r.liquidation_fees == config.liquidation_max_fee,
        r.loan_to_value == config.ltv,
        r.is_vault == is_vault,
{
    AccountPosition::new(
        position_type,
        token.clone(),
        account_nonce,
        config.liquidation_threshold,
        config.liquidation_base_bonus,
        config.liquidation_max_fee,
        config.ltv,
        is_vault,
    )
}

/// The deposit position a supply goes to: the existing one, or a new one under the
/// asset's parameters; its LTV, bonus and fee are refreshed from the configuration.
pub open spec fn supply_target_ok(existing: Option<AccountPosition>, p: AccountPosition, token: Seq<u8>, account_nonce: u64, config: AssetConfig, is_vault: bool) -> bool {
    &&& p.loan_to_value == config.ltv
    &&& p.liquidation_bonus == config.liquidation_base_bonus
    &&& p.liquidation_fees == config.liquidation_max_fee
    &&& match existing {
        Some(e) => p.position_type == e.position_type && p.asset_id@ == e.asset_id@ && p.scaled_amount == e.scaled_amount
            && p.account_nonce == e.account_nonce && p.liquidation_threshold == e.liquidation_threshold && p.is_vault == e.is_vault,
        None => p.position_type == AccountPositionType::Deposit && p.asset_id@ == token && p.scaled_amount == 0
            && p.account_nonce == account_nonce && p.liquidation_threshold == config.liquidation_threshold && p.is_vault == is_vault,
    }
}

fn get_or_create_deposit_position(existing: Option<AccountPosition>, token: &TokenId, account_nonce: u64, config: &AssetConfig, is_vault: bool) -> (r: AccountPosition)
    ensures
        supply_target_ok(existing, r, token@, account_nonce, *config, is_vault),
{
    let p = match existing {
        Some(p) => p,
        None => new_position(AccountPositionType::Deposit, token, account_nonce, config, is_vault),
    };
    AccountPosition {
        loan_to_value: config.ltv,
        liquidation_bonus: config.liquidation_base_bonus,
        liquidation_fees: config.liquidation_max_fee,
        ..p
    }
}

/// Adds a supply to an account's deposit position (see `supply_target_ok`): a vault
/// supply adds the amount to the position and to the vault's total; a market supply
/// goes through the pool. Yields the position and the vault's total.
pub fn update_supply_position(
    pool: &mut LiquidityPool,
    existing: Option<AccountPosition>,
    token: &TokenId,
    amount: u128,
    account_nonce: u64,
    config: &AssetConfig,
    is_vault: bool,
    vault_supplied: u128,
    now: u64,
) -> (r: Result<(AccountPosition, u128), ControllerError>)
    requires
        old(pool).state.valid(),
    ensures
        final(pool).state.valid(),
        final(pool).asset_id@ == old(pool).asset_id@,
        is_vault ==> final(pool).state == old(pool).state,
        is_vault ==> (match existing { Some(e) => e.scaled_amount as int, None => 0int }) + amount > max_u128() || vault_supplied + amount > max_u128()
            ==> r == Err::<(AccountPosition, u128), ControllerError>(ControllerError::Arithmetic),
        is_vault && (match existing { Some(e) => e.scaled_amount as int, None => 0int }) + amount <= max_u128() && vault_supplied + amount <= max_u128()
            ==> (r matches Ok((p, v)) && v == vault_supplied + amount
                && p.scaled_amount == (match existing { Some(e) => e.scaled_amount as int, None => 0int }) + amount
                && exists|t: AccountPosition| supply_target_ok(existing, t, token@, account_nonce, *config, is_vault) && p.same_except_amount(&t)),
        !is_vault ==> exists|t: AccountPosition| supply_target_ok(existing, t, token@, account_nonce, *config, is_vault) && match supply_spec(old(pool).state, token@ == old(pool).asset_id@, t.asset_id@ == old(pool).asset_id@, t.scaled_amount as int, amount as int, now) {
            Err(e) => r == Err::<(AccountPosition, u128), ControllerError>(ControllerError::Pool(e)) && final(pool).state == old(pool).state,
            Ok((ns, sc)) => r matches Ok((p, v)) && final(pool).state == ns && p.scaled_amount == sc && p.same_except_amount(&t) && v == vault_supplied,
        },
{
    let target = get_or_create_deposit_position(existing, token, account_nonce, config, is_vault);
    if is_vault {
        if target.scaled_amount > u128::MAX - amount || vault_supplied > u128::MAX - amount {
            return Err(ControllerError::Arithmetic);
        }
        let new_amount = target.scaled_amount + amount;
        let p = target.with_scaled_amount(new_amount);
        Ok((p, vault_supplied + amount))
    } else {
        let ghost t = target;
        match pool.supply(token, amount, target, now) {
            Ok(p) => Ok((p, vault_supplied)),
            Err(e) => Err(ControllerError::Pool(e)),
        }
    }
}

/// Checks a borrow, in this order: isolation and siloed rules, the
/// account's e-mode applied to the asset, the asset must be borrowable, the borrow
/// cap, and the LTV-weighted collateral must cover the debt with the new loan. Yields
/// the configuration, the loan's EGLD value and its USD value.
pub open spec fn borrow_checks_spec(
    config: AssetConfig,
    token: Seq<u8>,
    attributes: NftAccountAttributes,
    borrows: Seq<(Seq<u8>, bool)>,
    stored: Option<EModeCategory>,
    entry: Option<EModeAssetConfig>,
    amount: int,
    price: int,
    decimals: nat,
    total_borrowed: int,
    ltv_collateral: int,
    borrowed_egld: int,
    egld_usd_price: int,
) -> Result<(AssetConfig, u128, u128), ControllerError> {
    match borrow_asset_spec(config, token, attributes, borrows) {
        Err(e) => Err(e),
        Ok(_) => match config_for_e_mode_spec(config, attributes.e_mode_category, None, stored, entry) {
            Err(e) => Err(e),
            Ok(c) => if !c.can_be_borrowed {
                Err(ControllerError::AssetNotBorrowable)
            } else if c.borrow_cap is Some && total_borrowed + amount > c.borrow_cap.unwrap() {
                Err(ControllerError::BorrowCap)
            } else {
                match fit(egld_value_spec(amount, price, decimals)) {
                    None => Err(ControllerError::Arithmetic),
                    Some(v) => if ltv_collateral < borrowed_egld + v {
                        Err(ControllerError::InsufficientCollateral)
                    } else {
                        match fit(egld_value_spec(v as int, egld_usd_price, 18)) {
                            None => Err(ControllerError::Arithmetic),
                            Some(usd) => Ok((c, v, usd)),
                        }
                    },
                }
            },
        },
    }
}

/// Checks a borrow (see `borrow_checks_spec`).
pub fn validate_borrow(
    config: AssetConfig,
    token: &TokenId,
    attributes: &NftAccountAttributes,
    borrows: &Vec<(TokenId, bool)>,
    stored: Option<EModeCategory>,
    entry: Option<EModeAssetConfig>,
    amount: u128,
    price: u128,
    decimals: u8,
    total_borrowed: u128,
    ltv_collateral: u128,
    borrowed_egld: u128,
    egld_usd_price: u128,
) -> (r: Result<(AssetConfig, u128, u128), ControllerError>)
    requires
        decimals <= 38,
    ensures
        r == borrow_checks_spec(config, token@, *attributes, borrows_view(borrows@), stored, entry, amount as int, price as int,
            decimals as nat, total_borrowed as int, ltv_collateral as int, borrowed_egld as int, egld_usd_price as int),
{
    validate_borrow_asset(&config, token, attributes, borrows)?;
    let c = update_asset_config_for_e_mode(config, attributes.e_mode_category, None, stored, entry)?;
    if !c.can_be_borrowed {
        return Err(ControllerError::AssetNotBorrowable);
    }
    validate_borrow_cap(&c, amount, total_borrowed)?;
    let v = match get_token_amount_in_egld_raw(amount, price, decimals as usize) {
        Some(v) => v,
        None => return Err(ControllerError::Arithmetic),
    };
    validate_borrow_collateral(ltv_collateral, borrowed_egld, v)?;
    let usd = match crate::liquidation::get_token_amount_in_dollars_raw(v, egld_usd_price, 18) {
        Some(u) => u,
        None => return Err(ControllerError::Arithmetic),
    };
    Ok((c, v, usd))
}

/// The isolated collateral backing a borrow of an isolated account: its
/// configuration and the debt (USD) already recorded against it.
#[derive(Clone, Copy, Debug)]
pub struct IsolatedDebt {
    pub collateral_config: AssetConfig,
    pub current_debt_usd: u128,
}

/// Lends to an account: the borrow goes through the pool on the existing borrow
/// position or a new one; for an isolated account the collateral's debt ceiling is
/// then checked and its recorded debt raised. Yields the position and the collateral's
/// new debt (for an isolated account).
pub fn handle_borrow_position(
    pool: &mut LiquidityPool,
    existing: Option<AccountPosition>,
    token: &TokenId,
    amount: u128,
    account_nonce: u64,
    config: &AssetConfig,
    attributes: &NftAccountAttributes,
    amount_usd: u128,
    isolated: Option<IsolatedDebt>,
    reserves: u128,
    now: u64,
) -> (r: Result<(AccountPosition, Option<u128>), ControllerError>)
    requires
        old(pool).state.valid(),
    ensures
        final(pool).state.valid(),
        final(pool).asset_id@ == old(pool).asset_id@,
        r is Err ==> final(pool).state == old(pool).state,
        r matches Ok((p, debt)) ==> (exists|t: AccountPosition| #[trigger] t.scaled_amount == (match existing { Some(e) => e.scaled_amount, None => 0 })
            && (match existing {
                Some(e) => t.same_except_amount(&e),
                None => t.position_type == AccountPositionType::Borrow && t.asset_id@ == token@ && t.account_nonce == account_nonce
                    && t.liquidation_threshold == config.liquidation_threshold && t.liquidation_bonus == config.liquidation_base_bonus
                    && t.liquidation_fees == config.liquidation_max_fee && t.loan_to_value == config.ltv && t.is_vault == attributes.is_vault,
            })
            && borrow_spec(old(pool).state, t.asset_id@ == old(pool).asset_id@, t.scaled_amount as int, amount as int, reserves as int, now)
                == Ok::<(PoolState, u128), PoolError>((final(pool).state, p.scaled_amount)) && p.same_except_amount(&t))
            && (attributes.is_isolated <==> debt is Some)
            && (debt matches Some(d) ==> (isolated matches Some(i) && i.current_debt_usd + amount_usd <= i.collateral_config.debt_ceiling_usd
                && d == (if amount_usd == 0 { i.current_debt_usd as int } else { i.current_debt_usd + amount_usd }))),
        r is Err ==> (match existing { Some(e) => e.asset_id@ != old(pool).asset_id@, None => token@ != old(pool).asset_id@ })
            || borrow_spec(old(pool).state, true, (match existing { Some(e) => e.scaled_amount, None => 0 }) as int, amount as int, reserves as int, now) is Err
            || (attributes.is_isolated && (isolated is None || isolated.unwrap().current_debt_usd + amount_usd > isolated.unwrap().collateral_config.debt_ceiling_usd)),
{
    let saved = pool.state;
    let target = match existing {
        Some(p) => p,
        None => new_position(AccountPositionType::Borrow, token, account_nonce, config, attributes.is_vault),
    };
    let ghost t = target;
    let p = match pool.borrow(amount, target, reserves, now) {
        Ok(p) => p,
        Err(e) => return Err(ControllerError::Pool(e)),
    };
    if attributes.is_isolated {
        let info = match isolated {
            Some(i) => i,
            None => {
                pool.state = saved;
                return Err(ControllerError::Arithmetic);
            },
        };
        if let Err(e) = validate_isolated_debt_ceiling(&info.collateral_config, info.current_debt_usd, amount_usd) {
            pool.state = saved;
            return Err(e);
        }
        let new_debt = update_isolated_debt_usd(info.current_debt_usd, amount_usd, true).unwrap();
        Ok((p, Some(new_debt)))
    } else {
        Ok((p, None))
    }
}

/// What an isolated account's repayment needs to lower its collateral's recorded
/// debt: that debt (USD), the position's accrued interest and principal (tokens),
/// and EGLD's USD price (WAD).
#[derive(Clone, Copy, Debug)]
pub struct IsolatedRepay {
    pub collateral_debt_usd: u128,
    pub accumulated_interest: u128,
    pub principal: u128,
    pub egld_usd_price: u128,
}

/// New recorded debt (USD) of an isolated collateral after a repayment worth
/// `repay_egld`: lowered by the USD value of the principal repaid.
pub open spec fn isolated_repay_spec(info: IsolatedRepay, price: int, decimals: nat, repay_egld: int) -> Option<u128> {
    let interest = egld_value_spec(info.accumulated_interest as int, price, decimals);
    let principal = egld_value_spec(info.principal as int, price, decimals);
    if fit(interest) is None || fit(principal) is None {
        None
    } else {
        let repaid = crate::controller::repay_principal_spec(interest, principal, repay_egld);
        match fit(egld_value_spec(repaid, info.egld_usd_price as int, 18)) {
            None => None,
            Some(usd) => Some(if usd == 0 {
                info.collateral_debt_usd
            } else if info.collateral_debt_usd > usd {
                (info.collateral_debt_usd - usd) as u128
            } else {
                0u128
            }),
        }
    }
}

/// Repays debt of an account: the borrow position must exist; for an isolated
/// account the collateral's recorded debt is lowered first; the repayment goes
/// through the pool. Yields the position, the overpaid amount refunded, whether the
/// position is kept, and the collateral's new debt (for an isolated account).
pub fn internal_repay(
    pool: &mut LiquidityPool,
    position: Option<AccountPosition>,
    token: &TokenId,
    amount: u128,
    price: u128,
    decimals: u8,
    repay_egld: u128,
    attributes: &NftAccountAttributes,
    isolated: Option<IsolatedRepay>,
    now: u64,
) -> (r: Result<(AccountPosition, u128, bool, Option<u128>), ControllerError>)
    requires
        old(pool).state.valid(),
        decimals <= 38,
    ensures
        final(pool).state.valid(),
        final(pool).asset_id@ == old(pool).asset_id@,
        r is Err ==> final(pool).state == old(pool).state,
        position is None ==> r == Err::<(AccountPosition, u128, bool, Option<u128>), ControllerError>(ControllerError::PositionNotFound),
        attributes.is_isolated && position is Some && (isolated is None || isolated_repay_spec(isolated.unwrap(), price as int, decimals as nat, repay_egld as int) is None)
            ==> r == Err::<(AccountPosition, u128, bool, Option<u128>), ControllerError>(ControllerError::Arithmetic),
        position matches Some(b) ==> (r matches Ok((p, refund, keep, debt)) ==> (repay_spec(old(pool).state, token@ == old(pool).asset_id@, b.asset_id@ == old(pool).asset_id@, b.scaled_amount as int, amount as int, now)
                == Ok::<(PoolState, u128, u128), PoolError>((final(pool).state, p.scaled_amount, refund))
            && p.same_except_amount(&b) && keep == (p.scaled_amount > 0)
            && debt == (if attributes.is_isolated { isolated_repay_spec(isolated.unwrap(), price as int, decimals as nat, repay_egld as int) } else { None }))),
        position matches Some(b) ==> ((!attributes.is_isolated || (isolated is Some && isolated_repay_spec(isolated.unwrap(), price as int, decimals as nat, repay_egld as int) is Some))
            ==> match repay_spec(old(pool).state, token@ == old(pool).asset_id@, b.asset_id@ == old(pool).asset_id@, b.scaled_amount as int, amount as int, now) {
                Err(e) => r == Err::<(AccountPosition, u128, bool, Option<u128>), ControllerError>(ControllerError::Pool(e)),
                Ok(_) => r is Ok,
            }),
{
    let b = match position {
        Some(b) => b,
        None => return Err(ControllerError::PositionNotFound),
    };
    let new_debt = if attributes.is_isolated {
        let info = match isolated {
            Some(i) => i,
            None => return Err(ControllerError::Arithmetic),
        };
        let principal = match crate::controller::validate_and_get_repay_amounts(info.accumulated_interest, info.principal, price, decimals, repay_egld) {
            Some(v) => v,
            None => return Err(ControllerError::Arithmetic),
        };
        let usd = match crate::liquidation::get_token_amount_in_dollars_raw(principal, info.egld_usd_price, 18) {
            Some(u) => u,
            None => return Err(ControllerError::Arithmetic),
        };
        Some(update_isolated_debt_usd(info.collateral_debt_usd, usd, false).unwrap())
    } else {
        None
    };
    match pool.repay(token, amount, b, now) {
        Ok((p, refund)) => {
            let keep = p.scaled_amount > 0;
            Ok((p, refund, keep, new_debt))
        },
        Err(e) => Err(ControllerError::Pool(e)),
    }
}


/// E-mode and usability checks of a leveraged position, in this order: the
/// category must exist and not be deprecated, both assets must have pools, the new
/// account's category must list both assets, neither may be isolated, and with the
/// category applied the collateral must be usable as collateral and the debt asset
/// borrowable. Yields both configurations and the new account's attributes.
pub open spec fn multiply_checks_spec(
    e_mode: u8,
    stored: Option<EModeCategory>,
    collateral_supported: bool,
    debt_supported: bool,
    collateral_config: AssetConfig,
    collateral_lists: bool,
    collateral_entry: Option<EModeAssetConfig>,
    debt_config: AssetConfig,
    debt_lists: bool,
    debt_entry: Option<EModeAssetConfig>,
) -> Result<(AssetConfig, AssetConfig, NftAccountAttributes), ControllerError> {
    let category = if e_mode == 0 { None } else { stored };
    if e_mode != 0 && stored is None {
        Err(ControllerError::EModeCategoryNotFound)
    } else if category is Some && category.unwrap().is_deprecated {
        Err(ControllerError::EModeCategoryDeprecated)
    } else if !collateral_supported || !debt_supported {
        Err(ControllerError::AssetNotSupported)
    } else if e_mode != 0 && (!collateral_lists || collateral_entry is None) {
        Err(ControllerError::EModeCategoryNotFound)
    } else if e_mode != 0 && (!debt_lists || debt_entry is None) {
        Err(ControllerError::EModeCategoryNotFound)
    } else if (collateral_config.is_isolated || debt_config.is_isolated) && e_mode != 0 {
        Err(ControllerError::CannotUseEModeWithIsolatedAssets)
    } else {
        let c_entry = if e_mode == 0 { None } else { collateral_entry };
        let d_entry = if e_mode == 0 { None } else { debt_entry };
        let c = match (category, c_entry) {
            (Some(k), Some(x)) => crate::controller::with_e_mode_spec(collateral_config, k, x),
            _ => collateral_config,
        };
        let d = match (category, d_entry) {
            (Some(k), Some(x)) => crate::controller::with_e_mode_spec(debt_config, k, x),
            _ => debt_config,
        };
        if !c.can_be_collateral {
            Err(ControllerError::AssetNotSupportedAsCollateral)
        } else if !d.can_be_borrowed {
            Err(ControllerError::AssetNotBorrowable)
        } else {
            Ok((c, d, NftAccountAttributes { is_isolated: false, e_mode_category: e_mode, is_vault: false }))
        }
    }
}

/// Checks a leveraged position (see `multiply_checks_spec`).
pub fn multiply_checks(
    e_mode: u8,
    stored: Option<EModeCategory>,
    collateral_supported: bool,
    debt_supported: bool,
    collateral_config: AssetConfig,
    collateral_lists: bool,
    collateral_entry: Option<EModeAssetConfig>,
    debt_config: AssetConfig,
    debt_lists: bool,
    debt_entry: Option<EModeAssetConfig>,
) -> (r: Result<(AssetConfig, AssetConfig, NftAccountAttributes), ControllerError>)
    ensures
        r == multiply_checks_spec(e_mode, stored, collateral_supported, debt_supported, collateral_config, collateral_lists,
            collateral_entry, debt_config, debt_lists, debt_entry),
{
    let category = validate_e_mode_exists(e_mode, stored)?;
    validate_not_depracated_e_mode(category)?;
    if !collateral_supported || !debt_supported {
        return Err(ControllerError::AssetNotSupported);
    }
    let attributes = enter(false, false, Some(e_mode));
    let c_entry = validate_token_of_emode(attributes.e_mode_category, collateral_lists, collateral_entry)?;
    let d_entry = validate_token_of_emode(attributes.e_mode_category, debt_lists, debt_entry)?;
    validate_e_mode_not_isolated(&collateral_config, attributes.e_mode_category)?;
    validate_e_mode_not_isolated(&debt_config, attributes.e_mode_category)?;
    let c = apply_e_mode_config(collateral_config, category, c_entry);
    let d = apply_e_mode_config(debt_config, category, d_entry);
    if !c.can_be_collateral {
        return Err(ControllerError::AssetNotSupportedAsCollateral);
    }
    if !d.can_be_borrowed {
        return Err(ControllerError::AssetNotBorrowable);
    }
    Ok((c, d, attributes))
}

/// Sizes a leveraged position: the collateral's EGLD value times the leverage (`BP`
/// units) gives the target collateral; the missing part, in debt tokens (RAY
/// precision, rounded half up), is flash-borrowed with a fee of `flash_loan_fee` (`BP`
/// units), and debt plus fee must fit under the debt asset's borrow cap. Yields the
/// debt amount and the fee. `Arithmetic` where the computation has no
/// result or a value exceeds 128 bits.
pub open spec fn multiply_amounts_spec(
    leverage: int,
    initial_amount: int,
    collateral_price: int,
    collateral_decimals: nat,
    debt_price: int,
    debt_decimals: nat,
    flash_loan_fee: int,
    debt_config: AssetConfig,
    total_borrowed: int,
) -> Result<(u128, u128), ControllerError> {
    match fit(egld_value_spec(initial_amount, collateral_price, collateral_decimals)) {
        None => Err(ControllerError::Arithmetic),
        Some(initial) => {
            let target = initial * leverage / (BP as int);
            if target < initial || fit(target - initial) is None {
                Err(ControllerError::Arithmetic)
            } else {
                match egld_in_tokens_spec(target - initial, debt_price, debt_decimals) {
                    None => Err(ControllerError::Arithmetic),
                    Some(debt) => match fit(debt * flash_loan_fee / (BP as int)) {
                        None => Err(ControllerError::Arithmetic),
                        Some(fee) => if debt_config.borrow_cap is Some && total_borrowed + debt + fee > debt_config.borrow_cap.unwrap() {
                            Err(ControllerError::BorrowCap)
                        } else {
                            Ok((debt, fee))
                        },
                    },
                }
            }
        },
    }
}

/// Sizes a leveraged position (see `multiply_amounts_spec`).
pub fn multiply_amounts(
    leverage: u128,
    initial_amount: u128,
    collateral_price: u128,
    collateral_decimals: u8,
    debt_price: u128,
    debt_decimals: u8,
    flash_loan_fee: u128,
    debt_config: &AssetConfig,
    total_borrowed: u128,
) -> (r: Result<(u128, u128), ControllerError>)
    requires
        collateral_decimals <= 38,
        debt_decimals <= 38,
    ensures
        r == multiply_amounts_spec(leverage as int, initial_amount as int, collateral_price as int, collateral_decimals as nat,
            debt_price as int, debt_decimals as nat, flash_loan_fee as int, *debt_config, total_borrowed as int),
{
    let initial = match get_token_amount_in_egld_raw(initial_amount, collateral_price, collateral_decimals as usize) {
        Some(v) => v,
        None => return Err(ControllerError::Arithmetic),
    };
    proof {
        assert(0 <= (initial as int) * (leverage as int) < crate::u256::two256()) by (nonlinear_arith)
            requires
                0 <= initial < two128(),
                0 <= leverage < two128(),
                crate::u256::two256() == two128() * two128(),
        ;
    }
    let target = crate::u256::u256_div(crate::u256::u256_mul(crate::u256::u256_from(initial), crate::u256::u256_from(leverage)).unwrap(), crate::u256::u256_from(BP));
    let required = match crate::u256::u256_sub(target, crate::u256::u256_from(initial)) {
        Some(v) => v,
        None => return Err(ControllerError::Arithmetic),
    };
    let required = match crate::u256::u256_to_u128(required) {
        Some(v) => v,
        None => return Err(ControllerError::Arithmetic),
    };
    let debt = match compute_egld_in_tokens(required, debt_price, debt_decimals as usize) {
        Some(v) => v,
        None => return Err(ControllerError::Arithmetic),
    };
    let fee = match crate::wide::mul_div_floor(debt, flash_loan_fee, BP) {
        Some(v) => v,
        None => return Err(ControllerError::Arithmetic),
    };
    match debt_config.borrow_cap {
        Some(cap) => {
            if total_borrowed > cap || debt > cap - total_borrowed || fee > cap - total_borrowed - debt {
                return Err(ControllerError::BorrowCap);
            }
        },
        None => {},
    }
    Ok((debt, fee))
}

/// Opens the leveraged debt: the flash-borrowed amount plus its fee is added to the
/// account's borrow position in the debt asset (an existing one, or a new one under
/// the asset's parameters) through the pool.
pub fn open_multiply_debt(
    pool: &mut LiquidityPool,
    existing: Option<AccountPosition>,
    token: &TokenId,
    debt_amount: u128,
    flash_fee: u128,
    account_nonce: u64,
    debt_config: &AssetConfig,
    reserves: u128,
    now: u64,
) -> (r: Result<AccountPosition, ControllerError>)
    requires
        old(pool).state.valid(),
    ensures
        final(pool).state.valid(),
        final(pool).asset_id@ == old(pool).asset_id@,
        exists|t: AccountPosition| #[trigger] t.scaled_amount == (match existing { Some(e) => e.scaled_amount, None => 0 })
            && (match existing {
                Some(e) => t.same_except_amount(&e),
                None => t.position_type == AccountPositionType::Borrow && t.asset_id@ == token@ && t.account_nonce == account_nonce
                    && t.liquidation_threshold == debt_config.liquidation_threshold && t.liquidation_bonus == debt_config.liquidation_base_bonus
                    && t.liquidation_fees == debt_config.liquidation_max_fee && t.loan_to_value == debt_config.ltv && !t.is_vault,
            })
            && match crate::liquidity::create_strategy_spec(old(pool).state, t.asset_id@ == old(pool).asset_id@, t.scaled_amount as int, debt_amount as int, flash_fee as int, reserves as int, now) {
                Err(e) => r == Err::<AccountPosition, ControllerError>(ControllerError::Pool(e)) && final(pool).state == old(pool).state,
                Ok((ns, sc)) => r matches Ok(p) && final(pool).state == ns && p.scaled_amount == sc && p.same_except_amount(&t),
            },
{
    let target = match existing {
        Some(p) => p,
        None => new_position(AccountPositionType::Borrow, token, account_nonce, debt_config, false),
    };
    let ghost t = target;
    match pool.create_strategy(target, debt_amount, flash_fee, reserves, now) {
        Ok(p) => Ok(p),
        Err(e) => Err(ControllerError::Pool(e)),
    }
}

/// The collateral value of a new deposit position of `config`'s asset holding
/// `amount` tokens at `price` and `decimals`.
pub open spec fn new_collateral_value(amount: u128, price: u128, decimals: u8, config: AssetConfig) -> CollateralValue {
    CollateralValue {
        amount,
        price,
        decimals,
        liquidation_threshold: config.liquidation_threshold,
        liquidation_bonus: config.liquidation_base_bonus,
        ltv: config.ltv,
    }
}

/// Completes a leveraged position once the flash-borrowed debt is swapped into
/// `final_amount` collateral tokens: they are supplied to the collateral pool as the
/// new account's deposit position, and the account (that collateral against `debts`)
/// must then have a health factor of at least 1.0. A refusal leaves the pool as it was.
pub fn complete_multiply(
    pool: &mut LiquidityPool,
    token: &TokenId,
    final_amount: u128,
    account_nonce: u64,
    config: &AssetConfig,
    price: u128,
    decimals: u8,
    debts: &Vec<DebtValue>,
    now: u64,
) -> (r: Result<AccountPosition, ControllerError>)
    requires
        old(pool).state.valid(),
        decimals <= 38,
        forall|i: int| 0 <= i < debts@.len() ==> #[trigger] debts@[i].decimals <= 38,
    ensures
        final(pool).state.valid(),
        final(pool).asset_id@ == old(pool).asset_id@,
        match supply_spec(old(pool).state, token@ == old(pool).asset_id@, token@ == old(pool).asset_id@, 0, final_amount as int, now) {
            Err(e) => r == Err::<AccountPosition, ControllerError>(ControllerError::Pool(e)) && final(pool).state == old(pool).state,
            Ok((ns, sc)) => match original_of(sc as int, ns.supply_index as int, ns.params.asset_decimals as nat) {
                None => r == Err::<AccountPosition, ControllerError>(ControllerError::Arithmetic) && final(pool).state == old(pool).state,
                Some(v) => match account_withdraw_health_spec(seq![new_collateral_value(v, price, decimals, *config)], debts@, None) {
                    Err(e) => r == Err::<AccountPosition, ControllerError>(e) && final(pool).state == old(pool).state,
                    Ok(()) => r matches Ok(p) && final(pool).state == ns && p.scaled_amount == sc
                        && p.position_type == AccountPositionType::Deposit && p.asset_id@ == token@ && p.account_nonce == account_nonce
                        && p.liquidation_threshold == config.liquidation_threshold && p.liquidation_bonus == config.liquidation_base_bonus
                        && p.liquidation_fees == config.liquidation_max_fee && p.loan_to_value == config.ltv && !p.is_vault,
                },
            },
        },
{
    let saved = pool.state;
    let target = new_position(AccountPositionType::Deposit, token, account_nonce, config, false);
    let p = match pool.supply(token, final_amount, target, now) {
        Ok(p) => p,
        Err(e) => return Err(ControllerError::Pool(e)),
    };
    let value = match to_original(p.scaled_amount, pool.state.supply_index, pool.state.params.asset_decimals) {
        Some(v) => v,
        None => {
            pool.state = saved;
            return Err(ControllerError::Arithmetic);
        },
    };
    let collaterals = vec![CollateralValue {
        amount: value,
        price,
        decimals,
        liquidation_threshold: p.liquidation_threshold,
        liquidation_bonus: p.liquidation_bonus,
        ltv: p.loan_to_value,
    }];
    proof {
        assert(collaterals@ =~= seq![new_collateral_value(value, price, decimals, *config)]);
    }
    match validate_account_withdraw_health(&collaterals, debts, None) {
        Ok(()) => Ok(p),
        Err(e) => {
            pool.state = saved;
            Err(e)
        },
    }
}

/// What opening a leveraged position records: the configurations of both assets with
/// the account's e-mode applied, the new account's attributes, its borrow position,
/// and the debt split into the flash-borrowed principal and its fee, which counts as
/// interest already accrued.
#[derive(Debug)]
pub struct MultiplyOpening {
    pub collateral_config: AssetConfig,
    pub debt_config: AssetConfig,
    pub attributes: NftAccountAttributes,
    pub debt_position: AccountPosition,
    pub principal: u128,
    pub accumulated_interest: u128,
}

/// Opens a leveraged position for a new account: the checks of
/// `multiply_checks_spec`, the sizing of `multiply_amounts_spec` under the debt
/// asset's configuration, then the flash-borrowed principal and its fee taken as one
/// scaled debt through the debt pool on a new borrow position. The swap of the
/// principal into collateral and `complete_multiply` follow. A refusal leaves the
/// pool as it was.
pub fn open_multiply(
    debt_pool: &mut LiquidityPool,
    debt_token: &TokenId,
    account_nonce: u64,
    e_mode: u8,
    stored: Option<EModeCategory>,
    collateral_supported: bool,
    collateral_config: AssetConfig,
    collateral_lists: bool,
    collateral_entry: Option<EModeAssetConfig>,
    debt_config: AssetConfig,
    debt_lists: bool,
    debt_entry: Option<EModeAssetConfig>,
    leverage: u128,
    initial_amount: u128,
    collateral_price: u128,
    collateral_decimals: u8,
    debt_price: u128,
    debt_decimals: u8,
    total_borrowed: u128,
    reserves: u128,
    now: u64,
) -> (r: Result<MultiplyOpening, ControllerError>)
    requires
        old(debt_pool).state.valid(),
        collateral_decimals <= 38,
        debt_decimals <= 38,
    ensures
        final(debt_pool).state.valid(),
        final(debt_pool).asset_id@ == old(debt_pool).asset_id@,
        match multiply_checks_spec(e_mode, stored, collateral_supported, true, collateral_config, collateral_lists,
            collateral_entry, debt_config, debt_lists, debt_entry) {
            Err(e) => r matches Err(e2) && e2 == e && final(debt_pool).state == old(debt_pool).state,
            Ok((c, d, attributes)) => match multiply_amounts_spec(leverage as int, initial_amount as int, collateral_price as int,
                collateral_decimals as nat, debt_price as int, debt_decimals as nat, d.flash_loan_fee as int, d, total_borrowed as int) {
                Err(e) => r matches Err(e2) && e2 == e && final(debt_pool).state == old(debt_pool).state,
                Ok((principal, fee)) => match crate::liquidity::create_strategy_spec(old(debt_pool).state, debt_token@ == old(debt_pool).asset_id@, 0,
                    principal as int, fee as int, reserves as int, now) {
                    Err(e) => r matches Err(e2) && e2 == ControllerError::Pool(e) && final(debt_pool).state == old(debt_pool).state,
                    Ok((ns, sc)) => r matches Ok(o) && final(debt_pool).state == ns
                        && o.collateral_config == c && o.debt_config == d && o.attributes == attributes
                        && o.principal == principal && o.accumulated_interest == fee
                        && o.debt_position.scaled_amount == sc
                        && o.debt_position.position_type == AccountPositionType::Borrow && o.debt_position.asset_id@ == debt_token@
                        && o.debt_position.account_nonce == account_nonce && o.debt_position.liquidation_threshold == d.liquidation_threshold
                        && o.debt_position.liquidation_bonus == d.liquidation_base_bonus && o.debt_position.liquidation_fees == d.liquidation_max_fee
                        && o.debt_position.loan_to_value == d.ltv && !o.debt_position.is_vault,
                },
            },
        },
{
    let (c, d, attributes) = multiply_checks(e_mode, stored, collateral_supported, true, collateral_config, collateral_lists,
        collateral_entry, debt_config, debt_lists, debt_entry)?;
    let (principal, fee) = multiply_amounts(leverage, initial_amount, collateral_price, collateral_decimals, debt_price, debt_decimals,
        d.flash_loan_fee, &d, total_borrowed)?;
    let target = new_position(AccountPositionType::Borrow, debt_token, account_nonce, &d, false);
    let debt_position = match debt_pool.create_strategy(target, principal, fee, reserves, now) {
        Ok(p) => p,
        Err(e) => return Err(ControllerError::Pool(e)),
    };
    Ok(MultiplyOpening { collateral_config: c, debt_config: d, attributes, debt_position, principal, accumulated_interest: fee })
}

/// Principal left of a debt of `owed` tokens, of which `principal` was lent, after a
/// repayment of `payment`: the repayment covers the accrued interest (`owed` beyond
/// the principal) first and the principal with the rest.
pub open spec fn principal_after_repay_spec(principal: int, owed: int, payment: int) -> int {
    let interest = if owed > principal { owed - principal } else { 0 };
    let to_principal = if payment > interest { payment - interest } else { 0 };
    if to_principal >= principal { 0 } else { principal - to_principal }
}

/// Principal left after a repayment (see `principal_after_repay_spec`); it also
/// returns the interest part of the debt before the repayment.
pub fn principal_after_repay(principal: u128, owed: u128, payment: u128) -> (r: (u128, u128))
    ensures
        r.0 == principal_after_repay_spec(principal as int, owed as int, payment as int),
        r.1 == (if owed > principal { owed - principal } else { 0 }),
{
    let interest = if owed > principal { owed - principal } else { 0 };
    let to_principal = if payment > interest { payment - interest } else { 0 };
    let left = if to_principal >= principal { 0 } else { principal - to_principal };
    (left, interest)
}
} // verus!
