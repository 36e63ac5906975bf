//! Account flows of the controller around the liquidity pools: withdrawals (from
//! the pool or from the controller's vault), switching an account's positions in and
//! out of the vault, and updating a position's recorded risk thresholds.
//!
//! A vault position is held by the controller and earns no interest; its
//! `scaled_amount` is a plain token amount. A market position lives in its pool and
//! its `scaled_amount` is scaled by the pool's supply index.
use crate::controller::{
    validate_withdraw_health_factor, withdraw_health_spec, AssetConfig, ControllerError, EModeCategory, NftAccountAttributes,
};
use crate::liquidity::{supply_spec, withdraw_spec, LiquidityPool, PoolError};
use crate::pool::{global_sync_spec, original_of, to_original, PoolState};
use crate::position::AccountPosition;
use crate::valuation::{collateral_sums_spec, debt_sum_spec, fit3, sum_borrows, sum_collaterals, CollateralValue, DebtValue};
use crate::liquidation::health_factor_spec;
use crate::math::BPS;
use crate::wide::{fit, max_u128};
use vstd::prelude::*;

verus! {

/// What a withdrawal did: the position afterwards, the amount taken from it, the
/// amount sent to the caller, the fee kept as protocol revenue, the vault's total
/// afterwards, and whether the position is kept (it still holds something).
#[derive(Debug)]
pub struct WithdrawOutcome {
    pub position: AccountPosition,
    pub amount: u128,
    pub to_caller: u128,
    pub protocol_fee: u128,
    pub vault_supplied: u128,
    pub keep_position: bool,
}

/// Withdrawal from a vault position: the request capped at the position, the fee
/// (default zero) must not exceed it, a liquidation may demand a minimum net amount,
/// and the vault total and the position both drop by the amount. A liquidation sends
/// the amount less the fee to the caller and the fee to the pool; otherwise the caller
/// gets the amount. Yields `(amount, to_caller, fee, new vault total, new position amount)`.
pub open spec fn vault_withdraw_spec(
    position_amount: int,
    requested: int,
    is_liquidation: bool,
    fee: Option<u128>,
    min_amount: Option<u128>,
    vault_supplied: int,
) -> Result<(int, int, int, int, int), ControllerError> {
    let amount = if requested > position_amount { position_amount } else { requested };
    let fee_value = match fee { Some(f) => f as int, None => 0 };
    if fee_value > amount {
        Err(ControllerError::Arithmetic)
    } else if is_liquidation && min_amount is Some && amount - fee_value < min_amount.unwrap() {
        Err(ControllerError::LiquidatedAmountAfterFeesLessThanMinAmountToReceive)
    } else if vault_supplied < amount {
        Err(ControllerError::Arithmetic)
    } else if is_liquidation && fee is Some {
        Ok((amount, amount - fee_value, fee_value, vault_supplied - amount, position_amount - amount))
    } else {
        Ok((amount, amount, 0, vault_supplied - amount, position_amount - amount))
    }
}

/// Withdraws from a vault position (see `vault_withdraw_spec`).
pub fn process_vault_withdrawal(
    position: AccountPosition,
    requested: u128,
    is_liquidation: bool,
    liquidation_fee: Option<u128>,
    min_amount: Option<u128>,
    vault_supplied: u128,
) -> (r: Result<WithdrawOutcome, ControllerError>)
    ensures
        match vault_withdraw_spec(position.scaled_amount as int, requested as int, is_liquidation, liquidation_fee, min_amount, vault_supplied as int) {
            Err(e) => r matches Err(e2) && e2 == e,
            Ok((amount, to_caller, fee, vault, left)) => r matches Ok(o) && o.amount == amount && o.to_caller == to_caller
                && o.protocol_fee == fee && o.vault_supplied == vault && o.position.scaled_amount == left
                && o.position.same_except_amount(&position) && o.keep_position == (left > 0),
        },
{
    let amount = if requested > position.scaled_amount { position.scaled_amount } else { requested };
    let fee_value: u128 = match liquidation_fee {
        Some(f) => f,
        None => 0,
    };
    if fee_value > amount {
        return Err(ControllerError::Arithmetic);
    }
    if is_liquidation {
        if let Some(m) = min_amount {
            if amount - fee_value < m {
                return Err(ControllerError::LiquidatedAmountAfterFeesLessThanMinAmountToReceive);
            }
        }
    }
    if vault_supplied < amount {
        return Err(ControllerError::Arithmetic);
    }
    let left = position.scaled_amount - amount;
    let (to_caller, protocol_fee) = if is_liquidation && liquidation_fee.is_some() {
        (amount - fee_value, fee_value)
    } else {
        (amount, 0)
    };
    Ok(WithdrawOutcome {
        position: position.with_scaled_amount(left),
        amount,
        to_caller,
        protocol_fee,
        vault_supplied: vault_supplied - amount,
        keep_position: left > 0,
    })
}

/// Withdrawal from a market position: the request capped at the position's current
/// value (after accruing interest), the fee check and minimum net amount as for a
/// vault, then the pool's withdrawal. Yields the pool's state, the position's scaled
/// amount and the net amount sent, with the amount taken.
pub open spec fn market_withdraw_spec(
    s: PoolState,
    position_ok: bool,
    position_scaled: int,
    requested: int,
    is_liquidation: bool,
    fee: Option<u128>,
    min_amount: Option<u128>,
    reserves: int,
    now: u64,
) -> Result<(PoolState, u128, u128, int), ControllerError> {
    match global_sync_spec(s, now) {
        None => Err(ControllerError::Pool(PoolError::Arithmetic)),
        Some(s1) => match original_of(position_scaled, s1.supply_index as int, s1.params.asset_decimals as nat) {
            None => Err(ControllerError::Arithmetic),
            Some(current) => {
                let amount = if requested > current { current as int } else { requested };
                let fee_value = match fee { Some(f) => f as int, None => 0 };
                if fee_value > amount {
                    Err(ControllerError::Arithmetic)
                } else if is_liquidation && min_amount is Some && amount - fee_value < min_amount.unwrap() {
                    Err(ControllerError::LiquidatedAmountAfterFeesLessThanMinAmountToReceive)
                } else {
                    match withdraw_spec(s, position_ok, position_scaled, amount, is_liquidation, fee, reserves, now) {
                        Err(e) => Err(ControllerError::Pool(e)),
                        Ok((ns, sc, net)) => Ok((ns, sc, net, amount)),
                    }
                }
            },
        },
    }
}

/// Withdraws from a market position through its pool (see `market_withdraw_spec`).
pub fn withdraw_from_market(
    pool: &mut LiquidityPool,
    position: AccountPosition,
    requested: u128,
    is_liquidation: bool,
    liquidation_fee: Option<u128>,
    min_amount: Option<u128>,
    vault_supplied: u128,
    reserves: u128,
    now: u64,
) -> (r: Result<WithdrawOutcome, ControllerError>)
    requires
        old(pool).state.valid(),
    ensures
        final(pool).state.valid(),
        final(pool).asset_id@ == old(pool).asset_id@,
        match market_withdraw_spec(old(pool).state, position.asset_id@ == old(pool).asset_id@, position.scaled_amount as int, requested as int, is_liquidation, liquidation_fee, min_amount, reserves as int, now) {
            Err(e) => r matches Err(e2) && e2 == e && final(pool).state == old(pool).state,
            Ok((ns, sc, net, amount)) => r matches Ok(o) && final(pool).state == ns && o.position.scaled_amount == sc
                && o.position.same_except_amount(&position) && o.to_caller == net && o.amount == amount
                && o.protocol_fee == 0 && o.vault_supplied == vault_supplied && o.keep_position == (sc > 0),
        },
{
    let s1 = match pool.state.global_sync(now) {
        Some(v) => v,
        None => return Err(ControllerError::Pool(PoolError::Arithmetic)),
    };
    let current = match to_original(position.scaled_amount, s1.supply_index, s1.params.asset_decimals) {
        Some(v) => v,
        None => return Err(ControllerError::Arithmetic),
    };
    let amount = if requested > current { current } else { requested };
    let fee_value: u128 = match liquidation_fee {
        Some(f) => f,
        None => 0,
    };
    if fee_value > amount {
        return Err(ControllerError::Arithmetic);
    }
    if is_liquidation {
        if let Some(m) = min_amount {
            if amount - fee_value < m {
                return Err(ControllerError::LiquidatedAmountAfterFeesLessThanMinAmountToReceive);
            }
        }
    }
    match pool.withdraw(amount, position, is_liquidation, liquidation_fee, reserves, now) {
        Err(e) => Err(ControllerError::Pool(e)),
        Ok((p, net)) => {
            let keep = p.scaled_amount > 0;
            Ok(WithdrawOutcome { position: p, amount, to_caller: net, protocol_fee: 0, vault_supplied, keep_position: keep })
        },
    }
}

/// Withdraws from an account's deposit position in the asset, which must exist: from
/// the vault or through its pool as the position says; the pool is untouched for a
/// vault position.
pub fn internal_withdraw(
    pool: &mut LiquidityPool,
    position: Option<AccountPosition>,
    requested: u128,
    is_liquidation: bool,
    liquidation_fee: Option<u128>,
    min_amount: Option<u128>,
    vault_supplied: u128,
    reserves: u128,
    now: u64,
) -> (r: Result<WithdrawOutcome, ControllerError>)
    requires
        old(pool).state.valid(),
    ensures
        final(pool).state.valid(),
        final(pool).asset_id@ == old(pool).asset_id@,
        (match position {
            None => r matches Err(e) && e == ControllerError::PositionNotFound && final(pool).state == old(pool).state,
            Some(p) => if p.is_vault {
                final(pool).state == old(pool).state && match vault_withdraw_spec(p.scaled_amount as int, requested as int, is_liquidation, liquidation_fee, min_amount, vault_supplied as int) {
                    Err(e) => r matches Err(e2) && e2 == e,
                    Ok((amount, to_caller, fee, vault, left)) => r matches Ok(o) && o.amount == amount && o.to_caller == to_caller
                        && o.protocol_fee == fee && o.vault_supplied == vault && o.position.scaled_amount == left
                        && o.position.same_except_amount(&p) && o.keep_position == (left > 0),
                }
            } else {
                match market_withdraw_spec(old(pool).state, p.asset_id@ == old(pool).asset_id@, p.scaled_amount as int, requested as int, is_liquidation, liquidation_fee, min_amount, reserves as int, now) {
                    Err(e) => r matches Err(e2) && e2 == e && final(pool).state == old(pool).state,
                    Ok((ns, sc, net, amount)) => r matches Ok(o) && final(pool).state == ns && o.position.scaled_amount == sc
                        && o.position.same_except_amount(&p) && o.to_caller == net && o.amount == amount
                        && o.protocol_fee == 0 && o.vault_supplied == vault_supplied && o.keep_position == (sc > 0),
                }
            },
        }),
{
    let position = match position {
        Some(p) => p,
        None => return Err(ControllerError::PositionNotFound),
    };
    if position.is_vault {
        process_vault_withdrawal(position, requested, is_liquidation, liquidation_fee, min_amount, vault_supplied)
    } else {
        withdraw_from_market(pool, position, requested, is_liquidation, liquidation_fee, min_amount, vault_supplied, reserves, now)
    }
}

/// The same position with another vault flag.
pub open spec fn with_vault_spec(p: AccountPosition, q: AccountPosition, vault: bool) -> bool {
    &&& q.position_type == p.position_type
    &&& q.asset_id@ == p.asset_id@
    &&& q.account_nonce == p.account_nonce
    &&& q.liquidation_threshold == p.liquidation_threshold
    &&& q.liquidation_bonus == p.liquidation_bonus
    &&& q.liquidation_fees == p.liquidation_fees
    &&& q.loan_to_value == p.loan_to_value
    &&& q.is_vault == vault
}

fn set_vault(p: AccountPosition, vault: bool, scaled_amount: u128) -> (r: AccountPosition)
    ensures
        with_vault_spec(p, r, vault),
        r.scaled_amount == scaled_amount,
{
    AccountPosition { is_vault: vault, scaled_amount, ..p }
}

/// Sets the vault flag of every borrow position of an account; reports which ones
/// changed (those had the other flag).
pub fn set_borrow_vault_flags(borrows: Vec<AccountPosition>, vault: bool) -> (r: (Vec<AccountPosition>, Vec<bool>))
    ensures
        r.0@.len() == borrows@.len(),
        r.1@.len() == borrows@.len(),
        forall|i: int| 0 <= i < borrows@.len() ==> with_vault_spec(borrows@[i], #[trigger] r.0@[i], vault)
            && r.0@[i].scaled_amount == borrows@[i].scaled_amount,
        forall|i: int| 0 <= i < borrows@.len() ==> #[trigger] r.1@[i] == (borrows@[i].is_vault != vault),
{
    let mut out: Vec<AccountPosition> = Vec::new();
    let mut changed: Vec<bool> = Vec::new();
    let mut i: usize = 0;
    while i < borrows.len()
        invariant
            i <= borrows@.len(),
            out@.len() == i,
            changed@.len() == i,
            forall|k: int| 0 <= k < i ==> with_vault_spec(borrows@[k], #[trigger] out@[k], vault)
                && out@[k].scaled_amount == borrows@[k].scaled_amount,
            forall|k: int| 0 <= k < i ==> #[trigger] changed@[k] == (borrows@[k].is_vault != vault),
        decreases borrows@.len() - i,
    {
        let p = borrows[i].clone();
        let was = p.is_vault;
        let amount = p.scaled_amount;
        out.push(set_vault(p, vault, amount));
        changed.push(was != vault);
        i = i + 1;
    }
    (out, changed)
}

/// Moves a vault deposit back into its pool: the vault total drops by the amount, and
/// the position, emptied and out of the vault, is supplied the amount. A market
/// position is left as it is. Yields the position and the vault total.
pub fn disable_vault_deposit(pool: &mut LiquidityPool, position: AccountPosition, vault_supplied: u128, now: u64) -> (r: Result<(AccountPosition, u128), ControllerError>)
    requires
        old(pool).state.valid(),
    ensures
        final(pool).state.valid(),
        final(pool).asset_id@ == old(pool).asset_id@,
        !position.is_vault ==> final(pool).state == old(pool).state,
        !position.is_vault ==> (r matches Ok((p, v)) && v == vault_supplied
            && p.same_except_amount(&position) && p.scaled_amount == position.scaled_amount),
        position.is_vault && vault_supplied < position.scaled_amount ==> r == Err::<(AccountPosition, u128), ControllerError>(ControllerError::Arithmetic)
            && final(pool).state == old(pool).state,
        position.is_vault && vault_supplied >= position.scaled_amount ==> match supply_spec(old(pool).state, position.asset_id@ == old(pool).asset_id@, position.asset_id@ == old(pool).asset_id@, 0, position.scaled_amount as int, now) {
            Err(e) => r == Err::<(AccountPosition, u128), ControllerError>(ControllerError::Pool(e)) && final(pool).state == old(pool).state,
            Ok((ns, sc)) => r matches Ok((p, v)) && final(pool).state == ns && v == vault_supplied - position.scaled_amount
                && with_vault_spec(position, p, false) && p.scaled_amount == sc,
        },
{
    if !position.is_vault {
        let amount = position.scaled_amount;
        return Ok((set_vault(position, false, amount), vault_supplied));
    }
    let amount = position.scaled_amount;
    if vault_supplied < amount {
        return Err(ControllerError::Arithmetic);
    }
    let token = position.asset_id.clone();
    let emptied = set_vault(position, false, 0);
    match pool.supply(&token, amount, emptied, now) {
        Ok(p) => Ok((p, vault_supplied - amount)),
        Err(e) => Err(ControllerError::Pool(e)),
    }
}

/// Moves a market deposit into the vault: its whole current value is withdrawn from
/// the pool, which must leave the position empty, and the position holds that value
/// in the vault, whose total grows by it. A vault position is left as it is. Yields
/// the position, the vault total and the amount moved.
pub open spec fn enable_vault_spec(s: PoolState, position_ok: bool, position_scaled: int, vault_supplied: int, reserves: int, now: u64) -> Result<(PoolState, u128, u128), ControllerError> {
    match global_sync_spec(s, now) {
        None => Err(ControllerError::Pool(PoolError::Arithmetic)),
        Some(s1) => match original_of(position_scaled, s1.supply_index as int, s1.params.asset_decimals as nat) {
            None => Err(ControllerError::Arithmetic),
            Some(total) => match withdraw_spec(s, position_ok, position_scaled, total as int, false, None, reserves, now) {
                Err(e) => Err(ControllerError::Pool(e)),
                Ok((ns, sc, _)) => if sc != 0 {
                    Err(ControllerError::EnableVaultModeFailed)
                } else if vault_supplied + total > max_u128() {
                    Err(ControllerError::Arithmetic)
                } else {
                    Ok((ns, total, (vault_supplied + total) as u128))
                },
            },
        },
    }
}

/// Moves a market deposit into the vault (see `enable_vault_spec`).
pub fn enable_vault_deposit(pool: &mut LiquidityPool, position: AccountPosition, vault_supplied: u128, reserves: u128, now: u64) -> (r: Result<(AccountPosition, u128), ControllerError>)
    requires
        old(pool).state.valid(),
    ensures
        final(pool).state.valid(),
        final(pool).asset_id@ == old(pool).asset_id@,
        position.is_vault ==> final(pool).state == old(pool).state,
        position.is_vault ==> (r matches Ok((p, v)) && v == vault_supplied
            && p.same_except_amount(&position) && p.scaled_amount == position.scaled_amount),
        !position.is_vault ==> match enable_vault_spec(old(pool).state, position.asset_id@ == old(pool).asset_id@, position.scaled_amount as int, vault_supplied as int, reserves as int, now) {
            Err(e) => r matches Err(e2) && e2 == e,
            Ok((ns, total, v)) => r matches Ok((p, v2)) && final(pool).state == ns && v2 == v
                && with_vault_spec(position, p, true) && p.scaled_amount == total,
        },
{
    if position.is_vault {
        let amount = position.scaled_amount;
        return Ok((set_vault(position, true, amount), vault_supplied));
    }
    let s1 = match pool.state.global_sync(now) {
        Some(v) => v,
        None => return Err(ControllerError::Pool(PoolError::Arithmetic)),
    };
    let total = match to_original(position.scaled_amount, s1.supply_index, s1.params.asset_decimals) {
        Some(v) => v,
        None => return Err(ControllerError::Arithmetic),
    };
    let (p, _sent) = match pool.withdraw(total, position, false, None, reserves, now) {
        Ok(v) => v,
        Err(e) => return Err(ControllerError::Pool(e)),
    };
    if p.scaled_amount != 0 {
        return Err(ControllerError::EnableVaultModeFailed);
    }
    if vault_supplied > u128::MAX - total {
        return Err(ControllerError::Arithmetic);
    }
    Ok((set_vault(p, true, total), vault_supplied + total))
}

/// The threshold a position should record: the e-mode category's when the account is
/// in one (the category must exist), else the asset's; the LTV or the liquidation
/// threshold as asked.
pub open spec fn position_threshold_spec(attributes: NftAccountAttributes, category: Option<EModeCategory>, config: AssetConfig, is_ltv: bool) -> Result<u128, ControllerError> {
    if attributes.e_mode_category > 0 {
        match category {
            None => Err(ControllerError::EModeCategoryNotFound),
            Some(c) => Ok(if is_ltv { c.ltv } else { c.liquidation_threshold }),
        }
    } else {
        Ok(if is_ltv { config.ltv } else { config.liquidation_threshold })
    }
}

/// Updates the LTV or liquidation threshold a deposit position records to the
/// current one; reports whether it changed. A changed liquidation threshold must then
/// pass the withdrawal health check with a safety factor.
pub fn update_position_threshold(
    position: Option<AccountPosition>,
    attributes: &NftAccountAttributes,
    category: Option<EModeCategory>,
    config: &AssetConfig,
    is_ltv: bool,
) -> (r: Result<(AccountPosition, bool), ControllerError>)
    ensures
        position is None ==> r == Err::<(AccountPosition, bool), ControllerError>(ControllerError::PositionNotFound),
        position matches Some(p) ==> match position_threshold_spec(*attributes, category, *config, is_ltv) {
            Err(e) => r == Err::<(AccountPosition, bool), ControllerError>(e),
            Ok(t) => r matches Ok((q, changed)) && q.scaled_amount == p.scaled_amount && q.position_type == p.position_type
                && q.asset_id@ == p.asset_id@ && q.account_nonce == p.account_nonce && q.liquidation_bonus == p.liquidation_bonus
                && q.liquidation_fees == p.liquidation_fees && q.is_vault == p.is_vault
                && (if is_ltv {
                    q.loan_to_value == t && q.liquidation_threshold == p.liquidation_threshold && changed == (p.loan_to_value != t)
                } else {
                    q.liquidation_threshold == t && q.loan_to_value == p.loan_to_value && changed == (p.liquidation_threshold != t)
                }),
        },
{
    let p = match position {
        Some(p) => p,
        None => return Err(ControllerError::PositionNotFound),
    };
    let threshold = if attributes.e_mode_category > 0 {
        match category {
            None => return Err(ControllerError::EModeCategoryNotFound),
            Some(c) => if is_ltv { c.ltv } else { c.liquidation_threshold },
        }
    } else if is_ltv {
        config.ltv
    } else {
        config.liquidation_threshold
    };
    if is_ltv {
        let changed = p.loan_to_value != threshold;
        Ok((AccountPosition { loan_to_value: threshold, ..p }, changed))
    } else {
        let changed = p.liquidation_threshold != threshold;
        Ok((AccountPosition { liquidation_threshold: threshold, ..p }, changed))
    }
}

/// Safety factor with which a position whose liquidation threshold changed must
/// stay healthy: a health factor of at least `1 + 1/20`.
pub const THRESHOLD_UPDATE_SAFETY_FACTOR: u128 = 20;

/// The withdrawal health check of an account with collateral `cs` and debts `ds`: an
/// account without debt passes; otherwise its threshold-weighted collateral and debt
/// are summed (refused past 128 bits) and checked with `withdraw_health_spec`.
pub open spec fn account_withdraw_health_spec(cs: Seq<CollateralValue>, ds: Seq<DebtValue>, safety_factor: Option<u128>) -> Result<(), ControllerError> {
    if ds.len() == 0 {
        Ok(())
    } else {
        match fit3(collateral_sums_spec(cs)) {
            None => Err(ControllerError::Arithmetic),
            Some((w, _, _)) => match debt_sum_spec(ds) {
                None => Err(ControllerError::Arithmetic),
                Some(b) => match fit(b) {
                    None => Err(ControllerError::Arithmetic),
                    Some(_) => withdraw_health_spec(false, true, w as int, b, safety_factor),
                },
            },
        }
    }
}

/// Runs the withdrawal health check of an account (see `account_withdraw_health_spec`).
pub fn validate_account_withdraw_health(collaterals: &Vec<CollateralValue>, debts: &Vec<DebtValue>, safety_factor: Option<u128>) -> (r: Result<(), ControllerError>)
    requires
        forall|i: int| 0 <= i < collaterals@.len() ==> #[trigger] collaterals@[i].decimals <= 38,
        forall|i: int| 0 <= i < debts@.len() ==> #[trigger] debts@[i].decimals <= 38,
    ensures
        r == account_withdraw_health_spec(collaterals@, debts@, safety_factor),
{
    if debts.len() == 0 {
        return Ok(());
    }
    let (weighted, _, _) = match sum_collaterals(collaterals) {
        Some(v) => v,
        None => return Err(ControllerError::Arithmetic),
    };
    let borrowed = match sum_borrows(debts) {
        Some(v) => v,
        None => return Err(ControllerError::Arithmetic),
    };
    validate_withdraw_health_factor(false, true, weighted, borrowed, safety_factor)
}

/// An account named in a threshold update, with what the update reads of it: whether
/// it is in the market, its deposit position of the asset, its attributes and e-mode
/// category, the position's token amount and price feed, and the values of its other
/// collateral and of its debts.
#[derive(Debug)]
pub struct ThresholdAccount {
    pub in_market: bool,
    pub position: Option<AccountPosition>,
    pub attributes: NftAccountAttributes,
    pub category: Option<EModeCategory>,
    pub amount: u128,
    pub price: u128,
    pub decimals: u8,
    pub other_collaterals: Vec<CollateralValue>,
    pub debts: Vec<DebtValue>,
}

/// Every price feed of the account has at most 38 decimals.
pub open spec fn threshold_account_ok(a: ThresholdAccount) -> bool {
    &&& a.decimals <= 38
    &&& forall|i: int| 0 <= i < a.other_collaterals@.len() ==> #[trigger] a.other_collaterals@[i].decimals <= 38
    &&& forall|i: int| 0 <= i < a.debts@.len() ==> #[trigger] a.debts@[i].decimals <= 38
}

/// The collateral of an account once its position of the asset records the
/// liquidation threshold `t`: its other collateral, then that position.
pub open spec fn collateral_after_update(a: ThresholdAccount, p: AccountPosition, t: u128) -> Seq<CollateralValue> {
    a.other_collaterals@.push(CollateralValue {
        amount: a.amount,
        price: a.price,
        decimals: a.decimals,
        liquidation_threshold: t,
        liquidation_bonus: p.liquidation_bonus,
        ltv: p.loan_to_value,
    })
}

/// The update of one account: refused when it is not in the market, has no deposit
/// position of the asset, or its e-mode category is missing; otherwise the new
/// threshold and whether it changed. A changed liquidation threshold must leave the
/// account passing the withdrawal health check with `THRESHOLD_UPDATE_SAFETY_FACTOR`,
/// or the update is refused.
pub open spec fn threshold_update_spec(a: ThresholdAccount, config: AssetConfig, is_ltv: bool) -> Result<(u128, bool), ControllerError> {
    if !a.in_market {
        Err(ControllerError::AccountNotInTheMarket)
    } else {
        match a.position {
            None => Err(ControllerError::PositionNotFound),
            Some(p) => match position_threshold_spec(a.attributes, a.category, config, is_ltv) {
                Err(e) => Err(e),
                Ok(t) => {
                    let changed = if is_ltv { p.loan_to_value != t } else { p.liquidation_threshold != t };
                    if changed && !is_ltv {
                        match account_withdraw_health_spec(collateral_after_update(a, p, t), a.debts@, Some(THRESHOLD_UPDATE_SAFETY_FACTOR)) {
                            Err(e) => Err(e),
                            Ok(()) => Ok((t, changed)),
                        }
                    } else {
                        Ok((t, changed))
                    }
                },
            },
        }
    }
}

/// `q` is `p` with its LTV (or liquidation threshold) set to `t`.
pub open spec fn with_threshold(q: AccountPosition, p: AccountPosition, t: u128, is_ltv: bool) -> bool {
    &&& q.scaled_amount == p.scaled_amount && q.position_type == p.position_type
    &&& q.asset_id@ == p.asset_id@ && q.account_nonce == p.account_nonce && q.liquidation_bonus == p.liquidation_bonus
    &&& q.liquidation_fees == p.liquidation_fees && q.is_vault == p.is_vault
    &&& if is_ltv {
        q.loan_to_value == t && q.liquidation_threshold == p.liquidation_threshold
    } else {
        q.liquidation_threshold == t && q.loan_to_value == p.loan_to_value
    }
}

/// Updates the threshold one account's position of the asset records (see
/// `threshold_update_spec`): the updated position and whether it changed.
pub fn update_account_threshold(account: &ThresholdAccount, config: &AssetConfig, is_ltv: bool) -> (r: Result<(AccountPosition, bool), ControllerError>)
    requires
        threshold_account_ok(*account),
    ensures
        match threshold_update_spec(*account, *config, is_ltv) {
            Err(e) => r == Err::<(AccountPosition, bool), ControllerError>(e),
            Ok((t, changed)) => r matches Ok((q, c)) && c == changed && with_threshold(q, account.position.unwrap(), t, is_ltv),
        },
{
    if !account.in_market {
        return Err(ControllerError::AccountNotInTheMarket);
    }
    let p = match &account.position {
        Some(p) => p.clone(),
        None => return Err(ControllerError::PositionNotFound),
    };
    let bonus = p.liquidation_bonus;
    let ltv = p.loan_to_value;
    let (q, changed) = update_position_threshold(Some(p), &account.attributes, account.category, config, is_ltv)?;
    if changed && !is_ltv {
        let mut collaterals = account.other_collaterals.clone();
        collaterals.push(CollateralValue {
            amount: account.amount,
            price: account.price,
            decimals: account.decimals,
            liquidation_threshold: q.liquidation_threshold,
            liquidation_bonus: bonus,
            ltv,
        });
        validate_account_withdraw_health(&collaterals, &account.debts, Some(THRESHOLD_UPDATE_SAFETY_FACTOR))?;
    }
    Ok((q, changed))
}

/// The updates of the accounts in order: the first refusal, or each account's new
/// threshold and whether it changed.
pub open spec fn thresholds_walk_spec(s: Seq<ThresholdAccount>, config: AssetConfig, is_ltv: bool) -> Result<Seq<(u128, bool)>, ControllerError>
    decreases s.len(),
{
    if s.len() == 0 {
        Ok(Seq::empty())
    } else {
        match thresholds_walk_spec(s.drop_last(), config, is_ltv) {
            Err(e) => Err(e),
            Ok(v) => match threshold_update_spec(s.last(), config, is_ltv) {
                Err(e) => Err(e),
                Ok(x) => Ok(v.push(x)),
            },
        }
    }
}

proof fn lemma_thresholds_walk_prefix(s: Seq<ThresholdAccount>, i: int, config: AssetConfig, is_ltv: bool)
    requires
        0 <= i <= s.len(),
    ensures
        thresholds_walk_spec(s.take(i), config, is_ltv) is Err ==> thresholds_walk_spec(s, config, is_ltv) == thresholds_walk_spec(s.take(i), config, is_ltv),
    decreases s.len() - i,
{
    if i == s.len() {
        assert(s.take(i) =~= s);
    } else {
        lemma_thresholds_walk_prefix(s, i + 1, config, is_ltv);
        assert(s.take(i + 1).drop_last() =~= s.take(i));
    }
}

/// Brings the LTV or liquidation threshold that each named account's deposit position
/// of an asset records up to date, in order: refused for an unsupported asset, else
/// at the first account whose update is refused (see `threshold_update_spec`).
/// Yields each updated position and whether it changed.
pub fn update_accounts_thresholds(asset_supported: bool, accounts: &Vec<ThresholdAccount>, config: &AssetConfig, is_ltv: bool) -> (r: Result<Vec<(AccountPosition, bool)>, ControllerError>)
    requires
        forall|i: int| 0 <= i < accounts@.len() ==> threshold_account_ok(#[trigger] accounts@[i]),
    ensures
        !asset_supported ==> r == Err::<Vec<(AccountPosition, bool)>, ControllerError>(ControllerError::AssetNotSupported),
        asset_supported ==> match thresholds_walk_spec(accounts@, *config, is_ltv) {
            Err(e) => r == Err::<Vec<(AccountPosition, bool)>, ControllerError>(e),
            Ok(v) => r matches Ok(out) && out@.len() == v.len() && forall|i: int| 0 <= i < v.len() ==> {
                &&& (#[trigger] out@[i]).1 == v[i].1
                &&& with_threshold(out@[i].0, accounts@[i].position.unwrap(), v[i].0, is_ltv)
            },
        },
{
    if !asset_supported {
        return Err(ControllerError::AssetNotSupported);
    }
    let mut out: Vec<(AccountPosition, bool)> = Vec::new();
    let mut i: usize = 0;
    proof {
        assert(accounts@.take(0) =~= Seq::<ThresholdAccount>::empty());
    }
    while i < accounts.len()
        invariant
            i <= accounts@.len(),
            out@.len() == i,
            asset_supported,
            forall|k: int| 0 <= k < accounts@.len() ==> threshold_account_ok(#[trigger] accounts@[k]),
            thresholds_walk_spec(accounts@.take(i as int), *config, is_ltv) matches Ok(v) && out@.len() == v.len()
                && forall|k: int| 0 <= k < v.len() ==> {
                    &&& (#[trigger] out@[k]).1 == v[k].1
                    &&& with_threshold(out@[k].0, accounts@[k].position.unwrap(), v[k].0, is_ltv)
                },
        decreases accounts@.len() - i,
    {
        proof {
            assert(accounts@.take(i + 1).drop_last() =~= accounts@.take(i as int));
            assert(accounts@.take(i + 1).last() == accounts@[i as int]);
            lemma_thresholds_walk_prefix(accounts@, i + 1, *config, is_ltv);
        }
        let ghost v0 = thresholds_walk_spec(accounts@.take(i as int), *config, is_ltv)->Ok_0;
        let ghost out0 = out@;
        let (q, changed) = update_account_threshold(&accounts[i], config, is_ltv)?;
        assert(threshold_update_spec(accounts@[i as int], *config, is_ltv) matches Ok((t, c)) && c == changed
            && with_threshold(q, accounts@[i as int].position.unwrap(), t, is_ltv));
        out.push((q, changed));
        i = i + 1;
        proof {
            let v1 = thresholds_walk_spec(accounts@.take(i as int), *config, is_ltv)->Ok_0;
            assert(v1 == v0.push(threshold_update_spec(accounts@[i - 1], *config, is_ltv)->Ok_0));
            assert forall|k: int| 0 <= k < v1.len() implies {
                &&& (#[trigger] out@[k]).1 == v1[k].1
                &&& with_threshold(out@[k].0, accounts@[k].position.unwrap(), v1[k].0, is_ltv)
            } by {
                if k < v0.len() {
                    assert(out@[k] == out0[k]);
                } else {
                    assert(k == i - 1);
                    assert(out@[k] == (q, changed));
                    assert(v1[k] == threshold_update_spec(accounts@[k], *config, is_ltv)->Ok_0);
                }
            }
        }
    }
    proof {
        assert(accounts@.take(i as int) =~= accounts@);
    }
    Ok(out)
}

/// A user's withdrawal (not a liquidation) from position `p`: the pool state after
/// it, the position's scaled amount (a plain amount in the vault) after it, the
/// amount sent to the user and the vault's total after it.
pub open spec fn user_withdraw_spec(s: PoolState, pool_asset: Seq<u8>, p: AccountPosition, requested: int, vault_supplied: int, reserves: int, now: u64) -> Result<(PoolState, u128, u128, u128), ControllerError> {
    if p.is_vault {
        match vault_withdraw_spec(p.scaled_amount as int, requested, false, None, None, vault_supplied) {
            Err(e) => Err(e),
            Ok((_, to_caller, _, vault, left)) => Ok((s, left as u128, to_caller as u128, vault as u128)),
        }
    } else {
        match market_withdraw_spec(s, p.asset_id@ == pool_asset, p.scaled_amount as int, requested, false, None, None, reserves, now) {
            Err(e) => Err(e),
            Ok((ns, sc, net, _)) => Ok((ns, sc, net, vault_supplied as u128)),
        }
    }
}

/// The token amount a position holds after a withdrawal: its plain amount in the
/// vault, else its scaled amount at the pool's supply index.
pub open spec fn remaining_amount_spec(ns: PoolState, is_vault: bool, left: u128) -> Option<u128> {
    if is_vault {
        Some(left)
    } else {
        original_of(left as int, ns.supply_index as int, ns.params.asset_decimals as nat)
    }
}

/// The account's collateral after a withdrawal: its other collateral, then the
/// position (holding `amount` tokens at `price` and `decimals`) when something is left.
pub open spec fn collateral_after_withdraw(others: Seq<CollateralValue>, p: AccountPosition, left: u128, amount: u128, price: u128, decimals: u8) -> Seq<CollateralValue> {
    if left > 0 {
        others.push(CollateralValue {
            amount,
            price,
            decimals,
            liquidation_threshold: p.liquidation_threshold,
            liquidation_bonus: p.liquidation_bonus,
            ltv: p.loan_to_value,
        })
    } else {
        others
    }
}

/// A user's withdrawal of collateral: the withdrawal is made (see
/// `user_withdraw_spec`), then the account (its other collateral `others`, what is
/// left of the position, its `debts`) must pass the withdrawal health check; a
/// refusal at any step leaves the pool as it was.
pub fn withdraw_collateral(
    pool: &mut LiquidityPool,
    position: AccountPosition,
    requested: u128,
    vault_supplied: u128,
    reserves: u128,
    now: u64,
    price: u128,
    decimals: u8,
    others: &Vec<CollateralValue>,
    debts: &Vec<DebtValue>,
) -> (r: Result<WithdrawOutcome, ControllerError>)
    requires
        old(pool).state.valid(),
        decimals <= 38,
        forall|i: int| 0 <= i < others@.len() ==> #[trigger] others@[i].decimals <= 38,
        forall|i: int| 0 <= i < debts@.len() ==> #[trigger] debts@[i].decimals <= 38,
    ensures
        final(pool).state.valid(),
        final(pool).asset_id@ == old(pool).asset_id@,
        match user_withdraw_spec(old(pool).state, old(pool).asset_id@, position, requested as int, vault_supplied as int, reserves as int, now) {
            Err(e) => r matches Err(e2) && e2 == e && final(pool).state == old(pool).state,
            Ok((ns, left, sent, vault)) => match remaining_amount_spec(ns, position.is_vault, left) {
                None => r matches Err(e2) && e2 == ControllerError::Arithmetic && final(pool).state == old(pool).state,
                Some(v) => match account_withdraw_health_spec(collateral_after_withdraw(others@, position, left, v, price, decimals), debts@, None) {
                    Err(e) => r matches Err(e2) && e2 == e && final(pool).state == old(pool).state,
                    Ok(()) => r matches Ok(o) && final(pool).state == ns && o.position.scaled_amount == left
                        && o.position.same_except_amount(&position) && o.to_caller == sent && o.vault_supplied == vault
                        && o.keep_position == (left > 0),
                },
            },
        },
{
    let saved = pool.state;
    let is_vault = position.is_vault;
    let threshold = position.liquidation_threshold;
    let bonus = position.liquidation_bonus;
    let ltv = position.loan_to_value;
    let o = internal_withdraw(pool, Some(position), requested, false, None, None, vault_supplied, reserves, now)?;
    let left = o.position.scaled_amount;
    let amount = if is_vault {
        left
    } else {
        match to_original(left, pool.state.supply_index, pool.state.params.asset_decimals) {
            Some(v) => v,
            None => {
                pool.state = saved;
                return Err(ControllerError::Arithmetic);
            },
        }
    };
    let mut collaterals = others.clone();
    if left > 0 {
        collaterals.push(CollateralValue { amount, price, decimals, liquidation_threshold: threshold, liquidation_bonus: bonus, ltv });
    }
    match validate_account_withdraw_health(&collaterals, debts, None) {
        Ok(()) => Ok(o),
        Err(e) => {
            pool.state = saved;
            Err(e)
        },
    }
}

/// The market of one of an account's deposits: its pool, the vault's total of the
/// asset, and the pool's token balance.
#[derive(Debug)]
pub struct VaultMarket {
    pub pool: LiquidityPool,
    pub vault_supplied: u128,
    pub reserves: u128,
}

/// `(pool state, pool asset, vault total, reserves)` of a market.
pub open spec fn market_view(m: VaultMarket) -> (PoolState, Seq<u8>, u128, u128) {
    (m.pool.state, m.pool.asset_id@, m.vault_supplied, m.reserves)
}

pub open spec fn markets_view(s: Seq<VaultMarket>) -> Seq<(PoolState, Seq<u8>, u128, u128)> {
    s.map_values(|m: VaultMarket| market_view(m))
}

/// Switching one deposit into the vault (`enable`) or out of it: a deposit already on
/// that side is left as it is; otherwise it moves as `enable_vault_spec` or
/// `disable_vault_deposit` say. Yields the pool state, the position's amount (plain in
/// the vault, scaled in the pool) and the vault total.
pub open spec fn vault_switch_spec(m: (PoolState, Seq<u8>, u128, u128), p: AccountPosition, enable: bool, now: u64) -> Result<(PoolState, u128, u128), ControllerError> {
    let (s, asset, vault, reserves) = m;
    if p.is_vault == enable {
        Ok((s, p.scaled_amount, vault))
    } else if enable {
        enable_vault_spec(s, p.asset_id@ == asset, p.scaled_amount as int, vault as int, reserves as int, now)
    } else if vault < p.scaled_amount {
        Err(ControllerError::Arithmetic)
    } else {
        match supply_spec(s, p.asset_id@ == asset, p.asset_id@ == asset, 0, p.scaled_amount as int, now) {
            Err(e) => Err(ControllerError::Pool(e)),
            Ok((ns, sc)) => Ok((ns, sc, (vault - p.scaled_amount) as u128)),
        }
    }
}

/// Switching every deposit of an account, in order: the first refusal, or each
/// deposit's outcome.
pub open spec fn vault_walk_spec(ms: Seq<(PoolState, Seq<u8>, u128, u128)>, ps: Seq<AccountPosition>, enable: bool, now: u64) -> Result<Seq<(PoolState, u128, u128)>, ControllerError>
    decreases ps.len(),
{
    if ps.len() == 0 {
        Ok(Seq::empty())
    } else {
        match vault_walk_spec(ms.drop_last(), ps.drop_last(), enable, now) {
            Err(e) => Err(e),
            Ok(v) => match vault_switch_spec(ms.last(), ps.last(), enable, now) {
                Err(e) => Err(e),
                Ok(x) => Ok(v.push(x)),
            },
        }
    }
}

proof fn lemma_vault_walk_prefix(ms: Seq<(PoolState, Seq<u8>, u128, u128)>, ps: Seq<AccountPosition>, i: int, enable: bool, now: u64)
    requires
        0 <= i <= ps.len(),
        ms.len() == ps.len(),
    ensures
        vault_walk_spec(ms.take(i), ps.take(i), enable, now) is Err ==> vault_walk_spec(ms, ps, enable, now) == vault_walk_spec(ms.take(i), ps.take(i), enable, now),
    decreases ps.len() - i,
{
    if i == ps.len() {
        assert(ms.take(i) =~= ms);
        assert(ps.take(i) =~= ps);
    } else {
        lemma_vault_walk_prefix(ms, ps, i + 1, enable, now);
        assert(ms.take(i + 1).drop_last() =~= ms.take(i));
        assert(ps.take(i + 1).drop_last() =~= ps.take(i));
    }
}

/// Switches all of an account's deposits into the vault (`enable`) or out of it, each
/// through its own market (`markets[i]` is the market of `deposits[i]`), in order (see
/// `vault_walk_spec`). Yields the markets and the positions afterwards; on a refusal
/// nothing is returned, so no market changes.
#[verifier::loop_isolation(false)]
#[verifier::rlimit(40)]
pub fn switch_account_vault(markets: Vec<VaultMarket>, deposits: Vec<AccountPosition>, enable: bool, now: u64) -> (r: Result<(Vec<VaultMarket>, Vec<AccountPosition>), ControllerError>)
    requires
        markets@.len() == deposits@.len(),
        forall|i: int| 0 <= i < markets@.len() ==> (#[trigger] markets@[i]).pool.state.valid(),
    ensures
        match vault_walk_spec(markets_view(markets@), deposits@, enable, now) {
            Err(e) => r matches Err(e2) && e2 == e,
            Ok(v) => r matches Ok((ms, ps)) && ms@.len() == v.len() && ps@.len() == v.len() && forall|i: int| 0 <= i < v.len() ==> {
                &&& (#[trigger] ms@[i]).pool.state == v[i].0
                &&& ms@[i].pool.asset_id@ == markets@[i].pool.asset_id@
                &&& ms@[i].vault_supplied == v[i].2
                &&& ms@[i].reserves == markets@[i].reserves
                &&& ps@[i].scaled_amount == v[i].1
                &&& with_vault_spec(deposits@[i], ps@[i], enable)
            },
        },
{
    let ghost ms0 = markets@;
    let ghost ps0 = deposits@;
    let ghost mv = markets_view(markets@);
    let n = markets.len();
    let mut rest_m = markets;
    let mut rest_p = deposits;
    let mut out_m: Vec<VaultMarket> = Vec::new();
    let mut out_p: Vec<AccountPosition> = Vec::new();
    let mut i: usize = 0;
    proof {
        assert(mv.take(0) =~= Seq::<(PoolState, Seq<u8>, u128, u128)>::empty());
        assert(ps0.take(0) =~= Seq::<AccountPosition>::empty());
        assert(rest_m@ =~= ms0.subrange(0, n as int));
        assert(rest_p@ =~= ps0.subrange(0, n as int));
    }
    while i < n
        invariant
            i <= n,
            n == ms0.len(),
            ms0.len() == ps0.len(),
            mv == markets_view(ms0),
            rest_m@ == ms0.subrange(i as int, n as int),
            rest_p@ == ps0.subrange(i as int, n as int),
            forall|k: int| 0 <= k < ms0.len() ==> (#[trigger] ms0[k]).pool.state.valid(),
            out_m@.len() == i,
            out_p@.len() == i,
            vault_walk_spec(mv.take(i as int), ps0.take(i as int), enable, now) matches Ok(v) && v.len() == i && forall|k: int| 0 <= k < i ==> {
                &&& (#[trigger] out_m@[k]).pool.state == v[k].0
                &&& out_m@[k].pool.asset_id@ == ms0[k].pool.asset_id@
                &&& out_m@[k].vault_supplied == v[k].2
                &&& out_m@[k].reserves == ms0[k].reserves
                &&& out_p@[k].scaled_amount == v[k].1
                &&& with_vault_spec(ps0[k], out_p@[k], enable)
            },
        decreases n - i,
    {
        proof {
            assert(mv.take(i + 1).drop_last() =~= mv.take(i as int));
            assert(ps0.take(i + 1).drop_last() =~= ps0.take(i as int));
            assert(mv.take(i + 1).last() == mv[i as int]);
            assert(ps0.take(i + 1).last() == ps0[i as int]);
            assert(mv[i as int] == market_view(ms0[i as int]));
            lemma_vault_walk_prefix(mv, ps0, i + 1, enable, now);
            assert(rest_m@[0] == ms0[i as int]);
            assert(rest_p@[0] == ps0[i as int]);
        }
        let ghost v0 = vault_walk_spec(mv.take(i as int), ps0.take(i as int), enable, now)->Ok_0;
        let m = rest_m.remove(0);
        let p = rest_p.remove(0);
        let mut pool = m.pool;
        let (q, vault) = if enable {
            enable_vault_deposit(&mut pool, p, m.vault_supplied, m.reserves, now)?
        } else {
            disable_vault_deposit(&mut pool, p, m.vault_supplied, now)?
        };
        let ghost x = vault_switch_spec(mv[i as int], ps0[i as int], enable, now)->Ok_0;
        assert(pool.state == x.0 && q.scaled_amount == x.1 && vault == x.2 && with_vault_spec(ps0[i as int], q, enable));
        let ghost om = out_m@;
        let ghost op = out_p@;
        out_m.push(VaultMarket { pool, vault_supplied: vault, reserves: m.reserves });
        out_p.push(q);
        i = i + 1;
        proof {
            assert(rest_m@ =~= ms0.subrange(i as int, n as int));
            assert(rest_p@ =~= ps0.subrange(i as int, n as int));
            let v1 = vault_walk_spec(mv.take(i as int), ps0.take(i as int), enable, now)->Ok_0;
            assert(v1 == v0.push(x));
            assert forall|k: int| 0 <= k < i implies {
                &&& (#[trigger] out_m@[k]).pool.state == v1[k].0
                &&& out_m@[k].pool.asset_id@ == ms0[k].pool.asset_id@
                &&& out_m@[k].vault_supplied == v1[k].2
                &&& out_m@[k].reserves == ms0[k].reserves
                &&& out_p@[k].scaled_amount == v1[k].1
                &&& with_vault_spec(ps0[k], out_p@[k], enable)
            } by {
                if k < i - 1 {
                    assert(out_m@[k] == om[k]);
                    assert(out_p@[k] == op[k]);
                }
            }
        }
    }
    proof {
        assert(mv.take(n as int) =~= mv);
        assert(ps0.take(n as int) =~= ps0);
    }
    Ok((out_m, out_p))
}

/// An account with debt that passes the withdrawal health check has a health factor
/// of at least 1.0, or `1 + 1/f` with a safety factor `f`.
pub proof fn lemma_health_check_bound(cs: Seq<CollateralValue>, ds: Seq<DebtValue>, safety_factor: Option<u128>)
    requires
        ds.len() > 0,
        account_withdraw_health_spec(cs, ds, safety_factor) is Ok,
    ensures
        ({
            let (w, _, _) = fit3(collateral_sums_spec(cs))->Some_0;
            let b = debt_sum_spec(ds)->Some_0;
            health_factor_spec(w as int, b) >= match safety_factor {
                Some(f) => (BPS as int) + (BPS as int) / (f as int),
                None => BPS as int,
            }
        }),
{
}

/// An accepted change of a position's liquidation threshold leaves an account with
/// debt at a health factor of at least 1.05.
pub proof fn lemma_threshold_change_keeps_margin(a: ThresholdAccount, config: AssetConfig)
    requires
        a.debts@.len() > 0,
        threshold_update_spec(a, config, false) matches Ok((_, changed)) && changed,
    ensures
        ({
            let (t, _) = threshold_update_spec(a, config, false)->Ok_0;
            let (w, _, _) = fit3(collateral_sums_spec(collateral_after_update(a, a.position.unwrap(), t)))->Some_0;
            health_factor_spec(w as int, debt_sum_spec(a.debts@)->Some_0) >= (BPS as int) + (BPS as int) / 20
        }),
{
    let (t, _) = threshold_update_spec(a, config, false)->Ok_0;
    lemma_health_check_bound(collateral_after_update(a, a.position.unwrap(), t), a.debts@, Some(THRESHOLD_UPDATE_SAFETY_FACTOR));
}

} // verus!
