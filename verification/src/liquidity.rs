//! Operations of a liquidity pool: supply, borrow, withdraw, repay, flash loans,
//! leveraged strategies, bad debt, dust seizure and treasury claims.
//!
//! Each operation first accrues interest up to `now`, then checks and updates the
//! pool. An operation that fails leaves the pool unchanged, as an aborted transaction
//! does. The pool's token balance (`reserves`) is passed in; what it may lend or pay
//! out is that balance less the protocol's revenue (`available_reserves_spec`), and
//! the amounts the market must send out are returned.
use crate::math::{mul_half_up, mul_half_up_spec, rescale, rescale_half_up, rescale_half_up_spec, rescale_spec, BPS, BPS_PRECISION, RAY_PRECISION};
use crate::pool::{
    available_reserves, available_reserves_spec, add_protocol_revenue_spec, bad_debt_index_spec, global_sync_spec, gross_withdrawal_spec,
    original_of, repayment_details_spec, scaled_of, sub_checked, sub_opt, to_original, to_scaled,
    PoolState,
};
use crate::position::AccountPosition;
use crate::token::{same_token, TokenId};
use crate::wide::{fit, max_u128};
use vstd::prelude::*;

verus! {

/// Why a pool operation is refused.
#[derive(Clone, Copy, Debug, PartialEq, Eq, Structural)]
pub enum PoolError {
    /// The token or position is not of the pool's asset.
    InvalidAsset,
    /// The pool holds too little of its asset.
    InsufficientLiquidity,
    /// The pool holds too little of its asset for the flash loan.
    FlashloanReserveAsset,
    /// The amount withdrawn does not cover the liquidation fee.
    WithdrawAmountLessThanFee,
    /// The flash loan was not paid back as required.
    InvalidFlashloanRepayment,
    /// A computation that has no result (a negative difference, a zero
    /// divisor, time going backwards) or a value beyond 128 bits.
    Arithmetic,
}

/// A liquidity pool: its asset and its accounting state.
#[derive(Debug)]
pub struct LiquidityPool {
    pub asset_id: TokenId,
    pub state: PoolState,
}

/// Result of `supply`: the pool after the deposit and the position's new scaled amount.
pub open spec fn supply_spec(
    s: PoolState,
    payment_ok: bool,
    position_ok: bool,
    position_scaled: int,
    amount: int,
    now: u64,
) -> Result<(PoolState, u128), PoolError> {
    if !payment_ok || !position_ok {
        Err(PoolError::InvalidAsset)
    } else {
        match global_sync_spec(s, now) {
            None => Err(PoolError::Arithmetic),
            Some(s1) => match scaled_of(amount, s1.params.asset_decimals as nat, s1.supply_index as int) {
                None => Err(PoolError::Arithmetic),
                Some(sc) => if position_scaled + sc > max_u128() || s1.supplied + sc > max_u128() {
                    Err(PoolError::Arithmetic)
                } else {
                    Ok((PoolState { supplied: (s1.supplied + sc) as u128, ..s1 }, (position_scaled + sc) as u128))
                },
            },
        }
    }
}

/// Result of `borrow`: the pool after the loan and the position's new scaled debt.
pub open spec fn borrow_spec(
    s: PoolState,
    position_ok: bool,
    position_scaled: int,
    amount: int,
    reserves: int,
    now: u64,
) -> Result<(PoolState, u128), PoolError> {
    match global_sync_spec(s, now) {
        None => Err(PoolError::Arithmetic),
        Some(s1) => if !position_ok {
            Err(PoolError::InvalidAsset)
        } else if available_reserves_spec(s1, reserves) < amount {
            Err(PoolError::InsufficientLiquidity)
        } else {
            match scaled_of(amount, s1.params.asset_decimals as nat, s1.borrow_index as int) {
                None => Err(PoolError::Arithmetic),
                Some(sc) => if position_scaled + sc > max_u128() || s1.borrowed + sc > max_u128() {
                    Err(PoolError::Arithmetic)
                } else {
                    Ok((PoolState { borrowed: (s1.borrowed + sc) as u128, ..s1 }, (position_scaled + sc) as u128))
                },
            }
        },
    }
}

/// Result of `withdraw`: the pool afterwards, the position's new scaled amount and the
/// net amount sent to the caller. In a liquidation the protocol fee is kept from the
/// gross amount and minted to the treasury.
pub open spec fn withdraw_spec(
    s: PoolState,
    position_ok: bool,
    position_scaled: int,
    amount: int,
    is_liquidation: bool,
    protocol_fee: Option<u128>,
    reserves: int,
    now: u64,
) -> Result<(PoolState, u128, u128), PoolError> {
    match global_sync_spec(s, now) {
        None => Err(PoolError::Arithmetic),
        Some(s1) => if !position_ok {
            Err(PoolError::InvalidAsset)
        } else {
            match gross_withdrawal_spec(s1, position_scaled, amount) {
                None => Err(PoolError::Arithmetic),
                Some((scaled_gross, gross)) => {
                    let fee_result: Result<(PoolState, int), PoolError> = if is_liquidation && protocol_fee is Some {
                        let fee = protocol_fee->Some_0;
                        if gross < fee {
                            Err(PoolError::WithdrawAmountLessThanFee)
                        } else {
                            match add_protocol_revenue_spec(s1, fee as int, s1.params.asset_decimals as nat) {
                                None => Err(PoolError::Arithmetic),
                                Some(s2) => Ok((s2, gross - fee)),
                            }
                        }
                    } else {
                        Ok((s1, gross as int))
                    };
                    match fee_result {
                        Err(e) => Err(e),
                        Ok((s2, net)) => if available_reserves_spec(s1, reserves) < net {
                            Err(PoolError::InsufficientLiquidity)
                        } else if s2.supplied < scaled_gross || position_scaled < scaled_gross {
                            Err(PoolError::Arithmetic)
                        } else {
                            Ok((
                                PoolState { supplied: (s2.supplied - scaled_gross) as u128, ..s2 },
                                (position_scaled - scaled_gross) as u128,
                                net as u128,
                            ))
                        },
                    }
                },
            }
        },
    }
}

/// Result of `repay`: the pool afterwards, the position's new scaled debt and the
/// overpaid amount refunded to the caller.
pub open spec fn repay_spec(
    s: PoolState,
    payment_ok: bool,
    position_ok: bool,
    position_scaled: int,
    payment: int,
    now: u64,
) -> Result<(PoolState, u128, u128), PoolError> {
    if !payment_ok {
        Err(PoolError::InvalidAsset)
    } else {
        match global_sync_spec(s, now) {
            None => Err(PoolError::Arithmetic),
            Some(s1) => if !position_ok {
                Err(PoolError::InvalidAsset)
            } else {
                match repayment_details_spec(s1, position_scaled, payment) {
                    None => Err(PoolError::Arithmetic),
                    Some((repaid_scaled, overpaid)) => if position_scaled < repaid_scaled || s1.borrowed < repaid_scaled {
                        Err(PoolError::Arithmetic)
                    } else {
                        Ok((
                            PoolState { borrowed: (s1.borrowed - repaid_scaled) as u128, ..s1 },
                            (position_scaled - repaid_scaled) as u128,
                            overpaid,
                        ))
                    },
                }
            },
        }
    }
}

/// Result of `create_strategy`: the pool and the position's new scaled debt. The debt
/// recorded is the amount lent plus the strategy fee, and the fee is minted to the
/// treasury.
pub open spec fn create_strategy_spec(
    s: PoolState,
    position_ok: bool,
    position_scaled: int,
    amount: int,
    fee: int,
    reserves: int,
    now: u64,
) -> Result<(PoolState, u128), PoolError> {
    match global_sync_spec(s, now) {
        None => Err(PoolError::Arithmetic),
        Some(s1) => if !position_ok {
            Err(PoolError::InvalidAsset)
        } else if available_reserves_spec(s1, reserves) < amount {
            Err(PoolError::InsufficientLiquidity)
        } else if amount + fee > max_u128() {
            Err(PoolError::Arithmetic)
        } else {
            match scaled_of(amount + fee, s1.params.asset_decimals as nat, s1.borrow_index as int) {
                None => Err(PoolError::Arithmetic),
                Some(sc) => if position_scaled + sc > max_u128() || s1.borrowed + sc > max_u128() {
                    Err(PoolError::Arithmetic)
                } else {
                    let s2 = PoolState { borrowed: (s1.borrowed + sc) as u128, ..s1 };
                    match add_protocol_revenue_spec(s2, fee, s1.params.asset_decimals as nat) {
                        None => Err(PoolError::Arithmetic),
                        Some(s3) => Ok((s3, (position_scaled + sc) as u128)),
                    }
                },
            }
        },
    }
}

/// Result of `add_bad_debt`: the position's whole debt is written off, its value is
/// socialised over the suppliers through the supply index and the position is emptied.
pub open spec fn add_bad_debt_spec(s: PoolState, position_ok: bool, position_scaled: int, now: u64) -> Result<PoolState, PoolError> {
    match global_sync_spec(s, now) {
        None => Err(PoolError::Arithmetic),
        Some(s1) => if !position_ok {
            Err(PoolError::InvalidAsset)
        } else {
            match original_of(position_scaled, s1.borrow_index as int, s1.params.asset_decimals as nat) {
                None => Err(PoolError::Arithmetic),
                Some(debt) => match bad_debt_index_spec(s1, debt as int) {
                    None => Err(PoolError::Arithmetic),
                    Some(idx) => if s1.borrowed < position_scaled {
                        Err(PoolError::Arithmetic)
                    } else {
                        Ok(PoolState { supply_index: idx, borrowed: (s1.borrowed - position_scaled) as u128, ..s1 })
                    },
                },
            }
        },
    }
}

/// Result of `seize_dust_collateral`: the position's scaled supply passes to the
/// treasury and the position is emptied.
pub open spec fn seize_dust_spec(s: PoolState, position_ok: bool, position_scaled: int, now: u64) -> Result<PoolState, PoolError> {
    match global_sync_spec(s, now) {
        None => Err(PoolError::Arithmetic),
        Some(s1) => if !position_ok {
            Err(PoolError::InvalidAsset)
        } else if s1.revenue + position_scaled > max_u128() {
            Err(PoolError::Arithmetic)
        } else {
            Ok(PoolState { revenue: (s1.revenue + position_scaled) as u128, ..s1 })
        },
    }
}

/// Result of `claim_revenue`: the pool afterwards and the amount sent to the treasury.
///
/// The treasury takes its whole balance when the reserves cover it, or everything the
/// pool holds when no user funds or debt remain; otherwise it takes the reserves and
/// burns their scaled equivalent.
pub open spec fn claim_revenue_spec(s: PoolState, reserves: int, now: u64) -> Result<(PoolState, u128), PoolError> {
    match global_sync_spec(s, now) {
        None => Err(PoolError::Arithmetic),
        Some(s1) => if s1.revenue == 0 {
            Ok((s1, 0u128))
        } else {
            let d = s1.params.asset_decimals as nat;
            match original_of(s1.revenue as int, s1.supply_index as int, d) {
                None => Err(PoolError::Arithmetic),
                Some(treasury_actual) => {
                    let user_supplied = if s1.supplied >= s1.revenue { s1.supplied - s1.revenue } else { 0 };
                    let pool_is_empty = user_supplied == 0 && s1.borrowed == 0;
                    let full = reserves >= treasury_actual;
                    let amount = if pool_is_empty { reserves } else if full { treasury_actual as int } else { reserves };
                    if amount <= 0 {
                        Ok((s1, 0u128))
                    } else if pool_is_empty || full {
                        if s1.supplied < s1.revenue {
                            Err(PoolError::Arithmetic)
                        } else {
                            Ok((PoolState { supplied: (s1.supplied - s1.revenue) as u128, revenue: 0, ..s1 }, amount as u128))
                        }
                    } else {
                        match scaled_of(amount, d, s1.supply_index as int) {
                            None => Err(PoolError::Arithmetic),
                            Some(burn) => if s1.revenue < burn || s1.supplied < burn {
                                Err(PoolError::Arithmetic)
                            } else {
                                Ok((PoolState { revenue: (s1.revenue - burn) as u128, supplied: (s1.supplied - burn) as u128, ..s1 }, amount as u128))
                            },
                        }
                    }
                },
            }
        },
    }
}

/// Minimum flash loan repayment: `amount × (1 + fee)`, rounded half up at RAY and then
/// half up to the asset decimals (`fee` in BPS).
pub open spec fn flash_repayment_spec(amount: int, fee: int, decimals: nat) -> Option<u128> {
    let a = rescale_spec(amount, decimals, 27);
    let f = rescale_spec(BPS + fee, 4, 27);
    if a > max_u128() || f > max_u128() {
        None
    } else {
        let m = mul_half_up_spec(a, f, 27);
        if m > max_u128() {
            None
        } else {
            fit(rescale_half_up_spec(m, 27, decimals))
        }
    }
}

/// Result of starting a flash loan: the synchronised pool and the minimum repayment.
pub open spec fn flash_loan_spec(s: PoolState, token_ok: bool, amount: int, fee: int, reserves: int, now: u64) -> Result<(PoolState, u128), PoolError> {
    match global_sync_spec(s, now) {
        None => Err(PoolError::Arithmetic),
        Some(s1) => if !token_ok {
            Err(PoolError::InvalidAsset)
        } else if available_reserves_spec(s1, reserves) < amount {
            Err(PoolError::FlashloanReserveAsset)
        } else if BPS + fee > max_u128() {
            Err(PoolError::Arithmetic)
        } else {
            match flash_repayment_spec(amount, fee, s1.params.asset_decimals as nat) {
                None => Err(PoolError::Arithmetic),
                Some(req) => Ok((s1, req)),
            }
        },
    }
}

/// Result of settling a flash loan: exactly one payment back, in the pool's asset and
/// at least the required repayment; everything above the lent amount is minted to the
/// treasury.
pub open spec fn flash_settle_spec(
    s: PoolState,
    payments: nat,
    token_ok: bool,
    repayment: int,
    required: int,
    amount: int,
) -> Result<PoolState, PoolError> {
    if payments != 1 || !token_ok || repayment < required {
        Err(PoolError::InvalidFlashloanRepayment)
    } else if repayment < amount {
        Err(PoolError::Arithmetic)
    } else {
        match add_protocol_revenue_spec(s, repayment - amount, s.params.asset_decimals as nat) {
            None => Err(PoolError::Arithmetic),
            Some(s2) => Ok(s2),
        }
    }
}

impl LiquidityPool {
    /// Creates a pool for `asset_id` with validated parameters; both indexes start at one.
    pub fn init(asset_id: TokenId, params: crate::rates::MarketParams, now: u64) -> (r: Result<LiquidityPool, crate::rates::ParamsError>)
        ensures
            match crate::rates::params_error(params) {
                Some(e) => r matches Err(e2) && e2 == e,
                None => r matches Ok(p) && p.asset_id@ == asset_id@ && p.state == PoolState::initial_spec(params, now) && p.state.valid(),
            },
    {
        match crate::rates::validate_market_params(params) {
            Err(e) => Err(e),
            Ok(p) => Ok(LiquidityPool { asset_id, state: PoolState::initial(p, now) }),
        }
    }

    /// Replaces the rate parameters (the asset decimals stay); refused parameters leave
    /// the pool unchanged.
    pub fn upgrade(&mut self, params: crate::rates::MarketParams) -> (r: Result<(), crate::rates::ParamsError>)
        requires
            old(self).state.valid(),
        ensures
            final(self).asset_id@ == old(self).asset_id@,
            final(self).state.valid(),
            match crate::rates::params_error(crate::rates::MarketParams { asset_decimals: old(self).state.params.asset_decimals, ..params }) {
                Some(e) => r == Err::<(), crate::rates::ParamsError>(e) && final(self).state == old(self).state,
                None => r is Ok && final(self).state == (PoolState {
                    params: crate::rates::MarketParams { asset_decimals: old(self).state.params.asset_decimals, ..params },
                    ..old(self).state
                }),
            },
    {
        let p = crate::rates::MarketParams { asset_decimals: self.state.params.asset_decimals, ..params };
        match crate::rates::validate_market_params(p) {
            Err(e) => Err(e),
            Ok(v) => {
                self.state = PoolState { params: v, ..self.state };
                Ok(())
            },
        }
    }

    /// Accrues interest up to `now` and returns the new borrow and supply indexes.
    pub fn update_indexes(&mut self, now: u64) -> (r: Result<(u128, u128), PoolError>)
        requires
            old(self).state.valid(),
        ensures
            final(self).asset_id@ == old(self).asset_id@,
            final(self).state.valid(),
            match global_sync_spec(old(self).state, now) {
                None => r == Err::<(u128, u128), PoolError>(PoolError::Arithmetic) && final(self).state == old(self).state,
                Some(s1) => r == Ok::<(u128, u128), PoolError>((s1.borrow_index, s1.supply_index)) && final(self).state == s1,
            },
    {
        match self.state.global_sync(now) {
            None => Err(PoolError::Arithmetic),
            Some(s1) => {
                self.state = s1;
                Ok((s1.borrow_index, s1.supply_index))
            },
        }
    }

    /// Deposits `amount` of the paid token into `position` (see `supply_spec`).
    pub fn supply(&mut self, payment_asset: &TokenId, amount: u128, position: AccountPosition, now: u64) -> (r: Result<AccountPosition, PoolError>)
        requires
            old(self).state.valid(),
        ensures
            final(self).asset_id@ == old(self).asset_id@,
            final(self).state.valid(),
            match supply_spec(old(self).state, payment_asset@ == old(self).asset_id@, position.asset_id@ == old(self).asset_id@, position.scaled_amount as int, amount as int, now) {
                Ok((ns, sc)) => r matches Ok(p) && final(self).state == ns && p.scaled_amount == sc && p.same_except_amount(&position),
                Err(e) => r matches Err(e2) && e2 == e && final(self).state == old(self).state,
            },
    {
        if !same_token(payment_asset, &self.asset_id) || !same_token(&position.asset_id, &self.asset_id) {
            return Err(PoolError::InvalidAsset);
        }
        let s1 = match self.state.global_sync(now) {
            Some(v) => v,
            None => return Err(PoolError::Arithmetic),
        };
        let sc = match to_scaled(amount, s1.params.asset_decimals, s1.supply_index) {
            Some(v) => v,
            None => return Err(PoolError::Arithmetic),
        };
        if position.scaled_amount > u128::MAX - sc || s1.supplied > u128::MAX - sc {
            return Err(PoolError::Arithmetic);
        }
        self.state = PoolState { supplied: s1.supplied + sc, ..s1 };
        let new_scaled = position.scaled_amount + sc;
        Ok(position.with_scaled_amount(new_scaled))
    }

    /// Lends `amount` against `position` (see `borrow_spec`); the caller receives `amount`.
    pub fn borrow(&mut self, amount: u128, position: AccountPosition, reserves: u128, now: u64) -> (r: Result<AccountPosition, PoolError>)
        requires
            old(self).state.valid(),
        ensures
            final(self).asset_id@ == old(self).asset_id@,
            final(self).state.valid(),
            match borrow_spec(old(self).state, position.asset_id@ == old(self).asset_id@, position.scaled_amount as int, amount as int, reserves as int, now) {
                Ok((ns, sc)) => r matches Ok(p) && final(self).state == ns && p.scaled_amount == sc && p.same_except_amount(&position),
                Err(e) => r matches Err(e2) && e2 == e && final(self).state == old(self).state,
            },
    {
        let s1 = match self.state.global_sync(now) {
            Some(v) => v,
            None => return Err(PoolError::Arithmetic),
        };
        if !same_token(&position.asset_id, &self.asset_id) {
            return Err(PoolError::InvalidAsset);
        }
        if available_reserves(&s1, reserves) < amount {
            return Err(PoolError::InsufficientLiquidity);
        }
        let sc = match to_scaled(amount, s1.params.asset_decimals, s1.borrow_index) {
            Some(v) => v,
            None => return Err(PoolError::Arithmetic),
        };
        if position.scaled_amount > u128::MAX - sc || s1.borrowed > u128::MAX - sc {
            return Err(PoolError::Arithmetic);
        }
        self.state = PoolState { borrowed: s1.borrowed + sc, ..s1 };
        let new_scaled = position.scaled_amount + sc;
        Ok(position.with_scaled_amount(new_scaled))
    }

    /// Withdraws up to `amount` from `position` (see `withdraw_spec`); returns the
    /// position and the net amount sent to the caller.
    pub fn withdraw(
        &mut self,
        amount: u128,
        position: AccountPosition,
        is_liquidation: bool,
        protocol_fee: Option<u128>,
        reserves: u128,
        now: u64,
    ) -> (r: Result<(AccountPosition, u128), PoolError>)
        requires
            old(self).state.valid(),
        ensures
            final(self).asset_id@ == old(self).asset_id@,
            final(self).state.valid(),
            match withdraw_spec(old(self).state, position.asset_id@ == old(self).asset_id@, position.scaled_amount as int, amount as int, is_liquidation, protocol_fee, reserves as int, now) {
                Ok((ns, sc, net)) => r matches Ok((p, sent)) && final(self).state == ns && p.scaled_amount == sc && sent == net && p.same_except_amount(&position),
                Err(e) => r matches Err(e2) && e2 == e && final(self).state == old(self).state,
            },
    {
        let s1 = match self.state.global_sync(now) {
            Some(v) => v,
            None => return Err(PoolError::Arithmetic),
        };
        if !same_token(&position.asset_id, &self.asset_id) {
            return Err(PoolError::InvalidAsset);
        }
        let (scaled_gross, gross) = match s1.determine_gross_withdrawal_amounts(position.scaled_amount, amount) {
            Some(v) => v,
            None => return Err(PoolError::Arithmetic),
        };
        let (s2, net) = match s1.process_liquidation_fee_details(is_liquidation, protocol_fee, gross) {
            Ok(v) => v,
            Err(e) => return Err(e),
        };
        if available_reserves(&s1, reserves) < net {
            return Err(PoolError::InsufficientLiquidity);
        }
        if s2.supplied < scaled_gross || position.scaled_amount < scaled_gross {
            return Err(PoolError::Arithmetic);
        }
        self.state = PoolState { supplied: s2.supplied - scaled_gross, ..s2 };
        let new_scaled = position.scaled_amount - scaled_gross;
        Ok((position.with_scaled_amount(new_scaled), net))
    }

    /// Repays debt of `position` with `payment` of the paid token (see `repay_spec`);
    /// returns the position and the overpaid amount refunded to the caller.
    pub fn repay(&mut self, payment_asset: &TokenId, payment: u128, position: AccountPosition, now: u64) -> (r: Result<(AccountPosition, u128), PoolError>)
        requires
            old(self).state.valid(),
        ensures
            final(self).asset_id@ == old(self).asset_id@,
            final(self).state.valid(),
            match repay_spec(old(self).state, payment_asset@ == old(self).asset_id@, position.asset_id@ == old(self).asset_id@, position.scaled_amount as int, payment as int, now) {
                Ok((ns, sc, over)) => r matches Ok((p, refund)) && final(self).state == ns && p.scaled_amount == sc && refund == over && p.same_except_amount(&position),
                Err(e) => r matches Err(e2) && e2 == e && final(self).state == old(self).state,
            },
    {
        if !same_token(payment_asset, &self.asset_id) {
            return Err(PoolError::InvalidAsset);
        }
        let s1 = match self.state.global_sync(now) {
            Some(v) => v,
            None => return Err(PoolError::Arithmetic),
        };
        if !same_token(&position.asset_id, &self.asset_id) {
            return Err(PoolError::InvalidAsset);
        }
        let (repaid_scaled, overpaid) = match s1.determine_repayment_details(position.scaled_amount, payment) {
            Some(v) => v,
            None => return Err(PoolError::Arithmetic),
        };
        if position.scaled_amount < repaid_scaled || s1.borrowed < repaid_scaled {
            return Err(PoolError::Arithmetic);
        }
        self.state = PoolState { borrowed: s1.borrowed - repaid_scaled, ..s1 };
        let new_scaled = position.scaled_amount - repaid_scaled;
        Ok((position.with_scaled_amount(new_scaled), overpaid))
    }

    /// Opens leveraged debt of `amount + fee` on `position` (see `create_strategy_spec`);
    /// the caller receives `amount`.
    pub fn create_strategy(&mut self, position: AccountPosition, amount: u128, fee: u128, reserves: u128, now: u64) -> (r: Result<AccountPosition, PoolError>)
        requires
            old(self).state.valid(),
        ensures
            final(self).asset_id@ == old(self).asset_id@,
            final(self).state.valid(),
            match create_strategy_spec(old(self).state, position.asset_id@ == old(self).asset_id@, position.scaled_amount as int, amount as int, fee as int, reserves as int, now) {
                Ok((ns, sc)) => r matches Ok(p) && final(self).state == ns && p.scaled_amount == sc && p.same_except_amount(&position),
                Err(e) => r matches Err(e2) && e2 == e && final(self).state == old(self).state,
            },
    {
        let s1 = match self.state.global_sync(now) {
            Some(v) => v,
            None => return Err(PoolError::Arithmetic),
        };
        if !same_token(&position.asset_id, &self.asset_id) {
            return Err(PoolError::InvalidAsset);
        }
        if available_reserves(&s1, reserves) < amount {
            return Err(PoolError::InsufficientLiquidity);
        }
        if amount > u128::MAX - fee {
            return Err(PoolError::Arithmetic);
        }
        let sc = match to_scaled(amount + fee, s1.params.asset_decimals, s1.borrow_index) {
            Some(v) => v,
            None => return Err(PoolError::Arithmetic),
        };
        if position.scaled_amount > u128::MAX - sc || s1.borrowed > u128::MAX - sc {
            return Err(PoolError::Arithmetic);
        }
        let s2 = PoolState { borrowed: s1.borrowed + sc, ..s1 };
        let s3 = match s2.internal_add_protocol_revenue(fee, s1.params.asset_decimals) {
            Some(v) => v,
            None => return Err(PoolError::Arithmetic),
        };
        self.state = s3;
        let new_scaled = position.scaled_amount + sc;
        Ok(position.with_scaled_amount(new_scaled))
    }

    /// Writes off the whole debt of `position` (see `add_bad_debt_spec`).
    pub fn add_bad_debt(&mut self, position: AccountPosition, now: u64) -> (r: Result<AccountPosition, PoolError>)
        requires
            old(self).state.valid(),
        ensures
            final(self).asset_id@ == old(self).asset_id@,
            final(self).state.valid(),
            match add_bad_debt_spec(old(self).state, position.asset_id@ == old(self).asset_id@, position.scaled_amount as int, now) {
                Ok(ns) => r matches Ok(p) && final(self).state == ns && p.scaled_amount == 0 && p.same_except_amount(&position),
                Err(e) => r matches Err(e2) && e2 == e && final(self).state == old(self).state,
            },
    {
        let s1 = match self.state.global_sync(now) {
            Some(v) => v,
            None => return Err(PoolError::Arithmetic),
        };
        if !same_token(&position.asset_id, &self.asset_id) {
            return Err(PoolError::InvalidAsset);
        }
        let debt = match to_original(position.scaled_amount, s1.borrow_index, s1.params.asset_decimals) {
            Some(v) => v,
            None => return Err(PoolError::Arithmetic),
        };
        let s2 = match s1.apply_bad_debt_to_supply_index(debt) {
            Some(v) => v,
            None => return Err(PoolError::Arithmetic),
        };
        if s2.borrowed < position.scaled_amount {
            return Err(PoolError::Arithmetic);
        }
        self.state = PoolState { borrowed: s2.borrowed - position.scaled_amount, ..s2 };
        Ok(position.with_scaled_amount(0))
    }

    /// Moves the scaled supply of a dust `position` to the treasury (see `seize_dust_spec`).
    pub fn seize_dust_collateral(&mut self, position: AccountPosition, now: u64) -> (r: Result<AccountPosition, PoolError>)
        requires
            old(self).state.valid(),
        ensures
            final(self).asset_id@ == old(self).asset_id@,
            final(self).state.valid(),
            match seize_dust_spec(old(self).state, position.asset_id@ == old(self).asset_id@, position.scaled_amount as int, now) {
                Ok(ns) => r matches Ok(p) && final(self).state == ns && p.scaled_amount == 0 && p.same_except_amount(&position),
                Err(e) => r matches Err(e2) && e2 == e && final(self).state == old(self).state,
            },
    {
        let s1 = match self.state.global_sync(now) {
            Some(v) => v,
            None => return Err(PoolError::Arithmetic),
        };
        if !same_token(&position.asset_id, &self.asset_id) {
            return Err(PoolError::InvalidAsset);
        }
        if s1.revenue > u128::MAX - position.scaled_amount {
            return Err(PoolError::Arithmetic);
        }
        self.state = PoolState { revenue: s1.revenue + position.scaled_amount, ..s1 };
        Ok(position.with_scaled_amount(0))
    }

    /// Pays the treasury out of the reserves (see `claim_revenue_spec`); returns the
    /// amount sent.
    pub fn claim_revenue(&mut self, reserves: u128, now: u64) -> (r: Result<u128, PoolError>)
        requires
            old(self).state.valid(),
        ensures
            final(self).asset_id@ == old(self).asset_id@,
            final(self).state.valid(),
            match claim_revenue_spec(old(self).state, reserves as int, now) {
                Ok((ns, amount)) => r == Ok::<u128, PoolError>(amount) && final(self).state == ns,
                Err(e) => r == Err::<u128, PoolError>(e) && final(self).state == old(self).state,
            },
    {
        let s1 = match self.state.global_sync(now) {
            Some(v) => v,
            None => return Err(PoolError::Arithmetic),
        };
        if s1.revenue == 0 {
            self.state = s1;
            return Ok(0);
        }
        let d = s1.params.asset_decimals;
        let treasury_actual = match to_original(s1.revenue, s1.supply_index, d) {
            Some(v) => v,
            None => return Err(PoolError::Arithmetic),
        };
        let user_supplied = if s1.supplied >= s1.revenue { s1.supplied - s1.revenue } else { 0 };
        let pool_is_empty = user_supplied == 0 && s1.borrowed == 0;
        let full = reserves >= treasury_actual;
        let amount = if pool_is_empty { reserves } else if full { treasury_actual } else { reserves };
        if amount == 0 {
            self.state = s1;
            return Ok(0);
        }
        if pool_is_empty || full {
            if s1.supplied < s1.revenue {
                return Err(PoolError::Arithmetic);
            }
            self.state = PoolState { supplied: s1.supplied - s1.revenue, revenue: 0, ..s1 };
            Ok(amount)
        } else {
            let burn = match to_scaled(amount, d, s1.supply_index) {
                Some(v) => v,
                None => return Err(PoolError::Arithmetic),
            };
            if s1.revenue < burn || s1.supplied < burn {
                return Err(PoolError::Arithmetic);
            }
            self.state = PoolState { revenue: s1.revenue - burn, supplied: s1.supplied - burn, ..s1 };
            Ok(amount)
        }
    }

    /// Starts a flash loan of `amount` of `token` with fee `fee` (BPS) (see
    /// `flash_loan_spec`); returns the minimum repayment. The pool is synchronised
    /// before the borrowed funds leave it.
    pub fn flash_loan(&mut self, token: &TokenId, amount: u128, fee: u128, reserves: u128, now: u64) -> (r: Result<u128, PoolError>)
        requires
            old(self).state.valid(),
        ensures
            final(self).asset_id@ == old(self).asset_id@,
            final(self).state.valid(),
            match flash_loan_spec(old(self).state, token@ == old(self).asset_id@, amount as int, fee as int, reserves as int, now) {
                Ok((ns, req)) => r == Ok::<u128, PoolError>(req) && final(self).state == ns,
                Err(e) => r == Err::<u128, PoolError>(e) && final(self).state == old(self).state,
            },
    {
        let s1 = match self.state.global_sync(now) {
            Some(v) => v,
            None => return Err(PoolError::Arithmetic),
        };
        if !same_token(token, &self.asset_id) {
            return Err(PoolError::InvalidAsset);
        }
        if available_reserves(&s1, reserves) < amount {
            return Err(PoolError::FlashloanReserveAsset);
        }
        if fee > u128::MAX - BPS {
            return Err(PoolError::Arithmetic);
        }
        let req = match flash_loan_required_repayment(amount, fee, s1.params.asset_decimals) {
            Some(v) => v,
            None => return Err(PoolError::Arithmetic),
        };
        self.state = s1;
        Ok(req)
    }

    /// Settles a flash loan once the borrowed funds came back (see `flash_settle_spec`).
    pub fn validate_flash_repayment(
        &mut self,
        payments: usize,
        token: &TokenId,
        repayment: u128,
        required: u128,
        amount: u128,
    ) -> (r: Result<(), PoolError>)
        requires
            old(self).state.valid(),
        ensures
            final(self).asset_id@ == old(self).asset_id@,
            final(self).state.valid(),
            match flash_settle_spec(old(self).state, payments as nat, token@ == old(self).asset_id@, repayment as int, required as int, amount as int) {
                Ok(ns) => r is Ok && final(self).state == ns,
                Err(e) => r == Err::<(), PoolError>(e) && final(self).state == old(self).state,
            },
    {
        if payments != 1 || !same_token(token, &self.asset_id) || repayment < required {
            return Err(PoolError::InvalidFlashloanRepayment);
        }
        if repayment < amount {
            return Err(PoolError::Arithmetic);
        }
        match self.state.internal_add_protocol_revenue(repayment - amount, self.state.params.asset_decimals) {
            None => Err(PoolError::Arithmetic),
            Some(s2) => {
                self.state = s2;
                Ok(())
            },
        }
    }
}

/// Minimum flash loan repayment (see `flash_repayment_spec`).
pub fn flash_loan_required_repayment(amount: u128, fee: u128, decimals: usize) -> (r: Option<u128>)
    requires
        decimals <= 38,
        fee <= u128::MAX - BPS,
    ensures
        r == flash_repayment_spec(amount as int, fee as int, decimals as nat),
{
    proof {
        crate::pool::lemma_rescale_nonneg(amount as int, decimals as nat);
        crate::pool::lemma_rescale_nonneg((BPS + fee) as int, 4);
    }
    let a = match rescale(amount, decimals, RAY_PRECISION) {
        Some(v) => v,
        None => return None,
    };
    let f = match rescale(BPS + fee, BPS_PRECISION, RAY_PRECISION) {
        Some(v) => v,
        None => return None,
    };
    proof {
        crate::math::lemma_half_up_nonneg(a as int, f as int, 27);
    }
    match mul_half_up(a, f, RAY_PRECISION) {
        None => None,
        Some(m) => rescale_half_up(m, RAY_PRECISION, decimals),
    }
}

impl PoolState {
    /// In a liquidation with a protocol fee, keeps the fee out of the gross amount and
    /// mints it to the treasury; returns the pool and the net amount to send.
    pub fn process_liquidation_fee_details(&self, is_liquidation: bool, protocol_fee: Option<u128>, gross: u128) -> (r: Result<(PoolState, u128), PoolError>)
        requires
            self.valid(),
        ensures
            r matches Ok((n, _)) ==> n.valid(),
            if is_liquidation && protocol_fee is Some {
                let fee = protocol_fee->Some_0;
                if gross < fee {
                    r == Err::<(PoolState, u128), PoolError>(PoolError::WithdrawAmountLessThanFee)
                } else {
                    match add_protocol_revenue_spec(*self, fee as int, self.params.asset_decimals as nat) {
                        None => r == Err::<(PoolState, u128), PoolError>(PoolError::Arithmetic),
                        Some(s2) => r == Ok::<(PoolState, u128), PoolError>((s2, (gross - fee) as u128)),
                    }
                }
            } else {
                r == Ok::<(PoolState, u128), PoolError>((*self, gross))
            },
    {
        if is_liquidation {
            if let Some(fee) = protocol_fee {
                if gross < fee {
                    return Err(PoolError::WithdrawAmountLessThanFee);
                }
                return match self.internal_add_protocol_revenue(fee, self.params.asset_decimals) {
                    None => Err(PoolError::Arithmetic),
                    Some(s2) => Ok((s2, gross - fee)),
                };
            }
        }
        Ok((*self, gross))
    }
}

/// Utilization as the pool views report it: total debt value over total supplied
/// value, both at RAY; zero when nothing is supplied.
pub open spec fn capital_utilisation_spec(s: PoolState) -> Option<u128> {
    let tb = mul_half_up_spec(s.borrowed as int, s.borrow_index as int, 27);
    let ts = mul_half_up_spec(s.supplied as int, s.supply_index as int, 27);
    if tb > max_u128() || ts > max_u128() {
        None
    } else if ts == 0 {
        Some(0)
    } else {
        fit(crate::math::div_half_up_spec(tb, ts, 27))
    }
}

impl LiquidityPool {
    /// Current utilization from the stored balances and indexes.
    pub fn get_capital_utilisation(&self) -> (r: Option<u128>)
        requires
            self.state.valid(),
        ensures
            r == capital_utilisation_spec(self.state),
    {
        let s = self.state;
        proof {
            crate::math::lemma_half_up_nonneg(s.borrowed as int, s.borrow_index as int, 27);
            crate::math::lemma_half_up_nonneg(s.supplied as int, s.supply_index as int, 27);
        }
        let tb = match mul_half_up(s.borrowed, s.borrow_index, RAY_PRECISION) {
            Some(v) => v,
            None => return None,
        };
        let ts = match mul_half_up(s.supplied, s.supply_index, RAY_PRECISION) {
            Some(v) => v,
            None => return None,
        };
        if ts == 0 {
            return Some(0);
        }
        crate::math::div_half_up(tb, ts, RAY_PRECISION)
    }

    /// Current per-second borrow rate.
    pub fn get_borrow_rate(&self) -> (r: Option<u128>)
        requires
            self.state.valid(),
        ensures
            match capital_utilisation_spec(self.state) {
                None => r is None,
                Some(u) => r == Some(crate::rates::borrow_rate_spec(u as int, self.state.params) as u128),
            },
    {
        match self.get_capital_utilisation() {
            None => None,
            Some(u) => Some(crate::rates::calc_borrow_rate(u, &self.state.params)),
        }
    }

    /// Current per-second deposit rate.
    pub fn get_deposit_rate(&self) -> (r: Option<u128>)
        requires
            self.state.valid(),
        ensures
            match capital_utilisation_spec(self.state) {
                None => r is None,
                Some(u) => r == crate::rates::deposit_rate_spec(
                    u as int,
                    crate::rates::borrow_rate_spec(u as int, self.state.params),
                    self.state.params.reserve_factor as int,
                ),
            },
    {
        match self.get_capital_utilisation() {
            None => None,
            Some(u) => {
                let br = crate::rates::calc_borrow_rate(u, &self.state.params);
                crate::rates::calc_deposit_rate(u, br, self.state.params.reserve_factor)
            },
        }
    }

    /// Actual value of the treasury's balance (asset decimals).
    pub fn get_protocol_revenue(&self) -> (r: Option<u128>)
        requires
            self.state.valid(),
        ensures
            r == original_of(self.state.revenue as int, self.state.supply_index as int, self.state.params.asset_decimals as nat),
    {
        to_original(self.state.revenue, self.state.supply_index, self.state.params.asset_decimals)
    }

    /// Actual value of the total supply (asset decimals).
    pub fn get_supplied_amount(&self) -> (r: Option<u128>)
        requires
            self.state.valid(),
        ensures
            r == original_of(self.state.supplied as int, self.state.supply_index as int, self.state.params.asset_decimals as nat),
    {
        to_original(self.state.supplied, self.state.supply_index, self.state.params.asset_decimals)
    }

    /// Actual value of the total debt (asset decimals).
    pub fn get_borrowed_amount(&self) -> (r: Option<u128>)
        requires
            self.state.valid(),
        ensures
            r == original_of(self.state.borrowed as int, self.state.borrow_index as int, self.state.params.asset_decimals as nat),
    {
        to_original(self.state.borrowed, self.state.borrow_index, self.state.params.asset_decimals)
    }

    /// Time since the last index update, in milliseconds: `(now - last) * 1000`,
    /// with `now` and the stored timestamp in seconds. `None` when `now` is before
    /// the last update or the result does not fit in a `u64`.
    pub fn get_delta_time(&self, now: u64) -> (r: Option<u64>)
        ensures
            r == (if self.state.last_timestamp <= now && (now - self.state.last_timestamp) * 1000 <= u64::MAX {
                Some(((now - self.state.last_timestamp) * 1000) as u64)
            } else {
                None::<u64>
            }),
    {
        if self.state.last_timestamp > now {
            return None;
        }
        let elapsed = now - self.state.last_timestamp;
        if elapsed > u64::MAX / 1000 {
            return None;
        }
        Some(elapsed * 1000)
    }
}

/// Law: a deposit adds to the pool's scaled supply exactly what it adds to the
/// position, and touches nothing else after interest accrual.
pub proof fn lemma_supply_conserves(
    s: PoolState,
    payment_ok: bool,
    position_ok: bool,
    position_scaled: u128,
    amount: u128,
    now: u64,
)
    requires
        s.valid(),
        supply_spec(s, payment_ok, position_ok, position_scaled as int, amount as int, now) is Ok,
    ensures
        ({
            let (ns, new_scaled) = supply_spec(s, payment_ok, position_ok, position_scaled as int, amount as int, now)->Ok_0;
            let s1 = global_sync_spec(s, now)->Some_0;
            &&& ns.supplied - s1.supplied == new_scaled - position_scaled
            &&& new_scaled >= position_scaled
            &&& ns == PoolState { supplied: ns.supplied, ..s1 }
        }),
{
    let s1 = global_sync_spec(s, now)->Some_0;
    crate::pool::lemma_rescale_nonneg(amount as int, s1.params.asset_decimals as nat);
}

/// Law: withdrawing at once what was just supplied to an empty position returns the
/// amount supplied, empties the position and leaves the pool as it was, when the
/// available reserves cover it, for assets of
/// at most 18 decimals, supply indexes up to 1e35 and amounts whose RAY value stays
/// below `2^127`, at the pool's last update time.
pub proof fn lemma_supply_withdraw_round_trip(s: PoolState, amount: u128, reserves: u128)
    requires
        s.valid(),
        s.params.asset_decimals <= 18,
        s.supply_index <= 100_000_000_000_000_000_000_000_000_000_000_000u128,
        amount * crate::math::pow10((27 - s.params.asset_decimals) as nat) < crate::wide::two128() / 2,
        amount <= crate::pool::available_reserves_spec(s, reserves as int),
        supply_spec(s, true, true, 0, amount as int, s.last_timestamp) is Ok,
    ensures
        ({
            let (s1, sc) = supply_spec(s, true, true, 0, amount as int, s.last_timestamp)->Ok_0;
            withdraw_spec(s1, true, sc as int, amount as int, false, None, reserves as int, s.last_timestamp)
                == Ok::<(PoolState, u128, u128), PoolError>((s, 0u128, amount))
        }),
{
    let d = s.params.asset_decimals as nat;
    crate::pool::lemma_scaled_round_trip(amount as int, d, s.supply_index as int);
}

/// Law: repaying at once exactly what was just borrowed on an empty position clears
/// the debt with nothing refunded and leaves the pool as it was, for assets of at
/// most 18 decimals, borrow indexes up to 1e35 and amounts whose RAY value stays below
/// `2^127`, at the pool's last update time.
pub proof fn lemma_borrow_repay_round_trip(s: PoolState, amount: u128, reserves: u128)
    requires
        s.valid(),
        s.params.asset_decimals <= 18,
        s.borrow_index <= 100_000_000_000_000_000_000_000_000_000_000_000u128,
        amount * crate::math::pow10((27 - s.params.asset_decimals) as nat) < crate::wide::two128() / 2,
        borrow_spec(s, true, 0, amount as int, reserves as int, s.last_timestamp) is Ok,
    ensures
        ({
            let (s1, sc) = borrow_spec(s, true, 0, amount as int, reserves as int, s.last_timestamp)->Ok_0;
            repay_spec(s1, true, true, sc as int, amount as int, s.last_timestamp)
                == Ok::<(PoolState, u128, u128), PoolError>((s, 0u128, 0u128))
        }),
{
    let d = s.params.asset_decimals as nat;
    crate::pool::lemma_scaled_round_trip(amount as int, d, s.borrow_index as int);
}

/// Law: a loan adds to the pool's scaled debt exactly what it adds to the position,
/// and is only granted when the pool holds the amount lent.
pub proof fn lemma_borrow_conserves(s: PoolState, position_ok: bool, position_scaled: u128, amount: u128, reserves: u128, now: u64)
    requires
        s.valid(),
        borrow_spec(s, position_ok, position_scaled as int, amount as int, reserves as int, now) is Ok,
    ensures
        ({
            let (ns, new_scaled) = borrow_spec(s, position_ok, position_scaled as int, amount as int, reserves as int, now)->Ok_0;
            let s1 = global_sync_spec(s, now)->Some_0;
            &&& ns.borrowed - s1.borrowed == new_scaled - position_scaled
            &&& new_scaled >= position_scaled
            &&& amount <= reserves
            &&& ns == PoolState { borrowed: ns.borrowed, ..s1 }
        }),
{
    let s1 = global_sync_spec(s, now)->Some_0;
    assert(global_sync_spec(s, now) == Some(s1));
    let sc = scaled_of(amount as int, s1.params.asset_decimals as nat, s1.borrow_index as int)->Some_0;
    assert(borrow_spec(s, position_ok, position_scaled as int, amount as int, reserves as int, now) == Ok::<(PoolState, u128), PoolError>((PoolState { borrowed: (s1.borrowed + sc) as u128, ..s1 }, (position_scaled + sc) as u128)));
}

/// Law: a withdrawal never pays out more than the position is worth, takes from the
/// pool's scaled supply exactly what it takes from the position, and empties the
/// position when the request reaches its value.
pub proof fn lemma_withdraw_bounded(
    s: PoolState,
    position_ok: bool,
    position_scaled: u128,
    amount: u128,
    is_liquidation: bool,
    protocol_fee: Option<u128>,
    reserves: u128,
    now: u64,
)
    requires
        s.valid(),
        withdraw_spec(s, position_ok, position_scaled as int, amount as int, is_liquidation, protocol_fee, reserves as int, now) is Ok,
    ensures
        ({
            let (ns, new_scaled, net) = withdraw_spec(s, position_ok, position_scaled as int, amount as int, is_liquidation, protocol_fee, reserves as int, now)->Ok_0;
            let s1 = global_sync_spec(s, now)->Some_0;
            let value = original_of(position_scaled as int, s1.supply_index as int, s1.params.asset_decimals as nat)->Some_0;
            &&& net <= value
            &&& net <= reserves
            &&& new_scaled <= position_scaled
            &&& (amount >= value ==> new_scaled == 0)
            &&& (!is_liquidation || protocol_fee is None ==> s1.supplied - ns.supplied == position_scaled - new_scaled)
        }),
{
}

/// Law: a repayment that reaches the current debt clears the position and refunds
/// exactly the excess; a smaller one refunds nothing. The pool's scaled debt falls by
/// what the position's does.
pub proof fn lemma_repay_clears_debt(
    s: PoolState,
    payment_ok: bool,
    position_ok: bool,
    position_scaled: u128,
    payment: u128,
    now: u64,
)
    requires
        s.valid(),
        repay_spec(s, payment_ok, position_ok, position_scaled as int, payment as int, now) is Ok,
    ensures
        ({
            let (ns, new_scaled, overpaid) = repay_spec(s, payment_ok, position_ok, position_scaled as int, payment as int, now)->Ok_0;
            let s1 = global_sync_spec(s, now)->Some_0;
            let debt = original_of(position_scaled as int, s1.borrow_index as int, s1.params.asset_decimals as nat)->Some_0;
            &&& (payment >= debt ==> new_scaled == 0 && overpaid == payment - debt)
            &&& (payment < debt ==> overpaid == 0)
            &&& s1.borrowed - ns.borrowed == position_scaled - new_scaled
        }),
{
}

/// Law: writing off bad debt never raises the supply index and never lets it fall
/// below one raw unit.
pub proof fn lemma_bad_debt_lowers_index(s: PoolState, bad_debt: int)
    requires
        s.valid(),
        bad_debt >= 0,
        bad_debt_index_spec(s, bad_debt) is Some,
    ensures
        1 <= bad_debt_index_spec(s, bad_debt)->Some_0 <= s.supply_index,
{
    let total = mul_half_up_spec(s.supplied as int, s.supply_index as int, 27);
    let bad = rescale_spec(bad_debt, s.params.asset_decimals as nat, 27);
    crate::pool::lemma_rescale_nonneg(bad_debt, s.params.asset_decimals as nat);
    crate::math::lemma_half_up_nonneg(s.supplied as int, s.supply_index as int, 27);
    let capped = if bad < total { bad } else { total };
    crate::math::lemma_pow10_values();
    let p = crate::math::pow10(27) as int;
    assert((total - capped) * p <= p * total) by (nonlinear_arith)
        requires
            0 <= total - capped <= total,
            p > 0,
    ;
    assert(0 <= (total - capped) * p) by (nonlinear_arith)
        requires
            0 <= total - capped,
            p > 0,
    ;
    crate::math::lemma_div_round_bound((total - capped) * p, total, p);
    let reduction = crate::math::div_half_up_spec(total - capped, total, 27);
    crate::rates::lemma_mul_half_up_le_one(s.supply_index as int, reduction);
}

/// Law: the treasury is never paid more than the pool holds, and its balance never
/// grows by claiming; when the claim takes the whole treasury balance, the users'
/// scaled supply is unchanged.
pub proof fn lemma_claim_revenue_bounded(s: PoolState, reserves: u128, now: u64)
    requires
        s.valid(),
        claim_revenue_spec(s, reserves as int, now) is Ok,
    ensures
        ({
            let (ns, amount) = claim_revenue_spec(s, reserves as int, now)->Ok_0;
            let s1 = global_sync_spec(s, now)->Some_0;
            &&& amount <= reserves
            &&& ns.revenue <= s1.revenue
            &&& (ns.revenue == 0 && s1.supplied >= s1.revenue ==> ns.supplied == s1.supplied - s1.revenue)
            &&& ns.borrowed == s1.borrowed
        }),
{
}

/// Law: for assets of at most RAY precision, the minimum flash loan repayment is never
/// below the amount lent.
pub proof fn lemma_flash_repayment_covers_loan(amount: u128, fee: u128, decimals: nat)
    requires
        decimals <= 27,
        fee <= u128::MAX - BPS,
        flash_repayment_spec(amount as int, fee as int, decimals) is Some,
    ensures
        flash_repayment_spec(amount as int, fee as int, decimals)->Some_0 >= amount,
{
    crate::math::lemma_pow10_values();
    let p = crate::math::pow10(27) as int;
    let k = crate::math::pow10((27 - decimals) as nat) as int;
    crate::math::lemma_pow10_pos((27 - decimals) as nat);
    let a = amount * k;
    let f = rescale_spec(BPS + fee, 4, 27);
    assert(f == (BPS + fee) * crate::math::pow10(23));
    assert(f >= p) by (nonlinear_arith)
        requires
            f == (BPS + fee) * crate::math::pow10(23),
            fee >= 0,
            BPS == 10_000,
            p == 1_000_000_000_000_000_000_000_000_000,
            crate::math::pow10(23) == 100_000_000_000_000_000_000_000,
    ;
    assert(0 <= a * p <= a * f) by (nonlinear_arith)
        requires
            a == amount * k,
            amount >= 0,
            k > 0,
            f >= p,
            p > 0,
    ;
    crate::math::lemma_div_round_monotone(a * p, a * f, p);
    crate::math::lemma_div_round_exact(a, p);
    let m = mul_half_up_spec(a, f, 27);
    if decimals < 27 {
        assert(0 <= a) by (nonlinear_arith)
            requires
                a == amount * k,
                amount >= 0,
                k > 0,
        ;
        assert(m >= a);
        crate::math::lemma_div_round_monotone(a, m, k);
        crate::math::lemma_div_round_exact(amount as int, k);
        assert(rescale_spec(amount as int, decimals, 27) == a);
        assert(rescale_half_up_spec(m, 27, decimals) == crate::wide::div_round(m, k));
        assert(crate::wide::div_round(m, k) >= amount);
    } else {
        assert(k == 1);
        assert(crate::math::pow10(0) == 1);
        assert(a == amount) by (nonlinear_arith)
            requires
                a == amount * k,
                k == 1,
        ;
        assert(m >= a);
        assert(rescale_half_up_spec(m, 27, 27) == m * 1);
        assert(rescale_half_up_spec(m, 27, decimals) == m);
    }
}


/// Law: writing off a position's bad debt removes the position's scaled debt from the
/// pool and charges suppliers the debt's actual value: its scaled amount at the
/// (synchronised) borrow index. With `v` the supplied value (scaled supply at the
/// supply index, RAY) and `l` that debt at RAY precision (capped at `v`), the supply
/// index goes from `i` to `i'` with `i' * v ≈ i * (v - l)`, within
/// `v * (i + 2 RAY) / RAY`: the suppliers' value falls by the debt's value. Nothing
/// else in the pool changes.
pub proof fn lemma_bad_debt_charges_actual_debt(s: PoolState, position_ok: bool, position_scaled: u128, now: u64)
    requires
        s.valid(),
        add_bad_debt_spec(s, position_ok, position_scaled as int, now) is Ok,
    ensures
        ({
            let ns = add_bad_debt_spec(s, position_ok, position_scaled as int, now)->Ok_0;
            let s1 = global_sync_spec(s, now)->Some_0;
            let debt = original_of(position_scaled as int, s1.borrow_index as int, s1.params.asset_decimals as nat);
            let ray = crate::math::pow10(27) as int;
            let v = mul_half_up_spec(s1.supplied as int, s1.supply_index as int, 27);
            let loss = rescale_spec(debt->Some_0 as int, s1.params.asset_decimals as nat, 27);
            let l = if loss < v { loss } else { v };
            let i = s1.supply_index as int;
            let ni = ns.supply_index as int;
            &&& debt is Some
            &&& bad_debt_index_spec(s1, debt->Some_0 as int) == Some(ns.supply_index)
            &&& v > 0
            &&& ray * (ni * v - i * (v - l)) <= v * (i + 2 * ray)
            &&& ray * (i * (v - l) - ni * v) <= v * (i + 2 * ray)
            &&& ns.borrowed == s1.borrowed - position_scaled
            &&& ns.supplied == s1.supplied
            &&& ns.revenue == s1.revenue
            &&& ns.borrow_index == s1.borrow_index
        }),
{
    let s1 = global_sync_spec(s, now)->Some_0;
    crate::pool::lemma_global_sync_monotone(s, now);
    let debt = original_of(position_scaled as int, s1.borrow_index as int, s1.params.asset_decimals as nat)->Some_0;
    crate::pool::lemma_bad_debt_index_share(s1, debt as int);
}

/// Law: a claim of the treasury's revenue pays it in full when the reserves cover its
/// value (dropping all of its scaled supply); when they do not and users still hold
/// funds or debt, it pays exactly the reserves and the treasury keeps the rest: its
/// scaled revenue and the pool's scaled supply fall by the scaled value of what was
/// paid, and no more. When no user funds or debt remain, the treasury takes whatever
/// the pool holds and its revenue is cleared.
pub proof fn lemma_claim_revenue_pays_what_it_burns(s: PoolState, reserves: u128, now: u64)
    requires
        s.valid(),
        claim_revenue_spec(s, reserves as int, now) is Ok,
    ensures
        ({
            let (ns, amount) = claim_revenue_spec(s, reserves as int, now)->Ok_0;
            let s1 = global_sync_spec(s, now)->Some_0;
            let d = s1.params.asset_decimals as nat;
            let users = s1.supplied > s1.revenue || s1.borrowed > 0;
            let t = original_of(s1.revenue as int, s1.supply_index as int, d);
            let burn = scaled_of(reserves as int, d, s1.supply_index as int);
            &&& (s1.revenue > 0 && t is Some && t->Some_0 > 0 && users && reserves >= t->Some_0 ==> amount == t->Some_0 && ns.revenue == 0
                    && ns.supplied == s1.supplied - s1.revenue)
            &&& (s1.revenue > 0 && t is Some && !users && reserves > 0 ==> amount == reserves && ns.revenue == 0
                    && ns.supplied == s1.supplied - s1.revenue)
            &&& (s1.revenue > 0 && t is Some && users && 0 < reserves < t->Some_0 ==> amount == reserves
                    && burn is Some && ns.revenue + burn->Some_0 == s1.revenue && ns.supplied + burn->Some_0 == s1.supplied)
            &&& ns.borrowed == s1.borrowed
            &&& ns.supply_index == s1.supply_index
        }),
{
}

/// Law: what a withdrawal pays out never touches the treasury's revenue: the amount
/// sent plus the revenue's value (scaled revenue at the synchronised supply index) is
/// at most the pool's token balance; nothing is sent when the revenue's value exceeds
/// the balance or cannot be computed.
pub proof fn lemma_withdraw_spares_revenue(
    s: PoolState,
    position_ok: bool,
    position_scaled: u128,
    amount: u128,
    is_liquidation: bool,
    protocol_fee: Option<u128>,
    reserves: u128,
    now: u64,
)
    requires
        s.valid(),
        withdraw_spec(s, position_ok, position_scaled as int, amount as int, is_liquidation, protocol_fee, reserves as int, now) is Ok,
    ensures
        ({
            let (_, _, net) = withdraw_spec(s, position_ok, position_scaled as int, amount as int, is_liquidation, protocol_fee, reserves as int, now)->Ok_0;
            let s1 = global_sync_spec(s, now)->Some_0;
            match original_of(s1.revenue as int, s1.supply_index as int, s1.params.asset_decimals as nat) {
                Some(revenue) => net == 0 || net + revenue <= reserves,
                None => net == 0,
            }
        }),
{
}

/// Law: a loan never lends out the treasury's revenue: the amount lent plus the
/// revenue's value is at most the pool's token balance (or nothing is lent).
pub proof fn lemma_borrow_spares_revenue(s: PoolState, position_ok: bool, position_scaled: u128, amount: u128, reserves: u128, now: u64)
    requires
        s.valid(),
        borrow_spec(s, position_ok, position_scaled as int, amount as int, reserves as int, now) is Ok,
    ensures
        ({
            let s1 = global_sync_spec(s, now)->Some_0;
            match original_of(s1.revenue as int, s1.supply_index as int, s1.params.asset_decimals as nat) {
                Some(revenue) => amount == 0 || amount + revenue <= reserves,
                None => amount == 0,
            }
        }),
{
}

/// Law: a leveraged strategy's loan and a flash loan never lend out the treasury's
/// revenue: the amount lent plus the revenue's value is at most the pool's balance.
pub proof fn lemma_strategy_and_flash_spare_revenue(s: PoolState, position_ok: bool, position_scaled: u128, amount: u128, fee: u128, reserves: u128, now: u64)
    requires
        s.valid(),
    ensures
        ({
            let s1 = global_sync_spec(s, now)->Some_0;
            create_strategy_spec(s, position_ok, position_scaled as int, amount as int, fee as int, reserves as int, now) is Ok
                || flash_loan_spec(s, position_ok, amount as int, fee as int, reserves as int, now) is Ok
                ==> match original_of(s1.revenue as int, s1.supply_index as int, s1.params.asset_decimals as nat) {
                    Some(revenue) => amount == 0 || amount + revenue <= reserves,
                    None => amount == 0,
                }
        }),
{
}
} // verus!
