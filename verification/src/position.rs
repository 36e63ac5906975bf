//! Account positions: one supply or borrow position of an account in one market.
use crate::token::TokenId;
use vstd::prelude::*;

verus! {

/// Whether a position is collateral supplied or debt borrowed.
#[derive(Clone, Copy, Debug, PartialEq, Eq)]
pub enum AccountPositionType {
    Deposit,
    Borrow,
}

/// A position of an account in one market.
#[derive(Debug)]
pub struct AccountPosition {
    /// Supply or borrow.
    pub position_type: AccountPositionType,
    /// The market's asset.
    pub asset_id: TokenId,
    /// Scaled amount (RAY); its actual value is this times the market's index.
    pub scaled_amount: u128,
    /// The account (NFT nonce) holding the position.
    pub account_nonce: u64,
    /// Liquidation threshold recorded for the position (BPS).
    pub liquidation_threshold: u128,
    /// Liquidation bonus recorded for the position (BPS).
    pub liquidation_bonus: u128,
    /// Share of a liquidation bonus taken as protocol fee (BPS).
    pub liquidation_fees: u128,
    /// Loan-to-value recorded for the position (BPS).
    pub loan_to_value: u128,
    /// Whether the position sits in the controller's vault rather than in the pool.
    pub is_vault: bool,
}

impl AccountPosition {
    /// Every field but the scaled amount agrees with `other`.
    pub open spec fn same_except_amount(&self, other: &AccountPosition) -> bool {
        &&& self.position_type == other.position_type
        &&& self.asset_id@ == other.asset_id@
        &&& self.account_nonce == other.account_nonce
        &&& self.liquidation_threshold == other.liquidation_threshold
        &&& self.liquidation_bonus == other.liquidation_bonus
        &&& self.liquidation_fees == other.liquidation_fees
        &&& self.loan_to_value == other.loan_to_value
        &&& self.is_vault == other.is_vault
    }

    /// An empty position for an asset, with the risk parameters it is opened under.
    pub fn new(
        position_type: AccountPositionType,
        asset_id: TokenId,
        account_nonce: u64,
        liquidation_threshold: u128,
        liquidation_bonus: u128,
        liquidation_fees: u128,
        loan_to_value: u128,
        is_vault: bool,
    ) -> (r: AccountPosition)
        ensures
            r.position_type == position_type,
            r.asset_id@ == asset_id@,
            r.scaled_amount == 0,
            r.account_nonce == account_nonce,
            r.liquidation_threshold == liquidation_threshold,
            r.liquidation_bonus == liquidation_bonus,
            r.liquidation_fees == liquidation_fees,
            r.loan_to_value == loan_to_value,
            r.is_vault == is_vault,
    {
        AccountPosition {
            position_type,
            asset_id,
            scaled_amount: 0,
            account_nonce,
            liquidation_threshold,
            liquidation_bonus,
            liquidation_fees,
            loan_to_value,
            is_vault,
        }
    }

    /// The same position with another scaled amount.
    pub fn with_scaled_amount(self, scaled_amount: u128) -> (r: AccountPosition)
        ensures
            r.same_except_amount(&self),
            r.scaled_amount == scaled_amount,
    {
        AccountPosition { scaled_amount, ..self }
    }
}

impl Clone for AccountPosition {
    fn clone(&self) -> (r: Self)
        ensures
            r.same_except_amount(self),
            r.scaled_amount == self.scaled_amount,
    {
        AccountPosition {
            position_type: self.position_type,
            asset_id: self.asset_id.clone(),
            scaled_amount: self.scaled_amount,
            account_nonce: self.account_nonce,
            liquidation_threshold: self.liquidation_threshold,
            liquidation_bonus: self.liquidation_bonus,
            liquidation_fees: self.liquidation_fees,
            loan_to_value: self.loan_to_value,
            is_vault: self.is_vault,
        }
    }
}

} // verus!
