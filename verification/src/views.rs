//! Read-only views of an account: its collateral in EGLD (total, weighted by
//! liquidation thresholds, weighted by LTVs), its health factor and whether it may
//! be liquidated. Positions are given by value, as `valuation` takes them.
use crate::math::BPS;
use crate::valuation::{
    collateral_sums_spec, debt_sum_spec, fit3, sum_borrows, sum_collaterals,
    CollateralValue, DebtValue,
};
use crate::wide::{fit, max_u128, mul_div_floor};
use vstd::prelude::*;

verus! {

/// Every position's price feed has at most 38 decimals.
pub open spec fn decimals_ok(collaterals: Seq<CollateralValue>, debts: Seq<DebtValue>) -> bool {
    &&& forall|i: int| 0 <= i < collaterals.len() ==> #[trigger] collaterals[i].decimals <= 38
    &&& forall|i: int| 0 <= i < debts.len() ==> #[trigger] debts[i].decimals <= 38
}

/// The debt total as a `u128`, when it fits.
pub open spec fn debt_total_spec(debts: Seq<DebtValue>) -> Option<u128> {
    match debt_sum_spec(debts) {
        Some(t) => fit(t),
        None => None,
    }
}

/// The health factor of an account in basis points (10000 = 100%): its
/// threshold-weighted collateral times 10000 over its debt, truncated. With no debt,
/// or past 128 bits, it is `u128::MAX`. `None` when a sum does not fit in 128 bits.
pub open spec fn account_health_spec(collaterals: Seq<CollateralValue>, debts: Seq<DebtValue>) -> Option<u128> {
    match (fit3(collateral_sums_spec(collaterals)), debt_total_spec(debts)) {
        (Some((w, _, _)), Some(b)) => if b == 0 {
            Some(max_u128() as u128)
        } else {
            match fit((w as int) * (BPS as int) / (b as int)) {
                Some(hf) => Some(hf),
                None => Some(max_u128() as u128),
            }
        },
        _ => None,
    }
}

/// Health factor of an account in basis points (see `account_health_spec`).
pub fn get_health_factor(collaterals: &Vec<CollateralValue>, debts: &Vec<DebtValue>) -> (r: Option<u128>)
    requires
        decimals_ok(collaterals@, debts@),
    ensures
        r == account_health_spec(collaterals@, debts@),
{
    let (weighted, _, _) = sum_collaterals(collaterals)?;
    let borrowed = sum_borrows(debts)?;
    if borrowed == 0 {
        return Some(u128::MAX);
    }
    match mul_div_floor(weighted, BPS, borrowed) {
        Some(hf) => Some(hf),
        None => Some(u128::MAX),
    }
}

/// Whether an account may be liquidated: its health factor is below 100% (10000
/// basis points). `None` when a sum does not fit in 128 bits.
pub fn can_be_liquidated(collaterals: &Vec<CollateralValue>, debts: &Vec<DebtValue>) -> (r: Option<bool>)
    requires
        decimals_ok(collaterals@, debts@),
    ensures
        r == (match account_health_spec(collaterals@, debts@) {
            Some(hf) => Some(hf < BPS),
            None => None,
        }),
{
    let hf = get_health_factor(collaterals, debts)?;
    Some(hf < BPS)
}

/// Total EGLD value of an account's collateral, unweighted.
pub fn get_total_collateral_in_egld(collaterals: &Vec<CollateralValue>) -> (r: Option<u128>)
    requires
        decimals_ok(collaterals@, Seq::empty()),
    ensures
        r == (match fit3(collateral_sums_spec(collaterals@)) {
            Some((_, t, _)) => Some(t),
            None => None,
        }),
{
    let (_, total, _) = sum_collaterals(collaterals)?;
    Some(total)
}

/// EGLD value of an account's collateral weighted by liquidation thresholds.
pub fn get_liquidation_collateral_available(collaterals: &Vec<CollateralValue>) -> (r: Option<u128>)
    requires
        decimals_ok(collaterals@, Seq::empty()),
    ensures
        r == (match fit3(collateral_sums_spec(collaterals@)) {
            Some((w, _, _)) => Some(w),
            None => None,
        }),
{
    let (weighted, _, _) = sum_collaterals(collaterals)?;
    Some(weighted)
}

/// EGLD value of an account's collateral weighted by LTVs.
pub fn get_ltv_collateral_in_egld(collaterals: &Vec<CollateralValue>) -> (r: Option<u128>)
    requires
        decimals_ok(collaterals@, Seq::empty()),
    ensures
        r == (match fit3(collateral_sums_spec(collaterals@)) {
            Some((_, _, l)) => Some(l),
            None => None,
        }),
{
    let (_, _, ltv) = sum_collaterals(collaterals)?;
    Some(ltv)
}

/// An account may be liquidated exactly when its threshold-weighted collateral is
/// below its debt (an account without debt never may).
pub proof fn lemma_liquidatable_iff_undercollateralised(collaterals: Seq<CollateralValue>, debts: Seq<DebtValue>)
    requires
        fit3(collateral_sums_spec(collaterals)) is Some,
        debt_total_spec(debts) is Some,
    ensures
        fit3(collateral_sums_spec(collaterals)) matches Some((w, _, _))
            && debt_total_spec(debts) matches Some(b)
            && account_health_spec(collaterals, debts) matches Some(hf)
            && (hf < BPS <==> w < b),
{
    if let (Some((w, _, _)), Some(b)) = (fit3(collateral_sums_spec(collaterals)), debt_total_spec(debts)) {
        if b > 0 {
            let q = (w as int) * (BPS as int) / (b as int);
            vstd::arithmetic::div_mod::lemma_fundamental_div_mod((w as int) * (BPS as int), b as int);
            let r = ((w as int) * (BPS as int)) % (b as int);
            if w < b {
                assert(q < BPS) by (nonlinear_arith)
                    requires
                        (w as int) * (BPS as int) == (b as int) * q + r,
                        0 <= r,
                        w < b,
                        b > 0,
                        BPS == 10_000,
                ;
            } else {
                assert(q >= BPS) by (nonlinear_arith)
                    requires
                        (w as int) * (BPS as int) == (b as int) * q + r,
                        r < b,
                        w >= b,
                        b > 0,
                        BPS == 10_000,
                ;
            }
        }
    }
}

} // verus!
