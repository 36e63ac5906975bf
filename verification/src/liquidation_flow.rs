//! The liquidation of an account: valuing the liquidator's repayments against the
//! debts they cover, deciding how much debt is repaid, and refunding what the
//! liquidator paid beyond it.
use crate::controller::{validate_can_liquidate, ControllerError};
use crate::liquidation::{amount_ok, bps_ok, calculate_max_debt_repayment, health_factor_spec, max_debt_repayment_spec};
use crate::liquidation_bp::{
    calculate_dynamic_protocol_fee, calculate_single_asset_liquidation_amount, dynamic_protocol_fee_spec,
    health_factor_bp_spec, ratio_ok, single_asset_liquidation_spec, BP,
};
use crate::math::{BPS, WAD};
use crate::valuation::{
    collateral_sums_spec, debt_sum_spec, fit2, fit3, proportion_of_weighted_seized, proportion_spec,
    sum_borrows, sum_collaterals, CollateralValue, DebtValue,
};
use crate::liquidation::{compute_egld_in_tokens, egld_in_tokens_spec, egld_value_spec, get_token_amount_in_egld_raw};
use crate::token::TokenId;
use crate::account::{internal_withdraw, market_withdraw_spec, vault_withdraw_spec, WithdrawOutcome};
use crate::controller::NftAccountAttributes;
use crate::lending::{internal_repay, isolated_repay_spec, IsolatedRepay};
use crate::liquidity::{repay_spec, LiquidityPool, PoolError};
use crate::pool::PoolState;
use crate::position::AccountPosition;
use crate::u256::{two256, u256_add, u256_from, u256_to_u128, U256};
use crate::wide::two128;
use crate::wide::{fit, max_u128};
use vstd::prelude::*;

verus! {

/// A debt token paid by a liquidator: its amount, price (WAD) and decimals, and the
/// current amount the account owes of it (`None` when it owes none).
#[derive(Debug)]
pub struct RepaymentInput {
    pub token: TokenId,
    pub amount: u128,
    pub price: u128,
    pub decimals: u8,
    pub borrowed: Option<u128>,
}

/// A payment that goes to repaying debt, with its EGLD value (WAD) and price feed.
#[derive(Debug)]
pub struct RepaidToken {
    pub token: TokenId,
    pub amount: u128,
    pub egld_value: u128,
    pub price: u128,
    pub decimals: u8,
}

/// An amount of a token sent back to the liquidator.
#[derive(Debug)]
pub struct Refund {
    pub token: TokenId,
    pub amount: u128,
}

/// `(token, amount, price, decimals, owed)` of a repayment input.
pub type InputView = (Seq<u8>, u128, u128, u8, Option<u128>);

/// `(token, amount, EGLD value, price, decimals)` of a repaid token.
pub type RepaidView = (Seq<u8>, u128, u128, u128, u8);

/// `(token, amount)` of a refund.
pub type RefundView = (Seq<u8>, u128);

pub open spec fn inputs_view(s: Seq<RepaymentInput>) -> Seq<InputView> {
    s.map_values(|x: RepaymentInput| (x.token@, x.amount, x.price, x.decimals, x.borrowed))
}

pub open spec fn repaid_view(s: Seq<RepaidToken>) -> Seq<RepaidView> {
    s.map_values(|x: RepaidToken| (x.token@, x.amount, x.egld_value, x.price, x.decimals))
}

pub open spec fn refunds_view(s: Seq<Refund>) -> Seq<RefundView> {
    s.map_values(|x: Refund| (x.token@, x.amount))
}

/// One repayment: a payment worth more than the debt it covers is cut to the debt's
/// value and the excess (in tokens, at RAY precision) is refunded. Yields the EGLD
/// value counted, the repaid entry and the refund, if any.
pub open spec fn repayment_step_spec(x: InputView) -> Result<(int, RepaidView, Option<RefundView>), ControllerError> {
    let (token, amount, price, decimals, owed) = x;
    match owed {
        None => Err(ControllerError::PositionNotFound),
        Some(debt) => {
            let paid_egld = egld_value_spec(amount as int, price as int, decimals as nat);
            let debt_egld = egld_value_spec(debt as int, price as int, decimals as nat);
            if fit(paid_egld) is None || fit(debt_egld) is None {
                Err(ControllerError::Arithmetic)
            } else if paid_egld > debt_egld {
                match egld_in_tokens_spec(paid_egld - debt_egld, price as int, decimals as nat) {
                    None => Err(ControllerError::Arithmetic),
                    Some(excess) => if excess > amount {
                        Err(ControllerError::Arithmetic)
                    } else {
                        Ok((debt_egld, (token, (amount - excess) as u128, debt_egld as u128, price, decimals), Some((token, excess))))
                    },
                }
            } else {
                Ok((paid_egld, (token, amount, paid_egld as u128, price, decimals), None))
            }
        },
    }
}

/// The repayments in order: total EGLD value, repaid entries and refunds.
pub open spec fn repayments_spec(s: Seq<InputView>) -> Result<(int, Seq<RepaidView>, Seq<RefundView>), ControllerError>
    decreases s.len(),
{
    if s.len() == 0 {
        Ok((0, Seq::empty(), Seq::empty()))
    } else {
        match repayments_spec(s.drop_last()) {
            Err(e) => Err(e),
            Ok((total, repaid, refunds)) => match repayment_step_spec(s.last()) {
                Err(e) => Err(e),
                Ok((v, entry, refund)) => Ok((
                    total + v,
                    repaid.push(entry),
                    match refund {
                        Some(f) => refunds.push(f),
                        None => refunds,
                    },
                )),
            },
        }
    }
}

proof fn lemma_repayments_prefix(s: Seq<InputView>, i: int)
    requires
        0 <= i <= s.len(),
    ensures
        repayments_spec(s.take(i)) is Err ==> repayments_spec(s) == repayments_spec(s.take(i)),
        repayments_spec(s) matches Ok((t, _, _)) ==> (repayments_spec(s.take(i)) matches Ok((t0, _, _)) && 0 <= t0 <= t),
    decreases s.len() - i,
{
    if i == s.len() {
        assert(s.take(i) =~= s);
        lemma_repayments_nonneg(s);
    } else {
        lemma_repayments_prefix(s, i + 1);
        let p = s.take(i + 1);
        assert(p.drop_last() =~= s.take(i));
        lemma_repayments_nonneg(s.take(i));
    }
}

proof fn lemma_repayments_nonneg(s: Seq<InputView>)
    ensures
        repayments_spec(s) matches Ok((t, _, _)) ==> t >= 0,
    decreases s.len(),
{
    if s.len() > 0 {
        lemma_repayments_nonneg(s.drop_last());
    }
}

/// Values the liquidator's payments against the debts they repay (see
/// `repayments_spec`); refused also when the total exceeds 128 bits.
pub fn sum_repayments(payments: &Vec<RepaymentInput>) -> (r: Result<(u128, Vec<RepaidToken>, Vec<Refund>), ControllerError>)
    requires
        forall|i: int| 0 <= i < payments@.len() ==> #[trigger] payments@[i].decimals <= 38,
    ensures
        match repayments_spec(inputs_view(payments@)) {
            Err(e) => r == Err::<(u128, Vec<RepaidToken>, Vec<Refund>), ControllerError>(e),
            Ok((total, repaid, refunds)) => if total > max_u128() {
                r == Err::<(u128, Vec<RepaidToken>, Vec<Refund>), ControllerError>(ControllerError::Arithmetic)
            } else {
                r matches Ok((t, a, b)) && t == total && repaid_view(a@) == repaid && refunds_view(b@) == refunds
            },
        },
{
    let mut total = u256_from(0);
    let mut repaid: Vec<RepaidToken> = Vec::new();
    let mut refunds: Vec<Refund> = Vec::new();
    let mut i: usize = 0;
    let ghost s = inputs_view(payments@);
    proof {
        assert(s.take(0) =~= Seq::<InputView>::empty());
        assert(repaid_view(repaid@) =~= Seq::<RepaidView>::empty());
        assert(refunds_view(refunds@) =~= Seq::<RefundView>::empty());
    }
    while i < payments.len()
        invariant
            i <= payments@.len(),
            s == inputs_view(payments@),
            forall|k: int| 0 <= k < payments@.len() ==> #[trigger] payments@[k].decimals <= 38,
            repayments_spec(s.take(i as int)) == Ok::<(int, Seq<RepaidView>, Seq<RefundView>), ControllerError>((total.value(), repaid_view(repaid@), refunds_view(refunds@))),
            total.value() <= i * max_u128(),
        decreases payments@.len() - i,
    {
        let x = &payments[i];
        proof {
            let p = s.take(i + 1);
            assert(p.drop_last() =~= s.take(i as int));
            assert(p.last() == s[i as int]);
            lemma_repayments_prefix(s, i + 1);
        }
        let debt = match x.borrowed {
            Some(d) => d,
            None => return Err(ControllerError::PositionNotFound),
        };
        let paid_egld = match get_token_amount_in_egld_raw(x.amount, x.price, x.decimals as usize) {
            Some(v) => v,
            None => return Err(ControllerError::Arithmetic),
        };
        let debt_egld = match get_token_amount_in_egld_raw(debt, x.price, x.decimals as usize) {
            Some(v) => v,
            None => return Err(ControllerError::Arithmetic),
        };
        let ghost old_repaid = repaid_view(repaid@);
        let ghost old_refunds = refunds_view(refunds@);
        let counted = if paid_egld > debt_egld {
            let excess = match compute_egld_in_tokens(paid_egld - debt_egld, x.price, x.decimals as usize) {
                Some(v) => v,
                None => return Err(ControllerError::Arithmetic),
            };
            if excess > x.amount {
                return Err(ControllerError::Arithmetic);
            }
            repaid.push(RepaidToken { token: x.token.clone(), amount: x.amount - excess, egld_value: debt_egld, price: x.price, decimals: x.decimals });
            refunds.push(Refund { token: x.token.clone(), amount: excess });
            proof {
                assert(repaid_view(repaid@) =~= old_repaid.push((x.token@, (x.amount - excess) as u128, debt_egld, x.price, x.decimals)));
                assert(refunds_view(refunds@) =~= old_refunds.push((x.token@, excess)));
            }
            debt_egld
        } else {
            repaid.push(RepaidToken { token: x.token.clone(), amount: x.amount, egld_value: paid_egld, price: x.price, decimals: x.decimals });
            proof {
                assert(repaid_view(repaid@) =~= old_repaid.push((x.token@, x.amount, paid_egld, x.price, x.decimals)));
            }
            paid_egld
        };
        proof {
            assert(usize::MAX < two128());
            assert((i + 1) * max_u128() < two256()) by (nonlinear_arith)
                requires
                    i < two128(),
                    max_u128() < two128(),
                    two256() == two128() * two128(),
            ;
            assert(total.value() + counted <= (i + 1) * max_u128()) by (nonlinear_arith)
                requires
                    total.value() <= i * max_u128(),
                    counted <= max_u128(),
            ;
        }
        total = u256_add(total, u256_from(counted)).unwrap();
        i = i + 1;
    }
    proof {
        assert(s.take(i as int) =~= s);
    }
    match u256_to_u128(total) {
        Some(t) => Ok((t, repaid, refunds)),
        None => Err(ControllerError::Arithmetic),
    }
}

/// The refund walk over the repaid tokens `rest` while `excess` EGLD value (WAD)
/// remains, with the refunds made so far: the first token, when worth at least the
/// excess, is cut by the excess (converted to tokens) and the walk ends; a token worth
/// less is refunded whole and the walk goes on with the token after it. The walk ends
/// when no excess is left or no token remains.
pub open spec fn excess_walk_spec(rest: Seq<RepaidView>, refunds: Seq<RefundView>, excess: int) -> Result<(Seq<RepaidView>, Seq<RefundView>), ControllerError>
    decreases rest.len(),
{
    if excess <= 0 || rest.len() == 0 {
        Ok((rest, refunds))
    } else {
        let t = rest[0];
        if t.2 >= excess {
            match egld_in_tokens_spec(excess, t.3 as int, t.4 as nat) {
                None => Err(ControllerError::Arithmetic),
                Some(back) => if back > t.1 {
                    Err(ControllerError::Arithmetic)
                } else {
                    Ok((rest.update(0, (t.0, (t.1 - back) as u128, (t.2 - excess) as u128, t.3, t.4)), refunds.push((t.0, back))))
                },
            }
        } else {
            excess_walk_spec(rest.drop_first(), refunds.push((t.0, t.1)), excess - t.2)
        }
    }
}

/// Repaid tokens and refunds once the liquidator's excess over the debt that may be
/// repaid is given back: nothing changes when there is no excess.
pub open spec fn allocate_excess_spec(repaid: Seq<RepaidView>, paid: int, max_debt: int) -> Result<(Seq<RepaidView>, Seq<RefundView>), ControllerError> {
    if paid <= max_debt {
        Ok((repaid, Seq::empty()))
    } else {
        excess_walk_spec(repaid, Seq::empty(), paid - max_debt)
    }
}

/// Gives back what a liquidator paid beyond the debt that may be repaid (see
/// `allocate_excess_spec`).
#[verifier::loop_isolation(false)]
pub fn allocate_liquidation_excess(repaid: Vec<RepaidToken>, paid_egld: u128, max_debt: u128) -> (r: Result<(Vec<RepaidToken>, Vec<Refund>), ControllerError>)
    requires
        forall|i: int| 0 <= i < repaid@.len() ==> #[trigger] repaid@[i].decimals <= 38,
    ensures
        match allocate_excess_spec(repaid_view(repaid@), paid_egld as int, max_debt as int) {
            Err(e) => r == Err::<(Vec<RepaidToken>, Vec<Refund>), ControllerError>(e),
            Ok((a, b)) => r matches Ok((x, y)) && repaid_view(x@) == a && refunds_view(y@) == b,
        },
{
    let ghost goal = allocate_excess_spec(repaid_view(repaid@), paid_egld as int, max_debt as int);
    let mut refunds: Vec<Refund> = Vec::new();
    proof {
        assert(refunds_view(refunds@) =~= Seq::<RefundView>::empty());
    }
    if paid_egld <= max_debt {
        return Ok((repaid, refunds));
    }
    let mut rest = repaid;
    let mut excess = paid_egld - max_debt;
    while excess > 0 && rest.len() > 0
        invariant
            forall|i: int| 0 <= i < rest@.len() ==> #[trigger] rest@[i].decimals <= 38,
            goal == excess_walk_spec(repaid_view(rest@), refunds_view(refunds@), excess as int),
        decreases rest@.len(),
    {
        let ghost cv = repaid_view(rest@);
        let ghost rv = refunds_view(refunds@);
        let egld_value = rest[0].egld_value;
        proof {
            assert(cv[0] == (rest@[0].token@, rest@[0].amount, rest@[0].egld_value, rest@[0].price, rest@[0].decimals));
        }
        if egld_value >= excess {
            let back = match compute_egld_in_tokens(excess, rest[0].price, rest[0].decimals as usize) {
                Some(v) => v,
                None => return Err(ControllerError::Arithmetic),
            };
            if back > rest[0].amount {
                return Err(ControllerError::Arithmetic);
            }
            let token = rest[0].token.clone();
            let new_entry = RepaidToken {
                token: rest[0].token.clone(),
                amount: rest[0].amount - back,
                egld_value: egld_value - excess,
                price: rest[0].price,
                decimals: rest[0].decimals,
            };
            rest.set(0, new_entry);
            refunds.push(Refund { token, amount: back });
            proof {
                assert(repaid_view(rest@) =~= cv.update(0, (cv[0].0, (cv[0].1 - back) as u128, (cv[0].2 - excess) as u128, cv[0].3, cv[0].4)));
                assert(refunds_view(refunds@) =~= rv.push((cv[0].0, back)));
            }
            return Ok((rest, refunds));
        }
        let removed = rest.remove(0);
        proof {
            assert(repaid_view(rest@) =~= cv.drop_first());
        }
        refunds.push(Refund { token: removed.token, amount: removed.amount });
        proof {
            assert(refunds_view(refunds@) =~= rv.push((cv[0].0, cv[0].1)));
        }
        excess = excess - egld_value;
    }
    Ok((rest, refunds))
}


/// What a liquidation decides: the debt payments kept and what is refunded, the
/// debt value (WAD) that may be repaid and the bonus (BPS) for seizing collateral,
/// the account's health factor (BPS), and its total collateral (WAD).
#[derive(Debug)]
pub struct LiquidationOutcome {
    pub repaid: Vec<RepaidToken>,
    pub refunds: Vec<Refund>,
    pub max_debt_to_repay: u128,
    pub bonus: u128,
    pub health_factor: u128,
    pub total_collateral: u128,
}

/// The figures a liquidation of an account with collateral `cs` and debts `ds` by
/// payments `ps` starts from: the payments' value, kept entries and refunds, the
/// weighted and total collateral, the proportion seized and weighted bonus, the debt,
/// and the health factor, which must be below 1.0.
pub open spec fn liquidation_inputs_spec(cs: Seq<CollateralValue>, ds: Seq<DebtValue>, ps: Seq<InputView>) -> Result<(int, Seq<RepaidView>, Seq<RefundView>, int, int, int, int, int, int), ControllerError> {
    match repayments_spec(ps) {
        Err(e) => Err(e),
        Ok((paid, repaid, refunds)) => if paid > max_u128() {
            Err(ControllerError::Arithmetic)
        } else {
            match fit3(collateral_sums_spec(cs)) {
                None => Err(ControllerError::Arithmetic),
                Some((w, t, _)) => match fit2(proportion_spec(t as int, cs)) {
                    None => Err(ControllerError::Arithmetic),
                    Some((prop, bonus_w)) => match debt_sum_spec(ds) {
                        None => Err(ControllerError::Arithmetic),
                        Some(b) => if b > max_u128() {
                            Err(ControllerError::Arithmetic)
                        } else {
                            match fit(health_factor_spec(w as int, b)) {
                                None => Err(ControllerError::HealthFactor),
                                Some(hf) => if hf >= BPS {
                                    Err(ControllerError::HealthFactor)
                                } else {
                                    Ok((paid, repaid, refunds, w as int, t as int, prop as int, bonus_w as int, b, hf as int))
                                },
                            }
                        },
                    },
                },
            }
        },
    }
}

/// A liquidation: from its starting figures, the repayable debt and bonus are
/// estimated with the payment as cap, and what was paid beyond the repayable debt is
/// refunded. Yields the kept entries, all refunds, the repayable debt, the bonus, the
/// health factor and the total collateral.
pub open spec fn liquidation_plan_spec(cs: Seq<CollateralValue>, ds: Seq<DebtValue>, ps: Seq<InputView>) -> Result<(Seq<RepaidView>, Seq<RefundView>, int, int, int, int), ControllerError> {
    match liquidation_inputs_spec(cs, ds, ps) {
        Err(e) => Err(e),
        Ok((paid, repaid, refunds, w, t, prop, bonus_w, b, hf)) => match max_debt_repayment_spec(b, t, w, prop, bonus_w, hf, Some(paid as u128)) {
            None => Err(ControllerError::Arithmetic),
            Some((max_debt, bonus)) => match allocate_excess_spec(repaid, paid, max_debt) {
                Err(e) => Err(e),
                Ok((kept, more)) => Ok((kept, refunds + more, max_debt, bonus, hf, t)),
            },
        },
    }
}

/// The account's values lie within the range in which the liquidation estimate is
/// guaranteed to be computed.
pub open spec fn plan_in_range(cs: Seq<CollateralValue>, ds: Seq<DebtValue>, ps: Seq<InputView>) -> bool {
    liquidation_inputs_spec(cs, ds, ps) matches Ok((_, _, _, w, t, prop, bonus_w, b, _))
        && amount_ok(w) && amount_ok(t) && amount_ok(b) && bps_ok(prop) && bps_ok(bonus_w)
}

fn liquidation_inputs(collaterals: &Vec<CollateralValue>, debts: &Vec<DebtValue>, payments: &Vec<RepaymentInput>) -> (r: Result<(u128, Vec<RepaidToken>, Vec<Refund>, u128, u128, u128, u128, u128, u128), ControllerError>)
    requires
        forall|i: int| 0 <= i < collaterals@.len() ==> #[trigger] collaterals@[i].decimals <= 38,
        forall|i: int| 0 <= i < debts@.len() ==> #[trigger] debts@[i].decimals <= 38,
        forall|i: int| 0 <= i < payments@.len() ==> #[trigger] payments@[i].decimals <= 38,
    ensures
        match liquidation_inputs_spec(collaterals@, debts@, inputs_view(payments@)) {
            Err(e) => r == Err::<(u128, Vec<RepaidToken>, Vec<Refund>, u128, u128, u128, u128, u128, u128), ControllerError>(e),
            Ok((paid, repaid, refunds, w, t, prop, bonus_w, b, hf)) => r matches Ok((paid2, repaid2, refunds2, w2, t2, prop2, bonus_w2, b2, hf2))
                && paid2 == paid && repaid_view(repaid2@) == repaid && refunds_view(refunds2@) == refunds && w2 == w && t2 == t
                && prop2 == prop && bonus_w2 == bonus_w && b2 == b && hf2 == hf
                && (forall|i: int| 0 <= i < repaid2@.len() ==> #[trigger] repaid2@[i].decimals <= 38),
        },
{
    let (paid, repaid, refunds) = sum_repayments(payments)?;
    assert(repayments_spec(inputs_view(payments@)) == Ok::<(int, Seq<RepaidView>, Seq<RefundView>), ControllerError>((paid as int, repaid_view(repaid@), refunds_view(refunds@))));
    proof {
        lemma_repaid_decimals(inputs_view(payments@));
        assert forall|i: int| 0 <= i < repaid@.len() implies #[trigger] repaid@[i].decimals <= 38 by {
            assert(repaid_view(repaid@)[i].4 == repaid@[i].decimals);
        }
    }
    let (weighted, total, _ltv) = match sum_collaterals(collaterals) {
        Some(v) => v,
        None => return Err(ControllerError::Arithmetic),
    };
    assert(fit3(collateral_sums_spec(collaterals@)) == Some((weighted, total, _ltv)));
    let (prop, bonus_w) = match proportion_of_weighted_seized(total, collaterals) {
        Some(v) => v,
        None => return Err(ControllerError::Arithmetic),
    };
    assert(fit2(proportion_spec(total as int, collaterals@)) == Some((prop, bonus_w)));
    let borrowed = match sum_borrows(debts) {
        Some(v) => v,
        None => {
            proof {
                crate::valuation::lemma_debt_sum_nonneg(debts@);
            }
            assert(debt_sum_spec(debts@) is None || debt_sum_spec(debts@).unwrap() > max_u128());
            return Err(ControllerError::Arithmetic);
        },
    };
    assert(debt_sum_spec(debts@) == Some(borrowed as int));
    let hf = validate_can_liquidate(weighted, borrowed)?;
    Ok((paid, repaid, refunds, weighted, total, prop, bonus_w, borrowed, hf))
}

/// Decides a liquidation (see `liquidation_plan_spec`). Beyond the range of
/// `plan_in_range` it may be refused where the plan is not.
pub fn handle_liquidation(collaterals: &Vec<CollateralValue>, debts: &Vec<DebtValue>, payments: &Vec<RepaymentInput>) -> (r: Result<LiquidationOutcome, ControllerError>)
    requires
        forall|i: int| 0 <= i < collaterals@.len() ==> #[trigger] collaterals@[i].decimals <= 38,
        forall|i: int| 0 <= i < debts@.len() ==> #[trigger] debts@[i].decimals <= 38,
        forall|i: int| 0 <= i < payments@.len() ==> #[trigger] payments@[i].decimals <= 38,
    ensures
        r matches Ok(o) ==> liquidation_plan_spec(collaterals@, debts@, inputs_view(payments@)) == Ok::<(Seq<RepaidView>, Seq<RefundView>, int, int, int, int), ControllerError>((
            repaid_view(o.repaid@), refunds_view(o.refunds@), o.max_debt_to_repay as int, o.bonus as int, o.health_factor as int, o.total_collateral as int)),
        liquidation_plan_spec(collaterals@, debts@, inputs_view(payments@)) is Err ==> r is Err,
        plan_in_range(collaterals@, debts@, inputs_view(payments@)) ==> (liquidation_plan_spec(collaterals@, debts@, inputs_view(payments@)) matches Err(e) ==> r == Err::<LiquidationOutcome, ControllerError>(e)),
        liquidation_inputs_spec(collaterals@, debts@, inputs_view(payments@)) matches Err(e) ==> r == Err::<LiquidationOutcome, ControllerError>(e),
        liquidation_plan_spec(collaterals@, debts@, inputs_view(payments@)) is Ok && plan_in_range(collaterals@, debts@, inputs_view(payments@)) ==> r is Ok,
{
    let (paid, repaid, refunds, weighted, total, prop, bonus_w, borrowed, hf) = liquidation_inputs(collaterals, debts, payments)?;
    let (max_debt, bonus) = match calculate_max_debt_repayment(borrowed, total, weighted, prop, bonus_w, hf, Some(paid)) {
        Some(v) => v,
        None => return Err(ControllerError::Arithmetic),
    };
    let (kept, more) = allocate_liquidation_excess(repaid, paid, max_debt)?;
    let mut all_refunds = refunds;
    let mut more = more;
    let ghost before = refunds_view(all_refunds@);
    let ghost extra = refunds_view(more@);
    all_refunds.append(&mut more);
    proof {
        assert(refunds_view(all_refunds@) =~= before + extra);
    }
    Ok(LiquidationOutcome { repaid: kept, refunds: all_refunds, max_debt_to_repay: max_debt, bonus, health_factor: hf, total_collateral: total })
}

proof fn lemma_repaid_decimals(s: Seq<InputView>)
    requires
        forall|i: int| 0 <= i < s.len() ==> #[trigger] s[i].3 <= 38,
    ensures
        repayments_spec(s) matches Ok((_, rp, _)) ==> forall|i: int| 0 <= i < rp.len() ==> #[trigger] rp[i].4 <= 38,
    decreases s.len(),
{
    if s.len() > 0 {
        let p = s.drop_last();
        assert forall|i: int| 0 <= i < p.len() implies #[trigger] p[i].3 <= 38 by {
            assert(p[i] == s[i]);
        }
        lemma_repaid_decimals(p);
        assert(s.last() == s[s.len() - 1]);
    }
}

/// What liquidating one collateral asset decides: the account's health factor (`BP`),
/// the debt tokens used to repay, the collateral (tokens) paid out with the bonus and
/// the bonus part of it, the repayment's EGLD value, the debt tokens refunded, and the
/// protocol's fee (collateral tokens) on the bonus.
#[derive(Clone, Copy, Debug, PartialEq, Eq)]
pub struct SingleAssetLiquidation {
    pub health_factor: u128,
    pub debt_to_repay: u128,
    pub collateral_after_bonus: u128,
    pub bonus_amount: u128,
    pub repay_egld: u128,
    pub excess_refund: Option<u128>,
    pub protocol_fee: u128,
}

/// Liquidation of one collateral asset (health factors and bonuses in `BP`): the
/// account must be below 100%; the repayable debt and bonus are estimated with the
/// payment's EGLD value as cap; a payment beyond it is cut and the excess (in debt
/// tokens) refunded; the collateral worth the repaid debt is paid out with the bonus,
/// and the protocol takes the dynamic fee on the bonus part.
pub open spec fn single_asset_liquidation_plan_spec(
    weighted: int,
    total_collateral: int,
    borrowed: int,
    position_lt: Option<u128>,
    base_bonus: int,
    max_fee: int,
    debt_amount: int,
    debt_price: int,
    debt_decimals: nat,
    collateral_price: int,
    collateral_decimals: nat,
) -> Result<SingleAssetLiquidation, ControllerError> {
    match fit(egld_value_spec(debt_amount, debt_price, debt_decimals)) {
        None => Err(ControllerError::Arithmetic),
        Some(paid) => match fit(health_factor_bp_spec(weighted, borrowed)) {
            None => Err(ControllerError::HealthFactor),
            Some(hf) => if hf >= BP {
                Err(ControllerError::HealthFactor)
            } else if position_lt is None {
                Err(ControllerError::NoCollateralToken)
            } else {
                match single_asset_liquidation_spec(borrowed, total_collateral, position_lt, Some(paid), base_bonus, hf as int) {
                    None => Err(ControllerError::Arithmetic),
                    Some((liq, bonus)) => {
                        let cut: Result<(int, Option<u128>, int), ControllerError> = if paid > liq {
                            match egld_in_tokens_spec(paid - liq, debt_price, debt_decimals) {
                                None => Err(ControllerError::Arithmetic),
                                Some(excess) => if excess > debt_amount {
                                    Err(ControllerError::Arithmetic)
                                } else {
                                    match fit(egld_value_spec(debt_amount - excess, debt_price, debt_decimals)) {
                                        None => Err(ControllerError::Arithmetic),
                                        Some(v) => Ok((debt_amount - excess, Some(excess), v as int)),
                                    }
                                },
                            }
                        } else {
                            Ok((debt_amount, None, paid as int))
                        };
                        match cut {
                            Err(e) => Err(e),
                            Ok((used, refund, repay_egld)) => match egld_in_tokens_spec(liq, collateral_price, collateral_decimals) {
                                None => Err(ControllerError::Arithmetic),
                                Some(before) => match fit(before * ((BP as int) + bonus) / (BP as int)) {
                                    None => Err(ControllerError::Arithmetic),
                                    Some(after) => match fit((after - before) * dynamic_protocol_fee_spec(hf as int, max_fee) / (BP as int)) {
                                        None => Err(ControllerError::Arithmetic),
                                        Some(fee) => Ok(SingleAssetLiquidation {
                                            health_factor: hf,
                                            debt_to_repay: used as u128,
                                            collateral_after_bonus: after,
                                            bonus_amount: (after - before) as u128,
                                            repay_egld: repay_egld as u128,
                                            excess_refund: refund,
                                            protocol_fee: fee,
                                        }),
                                    },
                                },
                            },
                        }
                    },
                }
            },
        },
    }
}

/// Decides the liquidation of one collateral asset (see
/// `single_asset_liquidation_plan_spec`). Beyond the range in which the estimate is
/// guaranteed it may be refused where the plan is not.
pub fn single_asset_liquidation(
    weighted: u128,
    total_collateral: u128,
    borrowed: u128,
    position_lt: Option<u128>,
    base_bonus: u128,
    max_fee: u128,
    debt_amount: u128,
    debt_price: u128,
    debt_decimals: u8,
    collateral_price: u128,
    collateral_decimals: u8,
) -> (r: Result<SingleAssetLiquidation, ControllerError>)
    requires
        debt_decimals <= 38,
        collateral_decimals <= 38,
    ensures
        r matches Ok(o) ==> single_asset_liquidation_plan_spec(weighted as int, total_collateral as int, borrowed as int, position_lt, base_bonus as int,
            max_fee as int, debt_amount as int, debt_price as int, debt_decimals as nat, collateral_price as int, collateral_decimals as nat) == Ok::<SingleAssetLiquidation, ControllerError>(o),
        single_asset_liquidation_plan_spec(weighted as int, total_collateral as int, borrowed as int, position_lt, base_bonus as int,
            max_fee as int, debt_amount as int, debt_price as int, debt_decimals as nat, collateral_price as int, collateral_decimals as nat) is Err ==> r is Err,
        amount_ok(total_collateral as int) && amount_ok(borrowed as int) && ratio_ok(base_bonus as int)
            && (position_lt matches Some(lt) ==> BP / 1000 <= lt && ratio_ok(lt as int))
            ==> r == single_asset_liquidation_plan_spec(weighted as int, total_collateral as int, borrowed as int, position_lt, base_bonus as int,
            max_fee as int, debt_amount as int, debt_price as int, debt_decimals as nat, collateral_price as int, collateral_decimals as nat),
        max_fee <= BP ==> (r matches Ok(o) ==> o.protocol_fee <= o.bonus_amount),
{
    let paid = match get_token_amount_in_egld_raw(debt_amount, debt_price, debt_decimals as usize) {
        Some(v) => v,
        None => return Err(ControllerError::Arithmetic),
    };
    let hf = match crate::liquidation_bp::compute_health_factor(weighted, borrowed) {
        Some(h) => h,
        None => return Err(ControllerError::HealthFactor),
    };
    if hf >= BP {
        return Err(ControllerError::HealthFactor);
    }
    if position_lt.is_none() {
        return Err(ControllerError::NoCollateralToken);
    }
    let (liq, bonus) = match calculate_single_asset_liquidation_amount(borrowed, total_collateral, position_lt, Some(paid), base_bonus, hf) {
        Some(v) => v,
        None => return Err(ControllerError::Arithmetic),
    };
    let (used, refund, repay_egld) = if paid > liq {
        let excess = match compute_egld_in_tokens(paid - liq, debt_price, debt_decimals as usize) {
            Some(v) => v,
            None => return Err(ControllerError::Arithmetic),
        };
        if excess > debt_amount {
            return Err(ControllerError::Arithmetic);
        }
        let v = match get_token_amount_in_egld_raw(debt_amount - excess, debt_price, debt_decimals as usize) {
            Some(v) => v,
            None => return Err(ControllerError::Arithmetic),
        };
        (debt_amount - excess, Some(excess), v)
    } else {
        (debt_amount, None, paid)
    };
    let before = match compute_egld_in_tokens(liq, collateral_price, collateral_decimals as usize) {
        Some(v) => v,
        None => return Err(ControllerError::Arithmetic),
    };
    let bp_bonus = u256_add(u256_from(BP), u256_from(bonus)).unwrap();
    let prod = match crate::u256::u256_mul(u256_from(before), bp_bonus) {
        Some(p) => p,
        None => {
            proof {
                let x = (before as int) * ((BP as int) + bonus);
                assert(two128() * (BP as int) <= two256());
                vstd::arithmetic::div_mod::lemma_div_is_ordered(two128() * (BP as int), x, BP as int);
                vstd::arithmetic::div_mod::lemma_div_multiples_vanish(two128(), BP as int);
                assert(two128() * (BP as int) == (BP as int) * two128()) by (nonlinear_arith);
            }
            return Err(ControllerError::Arithmetic);
        },
    };
    let after = match u256_to_u128(crate::u256::u256_div(prod, u256_from(BP))) {
        Some(v) => v,
        None => return Err(ControllerError::Arithmetic),
    };
    proof {
        lemma_bonus_grows(before as int, bonus as int);
    }
    let bonus_amount = after - before;
    let fee_rate = calculate_dynamic_protocol_fee(hf, max_fee);
    let fee = match crate::wide::mul_div_floor(bonus_amount, fee_rate, BP) {
        Some(v) => v,
        None => return Err(ControllerError::Arithmetic),
    };
    proof {
        if max_fee <= BP {
            crate::liquidation_bp::lemma_protocol_fee_bounds(hf as int, max_fee as int);
            assert((bonus_amount as int) * (fee_rate as int) <= (bonus_amount as int) * (BP as int)) by (nonlinear_arith)
                requires
                    0 <= fee_rate <= BP,
                    0 <= bonus_amount,
            ;
            vstd::arithmetic::div_mod::lemma_div_is_ordered((bonus_amount as int) * (fee_rate as int), (bonus_amount as int) * (BP as int), BP as int);
            vstd::arithmetic::div_mod::lemma_div_multiples_vanish(bonus_amount as int, BP as int);
        }
    }
    Ok(SingleAssetLiquidation {
        health_factor: hf,
        debt_to_repay: used,
        collateral_after_bonus: after,
        bonus_amount,
        repay_egld,
        excess_refund: refund,
        protocol_fee: fee,
    })
}

proof fn lemma_bonus_grows(before: int, bonus: int)
    requires
        0 <= before,
        0 <= bonus,
    ensures
        before <= before * ((BP as int) + bonus) / (BP as int),
{
    let bp = BP as int;
    assert(before * bp <= before * (bp + bonus)) by (nonlinear_arith)
        requires
            0 <= before,
            0 <= bonus,
    ;
    vstd::arithmetic::div_mod::lemma_div_is_ordered(before * bp, before * (bp + bonus), bp);
    vstd::arithmetic::div_mod::lemma_div_multiples_vanish(before, bp);
    assert(before * bp == bp * before) by (nonlinear_arith);
}

/// Total token amount of repaid entries.
pub open spec fn repaid_total(s: Seq<RepaidView>) -> int
    decreases s.len(),
{
    if s.len() == 0 { 0 } else { repaid_total(s.drop_last()) + s.last().1 }
}

/// Total token amount of refunds.
pub open spec fn refund_total(s: Seq<RefundView>) -> int
    decreases s.len(),
{
    if s.len() == 0 { 0 } else { refund_total(s.drop_last()) + s.last().1 }
}

/// Total token amount of repayment inputs.
pub open spec fn input_total(s: Seq<InputView>) -> int
    decreases s.len(),
{
    if s.len() == 0 { 0 } else { input_total(s.drop_last()) + s.last().1 }
}

proof fn lemma_repaid_total_update(s: Seq<RepaidView>, i: int, x: RepaidView)
    requires
        0 <= i < s.len(),
    ensures
        repaid_total(s.update(i, x)) == repaid_total(s) - s[i].1 + x.1,
    decreases s.len(),
{
    let t = s.update(i, x);
    if i == s.len() - 1 {
        assert(t.drop_last() =~= s.drop_last());
    } else {
        assert(t.drop_last() =~= s.drop_last().update(i, x));
        lemma_repaid_total_update(s.drop_last(), i, x);
    }
}

proof fn lemma_repaid_total_remove(s: Seq<RepaidView>, i: int)
    requires
        0 <= i < s.len(),
    ensures
        repaid_total(s.remove(i)) == repaid_total(s) - s[i].1,
    decreases s.len(),
{
    let t = s.remove(i);
    if i == s.len() - 1 {
        assert(t =~= s.drop_last());
    } else {
        assert(t.drop_last() =~= s.drop_last().remove(i));
        assert(t.last() == s.last());
        lemma_repaid_total_remove(s.drop_last(), i);
    }
}

proof fn lemma_excess_walk_conserves(rest: Seq<RepaidView>, refunds: Seq<RefundView>, excess: int)
    requires
        excess_walk_spec(rest, refunds, excess) is Ok,
    ensures
        ({
            let (kept, back) = excess_walk_spec(rest, refunds, excess)->Ok_0;
            repaid_total(kept) + refund_total(back) == repaid_total(rest) + refund_total(refunds)
        }),
    decreases rest.len(),
{
    if excess <= 0 || rest.len() == 0 {
    } else {
        let t = rest[0];
        if t.2 >= excess {
            let back = egld_in_tokens_spec(excess, t.3 as int, t.4 as nat).unwrap();
            let x = (t.0, (t.1 - back) as u128, (t.2 - excess) as u128, t.3, t.4);
            lemma_repaid_total_update(rest, 0, x);
            assert(refunds.push((t.0, back)).drop_last() =~= refunds);
        } else {
            assert(rest.drop_first() =~= rest.remove(0));
            lemma_repaid_total_remove(rest, 0);
            assert(refunds.push((t.0, t.1)).drop_last() =~= refunds);
            lemma_excess_walk_conserves(rest.drop_first(), refunds.push((t.0, t.1)), excess - t.2);
        }
    }
}

/// Refunding a liquidator's excess neither loses nor creates tokens: what stays as
/// repayment and what is refunded add up to what was paid.
pub proof fn lemma_allocate_excess_conserves(repaid: Seq<RepaidView>, paid: int, max_debt: int)
    requires
        allocate_excess_spec(repaid, paid, max_debt) is Ok,
    ensures
        ({
            let (kept, back) = allocate_excess_spec(repaid, paid, max_debt)->Ok_0;
            repaid_total(kept) + refund_total(back) == repaid_total(repaid)
        }),
{
    if paid > max_debt {
        lemma_excess_walk_conserves(repaid, Seq::empty(), paid - max_debt);
    }
}

/// Valuing the liquidator's payments against the debts neither loses nor creates
/// tokens: what counts as repayment and what is refunded add up to what was paid.
pub proof fn lemma_repayments_conserve(payments: Seq<InputView>)
    requires
        repayments_spec(payments) is Ok,
    ensures
        ({
            let (_, repaid, refunds) = repayments_spec(payments)->Ok_0;
            repaid_total(repaid) + refund_total(refunds) == input_total(payments)
        }),
    decreases payments.len(),
{
    if payments.len() > 0 {
        lemma_repayments_conserve(payments.drop_last());
        let (_, repaid, refunds) = repayments_spec(payments.drop_last())->Ok_0;
        let (_, entry, refund) = repayment_step_spec(payments.last())->Ok_0;
        assert(repaid.push(entry).drop_last() =~= repaid);
        match refund {
            Some(f) => {
                assert(refunds.push(f).drop_last() =~= refunds);
            },
            None => {},
        }
    }
}

/// Total EGLD value (WAD) of repaid entries.
pub open spec fn repaid_egld_total(s: Seq<RepaidView>) -> int
    decreases s.len(),
{
    if s.len() == 0 { 0 } else { s[0].2 + repaid_egld_total(s.drop_first()) }
}

proof fn lemma_repaid_egld_total_nonneg(s: Seq<RepaidView>)
    ensures
        repaid_egld_total(s) >= 0,
    decreases s.len(),
{
    if s.len() > 0 {
        lemma_repaid_egld_total_nonneg(s.drop_first());
    }
}

proof fn lemma_repaid_egld_total_push(s: Seq<RepaidView>, x: RepaidView)
    ensures
        repaid_egld_total(s.push(x)) == repaid_egld_total(s) + x.2,
    decreases s.len(),
{
    if s.len() == 0 {
        assert(s.push(x).drop_first() =~= Seq::<RepaidView>::empty());
        assert(repaid_egld_total(Seq::<RepaidView>::empty()) == 0);
        assert(s.push(x)[0] == x);
    } else {
        assert(s.push(x).drop_first() =~= s.drop_first().push(x));
        assert(s.push(x)[0] == s[0]);
        lemma_repaid_egld_total_push(s.drop_first(), x);
    }
}

proof fn lemma_excess_walk_value(rest: Seq<RepaidView>, refunds: Seq<RefundView>, excess: int)
    requires
        excess >= 0,
        excess_walk_spec(rest, refunds, excess) is Ok,
    ensures
        ({
            let (kept, _) = excess_walk_spec(rest, refunds, excess)->Ok_0;
            repaid_egld_total(kept) == if repaid_egld_total(rest) >= excess { repaid_egld_total(rest) - excess } else { 0 }
        }),
    decreases rest.len(),
{
    lemma_repaid_egld_total_nonneg(rest);
    if excess <= 0 || rest.len() == 0 {
    } else {
        let t = rest[0];
        lemma_repaid_egld_total_nonneg(rest.drop_first());
        if t.2 >= excess {
            let back = egld_in_tokens_spec(excess, t.3 as int, t.4 as nat).unwrap();
            let x = (t.0, (t.1 - back) as u128, (t.2 - excess) as u128, t.3, t.4);
            assert(rest.update(0, x).drop_first() =~= rest.drop_first());
            assert(rest.update(0, x)[0] == x);
        } else {
            lemma_excess_walk_value(rest.drop_first(), refunds.push((t.0, t.1)), excess - t.2);
        }
    }
}

/// The EGLD values of the repaid entries add up to the total value of the payments.
pub proof fn lemma_repayments_value(payments: Seq<InputView>)
    requires
        repayments_spec(payments) is Ok,
    ensures
        ({
            let (total, repaid, _) = repayments_spec(payments)->Ok_0;
            repaid_egld_total(repaid) == total
        }),
    decreases payments.len(),
{
    if payments.len() > 0 {
        lemma_repayments_value(payments.drop_last());
        let (_, repaid, _) = repayments_spec(payments.drop_last())->Ok_0;
        let (_, entry, _) = repayment_step_spec(payments.last())->Ok_0;
        lemma_repaid_egld_total_push(repaid, entry);
    }
}

/// Once the liquidator's excess is given back, the repayments kept are worth exactly
/// the debt that may be repaid, for payments worth at least that debt.
pub proof fn lemma_excess_refund_keeps_repayable_debt(repaid: Seq<RepaidView>, max_debt: int)
    requires
        0 <= max_debt <= repaid_egld_total(repaid),
        allocate_excess_spec(repaid, repaid_egld_total(repaid), max_debt) is Ok,
    ensures
        ({
            let (kept, _) = allocate_excess_spec(repaid, repaid_egld_total(repaid), max_debt)->Ok_0;
            repaid_egld_total(kept) == max_debt
        }),
{
    let paid = repaid_egld_total(repaid);
    if paid > max_debt {
        lemma_excess_walk_value(repaid, Seq::empty(), paid - max_debt);
    }
}

/// A liquidation keeps repayments worth exactly the debt it repays.
pub proof fn lemma_liquidation_keeps_repayable_debt(cs: Seq<CollateralValue>, ds: Seq<DebtValue>, ps: Seq<InputView>)
    requires
        liquidation_plan_spec(cs, ds, ps) matches Ok((_, _, max_debt, _, _, _)) && max_debt >= 0,
    ensures
        ({
            let (kept, _, max_debt, _, _, _) = liquidation_plan_spec(cs, ds, ps)->Ok_0;
            repaid_egld_total(kept) == max_debt
        }),
{
    lemma_repayments_value(ps);
    lemma_repayments_nonneg(ps);
    let (paid, repaid, _, w, t, prop, bonus_w, b, hf) = liquidation_inputs_spec(cs, ds, ps)->Ok_0;
    assert(0 <= paid <= max_u128());
    let (max_debt, _) = max_debt_repayment_spec(b, t, w, prop, bonus_w, hf, Some(paid as u128))->Some_0;
    lemma_excess_refund_keeps_repayable_debt(repaid, max_debt);
}

/// The repayment of a liquidation (as `lending::internal_repay` makes it): refused
/// without a debt position, or for an isolated account whose collateral debt cannot be
/// lowered; otherwise the pool's repayment of `amount`. Yields the pool state, the
/// position's scaled debt, the refund and the isolated collateral's new debt (USD).
pub open spec fn liquidation_repay_spec(
    s: PoolState,
    pool_asset: Seq<u8>,
    position: Option<AccountPosition>,
    token: Seq<u8>,
    amount: int,
    price: int,
    decimals: nat,
    repay_egld: int,
    attributes: NftAccountAttributes,
    isolated: Option<IsolatedRepay>,
    now: u64,
) -> Result<(PoolState, u128, u128, Option<u128>), ControllerError> {
    match position {
        None => Err(ControllerError::PositionNotFound),
        Some(b) => if attributes.is_isolated && (isolated is None || isolated_repay_spec(isolated.unwrap(), price, decimals, repay_egld) is None) {
            Err(ControllerError::Arithmetic)
        } else {
            match repay_spec(s, token == pool_asset, b.asset_id@ == pool_asset, b.scaled_amount as int, amount, now) {
                Err(e) => Err(ControllerError::Pool(e)),
                Ok((ns, sc, refund)) => Ok((ns, sc, refund,
                    if attributes.is_isolated { isolated_repay_spec(isolated.unwrap(), price, decimals, repay_egld) } else { None })),
            }
        },
    }
}

/// The collateral withdrawal of a liquidation (as `account::internal_withdraw`
/// makes it with the liquidation fee `fee`): from the vault or through the pool.
/// Yields the pool state, the position's amount left, what the liquidator receives,
/// the fee kept by the controller (vault only), the vault total and the amount taken.
pub open spec fn liquidation_withdraw_spec(
    s: PoolState,
    pool_asset: Seq<u8>,
    position: Option<AccountPosition>,
    requested: int,
    fee: u128,
    min_amount: Option<u128>,
    vault_supplied: int,
    reserves: int,
    now: u64,
) -> Result<(PoolState, u128, u128, u128, u128, u128), ControllerError> {
    match position {
        None => Err(ControllerError::PositionNotFound),
        Some(p) => if p.is_vault {
            match vault_withdraw_spec(p.scaled_amount as int, requested, true, Some(fee), min_amount, vault_supplied) {
                Err(e) => Err(e),
                Ok((amount, to_caller, f, vault, left)) => Ok((s, left as u128, to_caller as u128, f as u128, vault as u128, amount as u128)),
            }
        } else {
            match market_withdraw_spec(s, p.asset_id@ == pool_asset, p.scaled_amount as int, requested, true, Some(fee), min_amount, reserves, now) {
                Err(e) => Err(e),
                Ok((ns, sc, net, amount)) => Ok((ns, sc, net, 0, vault_supplied as u128, amount as u128)),
            }
        },
    }
}

/// The outcome `o` of a withdrawal from `p` is the one `liquidation_withdraw_spec`
/// yields (its pool state aside).
pub open spec fn withdraw_outcome_is(o: WithdrawOutcome, p: AccountPosition, x: (PoolState, u128, u128, u128, u128, u128)) -> bool {
    &&& o.position.scaled_amount == x.1
    &&& o.position.same_except_amount(&p)
    &&& o.to_caller == x.2
    &&& o.protocol_fee == x.3
    &&& o.vault_supplied == x.4
    &&& o.amount == x.5
    &&& o.keep_position == (x.1 > 0)
}

/// Executes a planned liquidation of one collateral asset whose debt is in another
/// asset: the planned debt is repaid through the debt pool, then the collateral
/// with the bonus is withdrawn for the liquidator as a liquidation charged the
/// planned protocol fee. Yields the debt position, the repayment's refund, the
/// isolated collateral's new debt and the withdrawal. A refusal at any step leaves
/// both pools as they were.
pub fn process_liquidation(
    debt_pool: &mut LiquidityPool,
    collateral_pool: &mut LiquidityPool,
    debt_position: Option<AccountPosition>,
    collateral_position: Option<AccountPosition>,
    plan: SingleAssetLiquidation,
    debt_token: &TokenId,
    debt_price: u128,
    debt_decimals: u8,
    attributes: &NftAccountAttributes,
    isolated: Option<IsolatedRepay>,
    min_amount: Option<u128>,
    vault_supplied: u128,
    collateral_reserves: u128,
    now: u64,
) -> (r: Result<(AccountPosition, u128, Option<u128>, WithdrawOutcome), ControllerError>)
    requires
        old(debt_pool).state.valid(),
        old(collateral_pool).state.valid(),
        debt_decimals <= 38,
    ensures
        final(debt_pool).state.valid(),
        final(collateral_pool).state.valid(),
        final(debt_pool).asset_id@ == old(debt_pool).asset_id@,
        final(collateral_pool).asset_id@ == old(collateral_pool).asset_id@,
        match liquidation_repay_spec(old(debt_pool).state, old(debt_pool).asset_id@, debt_position, debt_token@, plan.debt_to_repay as int,
            debt_price as int, debt_decimals as nat, plan.repay_egld as int, *attributes, isolated, now) {
            Err(e) => r matches Err(e2) && e2 == e && final(debt_pool).state == old(debt_pool).state && final(collateral_pool).state == old(collateral_pool).state,
            Ok((dns, sc, refund, iso)) => match liquidation_withdraw_spec(old(collateral_pool).state, old(collateral_pool).asset_id@, collateral_position,
                plan.collateral_after_bonus as int, plan.protocol_fee, min_amount, vault_supplied as int, collateral_reserves as int, now) {
                Err(e) => r matches Err(e2) && e2 == e && final(debt_pool).state == old(debt_pool).state && final(collateral_pool).state == old(collateral_pool).state,
                Ok(x) => r matches Ok((p, rf, iso2, o)) && final(debt_pool).state == dns && final(collateral_pool).state == x.0
                    && p.scaled_amount == sc && p.same_except_amount(&debt_position.unwrap()) && rf == refund && iso2 == iso
                    && withdraw_outcome_is(o, collateral_position.unwrap(), x),
            },
        },
{
    let saved = debt_pool.state;
    let (p, refund, _keep, iso) = internal_repay(debt_pool, debt_position, debt_token, plan.debt_to_repay, debt_price, debt_decimals,
        plan.repay_egld, attributes, isolated, now)?;
    let o = match internal_withdraw(collateral_pool, collateral_position, plan.collateral_after_bonus, true, Some(plan.protocol_fee),
        min_amount, vault_supplied, collateral_reserves, now) {
        Ok(o) => o,
        Err(e) => {
            debt_pool.state = saved;
            return Err(e);
        },
    };
    Ok((p, refund, iso, o))
}

/// Executes a planned liquidation whose debt and collateral are the same asset: the
/// repayment and then the withdrawal go through the one pool (see
/// `process_liquidation`); a refusal leaves the pool as it was.
pub fn process_liquidation_same_asset(
    pool: &mut LiquidityPool,
    debt_position: Option<AccountPosition>,
    collateral_position: Option<AccountPosition>,
    plan: SingleAssetLiquidation,
    debt_token: &TokenId,
    debt_price: u128,
    debt_decimals: u8,
    attributes: &NftAccountAttributes,
    isolated: Option<IsolatedRepay>,
    min_amount: Option<u128>,
    vault_supplied: u128,
    reserves: u128,
    now: u64,
) -> (r: Result<(AccountPosition, u128, Option<u128>, WithdrawOutcome), ControllerError>)
    requires
        old(pool).state.valid(),
        debt_decimals <= 38,
    ensures
        final(pool).state.valid(),
        final(pool).asset_id@ == old(pool).asset_id@,
        match liquidation_repay_spec(old(pool).state, old(pool).asset_id@, debt_position, debt_token@, plan.debt_to_repay as int,
            debt_price as int, debt_decimals as nat, plan.repay_egld as int, *attributes, isolated, now) {
            Err(e) => r matches Err(e2) && e2 == e && final(pool).state == old(pool).state,
            Ok((dns, sc, refund, iso)) => match liquidation_withdraw_spec(dns, old(pool).asset_id@, collateral_position,
                plan.collateral_after_bonus as int, plan.protocol_fee, min_amount, vault_supplied as int, reserves as int, now) {
                Err(e) => r matches Err(e2) && e2 == e && final(pool).state == old(pool).state,
                Ok(x) => r matches Ok((p, rf, iso2, o)) && final(pool).state == x.0
                    && p.scaled_amount == sc && p.same_except_amount(&debt_position.unwrap()) && rf == refund && iso2 == iso
                    && withdraw_outcome_is(o, collateral_position.unwrap(), x),
            },
        },
{
    let saved = pool.state;
    let (p, refund, _keep, iso) = internal_repay(pool, debt_position, debt_token, plan.debt_to_repay, debt_price, debt_decimals,
        plan.repay_egld, attributes, isolated, now)?;
    let o = match internal_withdraw(pool, collateral_position, plan.collateral_after_bonus, true, Some(plan.protocol_fee),
        min_amount, vault_supplied, reserves, now) {
        Ok(o) => o,
        Err(e) => {
            pool.state = saved;
            return Err(e);
        },
    };
    Ok((p, refund, iso, o))
}
} // verus!
