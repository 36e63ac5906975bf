//! EGLD valuation of an account's positions: its collateral (total, weighted by
//! liquidation thresholds, and weighted by LTVs), its debt, and the proportions of
//! its collateral a liquidation seizes.
//!
//! Each position is given by its current token amount, its token's price (WAD) and
//! decimals, and the risk parameters (BPS) it recorded. Sums are `None` when a value
//! does not fit in 128 bits.
use crate::liquidation::{egld_value_spec, get_token_amount_in_egld_raw};
use crate::math::BPS;
use crate::u256::{u256_add, u256_div, u256_from, u256_mul_small, u256_to_u128};
use crate::wide::{div_round, fit, max_u128, mul_div_floor, mul_div_round, two128};
use vstd::arithmetic::div_mod::*;
use vstd::prelude::*;

verus! {

/// A deposit position's amount, price and recorded risk parameters.
#[derive(Clone, Copy, Debug)]
pub struct CollateralValue {
    pub amount: u128,
    pub price: u128,
    pub decimals: u8,
    pub liquidation_threshold: u128,
    pub liquidation_bonus: u128,
    pub ltv: u128,
}

/// A borrow position's amount and price.
#[derive(Clone, Copy, Debug)]
pub struct DebtValue {
    pub amount: u128,
    pub price: u128,
    pub decimals: u8,
}

/// A WAD value weighted by a BPS factor, rounded half up (the product at WAD
/// precision, which is `value * factor / BPS` rounded half up).
pub open spec fn weighted_spec(value: int, factor_bps: int) -> int {
    div_round(value * factor_bps, BPS as int)
}

/// `(weighted by liquidation threshold, total, weighted by LTV)` of collateral, all
/// WAD; `None` when a position's value does not fit in 128 bits.
pub open spec fn collateral_sums_spec(s: Seq<CollateralValue>) -> Option<(int, int, int)>
    decreases s.len(),
{
    if s.len() == 0 {
        Some((0, 0, 0))
    } else {
        match collateral_sums_spec(s.drop_last()) {
            None => None,
            Some((w, t, l)) => {
                let c = s.last();
                let v = egld_value_spec(c.amount as int, c.price as int, c.decimals as nat);
                if fit(v) is None {
                    None
                } else {
                    Some((w + weighted_spec(v, c.liquidation_threshold as int), t + v, l + weighted_spec(v, c.ltv as int)))
                }
            },
        }
    }
}

/// With each position's LTV at most its liquidation threshold and that at most 100%,
/// an account's LTV-weighted collateral never exceeds its threshold-weighted
/// collateral, which never exceeds its total collateral.
pub proof fn lemma_weighted_collateral_bounds(s: Seq<CollateralValue>)
    requires
        forall|i: int| 0 <= i < s.len() ==> #[trigger] s[i].ltv <= s[i].liquidation_threshold && s[i].liquidation_threshold <= BPS,
    ensures
        collateral_sums_spec(s) matches Some((w, t, l)) ==> 0 <= l <= w <= t,
    decreases s.len(),
{
    if s.len() > 0 {
        let p = s.drop_last();
        assert forall|i: int| 0 <= i < p.len() implies #[trigger] p[i].ltv <= p[i].liquidation_threshold && p[i].liquidation_threshold <= BPS by {
            assert(p[i] == s[i]);
        }
        lemma_weighted_collateral_bounds(p);
        let c = s.last();
        assert(c == s[s.len() - 1]);
        let v = egld_value_spec(c.amount as int, c.price as int, c.decimals as nat);
        lemma_value_nonneg(c.amount as int, c.price as int, c.decimals as nat);
        let bps = BPS as int;
        assert(0 <= v * (c.ltv as int) <= v * (c.liquidation_threshold as int) <= v * bps) by (nonlinear_arith)
            requires
                0 <= v,
                0 <= c.ltv <= c.liquidation_threshold <= bps,
        ;
        crate::math::lemma_div_round_monotone(v * (c.ltv as int), v * (c.liquidation_threshold as int), bps);
        crate::math::lemma_div_round_bound(v * (c.liquidation_threshold as int), bps, v);
    }
}

/// Three sums as `u128`s, when they fit.
pub open spec fn fit3(x: Option<(int, int, int)>) -> Option<(u128, u128, u128)> {
    match x {
        None => None,
        Some((a, b, c)) => if 0 <= a <= max_u128() && 0 <= b <= max_u128() && 0 <= c <= max_u128() {
            Some((a as u128, b as u128, c as u128))
        } else {
            None
        },
    }
}

proof fn lemma_value_nonneg(amount: int, price: int, decimals: nat)
    requires
        0 <= amount,
        0 <= price,
    ensures
        0 <= egld_value_spec(amount, price, decimals),
{
    crate::pool::lemma_rescale_nonneg(amount, decimals);
    let a = crate::math::rescale_spec(amount, decimals, 27);
    assert(0 <= a * (price * 1_000_000_000int)) by (nonlinear_arith)
        requires
            0 <= a,
            0 <= price,
    ;
    lemma_div_pos_is_pos(a * (price * 1_000_000_000int) + 1_000_000_000_000_000_000_000_000_000int / 2, 1_000_000_000_000_000_000_000_000_000int);
    lemma_div_pos_is_pos((a * (price * 1_000_000_000int) + 1_000_000_000_000_000_000_000_000_000int / 2) / 1_000_000_000_000_000_000_000_000_000int, 1_000_000_000int);
}

proof fn lemma_weighted_nonneg(v: int, f: int)
    requires
        0 <= v,
        0 <= f,
    ensures
        0 <= weighted_spec(v, f),
{
    assert(0 <= v * f) by (nonlinear_arith)
        requires
            0 <= v,
            0 <= f,
    ;
    lemma_div_pos_is_pos(v * f + (BPS as int) / 2, BPS as int);
}

proof fn lemma_collateral_step(s: Seq<CollateralValue>)
    requires
        s.len() > 0,
    ensures
        collateral_sums_spec(s.drop_last()) is None ==> collateral_sums_spec(s) is None,
        collateral_sums_spec(s) matches Some((w, t, l)) ==> (collateral_sums_spec(s.drop_last()) matches Some((w0, t0, l0))
            && w0 <= w && t0 <= t && l0 <= l),
{
    let c = s.last();
    let v = egld_value_spec(c.amount as int, c.price as int, c.decimals as nat);
    lemma_value_nonneg(c.amount as int, c.price as int, c.decimals as nat);
    lemma_weighted_nonneg(v, c.liquidation_threshold as int);
    lemma_weighted_nonneg(v, c.ltv as int);
}

proof fn lemma_collateral_prefix(s: Seq<CollateralValue>, i: int)
    requires
        0 <= i <= s.len(),
    ensures
        collateral_sums_spec(s.take(i)) is None ==> collateral_sums_spec(s) is None,
        collateral_sums_spec(s) matches Some((w, t, l)) ==> (collateral_sums_spec(s.take(i)) matches Some((w0, t0, l0))
            && w0 <= w && t0 <= t && l0 <= l),
    decreases s.len() - i,
{
    if i == s.len() {
        assert(s.take(i) =~= s);
    } else {
        lemma_collateral_prefix(s, i + 1);
        let p = s.take(i + 1);
        assert(p.drop_last() =~= s.take(i));
        lemma_collateral_step(p);
    }
}

/// Weighted, total and LTV-weighted collateral of an account (WAD).
pub fn sum_collaterals(positions: &Vec<CollateralValue>) -> (r: Option<(u128, u128, u128)>)
    requires
        forall|i: int| 0 <= i < positions@.len() ==> #[trigger] positions@[i].decimals <= 38,
    ensures
        r == fit3(collateral_sums_spec(positions@)),
{
    let mut w: u128 = 0;
    let mut t: u128 = 0;
    let mut l: u128 = 0;
    let mut i: usize = 0;
    proof {
        assert(positions@.take(0) =~= Seq::<CollateralValue>::empty());
    }
    while i < positions.len()
        invariant
            i <= positions@.len(),
            forall|k: int| 0 <= k < positions@.len() ==> #[trigger] positions@[k].decimals <= 38,
            collateral_sums_spec(positions@.take(i as int)) == Some((w as int, t as int, l as int)),
        decreases positions@.len() - i,
    {
        let c = positions[i];
        proof {
            let p = positions@.take(i + 1);
            assert(p.drop_last() =~= positions@.take(i as int));
            assert(p.last() == c);
            lemma_collateral_prefix(positions@, i + 1);
        }
        let v = match get_token_amount_in_egld_raw(c.amount, c.price, c.decimals as usize) {
            Some(v) => v,
            None => return None,
        };
        let wv = match mul_div_round(v, c.liquidation_threshold, BPS) {
            Some(x) => x,
            None => return None,
        };
        let lv = match mul_div_round(v, c.ltv, BPS) {
            Some(x) => x,
            None => return None,
        };
        if w > u128::MAX - wv || t > u128::MAX - v || l > u128::MAX - lv {
            return None;
        }
        w = w + wv;
        t = t + v;
        l = l + lv;
        i = i + 1;
    }
    proof {
        assert(positions@.take(i as int) =~= positions@);
    }
    Some((w, t, l))
}

/// Total debt (WAD) of an account; `None` when a value does not fit in 128 bits.
pub open spec fn debt_sum_spec(s: Seq<DebtValue>) -> Option<int>
    decreases s.len(),
{
    if s.len() == 0 {
        Some(0)
    } else {
        match debt_sum_spec(s.drop_last()) {
            None => None,
            Some(t) => {
                let d = s.last();
                let v = egld_value_spec(d.amount as int, d.price as int, d.decimals as nat);
                if fit(v) is None { None } else { Some(t + v) }
            },
        }
    }
}

/// Debt sums are never negative.
pub proof fn lemma_debt_sum_nonneg(s: Seq<DebtValue>)
    ensures
        debt_sum_spec(s) matches Some(t) ==> t >= 0,
    decreases s.len(),
{
    if s.len() > 0 {
        lemma_debt_sum_nonneg(s.drop_last());
        let d = s.last();
        lemma_value_nonneg(d.amount as int, d.price as int, d.decimals as nat);
    }
}

proof fn lemma_debt_prefix(s: Seq<DebtValue>, i: int)
    requires
        0 <= i <= s.len(),
    ensures
        debt_sum_spec(s.take(i)) is None ==> debt_sum_spec(s) is None,
        debt_sum_spec(s) matches Some(t) ==> (debt_sum_spec(s.take(i)) matches Some(t0) && t0 <= t),
    decreases s.len() - i,
{
    if i == s.len() {
        assert(s.take(i) =~= s);
    } else {
        lemma_debt_prefix(s, i + 1);
        let p = s.take(i + 1);
        assert(p.drop_last() =~= s.take(i));
        let d = p.last();
        lemma_value_nonneg(d.amount as int, d.price as int, d.decimals as nat);
    }
}

/// Total debt of an account (WAD).
pub fn sum_borrows(positions: &Vec<DebtValue>) -> (r: Option<u128>)
    requires
        forall|i: int| 0 <= i < positions@.len() ==> #[trigger] positions@[i].decimals <= 38,
    ensures
        r == (match debt_sum_spec(positions@) {
            Some(t) => fit(t),
            None => None,
        }),
{
    let mut t: u128 = 0;
    let mut i: usize = 0;
    proof {
        assert(positions@.take(0) =~= Seq::<DebtValue>::empty());
    }
    while i < positions.len()
        invariant
            i <= positions@.len(),
            forall|k: int| 0 <= k < positions@.len() ==> #[trigger] positions@[k].decimals <= 38,
            debt_sum_spec(positions@.take(i as int)) == Some(t as int),
        decreases positions@.len() - i,
    {
        let d = positions[i];
        proof {
            let p = positions@.take(i + 1);
            assert(p.drop_last() =~= positions@.take(i as int));
            assert(p.last() == d);
            lemma_debt_prefix(positions@, i + 1);
        }
        let v = match get_token_amount_in_egld_raw(d.amount, d.price, d.decimals as usize) {
            Some(v) => v,
            None => return None,
        };
        if t > u128::MAX - v {
            return None;
        }
        t = t + v;
        i = i + 1;
    }
    proof {
        assert(positions@.take(i as int) =~= positions@);
    }
    Some(t)
}

/// Share (BPS, truncated) of the total collateral `total` (WAD) that a value `v`
/// (WAD) makes up: the quotient at RAY precision rounded half up, cut to BPS.
pub open spec fn fraction_spec(v: int, total: int) -> int {
    div_round(v * 1_000_000_000_000_000_000_000_000_000_000_000_000int, total * 1_000_000_000int) / 100_000_000_000_000_000_000_000int
}

/// `(proportion of weighted collateral seized, weighted bonus)` (BPS): each position's
/// share of the collateral times its liquidation threshold, resp. its liquidation
/// bonus, over BPS (the RAY-precision product cut to BPS). `None` for a zero total
/// with positions, or when a value does not fit in 128 bits.
pub open spec fn proportion_spec(total: int, s: Seq<CollateralValue>) -> Option<(int, int)>
    decreases s.len(),
{
    if s.len() == 0 {
        Some((0, 0))
    } else {
        match proportion_spec(total, s.drop_last()) {
            None => None,
            Some((p, b)) => {
                let c = s.last();
                let v = egld_value_spec(c.amount as int, c.price as int, c.decimals as nat);
                if fit(v) is None || total == 0 || fit(fraction_spec(v, total)) is None {
                    None
                } else {
                    let f = fraction_spec(v, total);
                    Some((p + f * (c.liquidation_threshold as int) / (BPS as int), b + f * (c.liquidation_bonus as int) / (BPS as int)))
                }
            },
        }
    }
}

/// Two sums as `u128`s, when they fit.
pub open spec fn fit2(x: Option<(int, int)>) -> Option<(u128, u128)> {
    match x {
        None => None,
        Some((a, b)) => if 0 <= a <= max_u128() && 0 <= b <= max_u128() { Some((a as u128, b as u128)) } else { None },
    }
}

proof fn lemma_fraction_nonneg(v: int, total: int)
    requires
        0 <= v,
        0 < total,
    ensures
        0 <= fraction_spec(v, total),
{
    let n = v * 1_000_000_000_000_000_000_000_000_000_000_000_000int;
    let d = total * 1_000_000_000int;
    assert(0 <= n);
    lemma_div_pos_is_pos(n + d / 2, d);
    lemma_div_pos_is_pos((n + d / 2) / d, 100_000_000_000_000_000_000_000int);
}

proof fn lemma_proportion_prefix(total: int, s: Seq<CollateralValue>, i: int)
    requires
        0 <= i <= s.len(),
    ensures
        proportion_spec(total, s.take(i)) is None ==> proportion_spec(total, s) is None,
        proportion_spec(total, s) matches Some((p, b)) ==> (proportion_spec(total, s.take(i)) matches Some((p0, b0))
            && p0 <= p && b0 <= b),
    decreases s.len() - i,
{
    if i == s.len() {
        assert(s.take(i) =~= s);
    } else {
        lemma_proportion_prefix(total, s, i + 1);
        let q = s.take(i + 1);
        assert(q.drop_last() =~= s.take(i));
        let c = q.last();
        let v = egld_value_spec(c.amount as int, c.price as int, c.decimals as nat);
        lemma_value_nonneg(c.amount as int, c.price as int, c.decimals as nat);
        if total > 0 {
            lemma_fraction_nonneg(v, total);
            let f = fraction_spec(v, total);
            assert(0 <= f * (c.liquidation_threshold as int)) by (nonlinear_arith)
                requires
                    0 <= f,
            ;
            assert(0 <= f * (c.liquidation_bonus as int)) by (nonlinear_arith)
                requires
                    0 <= f,
            ;
            lemma_div_pos_is_pos(f * (c.liquidation_threshold as int), BPS as int);
            lemma_div_pos_is_pos(f * (c.liquidation_bonus as int), BPS as int);
        }
    }
}

fn fraction(v: u128, total: u128) -> (r: Option<u128>)
    requires
        total > 0,
    ensures
        r == fit(fraction_spec(v as int, total as int)),
{
    let e36: u128 = 1_000_000_000_000_000_000_000_000_000_000_000_000;
    proof {
        assert(0 <= (v as int) * (e36 as int) < two128() * (two128() / 4)) by (nonlinear_arith)
            requires
                0 <= v < two128(),
                e36 < two128() / 4,
        ;
        assert(0 <= (total as int) * 1_000_000_000int < two128() * (two128() / 4)) by (nonlinear_arith)
            requires
                0 <= total < two128(),
        ;
    }
    let num = u256_mul_small(u256_from(v), e36).unwrap();
    let den = u256_mul_small(u256_from(total), 1_000_000_000).unwrap();
    let q = u256_div(u256_add(num, u256_div(den, u256_from(2))).unwrap(), den);
    u256_to_u128(u256_div(q, u256_from(100_000_000_000_000_000_000_000)))
}

/// Proportion of weighted collateral a liquidation seizes and the weighted bonus (BPS).
pub fn proportion_of_weighted_seized(total_collateral: u128, positions: &Vec<CollateralValue>) -> (r: Option<(u128, u128)>)
    requires
        forall|i: int| 0 <= i < positions@.len() ==> #[trigger] positions@[i].decimals <= 38,
    ensures
        r == fit2(proportion_spec(total_collateral as int, positions@)),
{
    let mut p: u128 = 0;
    let mut b: u128 = 0;
    let mut i: usize = 0;
    proof {
        assert(positions@.take(0) =~= Seq::<CollateralValue>::empty());
    }
    while i < positions.len()
        invariant
            i <= positions@.len(),
            forall|k: int| 0 <= k < positions@.len() ==> #[trigger] positions@[k].decimals <= 38,
            proportion_spec(total_collateral as int, positions@.take(i as int)) == Some((p as int, b as int)),
        decreases positions@.len() - i,
    {
        let c = positions[i];
        proof {
            let q = positions@.take(i + 1);
            assert(q.drop_last() =~= positions@.take(i as int));
            assert(q.last() == c);
            lemma_proportion_prefix(total_collateral as int, positions@, i + 1);
        }
        let v = match get_token_amount_in_egld_raw(c.amount, c.price, c.decimals as usize) {
            Some(v) => v,
            None => return None,
        };
        if total_collateral == 0 {
            return None;
        }
        let f = match fraction(v, total_collateral) {
            Some(f) => f,
            None => return None,
        };
        let pv = match mul_div_floor(f, c.liquidation_threshold, BPS) {
            Some(x) => x,
            None => return None,
        };
        let bv = match mul_div_floor(f, c.liquidation_bonus, BPS) {
            Some(x) => x,
            None => return None,
        };
        if p > u128::MAX - pv || b > u128::MAX - bv {
            return None;
        }
        p = p + pv;
        b = b + bv;
        i = i + 1;
    }
    proof {
        assert(positions@.take(i as int) =~= positions@);
    }
    Some((p, b))
}

} // verus!
