//! Fixed-point decimal arithmetic shared by every module.
//!
//! A fixed-point amount is a `u128` of raw units together with a number of decimals
//! (its scale): raw `r` at scale `s` stands for `r / 10^s`. RAY (27 decimals) carries
//! rates and indexes, WAD (18 decimals) carries EGLD values, BPS (4 decimals) carries
//! percentages. Every operation rounds half up, as the protocol's shared math does, and
//! returns `None` only when its result does not fit in 128 bits.
use crate::wide::{div_round, fit, max_u128, mul_div_floor, mul_div_round};
use vstd::arithmetic::div_mod::*;
use vstd::arithmetic::mul::*;
use vstd::prelude::*;

verus! {

/// Decimals of a RAY value.
pub const RAY_PRECISION: usize = 27;

/// Decimals of a WAD value.
pub const WAD_PRECISION: usize = 18;

/// Decimals of a basis-point value.
pub const BPS_PRECISION: usize = 4;

/// One in RAY precision.
pub const RAY: u128 = 1_000_000_000_000_000_000_000_000_000;

/// One in WAD precision.
pub const WAD: u128 = 1_000_000_000_000_000_000;

/// One hundred percent in basis points.
pub const BPS: u128 = 10_000;

/// Number of seconds in a year, used to turn annual rates into per-second rates.
pub const SECONDS_PER_YEAR: u64 = 31_556_926;

/// `10^n`.
pub open spec fn pow10(n: nat) -> nat
    decreases n,
{
    if n == 0 {
        1
    } else {
        10 * pow10((n - 1) as nat)
    }
}

/// Raw units of a value at scale `from` re-expressed at scale `to`; going down truncates.
pub open spec fn rescale_spec(raw: int, from: nat, to: nat) -> int {
    if from <= to {
        raw * pow10((to - from) as nat)
    } else {
        raw / (pow10((from - to) as nat) as int)
    }
}

/// Like `rescale_spec`, but going down rounds half up.
pub open spec fn rescale_half_up_spec(raw: int, from: nat, to: nat) -> int {
    if from <= to {
        raw * pow10((to - from) as nat)
    } else {
        div_round(raw, pow10((from - to) as nat) as int)
    }
}

/// Product of two values at scale `p`, at scale `p`, rounded half up.
pub open spec fn mul_half_up_spec(a: int, b: int, p: nat) -> int {
    div_round(a * b, pow10(p) as int)
}

/// Quotient of two values at scale `p`, at scale `p`, rounded half up.
pub open spec fn div_half_up_spec(a: int, b: int, p: nat) -> int {
    div_round(a * pow10(p), b)
}

pub proof fn lemma_pow10_pos(n: nat)
    ensures
        pow10(n) > 0,
    decreases n,
{
    if n > 0 {
        lemma_pow10_pos((n - 1) as nat);
    }
}

pub proof fn lemma_pow10_values()
    ensures
        pow10(0) == 1,
        pow10(4) == 10_000,
        pow10(18) == 1_000_000_000_000_000_000,
        pow10(23) == 100_000_000_000_000_000_000_000,
        pow10(27) == 1_000_000_000_000_000_000_000_000_000,
{
    reveal_with_fuel(pow10, 28);
}

pub proof fn lemma_pow10_adds(a: nat, b: nat)
    ensures
        pow10(a + b) == pow10(a) * pow10(b),
    decreases b,
{
    if b > 0 {
        lemma_pow10_adds(a, (b - 1) as nat);
        assert((a + b - 1) as nat == a + (b - 1) as nat);
        let x = pow10(a) as int;
        let y = pow10((b - 1) as nat) as int;
        assert(10 * (x * y) == x * (10 * y)) by (nonlinear_arith);
        assert(pow10(a + b) == 10 * pow10((a + b - 1) as nat));
        assert(pow10(b) == 10 * y);
        assert(pow10((a + b - 1) as nat) == x * y);
        assert(pow10(a + b) == pow10(a) * pow10(b));
    } else {
        assert(pow10(0) == 1);
        assert(a + b == a);
    }
}

pub proof fn lemma_pow10_monotone(a: nat, b: nat)
    requires
        a <= b,
    ensures
        pow10(a) <= pow10(b),
    decreases b,
{
    if a < b {
        lemma_pow10_monotone(a, (b - 1) as nat);
        lemma_pow10_pos((b - 1) as nat);
    }
}

/// `pow10(38)` is the largest power of ten below `2^128`.
pub proof fn lemma_pow10_fits(n: nat)
    requires
        n <= 38,
    ensures
        pow10(n) <= max_u128(),
{
    reveal_with_fuel(pow10, 39);
    lemma_pow10_monotone(n, 38);
}

/// `10^n` as a `u128`.
pub fn pow10_u128(n: usize) -> (r: u128)
    requires
        n <= 38,
    ensures
        r == pow10(n as nat),
{
    let mut r: u128 = 1;
    let mut i: usize = 0;
    while i < n
        invariant
            i <= n <= 38,
            r == pow10(i as nat),
        decreases n - i,
    {
        proof {
            lemma_pow10_fits((i + 1) as nat);
        }
        r = r * 10;
        i = i + 1;
    }
    r
}

/// Checked addition with the sum's mathematical value.
pub fn add_checked(a: u128, b: u128) -> (r: Option<u128>)
    ensures
        r == fit(a + b),
{
    if a <= u128::MAX - b {
        Some(a + b)
    } else {
        None
    }
}

/// Raw units re-expressed at another scale (truncating when the scale goes down).
pub fn rescale(raw: u128, from: usize, to: usize) -> (r: Option<u128>)
    requires
        from <= 38,
        to <= 38,
    ensures
        r == fit(rescale_spec(raw as int, from as nat, to as nat)),
{
    if from <= to {
        let f = pow10_u128(to - from);
        proof {
            lemma_pow10_pos((to - from) as nat);
        }
        mul_div_floor(raw, f, 1)
    } else {
        let f = pow10_u128(from - to);
        proof {
            lemma_pow10_pos((from - to) as nat);
        }
        Some(raw / f)
    }
}

/// Raw units re-expressed at another scale, rounding half up when the scale goes down.
pub fn rescale_half_up(raw: u128, from: usize, to: usize) -> (r: Option<u128>)
    requires
        from <= 38,
        to <= 38,
    ensures
        r == fit(rescale_half_up_spec(raw as int, from as nat, to as nat)),
{
    if from <= to {
        let f = pow10_u128(to - from);
        mul_div_floor(raw, f, 1)
    } else {
        let f = pow10_u128(from - to);
        proof {
            lemma_pow10_pos((from - to) as nat);
        }
        mul_div_round(raw, 1, f)
    }
}

/// Product of two values at scale `p`, rounded half up to scale `p`.
pub fn mul_half_up(a: u128, b: u128, p: usize) -> (r: Option<u128>)
    requires
        p <= 38,
    ensures
        r == fit(mul_half_up_spec(a as int, b as int, p as nat)),
{
    let f = pow10_u128(p);
    proof {
        lemma_pow10_pos(p as nat);
    }
    mul_div_round(a, b, f)
}

/// Quotient of two values at scale `p`, rounded half up to scale `p`.
pub fn div_half_up(a: u128, b: u128, p: usize) -> (r: Option<u128>)
    requires
        p <= 38,
        b > 0,
    ensures
        r == fit(div_half_up_spec(a as int, b as int, p as nat)),
{
    let f = pow10_u128(p);
    mul_div_round(a, f, b)
}

/// Rounded division is monotone in the numerator.
pub proof fn lemma_div_round_monotone(x: int, y: int, d: int)
    requires
        0 <= x <= y,
        d > 0,
    ensures
        0 <= div_round(x, d) <= div_round(y, d),
{
    lemma_div_is_ordered(x + d / 2, y + d / 2, d);
    lemma_div_pos_is_pos(x + d / 2, d);
}

/// Rounding `x * d` back down by `d` gives `x` again.
pub proof fn lemma_div_round_exact(x: int, d: int)
    requires
        d > 0,
    ensures
        div_round(x * d, d) == x,
{
    lemma_fundamental_div_mod_converse(x * d + d / 2, d, x, d / 2);
}

/// Rounded division never exceeds the numerator when the divisor is at least one.
pub proof fn lemma_div_round_le(x: int, d: int)
    requires
        0 <= x,
        d >= 1,
    ensures
        div_round(x, d) <= x,
{
    let q = (x + d / 2) / d;
    lemma_fundamental_div_mod(x + d / 2, d);
    assert(q <= x) by (nonlinear_arith)
        requires
            x + d / 2 == d * q + (x + d / 2) % d,
            (x + d / 2) % d >= 0,
            0 <= x,
            d >= 1,
            d / 2 < d,
    ;
}

/// A rounded quotient stays at most `k` when the numerator is at most `k * d`.
pub proof fn lemma_div_round_bound(x: int, d: int, k: int)
    requires
        0 <= x <= k * d,
        d > 0,
        k >= 0,
    ensures
        0 <= div_round(x, d) <= k,
{
    let q = (x + d / 2) / d;
    lemma_fundamental_div_mod(x + d / 2, d);
    lemma_div_pos_is_pos(x + d / 2, d);
    assert(q <= k) by (nonlinear_arith)
        requires
            x + d / 2 == d * q + (x + d / 2) % d,
            (x + d / 2) % d >= 0,
            x <= k * d,
            d / 2 < d,
            d > 0,
    ;
}

/// Products and quotients of non-negative values stay non-negative.
pub proof fn lemma_half_up_nonneg(a: int, b: int, p: nat)
    requires
        0 <= a,
        0 <= b,
    ensures
        0 <= mul_half_up_spec(a, b, p),
        b > 0 ==> 0 <= div_half_up_spec(a, b, p),
        0 <= rescale_spec(a, 27, p),
        0 <= rescale_half_up_spec(a, 27, p),
{
    lemma_pow10_pos(p);
    assert(0 <= a * b) by (nonlinear_arith)
        requires
            0 <= a,
            0 <= b,
    ;
    assert(0 <= a * pow10(p)) by (nonlinear_arith)
        requires
            0 <= a,
            pow10(p) > 0,
    ;
    lemma_div_pos_is_pos(a * b + (pow10(p) as int) / 2, pow10(p) as int);
    if b > 0 {
        lemma_div_pos_is_pos(a * pow10(p) + b / 2, b);
    }
    if 27 <= p {
        lemma_pow10_pos((p - 27) as nat);
        assert(0 <= a * pow10((p - 27) as nat)) by (nonlinear_arith)
            requires
                0 <= a,
                pow10((p - 27) as nat) > 0,
        ;
    } else {
        lemma_pow10_pos((27 - p) as nat);
        lemma_div_pos_is_pos(a, pow10((27 - p) as nat) as int);
        lemma_div_pos_is_pos(a + (pow10((27 - p) as nat) as int) / 2, pow10((27 - p) as nat) as int);
    }
}

} // verus!
