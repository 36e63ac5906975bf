//! Exact 256-bit intermediate arithmetic on `u128` operands.
//!
//! Fixed-point amounts in this library are `u128` raw units, but the product of two
//! RAY-scaled quantities does not fit in 128 bits. The helpers here compute
//! `a * b / d` (truncated or rounded half up) through a 256-bit intermediate value and
//! report `None` only when the final quotient itself exceeds `u128::MAX`.
use vstd::arithmetic::div_mod::*;
use vstd::arithmetic::mul::*;
use vstd::arithmetic::power2::*;
use vstd::prelude::*;

verus! {

/// `2^64` as a mathematical integer.
pub open spec fn two64() -> int {
    0x1_0000_0000_0000_0000int
}

/// `2^128` as a mathematical integer.
pub open spec fn two128() -> int {
    0x1_0000_0000_0000_0000_0000_0000_0000_0000int
}

/// Largest value of a `u128`.
pub open spec fn max_u128() -> int {
    0xffff_ffff_ffff_ffff_ffff_ffff_ffff_ffffint
}

/// Value of a 256-bit number given by its high and low 128-bit halves.
pub open spec fn wide_value(hi: u128, lo: u128) -> int {
    hi * two128() + lo
}

/// Division rounded half up: `(n + d / 2) / d`.
pub open spec fn div_round(n: int, d: int) -> int {
    (n + d / 2) / d
}

/// `Some(v)` when `v` fits in a `u128`, `None` otherwise.
pub open spec fn fit(v: int) -> Option<u128> {
    if 0 <= v <= max_u128() {
        Some(v as u128)
    } else {
        None
    }
}

proof fn lemma_split_product(a0: int, a1: int, b0: int, b1: int)
    ensures
        (a1 * two64() + a0) * (b1 * two64() + b0) == (a1 * b1) * two128() + (a0 * b1 + a1 * b0)
            * two64() + a0 * b0,
{
    assert((a1 * two64() + a0) * (b1 * two64() + b0) == (a1 * b1) * (two64() * two64()) + (a0
        * b1 + a1 * b0) * two64() + a0 * b0) by (nonlinear_arith);
    assert(two64() * two64() == two128());
}

proof fn lemma_half_product_bound(x: int, y: int)
    requires
        0 <= x < two64(),
        0 <= y < two64(),
    ensures
        0 <= x * y < two128(),
{
    assert((two64() - 1) * (two64() - 1) < two128()) by (nonlinear_arith);
    assert(x * y <= (two64() - 1) * (two64() - 1)) by (nonlinear_arith)
        requires
            0 <= x < two64(),
            0 <= y < two64(),
    ;
    assert(0 <= x * y) by (nonlinear_arith)
        requires
            0 <= x,
            0 <= y,
    ;
}

/// Full 256-bit product of two `u128` values, as `(high, low)` halves.
pub fn mul_wide(a: u128, b: u128) -> (r: (u128, u128))
    ensures
        wide_value(r.0, r.1) == a * b,
{
    let m: u128 = 0x1_0000_0000_0000_0000;
    let a0 = a % m;
    let a1 = a / m;
    let b0 = b % m;
    let b1 = b / m;
    proof {
        lemma_half_product_bound(a0 as int, b0 as int);
        lemma_half_product_bound(a0 as int, b1 as int);
        lemma_half_product_bound(a1 as int, b0 as int);
        lemma_half_product_bound(a1 as int, b1 as int);
    }
    let p00 = a0 * b0;
    let p01 = a0 * b1;
    let p10 = a1 * b0;
    let p11 = a1 * b1;
    let t = p00 / m + p01 % m + p10 % m;
    let lo = p00 % m + (t % m) * m;
    proof {
        lemma_split_product(a0 as int, a1 as int, b0 as int, b1 as int);
        assert(a * b == (a1 * b1) * two128() + (a0 * b1 + a1 * b0) * two64() + a0 * b0);
        assert(a * b < two128() * two128()) by (nonlinear_arith)
            requires
                0 <= a < two128(),
                0 <= b < two128(),
        ;
        let hi_i: int = p11 + p01 / m + p10 / m + t / m;
        assert(p01 == (p01 / m) * two64() + p01 % m);
        assert(p10 == (p10 / m) * two64() + p10 % m);
        assert(p00 == (p00 / m) * two64() + p00 % m);
        assert(t == (t / m) * two64() + t % m);
        assert((p01 + p10) * two64() == ((p01 / m) + (p10 / m)) * two128() + (p01 % m + p10 % m)
            * two64()) by (nonlinear_arith)
            requires
                p01 == (p01 / m) * two64() + p01 % m,
                p10 == (p10 / m) * two64() + p10 % m,
                two128() == two64() * two64(),
        ;
        assert(t * two64() == (t / m) * two128() + (t % m) * two64()) by (nonlinear_arith)
            requires
                t == (t / m) * two64() + t % m,
                two128() == two64() * two64(),
        ;
        assert(a * b == hi_i * two128() + lo);
        assert(0 <= lo < two128());
        assert(hi_i < two128()) by (nonlinear_arith)
            requires
                a * b == hi_i * two128() + lo,
                0 <= lo,
                a * b < two128() * two128(),
        ;
    }
    let hi = p11 + p01 / m + p10 / m + t / m;
    (hi, lo)
}

/// Adds a `u128` to a 256-bit value whose sum is known to stay below `2^256`.
pub fn add_wide(hi: u128, lo: u128, c: u128) -> (r: (u128, u128))
    requires
        wide_value(hi, lo) + c < two128() * two128(),
    ensures
        wide_value(r.0, r.1) == wide_value(hi, lo) + c,
{
    if lo <= u128::MAX - c {
        (hi, lo + c)
    } else {
        let lo2 = c - (u128::MAX - lo) - 1;
        assert(hi < u128::MAX) by (nonlinear_arith)
            requires
                hi * two128() + lo + c < two128() * two128(),
                lo + c > max_u128(),
                0 <= hi,
        ;
        (hi + 1, lo2)
    }
}

proof fn lemma_step(n: int, q: int, r: int, d: int, mask: int, lo_rem: int, b: int)
    requires
        n == (q * d + r) * (2 * mask) + lo_rem,
    ensures
        n == ((2 * q) * d + (2 * r + b)) * mask + (lo_rem - b * mask),
{
    assert((q * d + r) * (2 * mask) == ((2 * q) * d + 2 * r) * mask) by (nonlinear_arith);
    assert(((2 * q) * d + 2 * r) * mask + b * mask == ((2 * q) * d + (2 * r + b)) * mask)
        by (nonlinear_arith);
}

proof fn lemma_quotient_bound(n: int, q: int, r: int, d: int, w: int, lo_rem: int)
    requires
        n == (q * d + r) * w + lo_rem,
        0 <= r,
        0 <= lo_rem,
        0 <= q,
        d > 0,
        w > 0,
    ensures
        q * w <= n / d,
{
    assert(n >= (q * w) * d) by (nonlinear_arith)
        requires
            n == (q * d + r) * w + lo_rem,
            0 <= r,
            0 <= lo_rem,
            0 <= q,
            d > 0,
            w > 0,
    ;
    lemma_div_is_ordered((q * w) * d, n, d);
    lemma_div_by_multiple(q * w, d);
}

/// Quotient of a 256-bit value by a nonzero `u128`, when that quotient fits in 128 bits.
pub fn div_wide(hi: u128, lo: u128, d: u128) -> (r: Option<u128>)
    requires
        d > 0,
    ensures
        r == fit(wide_value(hi, lo) / d as int),
{
    let ghost n = wide_value(hi, lo);
    if hi == 0 {
        return Some(lo / d);
    }
    if hi >= d {
        proof {
            assert(n >= (d as int) * two128()) by (nonlinear_arith)
                requires
                    n == hi * two128() + lo,
                    hi >= d,
                    lo >= 0,
            ;
            lemma_div_is_ordered((d as int) * two128(), n, d as int);
            lemma_div_by_multiple(two128(), d as int);
        }
        return None;
    }
    let mut q: u128 = 0;
    let mut rem: u128 = hi;
    let mut lo_rem: u128 = lo;
    let mut mask: u128 = 0x8000_0000_0000_0000_0000_0000_0000_0000;
    let mut i: u32 = 0;
    let ghost mut w: int = two128();
    proof {
        lemma2_to64();
        lemma2_to64_rest();
        assert(pow2(127) == 0x8000_0000_0000_0000_0000_0000_0000_0000) by {
            lemma_pow2_adds(64, 63);
        }
        assert(pow2(128) == two128()) by {
            lemma_pow2_adds(64, 64);
        }
        assert(n < two128() * (d as int)) by (nonlinear_arith)
            requires
                n == hi * two128() + lo,
                hi < d,
                lo < two128(),
        ;
        lemma_div_by_multiple(two128(), d as int);
        lemma_div_is_ordered(n, two128() * (d as int), d as int);
        lemma_mul_is_commutative(two128(), d as int);
        assert(n / (d as int) <= two128());
        assert(n / (d as int) < two128()) by {
            lemma_fundamental_div_mod(n, d as int);
            assert(n == (d as int) * (n / (d as int)) + n % (d as int));
            if n / (d as int) == two128() {
                assert((d as int) * two128() <= n) by (nonlinear_arith)
                    requires
                        n == (d as int) * (n / (d as int)) + n % (d as int),
                        n % (d as int) >= 0,
                        n / (d as int) == two128(),
                ;
            }
        }
    }
    while i < 128
        invariant
            i <= 128,
            d > 0,
            i < 128 ==> mask == pow2((127 - i) as nat),
            w == pow2((128 - i) as nat),
            n == (q * d + rem) * w + lo_rem,
            lo_rem < w,
            rem < d,
            q * w <= n / (d as int),
            n / (d as int) < two128(),
        decreases 128 - i,
    {
        proof {
            lemma_pow2_unfold((128 - i) as nat);
            lemma_pow2_pos((127 - i) as nat);
        }
        let b: u128 = if lo_rem >= mask { 1 } else { 0 };
        let ghost old_q = q;
        let ghost old_rem = rem;
        let ghost old_lo = lo_rem;
        if b == 1 {
            lo_rem = lo_rem - mask;
        }
        proof {
            lemma_step(n, old_q as int, old_rem as int, d as int, mask as int, old_lo as int, b as int);
        }
        let top = rem >= 0x8000_0000_0000_0000_0000_0000_0000_0000;
        if top || 2 * rem + b >= d {
            if top {
                rem = (rem - (d - rem)) + b;
            } else {
                rem = 2 * rem + b - d;
            }
            proof {
                assert(((2 * old_q) * d + (2 * old_rem + b)) == ((2 * old_q + 1) * d + rem))
                    by (nonlinear_arith)
                    requires
                        rem == 2 * old_rem + b - d,
                ;
                lemma_quotient_bound(n, 2 * old_q + 1, rem as int, d as int, mask as int, lo_rem as int);
                assert((2 * old_q + 1) * mask >= 2 * old_q + 1) by (nonlinear_arith)
                    requires
                        mask >= 1,
                        old_q >= 0,
                ;
            }
            q = 2 * q + 1;
        } else {
            rem = 2 * rem + b;
            proof {
                lemma_quotient_bound(n, 2 * old_q, rem as int, d as int, mask as int, lo_rem as int);
                assert((2 * old_q) * mask >= 2 * old_q) by (nonlinear_arith)
                    requires
                        mask >= 1,
                        old_q >= 0,
                ;
            }
            q = 2 * q;
        }
        proof {
            w = mask as int;
            if i < 127 {
                lemma_pow2_unfold((127 - i) as nat);
            }
        }
        mask = mask / 2;
        i = i + 1;
    }
    proof {
        assert(pow2(0) == 1);
        assert(w == 1);
        assert(lo_rem == 0);
        assert(n == q * d + rem) by (nonlinear_arith)
            requires
                n == (q * d + rem) * w + lo_rem,
                w == 1,
                lo_rem == 0,
        ;
        lemma_fundamental_div_mod_converse(n, d as int, q as int, rem as int);
    }
    Some(q)
}

/// `a * b / d` truncated, or `None` when the quotient does not fit in a `u128`.
pub fn mul_div_floor(a: u128, b: u128, d: u128) -> (r: Option<u128>)
    requires
        d > 0,
    ensures
        r == fit((a * b) / (d as int)),
{
    let (hi, lo) = mul_wide(a, b);
    div_wide(hi, lo, d)
}

/// `a * b / d` rounded half up, or `None` when the result does not fit in a `u128`.
pub fn mul_div_round(a: u128, b: u128, d: u128) -> (r: Option<u128>)
    requires
        d > 0,
    ensures
        r == fit(div_round(a * b, d as int)),
{
    let (hi, lo) = mul_wide(a, b);
    proof {
        assert(a * b <= max_u128() * max_u128()) by (nonlinear_arith)
            requires
                0 <= a <= max_u128(),
                0 <= b <= max_u128(),
        ;
    }
    let (hi2, lo2) = add_wide(hi, lo, d / 2);
    div_wide(hi2, lo2, d)
}

} // verus!
