//! Unsigned 256-bit integers for the liquidation formulas, whose intermediate products
//! of WAD-scaled values outgrow 128 bits.
use crate::wide::{add_wide, div_wide, max_u128, mul_wide, two128, wide_value};
use vstd::arithmetic::div_mod::*;
use vstd::arithmetic::power2::*;
use vstd::prelude::*;

verus! {

/// `2^256` as a mathematical integer.
pub open spec fn two256() -> int {
    two128() * two128()
}

/// A 256-bit unsigned integer as its high and low 128-bit halves.
#[derive(Clone, Copy, Debug, PartialEq, Eq)]
pub struct U256 {
    pub hi: u128,
    pub lo: u128,
}

impl U256 {
    /// The number this value stands for.
    pub open spec fn value(&self) -> int {
        wide_value(self.hi, self.lo)
    }
}

pub proof fn lemma_value_range(x: U256)
    ensures
        0 <= x.value() < two256(),
{
    assert(0 <= x.hi * two128()) by (nonlinear_arith)
        requires
            x.hi >= 0,
    ;
    assert(x.hi * two128() + x.lo < two128() * two128()) by (nonlinear_arith)
        requires
            0 <= x.hi <= two128() - 1,
            0 <= x.lo <= two128() - 1,
    ;
}

proof fn lemma_value_order(a: U256, b: U256)
    ensures
        a.value() <= b.value() <==> (a.hi < b.hi || (a.hi == b.hi && a.lo <= b.lo)),
        a.value() == b.value() <==> (a.hi == b.hi && a.lo == b.lo),
{
    if a.hi < b.hi {
        assert(a.hi * two128() + two128() <= b.hi * two128()) by (nonlinear_arith)
            requires
                a.hi < b.hi,
        ;
    } else if a.hi > b.hi {
        assert(b.hi * two128() + two128() <= a.hi * two128()) by (nonlinear_arith)
            requires
                b.hi < a.hi,
        ;
    }
}

/// A 128-bit number as a 256-bit one.
pub fn u256_from(x: u128) -> (r: U256)
    ensures
        r.value() == x,
{
    U256 { hi: 0, lo: x }
}

/// The number as a `u128`, when it fits.
pub fn u256_to_u128(x: U256) -> (r: Option<u128>)
    ensures
        r is Some <==> x.value() <= max_u128(),
        r matches Some(v) ==> v == x.value(),
{
    if x.hi == 0 {
        Some(x.lo)
    } else {
        assert(x.value() >= two128()) by (nonlinear_arith)
            requires
                x.hi >= 1,
                x.lo >= 0,
                x.value() == x.hi * two128() + x.lo,
        ;
        None
    }
}

/// Whether `a <= b`.
pub fn u256_le(a: U256, b: U256) -> (r: bool)
    ensures
        r == (a.value() <= b.value()),
{
    proof {
        lemma_value_order(a, b);
    }
    a.hi < b.hi || (a.hi == b.hi && a.lo <= b.lo)
}

/// Whether `a < b`.
pub fn u256_lt(a: U256, b: U256) -> (r: bool)
    ensures
        r == (a.value() < b.value()),
{
    proof {
        lemma_value_order(a, b);
        lemma_value_order(b, a);
    }
    !u256_le(b, a)
}

/// Whether the number is zero.
pub fn u256_is_zero(a: U256) -> (r: bool)
    ensures
        r == (a.value() == 0),
{
    proof {
        lemma_value_order(a, U256 { hi: 0, lo: 0 });
    }
    a.hi == 0 && a.lo == 0
}

/// `a + b` when below `2^256`.
pub fn u256_add(a: U256, b: U256) -> (r: Option<U256>)
    ensures
        r is Some <==> a.value() + b.value() < two256(),
        r matches Some(x) ==> x.value() == a.value() + b.value(),
{
    proof {
        lemma_value_range(a);
        lemma_value_range(b);
    }
    if a.lo <= u128::MAX - b.lo {
        if a.hi <= u128::MAX - b.hi {
            Some(U256 { hi: a.hi + b.hi, lo: a.lo + b.lo })
        } else {
            assert(a.value() + b.value() >= two256()) by (nonlinear_arith)
                requires
                    a.hi + b.hi >= two128(),
                    a.value() == a.hi * two128() + a.lo,
                    b.value() == b.hi * two128() + b.lo,
                    a.lo >= 0,
                    b.lo >= 0,
            ;
            None
        }
    } else {
        let lo = a.lo - (u128::MAX - b.lo) - 1;
        if a.hi < u128::MAX - b.hi {
            Some(U256 { hi: a.hi + b.hi + 1, lo })
        } else {
            assert(a.value() + b.value() >= two256()) by (nonlinear_arith)
                requires
                    a.hi + b.hi + 1 >= two128(),
                    a.lo + b.lo >= two128(),
                    a.value() == a.hi * two128() + a.lo,
                    b.value() == b.hi * two128() + b.lo,
            ;
            None
        }
    }
}

/// `a - b` when not negative.
pub fn u256_sub(a: U256, b: U256) -> (r: Option<U256>)
    ensures
        r is Some <==> b.value() <= a.value(),
        r matches Some(x) ==> x.value() == a.value() - b.value(),
{
    if !u256_le(b, a) {
        return None;
    }
    proof {
        lemma_value_order(b, a);
    }
    if a.lo >= b.lo {
        Some(U256 { hi: a.hi - b.hi, lo: a.lo - b.lo })
    } else {
        let lo = a.lo + (u128::MAX - b.lo) + 1;
        Some(U256 { hi: a.hi - b.hi - 1, lo })
    }
}

/// `x * y` for a 128-bit `y`, when below `2^256`.
pub fn u256_mul_small(x: U256, y: u128) -> (r: Option<U256>)
    ensures
        r is Some <==> x.value() * y < two256(),
        r matches Some(z) ==> z.value() == x.value() * y,
{
    let (h1, l1) = mul_wide(x.lo, y);
    let (h2, l2) = mul_wide(x.hi, y);
    proof {
        assert(x.value() * y == h2 * two256() + (h1 + l2) * two128() + l1) by (nonlinear_arith)
            requires
                x.value() == x.hi * two128() + x.lo,
                h1 * two128() + l1 == x.lo * y,
                h2 * two128() + l2 == x.hi * y,
                two256() == two128() * two128(),
        ;
    }
    if h2 != 0 {
        proof {
            assert(x.value() * y >= two256()) by (nonlinear_arith)
                requires
                    x.value() * y == h2 * two256() + (h1 + l2) * two128() + l1,
                    h2 >= 1,
                    h1 >= 0,
                    l2 >= 0,
                    l1 >= 0,
                    two256() > 0,
            ;
        }
        return None;
    }
    if h1 > u128::MAX - l2 {
        proof {
            assert(x.value() * y >= two256()) by (nonlinear_arith)
                requires
                    x.value() * y == h2 * two256() + (h1 + l2) * two128() + l1,
                    h2 == 0,
                    h1 + l2 >= two128(),
                    l1 >= 0,
                    two256() == two128() * two128(),
            ;
        }
        return None;
    }
    proof {
        assert(x.value() * y < two256()) by (nonlinear_arith)
            requires
                x.value() * y == h2 * two256() + (h1 + l2) * two128() + l1,
                h2 == 0,
                h1 + l2 < two128(),
                l1 < two128(),
                two256() == two128() * two128(),
        ;
    }
    proof {
        assert(x.value() * y == (h1 + l2) * two128() + l1) by (nonlinear_arith)
            requires
                x.value() * y == h2 * two256() + (h1 + l2) * two128() + l1,
                h2 == 0,
        ;
    }
    Some(U256 { hi: h1 + l2, lo: l1 })
}

/// `a * b` when below `2^256`.
pub fn u256_mul(a: U256, b: U256) -> (r: Option<U256>)
    ensures
        r is Some <==> a.value() * b.value() < two256(),
        r matches Some(z) ==> z.value() == a.value() * b.value(),
{
    if a.hi == 0 {
        proof {
            assert(a.value() * b.value() == b.value() * a.lo) by (nonlinear_arith)
                requires
                    a.value() == a.lo,
            ;
        }
        u256_mul_small(b, a.lo)
    } else if b.hi == 0 {
        proof {
            assert(a.value() * b.value() == a.value() * b.lo) by (nonlinear_arith)
                requires
                    b.value() == b.lo,
            ;
        }
        u256_mul_small(a, b.lo)
    } else {
        proof {
            assert(a.value() * b.value() >= two256()) by (nonlinear_arith)
                requires
                    a.value() >= two128(),
                    b.value() >= two128(),
                    two256() == two128() * two128(),
            ;
        }
        None
    }
}

proof fn lemma_phase_step(p: int, q: int, r: int, d: int, mask: int, rem: int, b: int)
    requires
        p == (q * d + r) * (2 * mask) + rem,
    ensures
        p == ((2 * q) * d + (2 * r + b)) * mask + (rem - b * mask),
{
    assert((q * d + r) * (2 * mask) == ((2 * q) * d + 2 * r) * mask) by (nonlinear_arith);
    assert(((2 * q) * d + 2 * r) * mask + b * mask == ((2 * q) * d + (2 * r + b)) * mask)
        by (nonlinear_arith);
}

proof fn lemma_phase_bound(p: int, q: int, r: int, d: int, w: int, rem: int)
    requires
        p == (q * d + r) * w + rem,
        0 <= r,
        0 <= rem,
        0 <= q,
        d > 0,
        w > 0,
    ensures
        q * w <= p / d,
{
    assert(p >= (q * w) * d) by (nonlinear_arith)
        requires
            p == (q * d + r) * w + rem,
            0 <= r,
            0 <= rem,
            0 <= q,
            d > 0,
            w > 0,
    ;
    lemma_div_is_ordered((q * w) * d, p, d);
    lemma_div_by_multiple(q * w, d);
}

/// Shifts the 128 bits of `word` into a running long division by `d`:
/// from `q·d + r` it reaches `q'·d + r' == (q·d + r)·2^128 + word` with `r' < d`.
fn div_phase(q0: U256, r0: U256, word: u128, d: U256) -> (res: (U256, U256))
    requires
        d.value() > 0,
        r0.value() < d.value(),
        ((q0.value() * d.value() + r0.value()) * two128() + word) / d.value() < two256(),
    ensures
        res.0.value() * d.value() + res.1.value() == (q0.value() * d.value() + r0.value())
            * two128() + word,
        res.1.value() < d.value(),
{
    let ghost p = (q0.value() * d.value() + r0.value()) * two128() + word;
    let mut q = q0;
    let mut r = r0;
    let mut rem: u128 = word;
    let mut mask: u128 = 0x8000_0000_0000_0000_0000_0000_0000_0000;
    let mut i: u32 = 0;
    let ghost mut w: int = two128();
    proof {
        lemma2_to64();
        lemma2_to64_rest();
        assert(pow2(127) == 0x8000_0000_0000_0000_0000_0000_0000_0000) by {
            lemma_pow2_adds(64, 63);
        }
        assert(pow2(128) == two128()) by {
            lemma_pow2_adds(64, 64);
        }
        lemma_value_range(q0);
        lemma_value_range(r0);
        lemma_value_range(d);
        assert(q0.value() * d.value() >= 0) by (nonlinear_arith)
            requires
                q0.value() >= 0,
                d.value() > 0,
        ;
        lemma_phase_bound(p, q0.value(), r0.value(), d.value(), two128(), word as int);
    }
    while i < 128
        invariant
            i <= 128,
            d.value() > 0,
            d.value() < two256(),
            i < 128 ==> mask == pow2((127 - i) as nat),
            w == pow2((128 - i) as nat),
            p == (q.value() * d.value() + r.value()) * w + rem,
            rem < w,
            r.value() < d.value(),
            q.value() * w <= p / d.value(),
            p / d.value() < two256(),
        decreases 128 - i,
    {
        proof {
            lemma_pow2_unfold((128 - i) as nat);
            lemma_pow2_pos((127 - i) as nat);
            lemma_value_range(q);
            lemma_value_range(r);
        }
        let b: u128 = if rem >= mask { 1 } else { 0 };
        let ghost oq = q.value();
        let ghost or = r.value();
        let ghost orem = rem;
        if b == 1 {
            rem = rem - mask;
        }
        proof {
            lemma_phase_step(p, oq, or, d.value(), mask as int, orem as int, b as int);
        }
        let top = r.hi >= 0x8000_0000_0000_0000_0000_0000_0000_0000;
        let bu = u256_from(b);
        let r2_opt = if top {
            None
        } else {
            let dbl = u256_add(r, r);
            proof {
                assert(or < two256() / 2) by (nonlinear_arith)
                    requires
                        or == r.hi * two128() + r.lo,
                        r.hi < 0x8000_0000_0000_0000_0000_0000_0000_0000,
                        r.lo < two128(),
                        two256() == two128() * two128(),
                        two128() == 2 * 0x8000_0000_0000_0000_0000_0000_0000_0000,
                ;
            }
            let dbl = dbl.unwrap();
            proof {
                assert(2 * or + 1 < two256()) by (nonlinear_arith)
                    requires
                        or < two256() / 2,
                        two256() == two128() * two128(),
                        two128() == 2 * 0x8000_0000_0000_0000_0000_0000_0000_0000,
                ;
            }
            u256_add(dbl, bu)
        };
        let take = match r2_opt {
            None => true,
            Some(r2) => u256_le(d, r2),
        };
        proof {
            if top {
                assert(or >= two256() / 2) by (nonlinear_arith)
                    requires
                        or == r.hi * two128() + r.lo,
                        r.hi >= 0x8000_0000_0000_0000_0000_0000_0000_0000,
                        r.lo >= 0,
                        two256() == two128() * two128(),
                        two128() == 2 * 0x8000_0000_0000_0000_0000_0000_0000_0000,
                ;
                assert(2 * or + b >= d.value());
            }
        }
        if take {
            // r' = 2r + b - d; when 2r does not fit, computed as r - (d - r) + b.
            if top {
                let gap = u256_sub(d, r).unwrap();
                proof {
                    lemma_value_range(d);
                    assert(or >= d.value() - or);
                }
                let base = u256_sub(r, gap).unwrap();
                proof {
                    assert(base.value() + b < two256()) by {
                        lemma_value_range(d);
                    }
                }
                r = u256_add(base, bu).unwrap();
            } else {
                r = u256_sub(r2_opt.unwrap(), d).unwrap();
            }
            proof {
                assert(((2 * oq) * d.value() + (2 * or + b)) == ((2 * oq + 1) * d.value() + r.value()))
                    by (nonlinear_arith)
                    requires
                        r.value() == 2 * or - d.value() + b,
                ;
                assert(r.value() < d.value());
                lemma_phase_bound(p, 2 * oq + 1, r.value(), d.value(), mask as int, rem as int);
                assert((2 * oq + 1) * mask >= 2 * oq + 1) by (nonlinear_arith)
                    requires
                        mask >= 1,
                        oq >= 0,
                ;
            }
            let q2 = u256_add(q, q).unwrap();
            q = u256_add(q2, u256_from(1)).unwrap();
        } else {
            r = r2_opt.unwrap();
            proof {
                lemma_phase_bound(p, 2 * oq, r.value(), d.value(), mask as int, rem as int);
                assert((2 * oq) * mask >= 2 * oq) by (nonlinear_arith)
                    requires
                        mask >= 1,
                        oq >= 0,
                ;
            }
            q = u256_add(q, q).unwrap();
        }
        proof {
            w = mask as int;
            if i < 127 {
                lemma_pow2_unfold((127 - i) as nat);
            }
        }
        mask = mask / 2;
        i = i + 1;
    }
    proof {
        assert(pow2(0) == 1);
        assert(w == 1);
        assert(rem == 0);
        assert(p == q.value() * d.value() + r.value()) by (nonlinear_arith)
            requires
                p == (q.value() * d.value() + r.value()) * w + rem,
                w == 1,
                rem == 0,
        ;
    }
    (q, r)
}

/// Truncated quotient `a / d` for `d > 0`.
pub fn u256_div(a: U256, d: U256) -> (r: U256)
    requires
        d.value() > 0,
    ensures
        r.value() == a.value() / d.value(),
{
    proof {
        lemma_value_range(a);
        lemma_value_range(d);
        lemma_div_is_ordered(a.hi as int, a.value(), d.value());
        assert(a.hi <= a.value()) by (nonlinear_arith)
            requires
                a.value() == a.hi * two128() + a.lo,
                a.hi >= 0,
                a.lo >= 0,
        ;
        lemma_div_is_ordered(a.value(), two256(), d.value());
        lemma_div_is_ordered_by_denominator(two256(), 1, d.value());
        assert((a.hi as int) / d.value() <= a.value() / d.value());
        assert(a.value() / d.value() < two256()) by {
            lemma_div_is_ordered_by_denominator(a.value(), 1, d.value());
        }
    }
    let zero = u256_from(0);
    let (q1, r1) = div_phase(zero, zero, a.hi, d);
    proof {
        assert(q1.value() * d.value() + r1.value() == a.hi) by (nonlinear_arith)
            requires
                q1.value() * d.value() + r1.value() == (0 * d.value() + 0) * two128() + a.hi,
        ;
    }
    let (q2, r2) = div_phase(q1, r1, a.lo, d);
    proof {
        assert(q2.value() * d.value() + r2.value() == a.value());
        lemma_value_range(r2);
        lemma_fundamental_div_mod_converse(a.value(), d.value(), q2.value(), r2.value());
    }
    q2
}

} // verus!
