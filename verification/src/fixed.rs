//! Fixed-point amounts. Every price, quantity, rate, percentage and ratio of
//! this crate is an integer count of millionths: `1_500_000` stands for 1.5.
use vstd::prelude::*;

verus! {

/// The number of raw units in one whole unit.
pub const SCALE: u64 = 1_000_000;

/// The product of two fixed-point amounts, rounded down to a millionth.
pub open spec fn scaled_product(a: nat, b: nat) -> nat {
    (a * b) / (SCALE as nat)
}

/// `num / den`, rounded toward zero, for a positive `den`.
pub open spec fn div_toward_zero(num: int, den: int) -> int {
    if num >= 0 {
        num / den
    } else {
        -((-num) / den)
    }
}

/// The integer square root: the largest `s` with `s * s <= x`.
pub open spec fn is_sqrt_of(s: nat, x: nat) -> bool {
    s * s <= x < (s + 1) * (s + 1)
}

/// At most one number is the integer square root of `x`.
pub proof fn lemma_sqrt_unique(s: nat, t: nat, x: nat)
    requires
        is_sqrt_of(s, x),
        is_sqrt_of(t, x),
    ensures
        s == t,
{
    if s < t {
        assert((s + 1) * (s + 1) <= t * t) by (nonlinear_arith)
            requires
                s + 1 <= t,
        ;
    } else if t < s {
        assert((t + 1) * (t + 1) <= s * s) by (nonlinear_arith)
            requires
                t + 1 <= s,
        ;
    }
}

/// The product of two 64-bit amounts fits in 128 bits.
pub proof fn lemma_product_fits(a: u64, b: u64)
    ensures
        a * b <= 0xffff_ffff_ffff_fffe_0000_0000_0000_0001,
        a * b <= u128::MAX,
{
    assert(a * b <= 0xffff_ffff_ffff_ffff * 0xffff_ffff_ffff_ffff) by (nonlinear_arith)
        requires
            0 <= a <= 0xffff_ffff_ffff_ffff,
            0 <= b <= 0xffff_ffff_ffff_ffff,
    ;
}

/// Multiplies two fixed-point amounts, rounding down.
pub fn mul_scaled(a: u64, b: u64) -> (r: u128)
    ensures
        r == scaled_product(a as nat, b as nat),
{
    proof {
        lemma_product_fits(a, b);
    }
    let wide: u128 = (a as u128) * (b as u128);
    wide / (SCALE as u128)
}

/// Computes the integer square root of `x` by bisection.
pub fn isqrt(x: u128) -> (s: u128)
    ensures
        is_sqrt_of(s as nat, x as nat),
        s <= u64::MAX,
{
    let mut lo: u128 = 0;
    let mut hi: u128 = 0x1_0000_0000_0000_0000;
    assert(0x1_0000_0000_0000_0000 * 0x1_0000_0000_0000_0000 > u128::MAX) by (nonlinear_arith);
    while hi - lo > 1
        invariant
            lo < hi <= 0x1_0000_0000_0000_0000,
            lo * lo <= x,
            hi * hi > x,
        decreases hi - lo,
    {
        let mid: u128 = lo + (hi - lo) / 2;
        assert(mid * mid <= 0xffff_ffff_ffff_ffff * 0xffff_ffff_ffff_ffff) by (nonlinear_arith)
            requires
                0 <= mid <= 0xffff_ffff_ffff_ffff,
        ;
        if mid * mid <= x {
            lo = mid;
        } else {
            hi = mid;
        }
    }
    lo
}

} // verus!
