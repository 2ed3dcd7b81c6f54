//! Small integer helpers for the fixed-point descriptor formulas:
//! an exact integer square root and the floor of the base-two logarithm.

use vstd::prelude::*;

verus! {

use vstd::arithmetic::power2::{
    pow2,
    lemma_pow2_unfold,
    lemma_pow2_strictly_increases,
    lemma2_to64,
    lemma2_to64_rest,
};

/// A nonnegative value at most `k` times the divisor divides to at most `k`.
pub proof fn lemma_div_bound(a: int, b: int, k: int)
    requires
        0 <= a,
        1 <= b,
        0 <= k,
        a <= k * b,
    ensures
        0 <= a / b <= k,
{
    vstd::arithmetic::div_mod::lemma_div_pos_is_pos(a, b);
    assert(k * b == b * k) by (nonlinear_arith);
    vstd::arithmetic::div_mod::lemma_div_is_ordered(a, b * k, b);
    vstd::arithmetic::div_mod::lemma_div_multiples_vanish(k, b);
}

/// Floor of the base-two logarithm; zero below two.
pub open spec fn log2floor(x: int) -> int
    decreases x,
{
    if x < 2 {
        0
    } else {
        1 + log2floor(x / 2)
    }
}

/// A power-of-two bracket pins `log2floor` exactly.
pub proof fn lemma_log2floor_bracket(x: int, r: nat)
    requires
        pow2(r) <= x < pow2(r + 1),
    ensures
        log2floor(x) == r,
    decreases r,
{
    lemma_pow2_unfold(r + 1);
    if r == 0 {
        assert(pow2(0) == 1 && pow2(1) == 2) by {
            lemma2_to64();
        }
    } else {
        lemma_pow2_unfold(r);
        assert(pow2(r) >= 2) by {
            lemma2_to64();
            if r > 1 {
                lemma_pow2_strictly_increases(1, r);
            }
        }
        assert(pow2((r - 1) as nat) <= x / 2 < pow2(r));
        lemma_log2floor_bracket(x / 2, (r - 1) as nat);
    }
}

/// The floor of the base-two logarithm of a positive machine integer.
pub fn floor_log2(x: u64) -> (r: u64)
    requires
        x >= 1,
    ensures
        r == log2floor(x as int),
        r <= 63,
        pow2(r as nat) <= x < pow2((r + 1) as nat),
{
    let mut r: u64 = 0;
    let mut p: u64 = 1;
    proof {
        lemma2_to64();
    }
    while x / 2 >= p
        invariant
            x >= 1,
            p >= 1,
            r <= 63,
            p == pow2(r as nat),
            p <= x,
        decreases x - p,
    {
        proof {
            lemma_pow2_unfold((r + 1) as nat);
            assert((r + 1) as nat <= 63) by {
                if r + 1 >= 64 {
                    lemma2_to64();
                    lemma2_to64_rest();
                    lemma_pow2_strictly_increases(64, (r + 1) as nat + 1);
                    lemma_pow2_unfold((r + 1) as nat);
                }
            }
        }
        p = p * 2;
        r = r + 1;
    }
    proof {
        lemma_pow2_unfold((r + 1) as nat);
        lemma_log2floor_bracket(x as int, r as nat);
    }
    r
}

/// Floor of the square root.
pub open spec fn sqrt_floor(x: int) -> int
    decreases x,
{
    if x < 1 {
        0
    } else {
        let r = sqrt_floor(x - 1);
        if (r + 1) * (r + 1) <= x {
            r + 1
        } else {
            r
        }
    }
}

/// `sqrt_floor` is the floor of the square root.
pub proof fn lemma_sqrt_floor_correct(x: int)
    requires
        x >= 0,
    ensures
        sqrt_floor(x) >= 0,
        sqrt_floor(x) * sqrt_floor(x) <= x < (sqrt_floor(x) + 1) * (sqrt_floor(x) + 1),
    decreases x,
{
    if x >= 1 {
        lemma_sqrt_floor_correct(x - 1);
        let r = sqrt_floor(x - 1);
        if (r + 1) * (r + 1) <= x {
            assert((r + 1 + 1) * (r + 1 + 1) > (r + 1) * (r + 1)) by (nonlinear_arith)
                requires
                    r >= 0,
            ;
        }
    }
}

/// Any bracketed root equals `sqrt_floor`.
pub proof fn lemma_sqrt_floor_unique(x: int, r: int)
    requires
        x >= 0,
        r >= 0,
        r * r <= x,
        x < (r + 1) * (r + 1),
    ensures
        sqrt_floor(x) == r,
{
    lemma_sqrt_floor_correct(x);
    let s = sqrt_floor(x);
    if s < r {
        assert((s + 1) * (s + 1) <= r * r) by (nonlinear_arith)
            requires
                0 <= s + 1 <= r,
        ;
    }
    if s > r {
        assert((r + 1) * (r + 1) <= s * s) by (nonlinear_arith)
            requires
                0 <= r + 1 <= s,
        ;
    }
}

/// Exact integer square root of a 64-bit value.
pub fn isqrt64(x: u64) -> (r: u64)
    ensures
        r * r <= x,
        x < (r + 1) * (r + 1),
        r <= 0xffff_ffff,
        r == sqrt_floor(x as int),
{
    let mut lo: u64 = 0;
    let mut hi: u64 = 0x1_0000_0000;
    proof {
        assert((0x1_0000_0000u64 as int) * (0x1_0000_0000u64 as int) > u64::MAX as int)
            by (nonlinear_arith);
    }
    while lo + 1 < hi
        invariant
            lo < hi <= 0x1_0000_0000,
            lo * lo <= x,
            x < hi * hi,
        decreases hi - lo,
    {
        let mid: u64 = lo + (hi - lo) / 2;
        proof {
            assert(mid * mid <= 0xffff_ffffu64 * 0xffff_ffffu64) by (nonlinear_arith)
                requires
                    mid <= 0xffff_ffffu64,
            ;
        }
        if mid * mid <= x {
            lo = mid;
        } else {
            hi = mid;
        }
    }
    proof {
        lemma_sqrt_floor_unique(x as int, lo as int);
    }
    lo
}

} // verus!
