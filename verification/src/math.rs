//! Integer arithmetic helpers: division rounded toward zero and a ceiling
//! square root, with the facts about them that the steering contracts need.

use vstd::prelude::*;
use vstd::arithmetic::div_mod::{
    lemma_div_is_ordered, lemma_div_multiples_vanish, lemma_div_nonincreasing,
    lemma_div_pos_is_pos, lemma_fundamental_div_mod, lemma_mod_bound,
};

verus! {

/// Quotient of `a` by `b`, rounded toward zero. Only meaningful for `b > 0`.
pub open spec fn div_toward_zero(a: int, b: int) -> int
    recommends
        b > 0,
{
    if a >= 0 {
        a / b
    } else {
        -((-a) / b)
    }
}

/// Division rounded toward zero on machine integers.
pub fn div_trunc(a: i64, b: i64) -> (q: i64)
    requires
        b > 0,
        a != i64::MIN,
    ensures
        q == div_toward_zero(a as int, b as int),
        a >= 0 ==> 0 <= q <= a,
        a < 0 ==> a <= q <= 0,
{
    if a >= 0 {
        let ua: u64 = a as u64;
        let ub: u64 = b as u64;
        let uq: u64 = ua / ub;
        proof {
            lemma_div_pos_is_pos(ua as int, ub as int);
            lemma_div_nonincreasing(ua as int, ub as int);
        }
        uq as i64
    } else {
        let na: i64 = -a;
        let ua: u64 = na as u64;
        let ub: u64 = b as u64;
        let uq: u64 = ua / ub;
        proof {
            lemma_div_pos_is_pos(ua as int, ub as int);
            lemma_div_nonincreasing(ua as int, ub as int);
        }
        -(uq as i64)
    }
}

/// Rounding toward zero never grows the product back past the dividend:
/// `(q * b)^2 <= a^2` where `q = div_toward_zero(a, b)`.
pub proof fn lemma_div_trunc_mul_bound(a: int, b: int)
    requires
        b > 0,
    ensures
        (div_toward_zero(a, b) * b) * (div_toward_zero(a, b) * b) <= a * a,
{
    if a >= 0 {
        let q = a / b;
        lemma_fundamental_div_mod(a, b);
        lemma_mod_bound(a, b);
        lemma_div_pos_is_pos(a, b);
        assert(0 <= q * b <= a) by (nonlinear_arith)
            requires
                a == b * q + a % b,
                0 <= a % b,
                q >= 0,
                b > 0,
        ;
        assert((q * b) * (q * b) <= a * a) by (nonlinear_arith)
            requires
                0 <= q * b <= a,
        ;
    } else {
        let q = (-a) / b;
        lemma_fundamental_div_mod(-a, b);
        lemma_mod_bound(-a, b);
        lemma_div_pos_is_pos(-a, b);
        assert(0 <= q * b <= -a) by (nonlinear_arith)
            requires
                -a == b * q + (-a) % b,
                0 <= (-a) % b,
                q >= 0,
                b > 0,
        ;
        assert(((-q) * b) * ((-q) * b) <= a * a) by (nonlinear_arith)
            requires
                0 <= q * b <= -a,
        ;
    }
}

/// A dividend within `k * b` keeps the truncated quotient within `k`.
pub proof fn lemma_div_trunc_le(a: int, b: int, k: int)
    requires
        b > 0,
        k >= 0,
        -(k * b) <= a <= k * b,
    ensures
        -k <= div_toward_zero(a, b) <= k,
{
    assert(b * k == k * b) by (nonlinear_arith);
    lemma_div_multiples_vanish(k, b);
    if a >= 0 {
        lemma_div_pos_is_pos(a, b);
        lemma_div_is_ordered(a, k * b, b);
    } else {
        lemma_div_pos_is_pos(-a, b);
        lemma_div_is_ordered(-a, k * b, b);
    }
}

/// A square within `k * k` (for `k >= 0`) keeps the root within `k`.
pub proof fn lemma_abs_le_of_sq_le(a: int, k: int)
    requires
        a * a <= k * k,
        k >= 0,
    ensures
        -k <= a <= k,
{
    assert(-k <= a <= k) by (nonlinear_arith)
        requires
            a * a <= k * k,
            k >= 0,
    ;
}

/// Smallest `m` with `m * m >= n`.
pub open spec fn sqrt_ceil(n: nat) -> nat
    decreases n,
{
    if n == 0 {
        0
    } else {
        let p = sqrt_ceil((n - 1) as nat);
        if p * p >= n {
            p
        } else {
            p + 1
        }
    }
}

/// `sqrt_ceil(n)` squares to at least `n`, and is the least such number.
pub proof fn lemma_sqrt_ceil(n: nat)
    ensures
        sqrt_ceil(n) * sqrt_ceil(n) >= n,
        n > 0 ==> (sqrt_ceil(n) - 1) * (sqrt_ceil(n) - 1) < n,
        sqrt_ceil(n) <= n,
    decreases n,
{
    if n > 0 {
        let m1 = (n - 1) as nat;
        lemma_sqrt_ceil(m1);
        let p = sqrt_ceil(m1);
        if p * p >= n {
            if m1 == 0 {
                assert(p == 0);
                assert(p * p == 0) by (nonlinear_arith)
                    requires
                        p == 0,
                ;
                assert(false);
            }
        } else {
            assert((p + 1) * (p + 1) >= p * p + 1) by (nonlinear_arith)
                requires
                    p >= 0,
            ;
        }
    }
}

/// Any `m` whose square reaches `n`, with `(m - 1)^2` still short of `n`,
/// is `sqrt_ceil(n)`.
pub proof fn lemma_sqrt_ceil_unique(n: nat, m: nat)
    requires
        m * m >= n,
        m > 0 ==> (m - 1) * (m - 1) < n,
        m == 0 ==> n == 0,
    ensures
        m == sqrt_ceil(n),
{
    let s = sqrt_ceil(n);
    lemma_sqrt_ceil(n);
    if m < s {
        assert(m * m < n) by (nonlinear_arith)
            requires
                0 <= m <= s - 1,
                (s - 1) * (s - 1) < n,
        ;
        assert(false);
    }
    if m > s {
        assert((m - 1) * (m - 1) >= n) by (nonlinear_arith)
            requires
                m - 1 >= s >= 0,
                s * s >= n,
        ;
        assert(false);
    }
}

/// Ceiling square root by bisection.
pub fn isqrt_ceil(s: u128) -> (r: u128)
    ensures
        r == sqrt_ceil(s as nat),
        r * r >= s,
        s > 0 ==> (r - 1) * (r - 1) < s,
{
    let mut lo: u128 = 0;
    let mut hi: u128 = 0x1_0000_0000_0000_0000;
    proof {
        assert(0x1_0000_0000_0000_0000int * 0x1_0000_0000_0000_0000int
            == 0x1_0000_0000_0000_0000_0000_0000_0000_0000int) by (nonlinear_arith);
    }
    while lo < hi
        invariant
            lo <= hi <= 0x1_0000_0000_0000_0000u128,
            (hi as int) * (hi as int) >= s as int,
            lo > 0 ==> ((lo as int) - 1) * ((lo as int) - 1) < s as int,
        decreases hi - lo,
    {
        let mid: u128 = lo + (hi - lo) / 2;
        proof {
            assert(mid < hi);
            assert((mid as int) * (mid as int) <= 0xFFFF_FFFF_FFFF_FFFFint
                * 0xFFFF_FFFF_FFFF_FFFFint) by (nonlinear_arith)
                requires
                    0 <= mid as int <= 0xFFFF_FFFF_FFFF_FFFFint,
            ;
            assert(0xFFFF_FFFF_FFFF_FFFFint * 0xFFFF_FFFF_FFFF_FFFFint
                < 0x1_0000_0000_0000_0000_0000_0000_0000_0000int) by (nonlinear_arith);
        }
        if mid * mid >= s {
            hi = mid;
        } else {
            lo = mid + 1;
        }
    }
    proof {
        if lo == 0 {
            assert((hi as int) * (hi as int) == 0) by (nonlinear_arith)
                requires
                    hi as int == 0,
            ;
            assert(s == 0);
        }
        lemma_sqrt_ceil_unique(s as nat, lo as nat);
    }
    lo
}

} // verus!
