use vstd::prelude::*;
use vstd::arithmetic::div_mod::{lemma_div_is_ordered, lemma_div_is_ordered_by_denominator};
use vstd::arithmetic::mul::lemma_mul_inequality;
use crate::SCALE;

verus! {

/// Fixed-point product: floor(a * b / SCALE), computed without overflow
/// through a 128-bit intermediate.
pub fn mul_fx(a: u64, b: u64) -> (r: u64)
    requires
        a * b / SCALE as int <= u64::MAX,
    ensures
        r == a * b / SCALE as int,
{
    (((a as u128) * (b as u128)) / (SCALE as u128)) as u64
}

/// Fixed-point quotient: floor(a * SCALE / b).
pub fn div_fx(a: u64, b: u64) -> (r: u64)
    requires
        b > 0,
        a * SCALE / b as int <= u64::MAX,
    ensures
        r == a * SCALE / b as int,
{
    (((a as u128) * (SCALE as u128)) / (b as u128)) as u64
}

/// Subtraction that stops at zero.
pub fn sat_sub(a: u64, b: u64) -> (r: u64)
    ensures
        r == if a >= b { a - b } else { 0 },
{
    if a >= b {
        a - b
    } else {
        0
    }
}

/// The smaller of two values.
pub fn min64(a: u64, b: u64) -> (r: u64)
    ensures
        r == if a <= b { a as int } else { b as int },
{
    if a <= b {
        a
    } else {
        b
    }
}

/// Integer square root: the largest r with r * r <= n.
pub fn isqrt(n: u64) -> (r: u64)
    ensures
        r * r <= n,
        (r + 1) * (r + 1) > n,
        r == spec_isqrt(n as nat),
{
    proof {
        lemma_spec_isqrt_bounds(n as nat);
    }
    let mut lo: u64 = 0;
    let mut hi: u64 = 0x1_0000_0000;
    while lo + 1 < hi
        invariant
            lo < hi <= 0x1_0000_0000,
            lo * lo <= n,
            hi * hi > n,
        decreases hi - lo,
    {
        let mid: u64 = lo + (hi - lo) / 2;
        assert(lo < mid < hi);
        assert(mid * mid < 0x1_0000_0000_0000_0000) by (nonlinear_arith)
            requires mid < 0x1_0000_0000;
        if mid * mid <= n {
            lo = mid;
        } else {
            hi = mid;
        }
    }
    proof {
        lemma_isqrt_unique(n as nat, lo as nat);
    }
    lo
}

/// Square root in fixed point: floor(sqrt(a / SCALE) * SCALE),
/// obtained as the integer square root of a * SCALE.
pub fn sqrt_fx(a: u64) -> (r: u64)
    requires
        a * SCALE <= u64::MAX,
    ensures
        r * r <= a * SCALE,
        (r + 1) * (r + 1) > a * SCALE,
        r == spec_isqrt((a * SCALE) as nat),
{
    isqrt(a * SCALE)
}

/// Repeated fixed-point product of a value at most one with itself.
pub open spec fn spec_pow_fx(b: int, e: nat) -> int
    decreases e,
{
    if e == 0 {
        SCALE as int
    } else {
        spec_pow_fx(b, (e - 1) as nat) * b / SCALE as int
    }
}

/// A base at most SCALE keeps every fixed-point power within [0, SCALE].
pub proof fn lemma_pow_fx_bounded(b: int, e: nat)
    requires
        0 <= b <= SCALE,
    ensures
        0 <= spec_pow_fx(b, e) <= SCALE,
    decreases e,
{
    if e > 0 {
        lemma_pow_fx_bounded(b, (e - 1) as nat);
        let p = spec_pow_fx(b, (e - 1) as nat);
        lemma_mul_inequality(p, SCALE as int, b);
        assert(p * b >= 0) by (nonlinear_arith)
            requires p >= 0 && b >= 0;
        lemma_div_is_ordered(p * b, SCALE as int * b, SCALE as int);
        lemma_div_is_ordered(0, p * b, SCALE as int);
        assert(SCALE as int * b / SCALE as int == b) by (nonlinear_arith)
            requires b >= 0;
    }
}

/// Fixed-point power by a nonnegative integer exponent, for a base
/// at most one.
pub fn pow_fx(b: u64, e: u32) -> (r: u64)
    requires
        b <= SCALE,
    ensures
        r == spec_pow_fx(b as int, e as nat),
        r <= SCALE,
{
    proof {
        lemma_pow_fx_bounded(b as int, e as nat);
    }
    let mut acc: u64 = SCALE;
    let mut i: u32 = 0;
    while i < e
        invariant
            i <= e,
            b <= SCALE,
            acc == spec_pow_fx(b as int, i as nat),
            acc <= SCALE,
        decreases e - i,
    {
        proof {
            lemma_pow_fx_bounded(b as int, (i + 1) as nat);
            lemma_mul_inequality(acc as int, SCALE as int, b as int);
            lemma_div_is_ordered(acc as int * b as int, SCALE as int * b as int, SCALE as int);
            assert(SCALE as int * b / SCALE as int == b) by (nonlinear_arith)
                requires b >= 0;
        }
        acc = mul_fx(acc, b);
        i = i + 1;
    }
    acc
}

/// Floor division by a positive constant is monotone in the dividend.
pub proof fn lemma_div_mono(a1: int, a2: int, d: int)
    requires
        a1 <= a2,
        d > 0,
    ensures
        a1 / d <= a2 / d,
{
    lemma_div_is_ordered(a1, a2, d);
}

/// Floor division of a nonnegative dividend shrinks as the divisor grows.
pub proof fn lemma_div_anti_mono_divisor(x: int, d1: int, d2: int)
    requires
        0 <= x,
        1 <= d1 <= d2,
    ensures
        x / d2 <= x / d1,
{
    lemma_div_is_ordered_by_denominator(x, d1, d2);
}

/// The fixed-point product is monotone in its first factor.
pub proof fn lemma_mul_fx_mono(a1: int, a2: int, b: int)
    requires
        0 <= a1 <= a2,
        0 <= b,
    ensures
        a1 * b / SCALE as int <= a2 * b / SCALE as int,
{
    lemma_mul_inequality(a1, a2, b);
    lemma_div_is_ordered(a1 * b, a2 * b, SCALE as int);
}

/// A fixed-point product with a factor at most SCALE does not exceed
/// the other factor.
pub proof fn lemma_mul_fx_le(a: int, b: int)
    requires
        0 <= a,
        0 <= b <= SCALE,
    ensures
        0 <= a * b / SCALE as int <= a,
{
    lemma_mul_inequality(b, SCALE as int, a);
    assert(b * a == a * b) by (nonlinear_arith);
    assert(SCALE as int * a == a * SCALE as int) by (nonlinear_arith);
    lemma_div_is_ordered(a * b, a * SCALE as int, SCALE as int);
    assert(a * SCALE as int / SCALE as int == a) by (nonlinear_arith)
        requires a >= 0;
    assert(a * b >= 0) by (nonlinear_arith)
        requires a >= 0 && b >= 0;
    lemma_div_is_ordered(0, a * b, SCALE as int);
}

/// The integer square root as a mathematical function: the largest r
/// with r * r <= n.
pub open spec fn spec_isqrt(n: nat) -> nat
    decreases n,
{
    if n == 0 {
        0
    } else {
        let r = spec_isqrt((n - 1) as nat);
        if (r + 1) * (r + 1) <= n {
            r + 1
        } else {
            r
        }
    }
}

pub proof fn lemma_spec_isqrt_bounds(n: nat)
    ensures
        spec_isqrt(n) * spec_isqrt(n) <= n,
        (spec_isqrt(n) + 1) * (spec_isqrt(n) + 1) > n,
    decreases n,
{
    let s = spec_isqrt(n);
    if n > 0 {
        lemma_spec_isqrt_bounds((n - 1) as nat);
        let p = spec_isqrt((n - 1) as nat);
        if (p + 1) * (p + 1) <= n {
            assert(s == p + 1);
            assert(s * s <= n) by (nonlinear_arith)
                requires s == p + 1 && (p + 1) * (p + 1) <= n;
            assert((s + 1) * (s + 1) > n) by (nonlinear_arith)
                requires s == p + 1 && p >= 0 && (p + 1) * (p + 1) > n - 1;
        } else {
            assert(s == p);
            assert(s * s <= n) by (nonlinear_arith)
                requires s == p && p * p <= n - 1;
            assert((s + 1) * (s + 1) > n) by (nonlinear_arith)
                requires s == p && (p + 1) * (p + 1) > n;
        }
    } else {
        assert(s == 0);
        assert((s + 1) * (s + 1) > n) by (nonlinear_arith)
            requires s == 0 && n == 0;
    }
}

/// The two-sided bound pins the integer square root down.
pub proof fn lemma_isqrt_unique(n: nat, r: nat)
    requires
        r * r <= n,
        (r + 1) * (r + 1) > n,
    ensures
        r == spec_isqrt(n),
{
    let s = spec_isqrt(n);
    lemma_spec_isqrt_bounds(n);
    if r < s {
        assert((r + 1) * (r + 1) <= s * s) by (nonlinear_arith)
            requires r + 1 <= s;
    }
    if s < r {
        assert((s + 1) * (s + 1) <= r * r) by (nonlinear_arith)
            requires s + 1 <= r;
    }
}


/// An upper bound on the radicand gives an upper bound on the root.
pub proof fn lemma_isqrt_le(n: nat, m: nat)
    requires
        n <= m * m,
    ensures
        spec_isqrt(n) <= m,
{
    lemma_spec_isqrt_bounds(n);
    let s = spec_isqrt(n);
    if s > m {
        assert((m + 1) * (m + 1) <= s * s) by (nonlinear_arith)
            requires m + 1 <= s;
        assert(m * m < (m + 1) * (m + 1)) by (nonlinear_arith)
            requires m >= 0;
    }
}


/// The integer square root is monotone.
pub proof fn lemma_isqrt_mono(n1: nat, n2: nat)
    requires
        n1 <= n2,
    ensures
        spec_isqrt(n1) <= spec_isqrt(n2),
{
    lemma_spec_isqrt_bounds(n1);
    lemma_spec_isqrt_bounds(n2);
    let r1 = spec_isqrt(n1);
    let r2 = spec_isqrt(n2);
    if r1 > r2 {
        assert((r2 + 1) * (r2 + 1) <= r1 * r1) by (nonlinear_arith)
            requires r2 + 1 <= r1;
    }
}

/// At least one fixed-point factor keeps the power at or below the
/// base.
pub proof fn lemma_pow_fx_le_base(b: int, e: nat)
    requires
        0 <= b <= SCALE,
        1 <= e,
    ensures
        spec_pow_fx(b, e) <= b,
    decreases e,
{
    if e == 1 {
        lemma_pow_fx_bounded(b, 0);
        lemma_mul_fx_le(b, b);
        assert(spec_pow_fx(b, 1) == SCALE as int * b / SCALE as int);
        assert(SCALE as int * b == b * SCALE as int) by (nonlinear_arith);
        assert(b * SCALE as int / SCALE as int == b) by (nonlinear_arith)
            requires b >= 0;
    } else {
        lemma_pow_fx_le_base(b, (e - 1) as nat);
        lemma_pow_fx_bounded(b, (e - 1) as nat);
        lemma_mul_fx_le(spec_pow_fx(b, (e - 1) as nat), b);
    }
}

/// The fixed-point one is a fixed point of every power.
pub proof fn lemma_pow_fx_of_scale(e: nat)
    ensures
        spec_pow_fx(SCALE as int, e) == SCALE,
    decreases e,
{
    if e > 0 {
        lemma_pow_fx_of_scale((e - 1) as nat);
        assert(SCALE as int * SCALE as int / SCALE as int == SCALE as int)
            by (nonlinear_arith);
    }
}

} // verus!
