//! Fixed-point arithmetic for the kernel.
//!
//! Every physical quantity (position, velocity, size, force) is a signed
//! integer counting 1/`SCALE`-ths of a world unit. Results of arithmetic are
//! clipped into `[-LIM, LIM]`, which makes every operation total and
//! overflow-free; `LIM` is far beyond any physically meaningful magnitude.
use vstd::prelude::*;

verus! {

/// Sub-units per world unit.
pub const SCALE: i64 = 1000;

/// Saturation bound of every stored quantity.
pub const LIM: i64 = 0x10_0000_0000_0000;

/// Clip an unbounded value into the representable range.
pub open spec fn sat(v: int) -> int {
    if v > LIM { LIM as int } else if v < -LIM { -(LIM as int) } else { v }
}

/// Truncating (round-toward-zero) division; the kernel only divides by
/// positive divisors.
pub open spec fn tdiv(a: int, b: int) -> int {
    if a >= 0 { a / b } else { -((-a) / b) }
}

/// Fixed-point product, clipped.
pub open spec fn fmul(a: int, b: int) -> int {
    sat(tdiv(a * b, SCALE as int))
}

/// Fixed-point quotient, clipped.
pub open spec fn fdiv(a: int, b: int) -> int {
    sat(tdiv(a * (SCALE as int), b))
}

/// The square root rounded down, as the unique integer whose square brackets `n`.
pub open spec fn spec_isqrt(n: int) -> int {
    choose|r: int| 0 <= r && #[trigger] (r * r) <= n && n < (r + 1) * (r + 1)
}

pub proof fn lemma_mul_bound(a: int, b: int, ca: int, cb: int)
    by (nonlinear_arith)
    requires
        -ca <= a <= ca,
        -cb <= b <= cb,
        0 <= ca,
        0 <= cb,
    ensures
        -(ca * cb) <= a * b <= ca * cb,
{
}

pub proof fn lemma_tdiv_bound(a: int, b: int, c: int)
    by (nonlinear_arith)
    requires
        b > 0,
        -c <= a <= c,
        0 <= c,
    ensures
        -c <= tdiv(a, b) <= c,
        a >= 0 ==> 0 <= tdiv(a, b) <= a,
        a <= 0 ==> a <= tdiv(a, b) <= 0,
{
}

pub proof fn lemma_tdiv_shrink(a: int, b: int, c: int)
    by (nonlinear_arith)
    requires
        b > 0,
        0 <= c,
        -(c * b) <= a <= c * b,
    ensures
        -c <= tdiv(a, b) <= c,
{
}

/// Scaling by a unit fraction `u/SCALE` with `0 <= u < SCALE` stays between
/// zero and the scaled quantity.
pub proof fn lemma_unit_scale(u: int, d: int)
    by (nonlinear_arith)
    requires
        0 <= u < SCALE,
    ensures
        d >= 0 ==> 0 <= tdiv(u * d, SCALE as int) <= d,
        d < 0 ==> d <= tdiv(u * d, SCALE as int) <= 0,
{
}

/// Dividing an exact multiple is exact.
pub proof fn lemma_tdiv_exact(a: int, d: int)
    by (nonlinear_arith)
    requires
        d > 0,
    ensures
        tdiv(a * d, d) == a,
{
}

/// A common positive factor of numerator and divisor cancels.
pub proof fn lemma_tdiv_cancel(a: int, b: int, k: int)
    by (nonlinear_arith)
    requires
        b > 0,
        k > 0,
    ensures
        tdiv(a * k, b * k) == tdiv(a, b),
{
}

pub proof fn lemma_isqrt_is(n: int, r: int)
    requires
        0 <= r,
        r * r <= n,
        n < (r + 1) * (r + 1),
    ensures
        spec_isqrt(n) == r,
{
    let picked = spec_isqrt(n);
    assert(0 <= picked && picked * picked <= n && n < (picked + 1) * (picked + 1)) by {
        assert(0 <= r && r * r <= n && n < (r + 1) * (r + 1));
    }
    assert(picked == r) by (nonlinear_arith)
        requires
            0 <= r,
            r * r <= n,
            n < (r + 1) * (r + 1),
            0 <= picked,
            picked * picked <= n,
            n < (picked + 1) * (picked + 1),
    ;
}

/// Clip a wide intermediate into the representable range.
pub(crate) fn clip(v: i128) -> (r: i64)
    ensures
        r as int == sat(v as int),
{
    if v > LIM as i128 {
        LIM
    } else if v < -(LIM as i128) {
        -LIM
    } else {
        v as i64
    }
}

/// Truncating division on wide intermediates.
pub(crate) fn div_trunc(a: i128, b: i128) -> (r: i128)
    requires
        b > 0,
        a > i128::MIN,
    ensures
        r as int == tdiv(a as int, b as int),
{
    if a >= 0 {
        let q: u128 = (a as u128) / (b as u128);
        proof {
            assert(q <= a) by (nonlinear_arith)
                requires
                    a >= 0,
                    b > 0,
                    q == (a as u128) / (b as u128),
            ;
        }
        q as i128
    } else {
        let m: u128 = ((-a) as u128) / (b as u128);
        proof {
            assert(m <= -a) by (nonlinear_arith)
                requires
                    a < 0,
                    b > 0,
                    m == ((-a) as u128) / (b as u128),
            ;
        }
        -(m as i128)
    }
}

/// Clipped sum.
pub fn fp_add(a: i64, b: i64) -> (r: i64)
    ensures
        r as int == sat(a + b),
{
    clip(a as i128 + b as i128)
}

/// Clipped fixed-point product.
pub fn fp_mul(a: i64, b: i64) -> (r: i64)
    requires
        -LIM <= a <= LIM,
        -LIM <= b <= LIM,
    ensures
        r as int == fmul(a as int, b as int),
{
    proof {
        lemma_mul_bound(a as int, b as int, LIM as int, LIM as int);
    }
    let p: i128 = (a as i128) * (b as i128);
    clip(div_trunc(p, SCALE as i128))
}

/// Clipped fixed-point quotient; the divisor must be positive.
pub fn fp_div(a: i64, b: i64) -> (r: i64)
    requires
        -LIM <= a <= LIM,
        0 < b,
    ensures
        r as int == fdiv(a as int, b as int),
{
    proof {
        lemma_mul_bound(a as int, SCALE as int, LIM as int, SCALE as int);
    }
    let p: i128 = (a as i128) * (SCALE as i128);
    clip(div_trunc(p, b as i128))
}

/// Integer square root of a wide intermediate.
pub fn isqrt(n: u128) -> (r: u128)
    requires
        n < (1u128 << 110),
    ensures
        r * r <= n < (r + 1) * (r + 1),
        r as int == spec_isqrt(n as int),
        r < 1u128 << 55,
{
    let mut lo: u128 = 0;
    let mut hi: u128 = 1u128 << 55;
    proof {
        assert((1u128 << 55) * (1u128 << 55) == (1u128 << 110)) by (bit_vector);
        assert(1u128 << 55 > 0) by (bit_vector);
    }
    while lo + 1 < hi
        invariant
            0 <= lo < hi,
            hi <= 1u128 << 55,
            lo * lo <= n,
            n < hi * hi,
        decreases hi - lo,
    {
        let mid: u128 = lo + (hi - lo) / 2;
        proof {
            assert(lo < mid < hi);
            assert(mid * mid < (1u128 << 110)) by (nonlinear_arith)
                requires
                    mid < hi,
                    hi <= 1u128 << 55,
                    (1u128 << 55) * (1u128 << 55) == (1u128 << 110),
            ;
        }
        if mid * mid <= n {
            lo = mid;
        } else {
            hi = mid;
        }
    }
    proof {
        assert(hi == lo + 1);
        lemma_isqrt_is(n as int, lo as int);
    }
    lo
}

} // verus!
