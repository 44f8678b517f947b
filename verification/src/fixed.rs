//! Fixed-point scalar arithmetic.
//!
//! A real number `x` is represented by the `i64` value `x * SCALE`,
//! truncated toward zero, with `SCALE = 2^16`. The helpers here are the
//! scalar kernel of the renderer: scaled multiplication and division,
//! a square root, and a clamp, each with an exact contract over the
//! corresponding spec function.

use vstd::prelude::*;

verus! {

use vstd::arithmetic::div_mod::lemma_div_is_ordered;
use vstd::arithmetic::div_mod::lemma_div_pos_is_pos;
use vstd::arithmetic::div_mod::lemma_div_nonincreasing;
use vstd::arithmetic::div_mod::lemma_div_multiples_vanish;
use vstd::arithmetic::mul::lemma_mul_inequality;

/// Fixed-point steps per whole unit: values are reals scaled by 2^16.
pub const SCALE: i64 = 65536;

/// The fixed-point representation of one half.
pub const HALF: i64 = 32768;

/// Truncating (round-toward-zero) division, the behavior of Rust's `/`
/// on signed integers, defined for any nonzero divisor.
pub open spec fn tdiv(n: int, d: int) -> int {
    if n >= 0 {
        n / d
    } else {
        -((-n) / d)
    }
}

/// Fixed-point product: the scaled representation of the real product.
pub open spec fn spec_fmul(a: int, b: int) -> int {
    tdiv(a * b, SCALE as int)
}

/// Fixed-point quotient: the scaled representation of the real quotient.
pub open spec fn spec_fdiv(a: int, b: int) -> int {
    tdiv(a * (SCALE as int), b)
}

/// Largest `r` with `r * r <= x`.
pub open spec fn sqrt_floor(x: nat) -> nat
    decreases x,
{
    if x == 0 {
        0
    } else {
        let r = sqrt_floor((x - 1) as nat);
        if (r + 1) * (r + 1) <= x {
            r + 1
        } else {
            r
        }
    }
}

/// Fixed-point square root of a nonnegative fixed-point value.
pub open spec fn spec_fsqrt(x: int) -> int {
    sqrt_floor((x * (SCALE as int)) as nat) as int
}

pub proof fn lemma_sqrt_floor_bounds(x: nat)
    ensures
        sqrt_floor(x) * sqrt_floor(x) <= x,
        x < (sqrt_floor(x) + 1) * (sqrt_floor(x) + 1),
    decreases x,
{
    if x == 0 {
        assert(sqrt_floor(0) == 0);
        assert(sqrt_floor(x) * sqrt_floor(x) <= x);
        assert(x < (sqrt_floor(x) + 1) * (sqrt_floor(x) + 1)) by (nonlinear_arith)
            requires x == 0 && sqrt_floor(x) == 0;
    } else {
        let r = sqrt_floor((x - 1) as nat);
        lemma_sqrt_floor_bounds((x - 1) as nat);
        assert(r * r <= x - 1);
        assert(x - 1 < (r + 1) * (r + 1));
        if (r + 1) * (r + 1) <= x {
            assert(sqrt_floor(x) == r + 1);
            assert(x <= (r + 1) * (r + 1));
            assert((r + 2) * (r + 2) > (r + 1) * (r + 1)) by (nonlinear_arith);
            assert(sqrt_floor(x) * sqrt_floor(x) <= x);
            assert(x < (sqrt_floor(x) + 1) * (sqrt_floor(x) + 1));
        } else {
            assert(sqrt_floor(x) == r);
            assert(sqrt_floor(x) * sqrt_floor(x) <= x);
            assert(x < (sqrt_floor(x) + 1) * (sqrt_floor(x) + 1));
        }
    }
}

pub proof fn lemma_sqrt_floor_unique(x: nat, r: nat)
    requires
        r * r <= x,
        x < (r + 1) * (r + 1),
    ensures
        r == sqrt_floor(x),
{
    let s = sqrt_floor(x);
    lemma_sqrt_floor_bounds(x);
    if r < s {
        assert((r + 1) * (r + 1) <= s * s) by (nonlinear_arith)
            requires r + 1 <= s;
    }
    if s < r {
        assert((s + 1) * (s + 1) <= r * r) by (nonlinear_arith)
            requires s + 1 <= r;
    }
}

/// Truncating division by a positive divisor never grows the magnitude
/// and keeps the sign of the numerator.
pub proof fn lemma_tdiv_bounds(n: int, d: int)
    requires
        d >= 1,
    ensures
        n >= 0 ==> 0 <= tdiv(n, d) <= n,
        n < 0 ==> n <= tdiv(n, d) <= 0,
{
    if n >= 0 {
        lemma_div_pos_is_pos(n, d);
        lemma_div_nonincreasing(n, d);
    } else {
        lemma_div_pos_is_pos(-n, d);
        lemma_div_nonincreasing(-n, d);
    }
}

/// Truncating division by a positive divisor is monotone in the numerator.
pub proof fn lemma_tdiv_mono(n1: int, n2: int, d: int)
    requires
        d >= 1,
        n1 <= n2,
    ensures
        tdiv(n1, d) <= tdiv(n2, d),
{
    if n1 >= 0 {
        lemma_div_is_ordered(n1, n2, d);
    } else if n2 < 0 {
        lemma_div_is_ordered(-n2, -n1, d);
    } else {
        lemma_tdiv_bounds(n1, d);
        lemma_tdiv_bounds(n2, d);
    }
}

/// A magnitude bound on both factors gives a magnitude bound on the product.
pub proof fn lemma_abs_mul_le(a: int, b: int, bound_a: int, bound_b: int)
    requires
        -bound_a <= a <= bound_a,
        -bound_b <= b <= bound_b,
    ensures
        -(bound_a * bound_b) <= a * b <= bound_a * bound_b,
{
    assert(-(bound_a * bound_b) <= a * b <= bound_a * bound_b) by (nonlinear_arith)
        requires
            -bound_a <= a <= bound_a,
            -bound_b <= b <= bound_b;
}

/// A magnitude bound on both factors bounds the fixed-point product.
pub proof fn lemma_fmul_bound(a: int, b: int, bound_a: int, bound_b: int)
    requires
        -bound_a <= a <= bound_a,
        -bound_b <= b <= bound_b,
    ensures
        -tdiv(bound_a * bound_b, SCALE as int) <= spec_fmul(a, b) <= tdiv(bound_a * bound_b, SCALE as int),
{
    lemma_abs_mul_le(a, b, bound_a, bound_b);
    lemma_tdiv_mono(a * b, bound_a * bound_b, SCALE as int);
    lemma_tdiv_mono(-(bound_a * bound_b), a * b, SCALE as int);
    assert(tdiv(-(bound_a * bound_b), SCALE as int) == -tdiv(bound_a * bound_b, SCALE as int));
    lemma_tdiv_bounds(bound_a * bound_b, SCALE as int);
}

/// Scaling a nonnegative value by a factor in `[0, 1]` cannot grow it:
/// the fixed-point form of "attenuation never creates energy".
pub proof fn lemma_fmul_attenuates(a: int, c: int)
    requires
        0 <= a <= SCALE as int,
        0 <= c,
    ensures
        0 <= spec_fmul(a, c) <= c,
{
    lemma_mul_inequality(a, SCALE as int, c);
    lemma_div_is_ordered(a * c, (SCALE as int) * c, SCALE as int);
    lemma_div_multiples_vanish(c, SCALE as int);
    lemma_div_pos_is_pos(a * c, SCALE as int);
    assert(a * c >= 0) by (nonlinear_arith)
        requires a >= 0 && c >= 0;
}

/// Scaling by a fixed nonnegative factor is monotone.
pub proof fn lemma_fmul_mono(a: int, c1: int, c2: int)
    requires
        a >= 0,
        c1 <= c2,
    ensures
        spec_fmul(a, c1) <= spec_fmul(a, c2),
{
    assert(a * c1 <= a * c2) by (nonlinear_arith)
        requires a >= 0 && c1 <= c2;
    lemma_tdiv_mono(a * c1, a * c2, SCALE as int);
}

/// Multiplying and then truncating-dividing by the same positive value
/// is the identity.
pub proof fn lemma_tdiv_cancel(x: int, d: int)
    requires
        d >= 1,
    ensures
        tdiv(x * d, d) == x,
{
    if x >= 0 {
        lemma_div_multiples_vanish(x, d);
        assert(x * d >= 0) by (nonlinear_arith)
            requires x >= 0 && d >= 1;
        assert(x * d == d * x) by (nonlinear_arith);
    } else {
        lemma_div_multiples_vanish(-x, d);
        assert(x * d < 0) by (nonlinear_arith)
            requires x < 0 && d >= 1;
        assert(-(x * d) == d * (-x)) by (nonlinear_arith);
    }
}

/// Rust's truncating division exceeds the flooring division `/` by at
/// most one; they agree for nonnegative numerators.
pub proof fn lemma_tdiv_vs_floor(n: int, d: int)
    requires
        d >= 1,
    ensures
        n / d <= tdiv(n, d) <= n / d + 1,
{
    if n >= 0 {
    } else {
        let q = (-n) / d;
        let r = (-n) % d;
        vstd::arithmetic::div_mod::lemma_fundamental_div_mod(-n, d);
        vstd::arithmetic::div_mod::lemma_mod_division_less_than_divisor(-n, d);
        if r == 0 {
            assert(n == (-q) * d + 0) by (nonlinear_arith)
                requires -n == d * q + 0;
            vstd::arithmetic::div_mod::lemma_fundamental_div_mod_converse(n, d, -q, 0);
        } else {
            assert(n == (-q - 1) * d + (d - r)) by (nonlinear_arith)
                requires -n == d * q + r;
            vstd::arithmetic::div_mod::lemma_fundamental_div_mod_converse(n, d, -q - 1, d - r);
        }
    }
}

/// Flooring division is superadditive.
proof fn lemma_floor_superadd(x: int, y: int, d: int)
    requires
        d >= 1,
    ensures
        (x + y) / d >= x / d + y / d,
{
    let qx = x / d;
    let rx = x % d;
    let qy = y / d;
    let ry = y % d;
    vstd::arithmetic::div_mod::lemma_fundamental_div_mod(x, d);
    vstd::arithmetic::div_mod::lemma_fundamental_div_mod(y, d);
    vstd::arithmetic::div_mod::lemma_mod_division_less_than_divisor(x, d);
    vstd::arithmetic::div_mod::lemma_mod_division_less_than_divisor(y, d);
    if rx + ry < d {
        assert(x + y == (qx + qy) * d + (rx + ry)) by (nonlinear_arith)
            requires x == d * qx + rx && y == d * qy + ry;
        vstd::arithmetic::div_mod::lemma_fundamental_div_mod_converse(x + y, d, qx + qy, rx + ry);
    } else {
        assert(x + y == (qx + qy + 1) * d + (rx + ry - d)) by (nonlinear_arith)
            requires x == d * qx + rx && y == d * qy + ry;
        vstd::arithmetic::div_mod::lemma_fundamental_div_mod_converse(
            x + y,
            d,
            qx + qy + 1,
            rx + ry - d,
        );
    }
}

/// Truncating division distributes over addition up to two steps.
pub proof fn lemma_tdiv_superadd(x: int, y: int, d: int)
    requires
        d >= 1,
    ensures
        tdiv(x + y, d) >= tdiv(x, d) + tdiv(y, d) - 2,
{
    lemma_tdiv_vs_floor(x, d);
    lemma_tdiv_vs_floor(y, d);
    lemma_tdiv_vs_floor(x + y, d);
    lemma_floor_superadd(x, y, d);
}

/// A numerator under `(b + 1) * d` divides to at most `b`.
pub proof fn lemma_div_le(n: int, d: int, b: int)
    requires
        d >= 1,
        0 <= n,
        n < (b + 1) * d,
    ensures
        0 <= tdiv(n, d) <= b,
{
    lemma_div_pos_is_pos(n, d);
    assert(d * (b + 1) == (b + 1) * d) by (nonlinear_arith);
    vstd::arithmetic::div_mod::lemma_multiply_divide_lt(n, d, b + 1);
}

/// Fixed-point multiplication, exact with respect to `spec_fmul`.
pub fn fmul(a: i64, b: i64) -> (r: i64)
    requires
        i64::MIN <= spec_fmul(a as int, b as int) <= i64::MAX,
    ensures
        r as int == spec_fmul(a as int, b as int),
{
    let p: i128 = (a as i128) * (b as i128);
    let q: i128 = p / (SCALE as i128);
    q as i64
}

/// Fixed-point division, exact with respect to `spec_fdiv`.
pub fn fdiv(a: i64, b: i64) -> (r: i64)
    requires
        b != 0,
        i64::MIN <= spec_fdiv(a as int, b as int) <= i64::MAX,
    ensures
        r as int == spec_fdiv(a as int, b as int),
{
    let n: i128 = (a as i128) * (SCALE as i128);
    let q: i128 = n / (b as i128);
    q as i64
}

/// Fixed-point square root, exact with respect to `spec_fsqrt`.
pub fn fsqrt(x: i64) -> (r: i64)
    requires
        x >= 0,
    ensures
        r as int == spec_fsqrt(x as int),
        0 <= r < 1099511627776,
{
    let v: u128 = (x as u128) * (SCALE as u128);
    let mut lo: u64 = 0;
    let mut hi: u64 = 1099511627776;
    proof {
        lemma_mul_inequality(x as int, i64::MAX as int, SCALE as int);
        assert((v as int) <= (i64::MAX as int) * (SCALE as int));
        assert((1099511627776 as int) * (1099511627776 as int) > (v as int)) by (nonlinear_arith)
            requires (v as int) <= (i64::MAX as int) * (SCALE as int);
    }
    while lo + 1 < hi
        invariant
            lo < hi <= 1099511627776,
            (lo as int) * (lo as int) <= v as int,
            (v as int) < (hi as int) * (hi as int),
        decreases hi - lo,
    {
        let mid: u64 = lo + (hi - lo) / 2;
        proof {
            assert((mid as int) * (mid as int) <= (1099511627776 as int) * (1099511627776 as int))
                by (nonlinear_arith)
                requires 0 <= (mid as int) <= 1099511627776;
        }
        let sq: u128 = (mid as u128) * (mid as u128);
        if sq <= v {
            lo = mid;
        } else {
            hi = mid;
        }
    }
    proof {
        assert((lo as int) + 1 == hi as int);
        lemma_sqrt_floor_unique(v as nat, lo as nat);
    }
    lo as i64
}

/// Clamp a value into `[lo, hi]`.
pub fn clamp(x: i64, lo: i64, hi: i64) -> (r: i64)
    requires
        lo <= hi,
    ensures
        r == spec_clamp(x as int, lo as int, hi as int),
{
    if x < lo {
        lo
    } else if x > hi {
        hi
    } else {
        x
    }
}

pub open spec fn spec_clamp(x: int, lo: int, hi: int) -> int {
    if x < lo {
        lo
    } else if x > hi {
        hi
    } else {
        x
    }
}

} // verus!
