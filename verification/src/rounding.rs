//! Rounding to the nearest binary64 number.
//!
//! Every finite binary64 number that is not negative is a whole number of *units* of two to the
//! power of -1074, the smallest positive one. Here such a number is its count of units, so the
//! exact result of an operation is a ratio of two natural numbers, and rounding turns a ratio
//! into a count of units.

use vstd::arithmetic::div_mod::*;
use vstd::arithmetic::mul::*;
use vstd::arithmetic::power2::*;
use vstd::prelude::*;

verus! {

/// The natural number nearest to `n / d`, the even one of two that are equally near.
pub open spec fn nearest(n: nat, d: nat) -> nat {
    let floor = n / d;
    let twice_rest = 2 * (n % d);
    if twice_rest < d || (twice_rest == d && floor % 2 == 0) {
        floor
    } else {
        floor + 1
    }
}

/// The exponent of the spacing between binary64 numbers at `q` units: a significand has 53 bits,
/// so from `pow2(53)` units on, only every second, fourth, ... count of units is a number.
pub open spec fn spacing(q: nat) -> nat
    decreases q,
{
    if q < 0x20_0000_0000_0000 {
        0
    } else {
        1 + spacing(q / 2)
    }
}

/// The units of the binary64 number nearest to `n / d` units, ties going to the even
/// significand, with no upper limit on the exponent.
pub open spec fn rounded(n: nat, d: nat) -> nat {
    let step = pow2(spacing(n / d));
    nearest(n, d * step) * step
}

/// The first powers of two that the significand's width brings in.
pub proof fn lemma_width()
    ensures
        pow2(0) == 1,
        pow2(52) == 0x10_0000_0000_0000,
        pow2(53) == 0x20_0000_0000_0000,
{
    lemma2_to64();
    lemma2_to64_rest();
}

/// Splits a division: `n` is `q` times `d` plus `r` exactly if `q` and `r` are its quotient and
/// remainder.
pub proof fn lemma_quotient(n: nat, d: nat, q: nat, r: nat)
    requires
        d > 0,
        n == q * d + r,
        r < d,
    ensures
        n / d == q,
        n % d == r,
{
    lemma_fundamental_div_mod_converse(n as int, d as int, q as int, r as int);
}

/// Multiplying both sides of a ratio by the same number keeps what is nearest to it.
pub proof fn lemma_nearest_scales(n: nat, d: nat, c: nat)
    requires
        d > 0,
        c > 0,
    ensures
        d * c > 0,
        (n * c) / (d * c) == n / d,
        nearest(n * c, d * c) == nearest(n, d),
{
    let q = n / d;
    let r = n % d;
    lemma_fundamental_div_mod(n as int, d as int);
    assert(n == q * d + r) by (nonlinear_arith)
        requires
            n == d * q + r,
    ;
    assert(n * c == q * (d * c) + r * c) by (nonlinear_arith)
        requires
            n == q * d + r,
    ;
    assert(r * c < d * c && d * c > 0) by (nonlinear_arith)
        requires
            r < d,
            c > 0,
    ;
    lemma_quotient(n * c, d * c, q, r * c);
    assert(2 * (r * c) == (2 * r) * c) by (nonlinear_arith);
    if 2 * r < d {
        lemma_mul_strict_inequality(2 * r as int, d as int, c as int);
    } else if 2 * r > d {
        lemma_mul_strict_inequality(d as int, 2 * r as int, c as int);
    }
}

/// Multiplying both sides of a ratio by the same number keeps what it rounds to.
pub proof fn lemma_rounded_scales(n: nat, d: nat, c: nat)
    requires
        d > 0,
        c > 0,
    ensures
        rounded(n * c, d * c) == rounded(n, d),
{
    lemma_nearest_scales(n, d, c);
    let step = pow2(spacing(n / d));
    lemma_pow2_pos(spacing(n / d));
    assert(d * step > 0) by (nonlinear_arith)
        requires
            d > 0,
            step > 0,
    ;
    lemma_nearest_scales(n, d * step, c);
    assert((d * step) * c == (d * c) * step) by (nonlinear_arith);
}

/// A count of units between two consecutive powers of two has the spacing that belongs there.
pub proof fn lemma_spacing(q: nat, e: nat)
    requires
        q < pow2(53 + e),
        e > 0 ==> pow2(52 + e) <= q,
    ensures
        spacing(q) == e,
    decreases e,
{
    lemma_width();
    if e > 0 {
        lemma_pow2_unfold(53 + e);
        lemma_pow2_unfold(52 + e);
        if e > 1 {
            lemma_pow2_strictly_increases(53, 52 + e);
        }
        lemma_spacing(q / 2, (e - 1) as nat);
    }
}

/// Where the spacing is found: at or above `pow2(52 + e)` units if it is `e > 0`, and always
/// below `pow2(53 + e)`.
pub proof fn lemma_spacing_bounds(q: nat)
    ensures
        q < pow2(53 + spacing(q)),
        spacing(q) > 0 ==> pow2(52 + spacing(q)) <= q,
    decreases q,
{
    lemma_width();
    if q >= 0x20_0000_0000_0000 {
        lemma_spacing_bounds(q / 2);
        let e = spacing(q / 2);
        lemma_pow2_unfold(53 + spacing(q));
        lemma_pow2_unfold(52 + spacing(q));
    }
}

/// What `n / d` times `pow2(e)` units rounds to, if `n / d` needs no more than 53 bits before
/// the point, and fewer only without an exponent.
pub proof fn lemma_rounded_normal(n: nat, d: nat, e: nat)
    requires
        d > 0,
        n / d < 0x20_0000_0000_0000,
        e > 0 ==> n / d >= 0x10_0000_0000_0000,
    ensures
        rounded(n * pow2(e), d) == nearest(n, d) * pow2(e),
        nearest(n, d) <= 0x20_0000_0000_0000,
        e > 0 ==> nearest(n, d) >= 0x10_0000_0000_0000,
{
    lemma_width();
    let p = pow2(e);
    lemma_pow2_pos(e);
    lemma_pow2_adds(52, e);
    lemma_pow2_adds(53, e);
    lemma_fundamental_div_mod(n as int, d as int);
    let q = n / d;
    let r = n % d;
    let big = (n * p) / d;
    lemma_fundamental_div_mod((n * p) as int, d as int);
    // q * p <= big < (q + 1) * p
    assert(big >= q * p) by {
        assert(n * p >= (q * p) * d) by (nonlinear_arith)
            requires
                n == d * q + r,
                p > 0,
        ;
        lemma_div_is_ordered(((q * p) * d) as int, (n * p) as int, d as int);
        lemma_div_by_multiple((q * p) as int, d as int);
    }
    assert(big < (q + 1) * p) by {
        assert(n * p < d * ((q + 1) * p)) by (nonlinear_arith)
            requires
                n == d * q + r,
                r < d,
                p > 0,
        ;
        lemma_multiply_divide_lt((n * p) as int, d as int, ((q + 1) * p) as int);
    }
    assert((q + 1) * p <= pow2(53) * p) by (nonlinear_arith)
        requires
            q + 1 <= pow2(53),
    ;
    if e > 0 {
        assert(q * p >= pow2(52) * p) by (nonlinear_arith)
            requires
                q >= pow2(52),
        ;
    }
    lemma_spacing(big, e);
    lemma_nearest_scales(n, d, p);
}

/// A ratio below one half rounds to nothing.
pub proof fn lemma_rounded_tiny(n: nat, d: nat)
    requires
        2 * n < d,
    ensures
        rounded(n, d) == 0,
{
    assert(n == 0 * d + n) by (nonlinear_arith);
    lemma_quotient(n, d, 0, n);
    lemma_width();
    let step = pow2(spacing(n / d));
    assert(step == 1);
    assert(d * step == d) by (nonlinear_arith)
        requires
            step == 1,
    ;
}

/// A larger number has no smaller number nearest to it.
proof fn lemma_nearest_monotone(n1: nat, n2: nat, d: nat)
    requires
        d > 0,
        n1 <= n2,
    ensures
        nearest(n1, d) <= nearest(n2, d),
{
    lemma_div_is_ordered(n1 as int, n2 as int, d as int);
    lemma_fundamental_div_mod(n1 as int, d as int);
    lemma_fundamental_div_mod(n2 as int, d as int);
}

/// Rounding keeps to the numbers between the powers of two that its spacing goes with.
pub proof fn lemma_rounded_range(n: nat, d: nat)
    requires
        d > 0,
    ensures
        rounded(n, d) <= pow2(53 + spacing(n / d)),
        spacing(n / d) > 0 ==> rounded(n, d) >= pow2(52 + spacing(n / d)),
{
    let q = n / d;
    let e = spacing(q);
    let step = pow2(e);
    lemma_width();
    lemma_spacing_bounds(q);
    lemma_pow2_pos(e);
    lemma_pow2_adds(53, e);
    lemma_pow2_adds(52, e);
    lemma_div_denominator(n as int, d as int, step as int);
    let c = nearest(n, d * step);
    lemma_multiply_divide_lt(q as int, step as int, pow2(53) as int);
    assert(c <= pow2(53));
    assert(c * step <= pow2(53) * step) by (nonlinear_arith)
        requires
            c <= pow2(53),
    ;
    if e > 0 {
        lemma_div_is_ordered((pow2(52) * step) as int, q as int, step as int);
        lemma_div_by_multiple(pow2(52) as int, step as int);
        assert(c * step >= pow2(52) * step) by (nonlinear_arith)
            requires
                c >= pow2(52),
        ;
    }
}

/// A larger count of units has no smaller spacing.
pub proof fn lemma_spacing_monotone(q1: nat, q2: nat)
    requires
        q1 <= q2,
    ensures
        spacing(q1) <= spacing(q2),
    decreases q1,
{
    if q1 >= 0x20_0000_0000_0000 {
        lemma_spacing_monotone(q1 / 2, q2 / 2);
    }
}

/// Rounding keeps the order: if `n1 / d1` is at most `n2 / d2`, so are the numbers that they
/// round to.
pub proof fn rounding_is_monotone(n1: nat, d1: nat, n2: nat, d2: nat)
    requires
        d1 > 0,
        d2 > 0,
        n1 * d2 <= n2 * d1,
    ensures
        rounded(n1, d1) <= rounded(n2, d2),
{
    lemma_rounded_scales(n1, d1, d2);
    lemma_rounded_scales(n2, d2, d1);
    let d = d1 * d2;
    lemma_mul_is_commutative(d1 as int, d2 as int);
    lemma_mul_strictly_positive(d1 as int, d2 as int);
    let (m1, m2) = (n1 * d2, n2 * d1);
    let (q1, q2) = (m1 / d, m2 / d);
    lemma_div_is_ordered(m1 as int, m2 as int, d as int);
    lemma_spacing_monotone(q1, q2);
    let (e1, e2) = (spacing(q1), spacing(q2));
    if e1 == e2 {
        let step = pow2(e1);
        lemma_pow2_pos(e1);
        lemma_mul_strictly_positive(d as int, step as int);
        lemma_nearest_monotone(m1, m2, d * step);
        lemma_mul_inequality(
            nearest(m1, d * step) as int,
            nearest(m2, d * step) as int,
            step as int,
        );
    } else {
        lemma_rounded_range(m1, d);
        lemma_rounded_range(m2, d);
        if 53 + e1 < 52 + e2 {
            lemma_pow2_strictly_increases(53 + e1, 52 + e2);
        }
    }
}

/// A number that is represented rounds to itself.
pub proof fn rounding_is_exact(significand: nat, exponent: nat, d: nat)
    requires
        d > 0,
        significand < 0x20_0000_0000_0000,
    ensures
        rounded((significand * pow2(exponent)) * d, d) == significand * pow2(exponent),
{
    let x = significand * pow2(exponent);
    lemma_width();
    lemma_pow2_pos(exponent);
    lemma_div_by_multiple(x as int, d as int);
    let e = spacing(x);
    lemma_spacing_bounds(x);
    lemma_pow2_adds(53, exponent);
    assert(x < pow2(53 + exponent)) by {
        lemma_mul_strict_inequality(significand as int, pow2(53) as int, pow2(exponent) as int);
    }
    if e > exponent {
        if 53 + exponent < 52 + e {
            lemma_pow2_strictly_increases(53 + exponent, 52 + e);
        }
    }
    let rest = (exponent - e) as nat;
    lemma_pow2_adds(rest, e);
    let c = significand * pow2(rest);
    lemma_mul_is_associative(significand as int, pow2(rest) as int, pow2(e) as int);
    let step = pow2(e);
    lemma_pow2_pos(e);
    lemma_mul_strictly_positive(d as int, step as int);
    assert(x * d == c * (d * step) + 0) by (nonlinear_arith)
        requires
            x == c * step,
    ;
    lemma_quotient(x * d, d * step, c, 0);
}

/// Rounding gives a number that is nearest: it is off by at most half the spacing.
pub proof fn rounding_is_nearest(n: nat, d: nat)
    requires
        d > 0,
    ensures
        ({
            let off = rounded(n, d) * d - n;
            -(d * pow2(spacing(n / d))) <= 2 * off <= d * pow2(spacing(n / d))
        }),
{
    let step = pow2(spacing(n / d));
    lemma_pow2_pos(spacing(n / d));
    let wide = d * step;
    lemma_mul_strictly_positive(d as int, step as int);
    lemma_fundamental_div_mod(n as int, wide as int);
    let floor = n / wide;
    let rest = n % wide;
    let c = nearest(n, wide);
    assert((c * step) * d == c * wide) by (nonlinear_arith)
        requires
            wide == d * step,
    ;
    assert((floor + 1) * wide == floor * wide + wide) by (nonlinear_arith);
    lemma_mul_is_commutative(floor as int, wide as int);
}

/// What has been rounded rounds to itself.
pub proof fn rounding_is_idempotent(n: nat, d: nat)
    requires
        d > 0,
    ensures
        rounded(rounded(n, d), 1) == rounded(n, d),
{
    let e = spacing(n / d);
    let step = pow2(e);
    let c = nearest(n, d * step);
    lemma_width();
    lemma_pow2_pos(e);
    lemma_pow2_adds(53, e);
    lemma_rounded_range(n, d);
    assert(c <= pow2(53)) by (nonlinear_arith)
        requires
            c * step <= pow2(53) * step,
            step > 0,
    ;
    if c < pow2(53) {
        rounding_is_exact(c, e, 1);
    } else {
        rounding_is_exact(1, 53 + e, 1);
    }
}

/// Less than half a step more than a rounded number rounds back to it.
pub proof fn lemma_rounded_absorbs(n: nat, more: nat)
    requires
        spacing(n) > 0,
        2 * more < pow2(spacing(n)),
    ensures
        rounded(rounded(n, 1) + more, 1) == rounded(n, 1),
{
    let e = spacing(n);
    let step = pow2(e);
    let c = nearest(n, 1 * step);
    let x = rounded(n, 1);
    assert(n / 1 == n);
    lemma_width();
    lemma_pow2_pos(e);
    lemma_pow2_adds(53, e);
    lemma_pow2_adds(52, e);
    lemma_rounded_range(n, 1);
    let sum = x + more;
    assert(sum / 1 == sum);
    if c < pow2(53) {
        assert(c * step + step <= pow2(53) * step) by (nonlinear_arith)
            requires
                c + 1 <= pow2(53),
                step > 0,
        ;
        lemma_spacing(sum, e);
        lemma_quotient(sum, 1 * step, c, more);
    } else {
        assert(c == pow2(53)) by (nonlinear_arith)
            requires
                c * step <= pow2(53) * step,
                c >= pow2(53),
                step > 0,
        ;
        lemma_pow2_unfold(54 + e);
        lemma_pow2_unfold(e + 1);
        lemma_spacing(sum, e + 1);
        let wide = pow2(e + 1);
        assert(sum == pow2(52) * (1 * wide) + more) by (nonlinear_arith)
            requires
                sum == pow2(53) * step + more,
                wide == 2 * step,
                pow2(53) == 2 * pow2(52),
        ;
        lemma_quotient(sum, 1 * wide, pow2(52), more);
        assert(pow2(52) * wide == pow2(53) * step) by (nonlinear_arith)
            requires
                wide == 2 * step,
                pow2(53) == 2 * pow2(52),
        ;
    }
}

/// What is nearest to a ratio is off by at most one half, and is even if it is off by that.
pub proof fn nearest_is_off_by_half_at_most(n: nat, d: nat)
    requires
        d > 0,
    ensures
        ({
            let off = nearest(n, d) * d - n;
            &&& -d <= 2 * off <= d
            &&& 2 * off == d || 2 * off == -d ==> nearest(n, d) % 2 == 0
        }),
{
    lemma_fundamental_div_mod(n as int, d as int);
    let (floor, rest) = (n / d, n % d);
    assert(floor * d + rest == n && (floor + 1) * d == floor * d + d) by (nonlinear_arith)
        requires
            n == d * floor + rest,
    ;
}

} // verus!
