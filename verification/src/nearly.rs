//! Numbers that are equal but for rounding.
//!
//! A formula that takes several operations is rounded several times. What it is to compute is then
//! said up to a small relative error, whatever the order of its operations.

use vstd::arithmetic::mul::*;
use vstd::arithmetic::power2::*;
use vstd::prelude::*;

use crate::binary64::Value;

verus! {

/// Whether two natural numbers are equal to within one part in `k`.
pub open spec fn near(p: nat, q: nat, k: nat) -> bool {
    p * k <= q * (k + 1) && q * k <= p * (k + 1)
}

/// One part in this many is the error that rounding may make of a formula here.
pub open spec fn parts() -> nat {
    0x1_0000_0000
}

impl Value {
    /// Whether a value is `n / d`, but for rounding.
    pub open spec fn about(self, n: nat, d: nat) -> bool {
        match self {
            Value::Finite(units) => near(units * d, n * Value::one(), parts()),
            Value::Infinite => false,
        }
    }
}

/// Whether a value is `n / d` to within one part in `k`.
pub open spec fn near_ratio(x: Value, n: nat, d: nat, k: nat) -> bool {
    match x {
        Value::Finite(units) => near(units * d, n * Value::one(), k),
        Value::Infinite => false,
    }
}

/// Whether a value is finite and between two powers of two, in units.
pub open spec fn between(x: Value, low: nat, high: nat) -> bool {
    match x {
        Value::Finite(units) => pow2(low) <= units <= pow2(high),
        Value::Infinite => false,
    }
}

/// A tighter bound implies a looser one.
pub proof fn lemma_near_looser(p: nat, q: nat, k: nat, less: nat)
    requires
        near(p, q, k),
        0 < less <= k,
    ensures
        near(p, q, less),
{
    assert(p * less <= q * (less + 1)) by (nonlinear_arith)
        requires
            p * k <= q * (k + 1),
            0 < less <= k,
    {
        assert((p * k) * less <= (q * (k + 1)) * less);
        assert((q * (k + 1)) * less == (q * less) * k + q * less);
        assert(q * less <= q * k);
        assert((p * less) * k <= (q * (less + 1)) * k);
        assert(p * less <= q * (less + 1));
    }
    assert(q * less <= p * (less + 1)) by (nonlinear_arith)
        requires
            q * k <= p * (k + 1),
            0 < less <= k,
    {
        assert((q * k) * less <= (p * (k + 1)) * less);
        assert((p * (k + 1)) * less == (p * less) * k + p * less);
        assert(p * less <= p * k);
        assert((q * less) * k <= (p * (less + 1)) * k);
        assert(q * less <= p * (less + 1));
    }
}

/// A number is near itself.
pub proof fn lemma_near_same(p: nat, k: nat)
    ensures
        near(p, p, k),
{
    assert(p * k <= p * (k + 1)) by (nonlinear_arith);
}

/// One side of chaining two bounds.
proof fn lemma_chain_side(p: nat, q: nat, r: nat, k: nat)
    requires
        k > 0,
        p * (4 * k) <= q * (4 * k + 1),
        q * (4 * k) <= r * (4 * k + 1),
    ensures
        p * k <= r * (k + 1),
{
    assert(p * k <= r * (k + 1)) by (nonlinear_arith)
        requires
            k > 0,
            p * (4 * k) <= q * (4 * k + 1),
            q * (4 * k) <= r * (4 * k + 1),
    {
        let m = 4 * k;
        assert((p * m) * m <= (q * (m + 1)) * m);
        assert((q * (m + 1)) * m == (q * m) * (m + 1));
        assert((q * m) * (m + 1) <= (r * (m + 1)) * (m + 1));
        assert((r * (m + 1)) * (m + 1) == r * (m * m + 2 * m + 1));
        assert(m * m == 16 * (k * k));
        assert(r * (m * m + 2 * m + 1) <= r * (m * m + 16 * k)) by {
            assert(2 * m + 1 <= 16 * k);
        }
        assert((p * m) * m == (p * k) * (16 * k));
        assert(r * (m * m + 16 * k) == (r * (k + 1)) * (16 * k));
        assert((p * k) * (16 * k) <= (r * (k + 1)) * (16 * k));
    }
}

/// Near what is near is near, but for a quarter of the parts.
pub proof fn lemma_near_chain(p: nat, q: nat, r: nat, k: nat)
    requires
        k > 0,
        near(p, q, 4 * k),
        near(q, r, 4 * k),
    ensures
        near(p, r, k),
{
    lemma_chain_side(p, q, r, k);
    lemma_chain_side(r, q, p, k);
}

/// Both sides can be multiplied.
pub proof fn lemma_near_scales(p: nat, q: nat, c: nat, k: nat)
    requires
        near(p, q, k),
    ensures
        near(p * c, q * c, k),
        near(c * p, c * q, k),
{
    assert((p * c) * k <= (q * c) * (k + 1) && (q * c) * k <= (p * c) * (k + 1))
        by (nonlinear_arith)
        requires
            p * k <= q * (k + 1),
            q * k <= p * (k + 1),
    ;
    lemma_mul_is_commutative(p as int, c as int);
    lemma_mul_is_commutative(q as int, c as int);
}

/// Both sides can be divided.
pub proof fn lemma_near_cancels(p: nat, q: nat, c: nat, k: nat)
    requires
        c > 0,
        near(p * c, q * c, k),
    ensures
        near(p, q, k),
{
    assert(p * k <= q * (k + 1) && q * k <= p * (k + 1)) by (nonlinear_arith)
        requires
            c > 0,
            (p * c) * k <= (q * c) * (k + 1),
            (q * c) * k <= (p * c) * (k + 1),
    ;
}

/// Products of what is near are near.
pub proof fn lemma_near_product(p: nat, q: nat, r: nat, s: nat, k: nat)
    requires
        k > 0,
        near(p, q, 4 * k),
        near(r, s, 4 * k),
    ensures
        near(p * r, q * s, k),
{
    lemma_near_scales(p, q, r, 4 * k);
    lemma_near_scales(r, s, q, 4 * k);
    lemma_near_chain(p * r, q * r, q * s, k);
}

/// Sums of what is near are near.
pub proof fn lemma_near_sum(p: nat, q: nat, r: nat, s: nat, k: nat)
    requires
        near(p, q, k),
        near(r, s, k),
    ensures
        near(p + r, q + s, k),
{
    assert((p + r) * k == p * k + r * k && (q + s) * (k + 1) == q * (k + 1) + s * (k + 1) && (q + s)
        * k == q * k + s * k && (p + r) * (k + 1) == p * (k + 1) + r * (k + 1))
        by (nonlinear_arith);
}

/// Rounding is near, unless the result is so small that numbers get sparse.
pub proof fn lemma_near_rounded(n: nat, d: nat)
    requires
        d > 0,
        n >= 0x10_0000_0000_0000 * d,
    ensures
        near(crate::rounding::rounded(n, d) * d, n, 0x10_0000_0000_0000),
{
    let half: nat = 0x10_0000_0000_0000;
    let q = n / d;
    let e = crate::rounding::spacing(q);
    let step = pow2(e);
    let r = crate::rounding::rounded(n, d);
    crate::rounding::lemma_width();
    crate::rounding::rounding_is_nearest(n, d);
    crate::rounding::lemma_spacing_bounds(q);
    lemma_pow2_adds(52, e);
    vstd::arithmetic::div_mod::lemma_fundamental_div_mod(n as int, d as int);
    vstd::arithmetic::div_mod::lemma_div_is_ordered((half * d) as int, n as int, d as int);
    vstd::arithmetic::div_mod::lemma_div_by_multiple(half as int, d as int);
    assert(half * step <= q) by {
        if e == 0 {
            assert(half * step == half) by (nonlinear_arith)
                requires
                    step == 1,
            ;
        }
    }
    assert(half * (d * step) <= n) by (nonlinear_arith)
        requires
            half * step <= q,
            n == d * q + n % d,
            n % d >= 0,
    ;
    let wide = d * step;
    let got = r * d;
    assert(2 * got <= 2 * n + wide && 2 * n <= 2 * got + wide);
    assert(got * half <= n * (half + 1)) by (nonlinear_arith)
        requires
            2 * got <= 2 * n + wide,
            half * wide <= n,
    ;
    assert(n * half <= got * (half + 1)) by (nonlinear_arith)
        requires
            2 * n <= 2 * got + wide,
            half * wide <= n,
            half == 0x10_0000_0000_0000,
    ;
}

/// Powers of two grow.
proof fn lemma_pow2_grows(a: nat, b: nat)
    requires
        a <= b,
    ensures
        0 < pow2(a) <= pow2(b),
{
    lemma_pow2_pos(a);
    if a < b {
        lemma_pow2_strictly_increases(a, b);
    }
}

/// What is near by many parts is near by the parts that rounding may take.
pub proof fn lemma_about(x: Value, n: nat, d: nat, k: nat)
    requires
        near_ratio(x, n, d, k),
        k >= parts(),
    ensures
        x.about(n, d),
{
    lemma_near_looser(x->Finite_0 * d, n * Value::one(), k, parts());
}

/// A ratio between two powers of two is rounded to something near it between them.
pub proof fn lemma_ratio(n: nat, d: nat, low: nat, high: nat)
    requires
        d > 0,
        52 <= low <= high < 2098,
        pow2(low) * d <= n <= pow2(high) * d,
    ensures
        between(Value::ratio(n, d), low, high),
        near(Value::ratio(n, d)->Finite_0 * d, n, 0x10_0000_0000_0000),
{
    crate::rounding::lemma_width();
    lemma_pow2_grows(52, low);
    lemma_pow2_grows(high, 2097);
    lemma_pow2_strictly_increases(2097, 2098);
    assert(pow2(52) * d <= pow2(low) * d) by (nonlinear_arith)
        requires
            pow2(52) <= pow2(low),
    ;
    lemma_near_rounded(n, d);
    crate::rounding::rounding_is_exact(1, low, 1);
    crate::rounding::rounding_is_exact(1, high, 1);
    assert(((1 * pow2(low)) * 1) * d <= n * 1 && n * 1 <= ((1 * pow2(high)) * 1) * d);
    crate::rounding::rounding_is_monotone((1 * pow2(low)) * 1, 1, n, d);
    crate::rounding::rounding_is_monotone(n, d, (1 * pow2(high)) * 1, 1);
}

/// The number nearest to a natural number is near it.
pub proof fn lemma_near_of_nat(n: nat)
    requires
        0 < n <= u128::MAX,
    ensures
        near_ratio(Value::of_nat(n), n, 1, 0x10_0000_0000_0000),
        between(Value::of_nat(n), 1074, 1202),
{
    let one = Value::one();
    crate::binary64::lemma_of_nat_bounds(n);
    crate::rounding::lemma_width();
    lemma_pow2_grows(52, 1074);
    assert(n * one >= one) by (nonlinear_arith)
        requires
            n >= 1,
    ;
    lemma_near_rounded(n * one, 1);
}

/// A product of two that are near ratios is near the product of those.
pub proof fn lemma_near_times(
    x: Value,
    n1: nat,
    d1: nat,
    y: Value,
    n2: nat,
    d2: nat,
    k: nat,
    a: nat,
    b: nat,
    c: nat,
    d: nat,
)
    requires
        0 < k <= 0x1_0000_0000_0000,
        near_ratio(x, n1, d1, 16 * k),
        near_ratio(y, n2, d2, 16 * k),
        between(x, a, b),
        between(y, c, d),
        a <= b,
        c <= d,
        1126 <= a + c,
        b + d < 3172,
    ensures
        near_ratio(x.times(y), n1 * n2, d1 * d2, k),
        between(x.times(y), (a + c - 1074) as nat, (b + d - 1074) as nat),
{
    let one = Value::one();
    let (u, v) = (x->Finite_0, y->Finite_0);
    let (low, high) = ((a + c - 1074) as nat, (b + d - 1074) as nat);
    lemma_pow2_pos(1074);
    lemma_pow2_adds(a, c);
    lemma_pow2_adds(b, d);
    lemma_pow2_adds(low, 1074);
    lemma_pow2_adds(high, 1074);
    lemma_pow2_pos(a);
    lemma_pow2_pos(c);
    assert(pow2(a) * pow2(c) <= u * v && u * v <= pow2(b) * pow2(d)) by (nonlinear_arith)
        requires
            0 < pow2(a) <= u <= pow2(b),
            0 < pow2(c) <= v <= pow2(d),
    ;
    lemma_ratio(u * v, one, low, high);
    let z = x.times(y)->Finite_0;
    let (p, q) = (u * d1, n1 * one);
    let (r, s) = (v * d2, n2 * one);
    lemma_near_product(p, q, r, s, 4 * k);
    lemma_near_looser(z * one, u * v, 0x10_0000_0000_0000, 4 * k);
    lemma_near_scales(z * one, u * v, d1 * d2, 4 * k);
    assert((z * one) * (d1 * d2) == (z * (d1 * d2)) * one) by (nonlinear_arith);
    assert((u * v) * (d1 * d2) == p * r) by (nonlinear_arith)
        requires
            p == u * d1,
            r == v * d2,
    ;
    assert(q * s == ((n1 * n2) * one) * one) by (nonlinear_arith)
        requires
            q == n1 * one,
            s == n2 * one,
    ;
    lemma_near_chain((z * (d1 * d2)) * one, p * r, ((n1 * n2) * one) * one, k);
    lemma_near_cancels(z * (d1 * d2), (n1 * n2) * one, one, k);
}

/// A quotient of two that are near ratios is near the quotient of those.
pub proof fn lemma_near_over(
    x: Value,
    n1: nat,
    d1: nat,
    y: Value,
    n2: nat,
    d2: nat,
    k: nat,
    a: nat,
    b: nat,
    c: nat,
    d: nat,
)
    requires
        0 < k <= 0x1_0000_0000_0000,
        near_ratio(x, n1, d1, 16 * k),
        near_ratio(y, n2, d2, 16 * k),
        between(x, a, b),
        between(y, c, d),
        a <= b,
        c <= d,
        d + 52 <= a + 1074,
        b + 1074 < c + 2098,
    ensures
        near_ratio(x.over(y), n1 * d2, d1 * n2, k),
        between(x.over(y), (a + 1074 - d) as nat, (b + 1074 - c) as nat),
{
    let one = Value::one();
    let (u, v) = (x->Finite_0, y->Finite_0);
    let (low, high) = ((a + 1074 - d) as nat, (b + 1074 - c) as nat);
    lemma_pow2_pos(1074);
    lemma_pow2_pos(c);
    lemma_pow2_adds(low, d);
    lemma_pow2_adds(high, c);
    lemma_pow2_adds(a, 1074);
    lemma_pow2_adds(b, 1074);
    assert(pow2(low) * v <= u * one) by (nonlinear_arith)
        requires
            pow2(low) * pow2(d) == pow2(a) * one,
            v <= pow2(d),
            pow2(a) <= u,
    ;
    assert(u * one <= pow2(high) * v) by (nonlinear_arith)
        requires
            pow2(high) * pow2(c) == pow2(b) * one,
            pow2(c) <= v,
            u <= pow2(b),
    ;
    lemma_ratio(u * one, v, low, high);
    let z = x.over(y)->Finite_0;
    // what the quotient is by what it is rounded from, and that by the ratios
    lemma_near_looser(z * v, u * one, 0x10_0000_0000_0000, 16 * k);
    let scale = d1 * d2;
    lemma_near_scales(z * v, u * one, scale, 16 * k);
    lemma_near_scales(u * d1, n1 * one, one * d2, 16 * k);
    lemma_near_scales(v * d2, n2 * one, z * d1, 16 * k);
    let first = (z * (d1 * n2)) * one;
    let second = (z * v) * scale;
    let third = (u * one) * scale;
    let fourth = ((n1 * d2) * one) * one;
    assert(first == (n2 * one) * (z * d1)) by (nonlinear_arith)
        requires
            first == (z * (d1 * n2)) * one,
    ;
    assert(second == (v * d2) * (z * d1)) by (nonlinear_arith)
        requires
            second == (z * v) * (d1 * d2),
    ;
    assert(third == (u * d1) * (one * d2)) by (nonlinear_arith)
        requires
            third == (u * one) * (d1 * d2),
    ;
    assert(fourth == (n1 * one) * (one * d2)) by (nonlinear_arith)
        requires
            fourth == ((n1 * d2) * one) * one,
    ;
    lemma_near_chain(first, second, third, 4 * k);
    lemma_near_looser(third, fourth, 16 * k, 4 * k);
    lemma_near_chain(first, third, fourth, k);
    lemma_near_cancels(z * (d1 * n2), (n1 * d2) * one, one, k);
}

/// A sum of two that are near ratios is near the sum of those.
pub proof fn lemma_near_plus(x: Value, n1: nat, y: Value, n2: nat, d: nat, k: nat, a: nat, b: nat)
    requires
        0 < k <= 0x1_0000_0000_0000,
        near_ratio(x, n1, d, 4 * k),
        near_ratio(y, n2, d, 4 * k),
        52 <= a <= b < 2097,
        x is Finite && x->Finite_0 <= pow2(b),
        y is Finite && y->Finite_0 <= pow2(b),
        x->Finite_0 + y->Finite_0 >= pow2(a),
    ensures
        near_ratio(x.plus(y), n1 + n2, d, k),
        between(x.plus(y), a, b + 1),
{
    let one = Value::one();
    let (u, v) = (x->Finite_0, y->Finite_0);
    lemma_pow2_unfold(b + 1);
    lemma_ratio(u + v, 1, a, b + 1);
    let z = x.plus(y)->Finite_0;
    lemma_near_sum(u * d, n1 * one, v * d, n2 * one, 4 * k);
    lemma_near_looser(z * 1, u + v, 0x10_0000_0000_0000, 4 * k);
    lemma_near_scales(z, u + v, d, 4 * k);
    assert((u + v) * d == u * d + v * d && (n1 + n2) * one == n1 * one + n2 * one)
        by (nonlinear_arith);
    lemma_near_chain(z * d, (u + v) * d, (n1 + n2) * one, k);
}

/// A duration in seconds is its nanoseconds by a billion.
pub proof fn lemma_near_seconds(nanos: nat)
    requires
        0 < nanos <= crate::time::LONGEST_NANOS,
    ensures
        near_ratio(crate::time::seconds(nanos), nanos, 1_000_000_000, 0x4_0000_0000_0000),
        between(crate::time::seconds(nanos), 946, 1203),
{
    let one = Value::one();
    let giga: nat = 1_000_000_000;
    let (secs, rest) = (nanos / giga, nanos % giga);
    let x = Value::of_nat(secs);
    let y = Value::of_nat(rest).over(Value::of_nat(giga));
    let most: nat = 0x10_0000_0000_0000;
    crate::time::lemma_seconds(nanos);
    crate::binary64::lemma_of_nat_bounds(secs);
    lemma_pow2_pos(1074);
    crate::rounding::lemma_width();
    assert(near_ratio(x, secs * giga, giga, most)) by {
        if secs > 0 {
            lemma_near_of_nat(secs);
            lemma_near_scales(x->Finite_0 * 1, secs * one, giga, most);
            assert((secs * one) * giga == (secs * giga) * one) by (nonlinear_arith);
        } else {
            assert(0 * giga == 0 && 0 * one == 0);
            lemma_near_same(0, most);
        }
    }
    let part = crate::time::lemma_part_of_second(rest);
    assert(near_ratio(y, rest, giga, most)) by {
        if rest > 0 {
            lemma_pow2_grows(82, 1074);
            lemma_pow2_adds(52, 30);
            lemma2_to64();
            assert(rest * one >= most * giga) by (nonlinear_arith)
                requires
                    rest >= 1,
                    one >= most * 0x4000_0000,
                    giga == 1_000_000_000,
            ;
            lemma_near_rounded(rest * one, giga);
        } else {
            assert(0 * one == 0);
            crate::rounding::lemma_rounded_tiny(0, giga);
            assert(0 * giga == 0);
            lemma_near_same(0, most);
        }
    }
    let k: nat = 0x4_0000_0000_0000;
    let (u, v) = (x->Finite_0, part);
    let sum = u + v;
    // the sum is rounded once
    lemma_near_sum(u * giga, (secs * giga) * one, v * giga, rest * one, most);
    assert(u * giga + v * giga == sum * giga && (secs * giga) * one + rest * one == nanos * one)
        by (nonlinear_arith)
        requires
            sum == u + v,
            nanos == secs * giga + rest,
    ;
    lemma_pow2_grows(946, 1074);
    lemma_pow2_grows(52, 946);
    assert(sum >= most) by {
        if secs == 0 {
            assert(rest * one >= one) by (nonlinear_arith)
                requires
                    rest >= 1,
            ;
            lemma_pow2_adds(30, 1044);
            lemma2_to64();
            lemma_pow2_grows(52, 1044);
            assert(v * giga * (most + 1) >= one * most) by (nonlinear_arith)
                requires
                    (rest * one) * most <= (v * giga) * (most + 1),
                    rest * one >= one,
            ;
            lemma_pow2_grows(83, 1074);
            lemma_pow2_adds(53, 30);
            assert(v >= most) by (nonlinear_arith)
                requires
                    v * giga * (most + 1) >= one * most,
                    one >= (2 * most) * 0x4000_0000,
                    giga == 1_000_000_000,
                    most == 0x10_0000_0000_0000,
            ;
        }
    }
    lemma_near_rounded(sum, 1);
    let z = crate::time::seconds(nanos)->Finite_0;
    assert(z == crate::rounding::rounded(sum, 1));
    lemma_near_scales(z * 1, sum, giga, most);
    lemma_near_chain(z * giga, sum * giga, nanos * one, k);
}

} // verus!
