//! Binary64 arithmetic on numbers that are not negative, in integers.
//!
//! The policies work with rates, ratios and seconds. They compute them as IEEE 754 binary64
//! numbers do: each operation gives the binary64 number nearest to the exact result, the one
//! with the even significand of two that are equally near.

use vstd::arithmetic::div_mod::*;
use vstd::arithmetic::mul::*;
use vstd::arithmetic::power2::*;
use vstd::prelude::*;

verus! {

/// The bits of infinity. Every smaller pattern is a finite number that is not negative.
pub const INFINITE_BITS: u64 = 0x7ff0_0000_0000_0000;

/// What a [`Binary64`] stands for: so many units of two to the power of -1074, or infinity.
pub enum Value {
    Finite(nat),
    Infinite,
}

impl Value {
    /// How many units make one.
    pub open spec fn one() -> nat {
        pow2(1074)
    }

    /// The value of so many units, infinite from the first power of two past the largest number.
    pub open spec fn of_units(units: nat) -> Value {
        if units < pow2(2098) {
            Value::Finite(units)
        } else {
            Value::Infinite
        }
    }

    /// The number nearest to `n / d` units.
    pub open spec fn ratio(n: nat, d: nat) -> Value {
        Value::of_units(crate::rounding::rounded(n, d))
    }

    /// The number nearest to a natural number.
    pub open spec fn of_nat(n: nat) -> Value {
        Value::ratio(n * Value::one(), 1)
    }

    /// Zero.
    pub open spec fn zero() -> Value {
        Value::Finite(0)
    }

    /// Whether binary64 has the value: it rounds to itself.
    pub open spec fn is_number(self) -> bool {
        match self {
            Value::Finite(x) => crate::rounding::rounded(x, 1) == x,
            Value::Infinite => true,
        }
    }

    /// `self <= other`.
    pub open spec fn at_most(self, other: Value) -> bool {
        match (self, other) {
            (_, Value::Infinite) => true,
            (Value::Infinite, _) => false,
            (Value::Finite(x), Value::Finite(y)) => x <= y,
        }
    }

    /// `self < other`.
    pub open spec fn below(self, other: Value) -> bool {
        !other.at_most(self)
    }

    /// The lesser of two.
    pub open spec fn lesser(self, other: Value) -> Value {
        if self.at_most(other) {
            self
        } else {
            other
        }
    }

    /// The greater of two.
    pub open spec fn greater(self, other: Value) -> Value {
        if self.at_most(other) {
            other
        } else {
            self
        }
    }

    /// Whether a product has a value: zero times infinity has none.
    pub open spec fn can_times(self, other: Value) -> bool {
        &&& self is Infinite ==> other != Value::zero()
        &&& other is Infinite ==> self != Value::zero()
    }

    /// The product.
    pub open spec fn times(self, other: Value) -> Value {
        match (self, other) {
            (Value::Finite(x), Value::Finite(y)) => Value::ratio(x * y, Value::one()),
            _ => Value::Infinite,
        }
    }

    /// Whether a quotient has a value: zero by zero and infinity by infinity have none.
    pub open spec fn can_over(self, other: Value) -> bool {
        &&& self is Infinite ==> other is Finite
        &&& other == Value::zero() ==> self != Value::zero()
    }

    /// The quotient: infinite if the divisor is zero, zero if it is infinite.
    pub open spec fn over(self, other: Value) -> Value {
        match (self, other) {
            (Value::Infinite, _) => Value::Infinite,
            (_, Value::Infinite) => Value::zero(),
            (Value::Finite(x), Value::Finite(y)) => if y == 0 {
                Value::Infinite
            } else {
                Value::ratio(x * Value::one(), y)
            },
        }
    }

    /// The sum.
    pub open spec fn plus(self, other: Value) -> Value {
        match (self, other) {
            (Value::Finite(x), Value::Finite(y)) => Value::ratio(x + y, 1),
            _ => Value::Infinite,
        }
    }

    /// The integer part, at most `most`.
    pub open spec fn truncated(self, most: nat) -> nat {
        match self {
            Value::Infinite => most,
            Value::Finite(x) => {
                let whole = x / Value::one();
                if whole < most {
                    whole
                } else {
                    most
                }
            },
        }
    }

    /// The least integer that is not less, at most `most`.
    pub open spec fn raised(self, most: nat) -> nat {
        match self {
            Value::Infinite => most,
            Value::Finite(x) => {
                let below = x / Value::one();
                let whole = if x % Value::one() == 0 {
                    below
                } else {
                    below + 1
                };
                if whole < most {
                    whole
                } else {
                    most
                }
            },
        }
    }

    /// The integer nearest to `scale` times the value, if it is at most `most`.
    pub open spec fn scaled(self, scale: nat, most: nat) -> Option<nat> {
        match self {
            Value::Infinite => None,
            Value::Finite(x) => {
                let near = crate::rounding::nearest(x * scale, Value::one());
                if near <= most {
                    Some(near)
                } else {
                    None
                }
            },
        }
    }
}

/// The units of the number with the given bits, the biased exponent above the 52 bits of the
/// fraction.
pub open spec fn units(bits: u64) -> nat {
    let exponent = bits as nat / 0x10_0000_0000_0000;
    let fraction = bits as nat % 0x10_0000_0000_0000;
    if exponent == 0 {
        fraction
    } else {
        (0x10_0000_0000_0000 + fraction) * pow2((exponent - 1) as nat)
    }
}

/// A binary64 number that is not negative, or infinity.
#[derive(Debug, Clone, Copy, PartialEq, Eq, Structural)]
pub struct Binary64 {
    bits: u64,
}

impl View for Binary64 {
    type V = Value;

    closed spec fn view(&self) -> Value {
        value_of(self.bits)
    }
}

/// What a bit pattern stands for.
pub open spec fn value_of(bits: u64) -> Value {
    if bits == INFINITE_BITS {
        Value::Infinite
    } else {
        Value::Finite(units(bits))
    }
}

/// The bits of `significand * pow2(exponent)` units, for a significand that has its 53rd bit set
/// or goes with an exponent of zero: the pattern is their plain sum.
proof fn lemma_encodes(significand: u64, exponent: u64, bits: u64)
    requires
        significand <= 0x20_0000_0000_0000,
        exponent > 0 ==> significand >= 0x10_0000_0000_0000,
        bits == exponent * 0x10_0000_0000_0000 + significand,
    ensures
        units(bits) == significand * pow2(exponent as nat),
        bits < INFINITE_BITS <==> significand * pow2(exponent as nat) < pow2(2098),
{
    crate::rounding::lemma_width();
    let hidden: nat = 0x10_0000_0000_0000;
    let m = significand as nat;
    let k = exponent as nat;
    assert(pow2(1) == 2) by {
        lemma2_to64();
    }
    if k == 0 && m < hidden {
        assert(bits as nat / hidden == 0 && bits as nat % hidden == m);
        assert(m * pow2(0) == m) by (nonlinear_arith)
            requires
                pow2(0) == 1,
        ;
        lemma_pow2_strictly_increases(52, 2098);
    } else {
        let e = bits as nat / hidden;
        let f = bits as nat % hidden;
        if m < 2 * hidden {
            assert(e == k + 1 && f == m - hidden);
        } else {
            assert(e == k + 2 && f == 0);
            lemma_pow2_adds(1, k);
            assert(hidden * pow2(k + 1) == (2 * hidden) * pow2(k)) by (nonlinear_arith)
                requires
                    pow2(k + 1) == 2 * pow2(k),
            ;
        }
        assert(units(bits) == m * pow2(k));
        lemma_pow2_pos((e - 1) as nat);
        let p = pow2((e - 1) as nat);
        if e < 2047 {
            lemma_pow2_adds(53, (e - 1) as nat);
            if e < 2046 {
                lemma_pow2_strictly_increases((53 + (e - 1)) as nat, 2098);
            }
            assert((hidden + f) * p < pow2(53) * p) by (nonlinear_arith)
                requires
                    hidden + f < pow2(53),
                    p > 0,
            ;
        } else {
            lemma_pow2_adds(52, (e - 1) as nat);
            if e > 2047 {
                lemma_pow2_strictly_increases(2098, (52 + (e - 1)) as nat);
            }
            assert((hidden + f) * p >= pow2(52) * p) by (nonlinear_arith)
                requires
                    hidden + f >= pow2(52),
            ;
        }
    }
}

/// The order of the bits is the order of the numbers.
proof fn lemma_bits_ordered(a: u64, b: u64)
    requires
        a < b <= INFINITE_BITS,
    ensures
        units(a) < units(b),
{
    let hidden: nat = 0x10_0000_0000_0000;
    crate::rounding::lemma_width();
    let (ea, fa) = (a as nat / hidden, a as nat % hidden);
    let (eb, fb) = (b as nat / hidden, b as nat % hidden);
    if ea == eb {
        if ea > 0 {
            let p = pow2((ea - 1) as nat);
            lemma_pow2_pos((ea - 1) as nat);
            assert((hidden + fa) * p < (hidden + fb) * p) by (nonlinear_arith)
                requires
                    fa < fb,
                    p > 0,
            ;
        }
    } else {
        let q = pow2((eb - 1) as nat);
        lemma_pow2_pos((eb - 1) as nat);
        assert((hidden + fb) * q >= hidden * q) by (nonlinear_arith);
        if ea == 0 {
            assert(hidden * q >= hidden) by (nonlinear_arith)
                requires
                    q >= 1,
            ;
        } else {
            let p = pow2((ea - 1) as nat);
            lemma_pow2_pos((ea - 1) as nat);
            lemma_pow2_unfold(ea);
            if ea < eb - 1 {
                lemma_pow2_strictly_increases(ea, (eb - 1) as nat);
            }
            assert((hidden + fa) * p < hidden * q) by (nonlinear_arith)
                requires
                    hidden + fa < 2 * hidden,
                    2 * p <= q,
                    p > 0,
            ;
        }
    }
}

/// Common powers of two cancel from a ratio before it is rounded.
proof fn lemma_cancels(n: nat, a: nat, d: nat, b: nat)
    requires
        d > 0,
    ensures
        a >= b ==> crate::rounding::rounded(n * pow2(a), d * pow2(b))
            == crate::rounding::rounded(n * pow2((a - b) as nat), d),
        b >= a ==> crate::rounding::rounded(n * pow2(a), d * pow2(b))
            == crate::rounding::rounded(n, d * pow2((b - a) as nat)),
{
    if a >= b {
        let c = (a - b) as nat;
        lemma_pow2_adds(c, b);
        lemma_pow2_pos(b);
        lemma_mul_is_associative(n as int, pow2(c) as int, pow2(b) as int);
        crate::rounding::lemma_rounded_scales(n * pow2(c), d, pow2(b));
    }
    if b >= a {
        let c = (b - a) as nat;
        lemma_pow2_adds(c, a);
        lemma_pow2_pos(a);
        lemma_pow2_pos(c);
        lemma_mul_is_associative(d as int, pow2(c) as int, pow2(a) as int);
        assert(d * pow2(c) > 0) by (nonlinear_arith)
            requires
                d > 0,
                pow2(c) > 0,
        ;
        crate::rounding::lemma_rounded_scales(n, d * pow2(c), pow2(a));
    }
}

/// The natural number nearest to `n / d`, the even one of two that are equally near.
fn nearest(n: u128, d: u128) -> (r: u128)
    requires
        0 < d < 0x4000_0000_0000_0000_0000_0000_0000_0000,
        n / d < u128::MAX,
    ensures
        r == crate::rounding::nearest(n as nat, d as nat),
{
    let floor: u128 = n / d;
    let twice_rest: u128 = 2 * (n % d);
    if twice_rest < d || (twice_rest == d && floor % 2 == 0) {
        floor
    } else {
        floor + 1
    }
}

/// The number nearest to `n * pow2(a) / (d * pow2(b))` units.
fn round(n: u128, a: u64, d: u128, b: u64) -> (r: Binary64)
    requires
        0 < d < 0x1_0000_0000_0000_0000,
        b > 0 ==> n < 0x1000_0000_0000_0000_0000_0000_0000_0000,
        a < 0x4000,
        b < 0x4000,
    ensures
        r@ == Value::ratio(n as nat * pow2(a as nat), d as nat * pow2(b as nat)),
{
    let ghost goal = crate::rounding::rounded(
        n as nat * pow2(a as nat),
        d as nat * pow2(b as nat),
    );
    proof {
        lemma_cancels(n as nat, a as nat, d as nat, b as nat);
        crate::rounding::lemma_width();
        assert(n as nat * 1 == n && d as nat * 1 == d);
    }
    let (mut top, mut bottom): (u128, u128) = (n, d);
    let (mut up, mut down): (u64, u64) = if a >= b {
        (a - b, 0)
    } else {
        (0, b - a)
    };
    // fold what is left of the divisor's power of two into the divisor
    while down > 0
        invariant
            down > 0 ==> up == 0,
            down > 0 ==> top < 0x1000_0000_0000_0000_0000_0000_0000_0000,
            up == 0 || bottom < 0x1_0000_0000_0000_0000,
            0 < bottom < 0x4000_0000_0000_0000_0000_0000_0000_0000,
            goal == crate::rounding::rounded(top as nat * pow2(up as nat), bottom as nat * pow2(down as nat)),
            goal == crate::rounding::rounded(n as nat * pow2(a as nat), d as nat * pow2(b as nat)),
            pow2(0) == 1,
        decreases down,
    {
        let ghost d0 = bottom as nat;
        let ghost rest = pow2((down - 1) as nat);
        proof {
            lemma_pow2_unfold(down as nat);
            lemma_pow2_pos((down - 1) as nat);
            assert(top as nat * pow2(up as nat) == top) by (nonlinear_arith)
                requires
                    pow2(up as nat) == 1,
            ;
            assert(d0 * pow2(down as nat) == (2 * d0) * rest) by (nonlinear_arith)
                requires
                    pow2(down as nat) == 2 * rest,
            ;
        }
        if bottom > top && bottom - top > top {
            proof {
                assert((2 * d0) * rest >= d0) by (nonlinear_arith)
                    requires
                        rest >= 1,
                ;
                crate::rounding::lemma_rounded_tiny(top as nat, d0 * pow2(down as nat));
                lemma_pow2_pos(2098);
                assert(units(0) == 0);
            }
            return Binary64 { bits: 0 };
        }
        bottom = 2 * bottom;
        down = down - 1;
    }
    assert(bottom as nat * 1 == bottom);
    if top / bottom >= 0x20_0000_0000_0000 {
        let ghost start = up as nat;
        while top / bottom >= 0x20_0000_0000_0000
            invariant
                0 < bottom < 0x4000_0000_0000_0000_0000_0000_0000_0000,
                goal == crate::rounding::rounded(top as nat * pow2(up as nat), bottom as nat),
                top / bottom >= 0x10_0000_0000_0000,
                start <= up,
                start < 0x4000,
                pow2((up - start) as nat) <= bottom,
            decreases top / bottom,
        {
            proof {
                let p = pow2(up as nat);
                lemma_pow2_unfold((up + 1) as nat);
                lemma_pow2_unfold((up + 1 - start) as nat);
                assert(top as nat * pow2((up + 1) as nat) == (top as nat * p) * 2) by (nonlinear_arith)
                    requires
                        pow2((up + 1) as nat) == 2 * p,
                ;
                crate::rounding::lemma_rounded_scales(top as nat * p, bottom as nat, 2);
                lemma_fundamental_div_mod(top as int, bottom as int);
                assert(bottom * 0x20_0000_0000_0000 <= top) by (nonlinear_arith)
                    requires
                        top as int / bottom as int >= 0x20_0000_0000_0000,
                        top as int == bottom as int * (top as int / bottom as int) + top as int % bottom as int,
                        (top as int % bottom as int) >= 0,
                        bottom > 0,
                ;
                lemma_div_denominator(top as int, bottom as int, 2);
                lemma_pow2_adds(11, 64);
                lemma2_to64();
                lemma2_to64_rest();
                if up - start > 75 {
                    lemma_pow2_strictly_increases(75, (up - start) as nat);
                }
            }
            bottom = 2 * bottom;
            up = up + 1;
        }
    } else {
        while top / bottom < 0x10_0000_0000_0000 && up > 0
            invariant
                0 < bottom < 0x4000_0000_0000_0000_0000_0000_0000_0000,
                up == 0 || bottom < 0x1_0000_0000_0000_0000,
                goal == crate::rounding::rounded(top as nat * pow2(up as nat), bottom as nat),
                top / bottom < 0x20_0000_0000_0000,
            decreases up,
        {
            proof {
                lemma_pow2_unfold(up as nat);
                let p = pow2((up - 1) as nat);
                assert(top as nat * pow2(up as nat) == (top as nat * 2) * p) by (nonlinear_arith)
                    requires
                        pow2(up as nat) == 2 * p,
                ;
                lemma_fundamental_div_mod(top as int, bottom as int);
                assert(top < bottom * 0x10_0000_0000_0000) by (nonlinear_arith)
                    requires
                        top as int / bottom as int + 1 <= 0x10_0000_0000_0000,
                        top as int == bottom as int * (top as int / bottom as int) + top as int % bottom as int,
                        (top as int % bottom as int) < bottom,
                        bottom > 0,
                ;
                lemma_multiply_divide_lt(2 * top as int, bottom as int, 0x20_0000_0000_0000);
            }
            top = 2 * top;
            up = up - 1;
        }
    }
    let significand: u64 = nearest(top, bottom) as u64;
    proof {
        crate::rounding::lemma_rounded_normal(top as nat, bottom as nat, up as nat);
    }
    if up >= 2046 {
        proof {
            let (m, p) = (significand as nat, pow2(up as nat));
            crate::rounding::lemma_width();
            lemma_pow2_adds(52, up as nat);
            lemma_pow2_pos(up as nat);
            if up > 2046 {
                lemma_pow2_strictly_increases(2098, (52 + up) as nat);
            }
            assert(m * p >= pow2(52) * p) by (nonlinear_arith)
                requires
                    m >= pow2(52),
            ;
        }
        return Binary64 { bits: INFINITE_BITS };
    }
    let bits: u64 = up * 0x10_0000_0000_0000 + significand;
    proof {
        lemma_encodes(significand, up, bits);
    }
    if bits < INFINITE_BITS {
        Binary64 { bits }
    } else {
        Binary64 { bits: INFINITE_BITS }
    }
}

/// Two to the power of `e`.
fn power(e: u64) -> (r: u128)
    requires
        e < 127,
    ensures
        r == pow2(e as nat),
        1 <= r < 0x8000_0000_0000_0000_0000_0000_0000_0000,
{
    let mut r: u128 = 1;
    let mut i: u64 = 0;
    proof {
        lemma2_to64();
    }
    while i < e
        invariant
            i <= e < 127,
            r == pow2(i as nat),
            1 <= r,
        decreases e - i,
    {
        proof {
            lemma_pow2_unfold((i + 1) as nat);
            lemma_power_fits(i as nat);
        }
        r = 2 * r;
        i = i + 1;
    }
    proof {
        lemma_power_fits(e as nat);
    }
    r
}

/// Powers of two below the 128th fit.
proof fn lemma_power_fits(e: nat)
    requires
        e < 127,
    ensures
        pow2(e) < 0x8000_0000_0000_0000_0000_0000_0000_0000,
{
    lemma2_to64();
    lemma2_to64_rest();
    lemma_pow2_adds(63, 64);
    lemma_pow2_strictly_increases(e, 127);
}

/// Integers of up to 128 bits are finite, and positive ones are at least one.
pub proof fn lemma_of_nat_bounds(n: nat)
    requires
        n <= u128::MAX,
    ensures
        Value::of_nat(n) is Finite,
        n == 0 ==> Value::of_nat(n) == Value::zero(),
        n > 0 ==> Value::of_nat(n)->Finite_0 >= Value::one(),
        Value::of_nat(n)->Finite_0 <= pow2(1202),
{
    let one = Value::one();
    crate::rounding::lemma_width();
    lemma_pow2_pos(1074);
    lemma_power_fits(126);
    lemma_pow2_unfold(127);
    lemma_pow2_unfold(128);
    lemma2_to64();
    lemma_pow2_adds(64, 64);
    lemma_pow2_adds(128, 1074);
    lemma_pow2_strictly_increases(1202, 2098);
    let x = n * one;
    assert(x * 1 <= (1 * pow2(1202)) * 1) by (nonlinear_arith)
        requires
            x == n * one,
            n <= pow2(128),
            pow2(1202) == pow2(128) * one,
    ;
    crate::rounding::rounding_is_exact(1, 1202, 1);
    crate::rounding::rounding_is_monotone(x, 1, (1 * pow2(1202)) * 1, 1);
    if n == 0 {
        assert(x == 0) by (nonlinear_arith)
            requires
                x == n * one,
                n == 0,
        ;
        crate::rounding::lemma_rounded_tiny(x, 1);
    } else {
        assert((1 * one) * 1 <= x * 1) by (nonlinear_arith)
            requires
                x == n * one,
                n >= 1,
        ;
        crate::rounding::rounding_is_exact(1, 1074, 1);
        crate::rounding::rounding_is_monotone((1 * one) * 1, 1, x, 1);
    }
}

impl Value {
    /// The number nearest to `n / d`, for numbers that are represented themselves.
    pub open spec fn quotient(n: nat, d: nat) -> Value {
        Value::of_nat(n).over(Value::of_nat(d))
    }
}

/// Integers of up to 53 bits are represented.
pub proof fn lemma_of_nat_exact(n: nat)
    requires
        n < 0x20_0000_0000_0000,
    ensures
        Value::of_nat(n) == Value::Finite(n * Value::one()),
{
    lemma_of_nat_bounds(n);
    crate::rounding::rounding_is_exact(n, 1074, 1);
    let x = n * Value::one();
    assert(x * 1 == x);
}

/// A product with a factor of at least one is not zero unless the other factor is.
pub proof fn lemma_product_is_not_zero(x: Value, y: Value)
    requires
        x != Value::zero(),
        Value::of_nat(1).at_most(y),
    ensures
        y != Value::zero(),
        x.times(y) != Value::zero(),
{
    let one = Value::one();
    lemma_pow2_pos(1074);
    lemma2_to64();
    lemma_of_nat_exact(1);
    match (x, y) {
        (Value::Finite(a), Value::Finite(b)) => {
            assert(((1 * pow2(0)) * 1) * one <= (a * b) * 1) by (nonlinear_arith)
                requires
                    a >= 1,
                    b >= one,
                    pow2(0) == 1,
            {
            }
            crate::rounding::rounding_is_exact(1, 0, 1);
            crate::rounding::rounding_is_monotone((1 * pow2(0)) * 1, 1, a * b, one);
        },
        _ => {},
    }
}

/// What a ratio rounds to is a number.
pub proof fn lemma_ratio_is_number(n: nat, d: nat)
    requires
        d > 0,
    ensures
        Value::ratio(n, d).is_number(),
{
    crate::rounding::rounding_is_idempotent(n, d);
}

/// A larger factor gives no smaller product, and a factor of at least one none smaller than the
/// other factor.
pub proof fn lemma_times_is_monotone(x: Value, less: Value, more: Value)
    requires
        less.at_most(more),
    ensures
        x.times(less).at_most(x.times(more)),
        x.is_number() && Value::of_nat(1).at_most(less) ==> x.at_most(x.times(less)),
{
    let one = Value::one();
    lemma_pow2_pos(1074);
    lemma_of_nat_exact(1);
    match (x, less, more) {
        (Value::Finite(a), Value::Finite(b), Value::Finite(c)) => {
            assert((a * b) * one <= (a * c) * one) by (nonlinear_arith)
                requires
                    b <= c,
            ;
            crate::rounding::rounding_is_monotone(a * b, one, a * c, one);
        },
        _ => {},
    }
    match (x, less) {
        (Value::Finite(a), Value::Finite(b)) => {
            if x.is_number() && b >= one {
                assert(a * one <= (a * b) * 1) by (nonlinear_arith)
                    requires
                        b >= one,
                ;
                crate::rounding::rounding_is_monotone(a, 1, a * b, one);
            }
        },
        _ => {},
    }
}

/// What a [`Binary64`] stands for is a number that binary64 has.
pub proof fn lemma_is_number(x: Binary64)
    ensures
        x@.is_number(),
{
    let hidden: nat = 0x10_0000_0000_0000;
    let exponent = x.bits as nat / hidden;
    let fraction = x.bits as nat % hidden;
    crate::rounding::lemma_width();
    if exponent == 0 {
        crate::rounding::rounding_is_exact(fraction, 0, 1);
        assert(fraction * pow2(0) == fraction) by (nonlinear_arith)
            requires
                pow2(0) == 1,
        ;
        assert((fraction * pow2(0)) * 1 == fraction * pow2(0));
    } else {
        let e = (exponent - 1) as nat;
        crate::rounding::rounding_is_exact(hidden + fraction, e, 1);
        assert(((hidden + fraction) * pow2(e)) * 1 == (hidden + fraction) * pow2(e));
    }
}

/// A number is a whole number of steps of its spacing.
proof fn lemma_steps(x: nat) -> (steps: nat)
    requires
        Value::Finite(x).is_number(),
    ensures
        x == steps * pow2(crate::rounding::spacing(x)),
{
    crate::rounding::nearest(x, 1 * pow2(crate::rounding::spacing(x / 1)))
}

/// Where the number nearest to a natural number is, and how it is spaced there.
proof fn lemma_of_nat_spacing(n: nat) -> (r: (nat, nat, nat))
    requires
        0 < n <= u64::MAX,
    ensures
        ({
            let (x, s, steps) = r;
            &&& Value::of_nat(n) == Value::Finite(x)
            &&& x == steps * pow2(s)
            &&& s >= 1022
            &&& pow2(52 + s) <= x <= pow2(53 + s)
            &&& pow2(52 + s) <= n * Value::one() < pow2(53 + s)
            &&& -pow2(s) <= 2 * (x - n * Value::one()) <= pow2(s)
        }),
{
    let one = Value::one();
    let whole = n * one;
    lemma_pow2_pos(1074);
    assert(whole >= one) by (nonlinear_arith)
        requires
            whole == n * one,
            n >= 1,
    ;
    lemma_of_nat_bounds(n);
    let s = crate::rounding::spacing(whole);
    lemma_pow2_strictly_increases(1074, 1075);
    crate::rounding::lemma_spacing(one, 1022);
    crate::rounding::lemma_spacing_monotone(one, whole);
    crate::rounding::lemma_spacing_bounds(whole);
    crate::rounding::lemma_rounded_range(whole, 1);
    crate::rounding::rounding_is_nearest(whole, 1);
    let x = crate::rounding::rounded(whole, 1);
    assert(whole / 1 == whole);
    assert(x * 1 - whole == x - whole);
    assert(1 * pow2(s) == pow2(s));
    (x, s, crate::rounding::nearest(whole, 1 * pow2(s)))
}

/// Multiplied by a number above one, a natural number grows: rounded up, the product is more,
/// unless it is capped.
pub proof fn lemma_growth_raises(n: nat, growth: Value, most: nat)
    requires
        0 < n <= u64::MAX,
        n <= most,
        growth.is_number(),
        Value::of_nat(1).below(growth),
    ensures
        n <= Value::of_nat(n).times(growth).raised(most),
        n < most ==> n < Value::of_nat(n).times(growth).raised(most),
{
    let one = Value::one();
    lemma_of_nat_exact(1);
    lemma_pow2_pos(1074);
    match growth {
        Value::Infinite => {},
        Value::Finite(g) => {
            let (x, s, steps) = lemma_of_nat_spacing(n);
            crate::rounding::lemma_width();
            // the next number after one is one and a step
            let small = pow2(1022);
            assert(g >= one + small) by {
                let t = crate::rounding::spacing(g);
                let c = lemma_steps(g);
                lemma_pow2_strictly_increases(1074, 1075);
                crate::rounding::lemma_spacing(one, 1022);
                crate::rounding::lemma_spacing_monotone(one, g);
                lemma_pow2_adds((t - 1022) as nat, 1022);
                lemma_pow2_adds(52, 1022);
                lemma_pow2_pos(1022);
                let k = c * pow2((t - 1022) as nat);
                assert(g == k * small) by (nonlinear_arith)
                    requires
                        g == c * pow2(t),
                        pow2(t) == pow2((t - 1022) as nat) * small,
                        k == c * pow2((t - 1022) as nat),
                ;
                assert(k > pow2(52)) by (nonlinear_arith)
                    requires
                        k * small > pow2(52) * small,
                        small > 0,
                ;
                assert(k * small >= pow2(52) * small + small) by (nonlinear_arith)
                    requires
                        k >= pow2(52) + 1,
                        small > 0,
                ;
            }
            let step = pow2(s);
            let p = crate::rounding::rounded(x * g, one);
            lemma_pow2_pos(s);
            lemma_pow2_adds(52 + s, 1022);
            lemma_pow2_adds(s, 1074);
            // so the product is past the next number after the rounded factor
            assert(x * g >= (x + step) * one) by (nonlinear_arith)
                requires
                    g >= one + small,
                    x >= pow2(52 + s),
                    pow2(52 + s) * small == step * one,
            ;
            if steps == pow2(53) {
                lemma_pow2_adds(53, s);
                crate::rounding::rounding_is_exact(1, 53 + s, one);
                assert((x * one) * one <= (x * g) * one) by (nonlinear_arith)
                    requires
                        g >= one,
                ;
                crate::rounding::rounding_is_monotone(x * one, one, x * g, one);
                assert(p > n * one);
            } else {
                lemma_pow2_adds(53, s);
                assert(steps < pow2(53)) by (nonlinear_arith)
                    requires
                        steps * step <= pow2(53) * step,
                        steps != pow2(53),
                        step > 0,
                ;
                let y = x + step;
                assert(y == (steps + 1) * step) by (nonlinear_arith)
                    requires
                        y == steps * step + step,
                ;
                if steps + 1 == pow2(53) {
                    crate::rounding::rounding_is_exact(1, 53 + s, one);
                } else {
                    crate::rounding::rounding_is_exact(steps + 1, s, one);
                }
                assert((y * one) * one <= (x * g) * one) by (nonlinear_arith)
                    requires
                        y * one <= x * g,
                ;
                crate::rounding::rounding_is_monotone(y * one, one, x * g, one);
                assert(p > n * one);
            }
            lemma_div_is_ordered((n * one) as int, p as int, one as int);
            lemma_div_by_multiple(n as int, one as int);
            lemma_fundamental_div_mod(p as int, one as int);
            if p / one == n {
                assert(p == one * n + p % one);
                lemma_mul_is_commutative(one as int, n as int);
            }
        },
    }
}

/// Multiplied by a number below one, a natural number shrinks: the integer part of the product is
/// less.
pub proof fn lemma_backoff_lowers(n: nat, backoff: Value, most: nat)
    requires
        0 < n <= u64::MAX,
        backoff.is_number(),
        backoff.below(Value::of_nat(1)),
    ensures
        Value::of_nat(n).times(backoff).truncated(most) < n,
{
    let one = Value::one();
    lemma_of_nat_exact(1);
    lemma_pow2_pos(1074);
    let b = backoff->Finite_0;
    let (x, s, steps) = lemma_of_nat_spacing(n);
    crate::rounding::lemma_width();
    // the last number before one is one less a step
    let small = pow2(1021);
    assert(b + small <= one) by {
        lemma_pow2_adds(53, 1021);
        lemma_pow2_pos(1021);
        if b + small > one {
            let t = crate::rounding::spacing(b);
            let c = lemma_steps(b);
            assert(one - small >= pow2(1073)) by {
                lemma_pow2_unfold(1074);
                lemma_pow2_strictly_increases(1021, 1073);
            }
            lemma_pow2_adds(52, 1022);
            crate::rounding::lemma_spacing(b, 1021);
            assert(c < pow2(53)) by (nonlinear_arith)
                requires
                    c * small < pow2(53) * small,
                    small > 0,
            ;
            assert(c * small + small <= pow2(53) * small) by (nonlinear_arith)
                requires
                    c + 1 <= pow2(53),
                    small > 0,
            ;
        }
    }
    let step = pow2(s);
    let half = pow2((s - 1) as nat);
    lemma_pow2_unfold(s);
    lemma_pow2_pos((s - 1) as nat);
    let p = crate::rounding::rounded(x * b, one);
    let q = (x * b) / one;
    let t = crate::rounding::spacing(q);
    lemma_pow2_pos(52 + s);
    assert(x * b <= x * one - x * small) by (nonlinear_arith)
        requires
            b + small <= one,
    ;
    lemma_pow2_pos(1021);
    assert(x * small > 0) by (nonlinear_arith)
        requires
            x > 0,
            small > 0,
    ;
    lemma_mul_is_commutative(x as int, one as int);
    lemma_multiply_divide_lt((x * b) as int, one as int, x as int);
    assert(q < pow2(53 + s));
    // the product is spaced no wider than the factor
    assert(t <= s) by {
        crate::rounding::lemma_spacing_bounds(q);
        if t > s && 53 + s < 52 + t {
            lemma_pow2_strictly_increases(53 + s, 52 + t);
        }
    }
    crate::rounding::rounding_is_nearest(x * b, one);
    crate::rounding::lemma_rounded_range(x * b, one);
    if t < s {
        if 53 + t < 52 + s {
            lemma_pow2_strictly_increases(53 + t, 52 + s);
        }
        assert(p <= pow2(52 + s));
        if x == pow2(52 + s) {
            // a product of the factor itself would be off by more than half a step
            lemma_pow2_adds(52 + s, 1021);
            lemma_pow2_adds((s - 1) as nat, 1074);
            if t < s - 1 {
                lemma_pow2_strictly_increases(t, (s - 1) as nat);
            }
            let quarter = pow2(t);
            lemma_pow2_pos(t);
            assert(x * small == half * one);
            assert(one * quarter <= one * half) by (nonlinear_arith)
                requires
                    quarter <= half,
            ;
            assert(one * half == half * one) by (nonlinear_arith);
            assert(p * one <= x * one - half * one + half * one / 2);
            assert(half * one > 0) by (nonlinear_arith)
                requires
                    half > 0,
                    one > 0,
            ;
            assert(p < x) by (nonlinear_arith)
                requires
                    p * one < x * one,
                    one > 0,
            ;
            assert(p < n * one);
        } else {
            lemma_pow2_adds(52, s);
            assert(steps > pow2(52)) by (nonlinear_arith)
                requires
                    steps * step > pow2(52) * step,
                    step > 0,
            ;
            assert(steps * step >= pow2(52) * step + step) by (nonlinear_arith)
                requires
                    steps >= pow2(52) + 1,
                    step > 0,
            ;
            assert(p + step <= x);
            assert(p < n * one);
        }
    } else {
        let c = crate::rounding::nearest(x * b, one * step);
        assert(p == c * step);
        assert(q >= pow2(52 + s)) by {
            crate::rounding::lemma_spacing_bounds(q);
        }
        lemma_pow2_adds(52 + s, 1021);
        lemma_pow2_adds((s - 1) as nat, 1074);
        assert(x * small > half * one) by (nonlinear_arith)
            requires
                x > pow2(52 + s),
                pow2(52 + s) * small == half * one,
                small > 0,
        ;
        assert(one * step == 2 * (half * one)) by (nonlinear_arith)
            requires
                step == 2 * half,
        ;
        assert(p * one < x * one);
        assert(p < x) by (nonlinear_arith)
            requires
                p * one < x * one,
                one > 0,
        ;
        assert(c < steps) by (nonlinear_arith)
            requires
                c * step < steps * step,
                step > 0,
        ;
        assert(c * step + step <= steps * step) by (nonlinear_arith)
            requires
                c + 1 <= steps,
                step > 0,
        ;
        assert(p < n * one);
    }
    lemma_mul_is_commutative(n as int, one as int);
    lemma_multiply_divide_lt(p as int, one as int, n as int);
}

/// A quotient of two integers of up to 53 bits is rounded once, and stays between the fractions
/// `low / pow2(k)` and `high / pow2(k)` that it is between.
pub proof fn lemma_quotient_between(n: nat, d: nat, low: nat, high: nat, k: nat)
    requires
        n < 0x20_0000_0000_0000,
        0 < d < 0x20_0000_0000_0000,
        high < 0x20_0000_0000_0000,
        k <= 1000,
        low * d <= n * pow2(k) <= high * d,
    ensures
        Value::quotient(n, d) == Value::ratio(n * Value::one(), d),
        Value::quotient(n, d) is Finite,
        low * pow2((1074 - k) as nat) <= Value::quotient(n, d)->Finite_0 <= high * pow2(
            (1074 - k) as nat,
        ),
{
    let one = Value::one();
    lemma_of_nat_exact(n);
    lemma_of_nat_exact(d);
    lemma_pow2_pos(1074);
    lemma_mul_strictly_positive(d as int, one as int);
    crate::rounding::lemma_rounded_scales(n * one, d, one);
    let e = (1074 - k) as nat;
    let p = pow2(e);
    lemma_pow2_pos(e);
    lemma_pow2_adds(k, e);
    assert(low <= high) by (nonlinear_arith)
        requires
            low * d <= high * d,
            d > 0,
    ;
    assert(((low * p) * 1) * d <= (n * one) * 1 && (n * one) * 1 <= ((high * p) * 1) * d)
        by (nonlinear_arith)
        requires
            low * d <= n * pow2(k) <= high * d,
            one == pow2(k) * p,
    ;
    crate::rounding::rounding_is_exact(low, e, 1);
    crate::rounding::rounding_is_exact(high, e, 1);
    crate::rounding::rounding_is_monotone((low * p) * 1, 1, n * one, d);
    crate::rounding::rounding_is_monotone(n * one, d, (high * p) * 1, 1);
    lemma_pow2_adds(53, e);
    crate::rounding::lemma_width();
    lemma_mul_strict_inequality(high as int, pow2(53) as int, p as int);
    lemma_pow2_strictly_increases(53 + e, 2098);
}

impl Binary64 {
    #[verifier::type_invariant]
    spec fn canonical(self) -> bool {
        self.bits <= INFINITE_BITS
    }

    /// The number with the given bits, if they stand for one that is not negative. The negative
    /// zero is taken as zero.
    pub fn from_bits(bits: u64) -> (r: Option<Self>)
        ensures
            bits <= INFINITE_BITS ==> r is Some && r->0@ == value_of(bits),
            bits == 0x8000_0000_0000_0000 ==> r is Some && r->0@ == Value::zero(),
            bits > INFINITE_BITS && bits != 0x8000_0000_0000_0000 ==> r is None,
    {
        if bits <= INFINITE_BITS {
            Some(Self { bits })
        } else if bits == 0x8000_0000_0000_0000 {
            Some(Self { bits: 0 })
        } else {
            None
        }
    }

    /// The bits of the number.
    pub fn to_bits(self) -> (r: u64)
        ensures
            r <= INFINITE_BITS,
            value_of(r) == self@,
    {
        proof {
            use_type_invariant(&self);
        }
        self.bits
    }

    /// Zero.
    pub fn zero() -> (r: Self)
        ensures
            r@ == Value::zero(),
    {
        Self { bits: 0 }
    }

    /// Infinity.
    pub fn infinity() -> (r: Self)
        ensures
            r@ == Value::Infinite,
    {
        Self { bits: INFINITE_BITS }
    }

    /// The number nearest to an integer.
    pub fn from_u128(n: u128) -> (r: Self)
        ensures
            r@ == Value::of_nat(n as nat),
            r@ is Finite,
            r@ == Value::zero() <==> n == 0,
    {
        proof {
            lemma_of_nat_bounds(n as nat);
            lemma_pow2_pos(1074);
            crate::rounding::lemma_width();
            assert(1 * pow2(0) == 1);
        }
        round(n, 1074, 1, 0)
    }

    /// The number nearest to `n / d`, exactly rounded if both have at most 53 bits.
    pub fn quotient(n: u64, d: u64) -> (r: Self)
        requires
            d > 0,
        ensures
            r@ == Value::quotient(n as nat, d as nat),
    {
        let (top, bottom) = (Self::from_u128(n as u128), Self::from_u128(d as u128));
        top.over(bottom)
    }

    /// The significand and the exponent of a finite number.
    fn parts(self) -> (r: (u64, u64))
        requires
            self@ is Finite,
        ensures
            self@->Finite_0 == r.0 * pow2(r.1 as nat),
            self@->Finite_0 < pow2(2098),
            r.0 < 0x20_0000_0000_0000,
            r.1 <= 2045,
            r.1 > 0 ==> r.0 >= 0x10_0000_0000_0000,
    {
        proof {
            use_type_invariant(&self);
        }
        let exponent: u64 = self.bits / 0x10_0000_0000_0000;
        let fraction: u64 = self.bits % 0x10_0000_0000_0000;
        if exponent == 0 {
            proof {
                lemma_encodes(fraction, 0, self.bits);
            }
            (fraction, 0)
        } else {
            proof {
                lemma_encodes(
                    (0x10_0000_0000_0000 + fraction) as u64,
                    (exponent - 1) as u64,
                    self.bits,
                );
            }
            (0x10_0000_0000_0000 + fraction, exponent - 1)
        }
    }

    /// Whether the number is finite.
    pub fn is_finite(self) -> (r: bool)
        ensures
            r == (self@ is Finite),
    {
        self.bits != INFINITE_BITS
    }

    /// `self <= other`.
    pub fn at_most(self, other: Self) -> (r: bool)
        ensures
            r == self@.at_most(other@),
    {
        proof {
            use_type_invariant(&self);
            use_type_invariant(&other);
            if self.bits < other.bits {
                lemma_bits_ordered(self.bits, other.bits);
            } else if other.bits < self.bits {
                lemma_bits_ordered(other.bits, self.bits);
            }
        }
        self.bits <= other.bits
    }

    /// `self < other`.
    pub fn below(self, other: Self) -> (r: bool)
        ensures
            r == self@.below(other@),
    {
        !other.at_most(self)
    }

    /// The lesser of two.
    pub fn lesser(self, other: Self) -> (r: Self)
        ensures
            r@ == self@.lesser(other@),
    {
        if self.at_most(other) {
            self
        } else {
            other
        }
    }

    /// The greater of two.
    pub fn greater(self, other: Self) -> (r: Self)
        ensures
            r@ == self@.greater(other@),
    {
        if self.at_most(other) {
            other
        } else {
            self
        }
    }

    /// The product.
    pub fn times(self, other: Self) -> (r: Self)
        requires
            self@.can_times(other@),
        ensures
            r@ == self@.times(other@),
    {
        if !self.is_finite() || !other.is_finite() {
            return Self::infinity();
        }
        let (m1, k1) = self.parts();
        let (m2, k2) = other.parts();
        assert(0 <= m1 * m2 < 0x1000_0000_0000_0000_0000_0000_0000_0000) by (nonlinear_arith)
            requires
                0 <= m1 < 0x20_0000_0000_0000,
                0 <= m2 < 0x20_0000_0000_0000,
        ;
        let n: u128 = m1 as u128 * m2 as u128;
        proof {
            let (p1, p2) = (pow2(k1 as nat), pow2(k2 as nat));
            lemma_pow2_adds(k1 as nat, k2 as nat);
            assert((m1 as nat * p1) * (m2 as nat * p2) == n as nat * (p1 * p2)) by (nonlinear_arith)
                requires
                    n == m1 * m2,
            ;
            assert(1 * pow2(1074) == pow2(1074));
        }
        round(n, k1 + k2, 1, 1074)
    }

    /// The quotient.
    pub fn over(self, other: Self) -> (r: Self)
        requires
            self@.can_over(other@),
        ensures
            r@ == self@.over(other@),
    {
        if !self.is_finite() {
            return Self::infinity();
        }
        if !other.is_finite() {
            return Self::zero();
        }
        let (m1, k1) = self.parts();
        let (m2, k2) = other.parts();
        if m2 == 0 {
            assert(other@->Finite_0 == 0) by (nonlinear_arith)
                requires
                    other@->Finite_0 == m2 * pow2(k2 as nat),
                    m2 == 0,
            ;
            return Self::infinity();
        }
        proof {
            lemma_pow2_adds(k1 as nat, 1074);
            lemma_pow2_pos(k2 as nat);
            lemma_mul_is_associative(m1 as int, pow2(k1 as nat) as int, pow2(1074) as int);
            lemma_mul_strictly_positive(m2 as int, pow2(k2 as nat) as int);
        }
        round(m1 as u128, k1 + 1074, m2 as u128, k2)
    }

    /// The sum.
    pub fn plus(self, other: Self) -> (r: Self)
        ensures
            r@ == self@.plus(other@),
    {
        if !self.is_finite() || !other.is_finite() {
            return Self::infinity();
        }
        let (m1, k1) = self.parts();
        let (m2, k2) = other.parts();
        if k1 >= k2 {
            Self::add_parts(self, m1, k1, m2, k2)
        } else {
            Self::add_parts(other, m2, k2, m1, k1)
        }
    }

    /// The sum of two numbers in parts, the first with the greater exponent, which is `larger`.
    fn add_parts(larger: Self, m1: u64, k1: u64, m2: u64, k2: u64) -> (r: Self)
        requires
            k2 <= k1 <= 2045,
            m1 < 0x20_0000_0000_0000,
            m2 < 0x20_0000_0000_0000,
            k1 > 0 ==> m1 >= 0x10_0000_0000_0000,
            larger@ == Value::Finite(m1 as nat * pow2(k1 as nat)),
            m1 * pow2(k1 as nat) < pow2(2098),
        ensures
            r@ == Value::ratio(m1 as nat * pow2(k1 as nat) + m2 as nat * pow2(k2 as nat), 1),
    {
        let apart: u64 = k1 - k2;
        let ghost (p1, p2, gap) = (pow2(k1 as nat), pow2(k2 as nat), pow2(apart as nat));
        proof {
            crate::rounding::lemma_width();
            lemma_pow2_adds(apart as nat, k2 as nat);
            lemma_pow2_pos(apart as nat);
            assert(1 * pow2(0) == 1);
        }
        if apart <= 64 {
            let shift: u128 = power(apart);
            proof {
                lemma2_to64();
                if apart < 64 {
                    lemma_pow2_strictly_increases(apart as nat, 64);
                }
                assert(0 <= m1 * shift < 0x20_0000_0000_0000 * 0x1_0000_0000_0000_0000)
                    by (nonlinear_arith)
                    requires
                        0 <= m1 < 0x20_0000_0000_0000,
                        1 <= shift <= 0x1_0000_0000_0000_0000,
                ;
                assert((m1 as nat * gap + m2 as nat) * p2 == m1 as nat * p1 + m2 as nat * p2)
                    by (nonlinear_arith)
                    requires
                        p1 == gap * p2,
                ;
            }
            round(m1 as u128 * shift + m2 as u128, k2, 1, 0)
        } else {
            proof {
                let n = m1 as nat * gap + m2 as nat;
                let sum = m1 as nat * p1 + m2 as nat * p2;
                assert(n * p1 == sum * gap) by (nonlinear_arith)
                    requires
                        n == m1 as nat * gap + m2 as nat,
                        sum == m1 as nat * p1 + m2 as nat * p2,
                        p1 == gap * p2,
                ;
                lemma2_to64();
                lemma2_to64_rest();
                lemma_pow2_strictly_increases(64, apart as nat);
                crate::rounding::lemma_quotient(n, gap, m1 as nat, m2 as nat);
                crate::rounding::lemma_rounded_normal(n, gap, k1 as nat);
                crate::rounding::lemma_rounded_scales(sum, 1, gap);
                assert(1 * gap == gap);
            }
            larger
        }
    }

    /// The integer part, at most the largest `usize`.
    pub fn truncated(self) -> (r: usize)
        ensures
            r == self@.truncated(usize::MAX as nat),
    {
        if !self.is_finite() {
            return usize::MAX;
        }
        let (m, k) = self.parts();
        match split(m, k, 1) {
            None => usize::MAX,
            Some((whole, _, _)) => if whole < usize::MAX as u128 {
                whole as usize
            } else {
                usize::MAX
            },
        }
    }

    /// The least integer that is not less, at most the largest `usize`.
    pub fn raised(self) -> (r: usize)
        ensures
            r == self@.raised(usize::MAX as nat),
    {
        if !self.is_finite() {
            return usize::MAX;
        }
        let (m, k) = self.parts();
        match split(m, k, 1) {
            None => usize::MAX,
            Some((below, exact, _)) => {
                let whole: u128 = if exact {
                    below
                } else {
                    below + 1
                };
                if whole < usize::MAX as u128 {
                    whole as usize
                } else {
                    usize::MAX
                }
            },
        }
    }

    /// The integer nearest to `scale` times the number, if it is at most `most`.
    pub fn scaled(self, scale: u64, most: u128) -> (r: Option<u128>)
        requires
            0 < scale <= 0x4000_0000,
            most < scale * 0x1_0000_0000_0000_0000,
        ensures
            match r {
                Some(n) => self@.scaled(scale as nat, most as nat) == Some(n as nat),
                None => self@.scaled(scale as nat, most as nat) is None,
            },
    {
        if !self.is_finite() {
            return None;
        }
        let (m, k) = self.parts();
        match split(m, k, scale) {
            None => None,
            Some((_, _, near)) => if near <= most {
                Some(near)
            } else {
                None
            },
        }
    }
}

/// Splits `scale` times `m * pow2(k)` units: its integer part, whether that is all of it, and
/// the integer nearest to it; or nothing if it is at least `scale * pow2(64)`.
fn split(m: u64, k: u64, scale: u64) -> (r: Option<(u128, bool, u128)>)
    requires
        m < 0x20_0000_0000_0000,
        k > 0 ==> m >= 0x10_0000_0000_0000,
        k <= 2045,
        0 < scale <= 0x4000_0000,
    ensures
        ({
            let x = (m as nat * pow2(k as nat)) * scale as nat;
            match r {
                Some((whole, exact, near)) => {
                    &&& whole == x / Value::one()
                    &&& exact == (x % Value::one() == 0)
                    &&& near == crate::rounding::nearest(x, Value::one())
                    &&& whole < 0x8000_0000_0000_0000_0000_0000_0000_0000
                },
                None => {
                    &&& x / Value::one() >= scale * 0x1_0000_0000_0000_0000
                    &&& crate::rounding::nearest(x, Value::one()) >= scale
                        * 0x1_0000_0000_0000_0000
                },
            }
        }),
{
    assert(0 <= m * scale < 0x20_0000_0000_0000 * 0x1_0000_0000) by (nonlinear_arith)
        requires
            0 <= m < 0x20_0000_0000_0000,
            0 < scale <= 0x4000_0000,
    ;
    let n: u128 = m as u128 * scale as u128;
    let ghost one = Value::one();
    let ghost x = (m as nat * pow2(k as nat)) * scale as nat;
    proof {
        lemma_pow2_pos(1074);
        lemma2_to64();
        lemma2_to64_rest();
        assert(x == n as nat * pow2(k as nat)) by (nonlinear_arith)
            requires
                x == (m as nat * pow2(k as nat)) * scale as nat,
                n == m * scale,
        ;
    }
    if k >= 1074 {
        let over: u64 = k - 1074;
        let ghost p = pow2(over as nat);
        let ghost c = n as nat * p;
        proof {
            lemma_pow2_adds(over as nat, 1074);
            lemma_mul_is_associative(n as int, p as int, one as int);
            crate::rounding::lemma_nearest_scales(c, 1, one);
            crate::rounding::lemma_quotient(x, one, c, 0);
            crate::rounding::lemma_quotient(c, 1, c, 0);
            assert(1 * one == one);
        }
        if over >= 12 {
            proof {
                if over > 12 {
                    lemma_pow2_strictly_increases(12, over as nat);
                }
                assert(c >= scale * 0x1_0000_0000_0000_0000) by (nonlinear_arith)
                    requires
                        c == n as nat * p,
                        n == m * scale,
                        m >= 0x10_0000_0000_0000,
                        p >= 0x1000,
                        scale > 0,
                ;
            }
            return None;
        }
        let shift: u128 = power(over);
        proof {
            lemma_pow2_strictly_increases(over as nat, 12);
            assert(n * shift < 0x20_0000_0000_0000 * 0x1_0000_0000 * 0x1000) by (nonlinear_arith)
                requires
                    0 <= n < 0x20_0000_0000_0000 * 0x1_0000_0000,
                    0 <= shift < 0x1000,
            ;
        }
        Some((n * shift, true, n * shift))
    } else {
        let under: u64 = 1074 - k;
        let ghost p = pow2(k as nat);
        let ghost wide = pow2(under as nat);
        proof {
            lemma_pow2_adds(under as nat, k as nat);
            lemma_pow2_pos(under as nat);
            lemma_pow2_pos(k as nat);
            crate::rounding::lemma_nearest_scales(n as nat, wide, p);
            // what is left over, in units
            let (q, rest) = (n as nat / wide, n as nat % wide);
            lemma_fundamental_div_mod(n as int, wide as int);
            assert(x == q * one + rest * p) by (nonlinear_arith)
                requires
                    x == n as nat * p,
                    one == wide * p,
                    n as nat == wide * q + rest,
            ;
            lemma_mul_strict_inequality(rest as int, wide as int, p as int);
            crate::rounding::lemma_quotient(x, one, q, rest * p);
            if rest > 0 {
                lemma_mul_strictly_positive(rest as int, p as int);
            } else {
                lemma_mul_by_zero_is_zero(p as int);
            }
        }
        if under > 100 {
            proof {
                lemma_pow2_adds(36, 64);
                lemma_pow2_strictly_increases(100, under as nat);
                crate::rounding::lemma_quotient(n as nat, wide, 0, n as nat);
            }
            return Some((0, n == 0, 0));
        }
        let bottom: u128 = power(under);
        proof {
            lemma_pow2_adds(36, 64);
            if under < 100 {
                lemma_pow2_strictly_increases(under as nat, 100);
            }
            assert(n as int / bottom as int <= n) by {
                lemma_div_nonincreasing(n as int, bottom as int);
            }
        }
        Some((n / bottom, n % bottom == 0, nearest(n, bottom)))
    }
}

} // verus!
