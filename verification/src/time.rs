//! Spans of time and moments, counted in nanoseconds.

use vstd::arithmetic::power2::*;
use vstd::prelude::*;

use crate::binary64::{Binary64, Value};

verus! {

/// The longest [`Duration`]: as many seconds as 64 bits can count, and all but one nanosecond of
/// the next.
pub const LONGEST_NANOS: u128 = 18_446_744_073_709_551_615_999_999_999;

/// The earliest [`Instant`]: as many seconds before the origin as a signed 64-bit count holds.
pub const EARLIEST_NANOS: i128 = -9_223_372_036_854_775_808_000_000_000;

/// The latest [`Instant`]: the last nanosecond that a signed 64-bit count of seconds reaches.
pub const LATEST_NANOS: i128 = 9_223_372_036_854_775_807_999_999_999;

const NANOS_PER_SEC: u128 = 1_000_000_000;

/// A span of time. Its view is its length in nanoseconds.
#[derive(Debug, Clone, Copy, PartialEq, Eq, PartialOrd, Ord, Hash, Structural)]
pub struct Duration {
    nanos: u128,
}

impl View for Duration {
    type V = nat;

    closed spec fn view(&self) -> nat {
        self.nanos as nat
    }
}

/// A span of so many nanoseconds, in seconds: the whole seconds and the rest are converted one
/// by one, and added.
pub open spec fn seconds(nanos: nat) -> Value {
    Value::of_nat(nanos / 1_000_000_000).plus(
        Value::of_nat(nanos % 1_000_000_000).over(Value::of_nat(1_000_000_000)),
    )
}

/// The nanoseconds nearest to a time in seconds, if a [`Duration`] can be that long.
pub open spec fn nanoseconds(secs: Value) -> Option<nat> {
    secs.scaled(1_000_000_000, LONGEST_NANOS as nat)
}

/// The nanoseconds from `earlier` to `later`, none if it is the other way round.
pub open spec fn since(later: int, earlier: int) -> nat {
    if later > earlier {
        (later - earlier) as nat
    } else {
        0
    }
}

/// The moment a span after another, if it can be told.
pub open spec fn after(at: int, nanos: nat) -> Option<int> {
    if at + nanos <= LATEST_NANOS {
        Some(at + nanos)
    } else {
        None
    }
}

/// The lesser of two lengths.
pub open spec fn shorter(a: nat, b: nat) -> nat {
    if a <= b {
        a
    } else {
        b
    }
}

/// The greater of two lengths.
pub open spec fn longer(a: nat, b: nat) -> nat {
    if a <= b {
        b
    } else {
        a
    }
}

/// A duration in seconds is finite, and unless it is zero it is far from it.
pub proof fn lemma_seconds(nanos: nat)
    requires
        nanos <= LONGEST_NANOS,
    ensures
        seconds(nanos) is Finite,
        nanos == 0 ==> seconds(nanos) == Value::zero(),
        nanos > 0 ==> seconds(nanos)->Finite_0 >= pow2(946),
        seconds(nanos)->Finite_0 <= pow2(1203),
{
    let one = Value::one();
    let (secs, rest) = (nanos / 1_000_000_000, nanos % 1_000_000_000);
    crate::binary64::lemma_of_nat_bounds(secs);
    crate::binary64::lemma_of_nat_bounds(rest);
    crate::binary64::lemma_of_nat_bounds(1_000_000_000);
    let x = Value::of_nat(secs)->Finite_0;
    let a = Value::of_nat(rest)->Finite_0;
    let b = Value::of_nat(1_000_000_000)->Finite_0;
    lemma_pow2_pos(1074);
    lemma_pow2_pos(946);
    // the rest is at most the nearest number to one second
    assert(a <= b) by {
        assert((rest * one) * 1 <= (1_000_000_000 * one) * 1) by (nonlinear_arith)
            requires
                rest <= 1_000_000_000,
        ;
        crate::rounding::rounding_is_monotone(rest * one, 1, 1_000_000_000 * one, 1);
    }
    let y = crate::rounding::rounded(a * one, b);
    crate::rounding::rounding_is_exact(1, 1074, 1);
    assert((a * one) * 1 <= ((1 * one) * 1) * b) by (nonlinear_arith)
        requires
            a <= b,
    ;
    crate::rounding::rounding_is_monotone(a * one, b, (1 * one) * 1, 1);
    lemma_pow2_strictly_increases(1074, 1202);
    lemma_pow2_strictly_increases(1202, 2098);
    assert(Value::of_nat(rest).over(Value::of_nat(1_000_000_000)) == Value::Finite(y));
    // so the sum is finite
    let z = crate::rounding::rounded(x + y, 1);
    lemma_pow2_unfold(1203);
    crate::rounding::rounding_is_exact(1, 1203, 1);
    crate::rounding::rounding_is_monotone(x + y, 1, (1 * pow2(1203)) * 1, 1);
    lemma_pow2_strictly_increases(1203, 2098);
    assert(seconds(nanos) == Value::Finite(z));
    if nanos == 0 {
        assert(a * one == 0) by (nonlinear_arith)
            requires
                a == 0,
        ;
        crate::rounding::lemma_rounded_tiny(a * one, b);
        crate::rounding::lemma_rounded_tiny(x + y, 1);
    } else {
        if secs == 0 {
            // at least one nanosecond
            lemma_pow2_adds(1074, 1074);
            lemma_pow2_adds(946, 1202);
            assert(((1 * pow2(946)) * 1) * b <= (a * one) * 1) by (nonlinear_arith)
                requires
                    b <= pow2(1202),
                    a >= one,
                    pow2(946) * pow2(1202) == one * one,
            ;
            crate::rounding::rounding_is_exact(1, 946, 1);
            crate::rounding::rounding_is_monotone((1 * pow2(946)) * 1, 1, a * one, b);
        }
        lemma_pow2_strictly_increases(946, 1074);
        crate::rounding::rounding_is_exact(1, 946, 1);
        crate::rounding::rounding_is_monotone((1 * pow2(946)) * 1, 1, x + y, 1);
    }
}

/// However long a time is, unless it is none its seconds are not zero.
pub proof fn lemma_seconds_positive(nanos: nat)
    requires
        nanos > 0,
    ensures
        seconds(nanos) != Value::zero(),
{
    let one = Value::one();
    let secs = nanos / 1_000_000_000;
    lemma_pow2_pos(1074);
    if secs == 0 {
        lemma_seconds(nanos);
        lemma_pow2_pos(946);
    } else {
        assert((1 * one) * 1 <= secs * one) by (nonlinear_arith)
            requires
                secs >= 1,
        ;
        crate::rounding::rounding_is_exact(1, 1074, 1);
        crate::rounding::rounding_is_monotone((1 * one) * 1, 1, secs * one, 1);
        let x = crate::rounding::rounded(secs * one, 1);
        match Value::of_nat(nanos % 1_000_000_000).over(Value::of_nat(1_000_000_000)) {
            Value::Finite(y) => {
                crate::rounding::rounding_is_monotone((1 * one) * 1, 1, x + y, 1);
            },
            Value::Infinite => {},
        }
    }
}

/// The part of a second that is left of a duration is the nearest number to it, and less than one.
pub proof fn lemma_part_of_second(rest: nat) -> (y: nat)
    requires
        rest < 1_000_000_000,
    ensures
        Value::of_nat(rest).over(Value::of_nat(1_000_000_000)) == Value::Finite(y),
        y == crate::rounding::rounded(rest * Value::one(), 1_000_000_000),
        y < Value::one(),
{
    lemma2_to64();
    lemma_pow2_adds(30, 1044);
    lemma_pow2_pos(1044);
    crate::binary64::lemma_quotient_between(rest, 1_000_000_000, 0, 0x3fff_ffff, 30);
    assert(0x3fff_ffff * pow2(1044) < 0x4000_0000 * pow2(1044)) by (nonlinear_arith)
        requires
            pow2(1044) > 0,
    ;
    crate::rounding::rounded(rest * Value::one(), 1_000_000_000)
}

/// A longer duration is no fewer seconds.
pub proof fn longer_is_more_seconds(short: nat, long: nat)
    requires
        short <= long <= LONGEST_NANOS,
    ensures
        seconds(short).at_most(seconds(long)),
{
    let one = Value::one();
    let nanos: nat = 1_000_000_000;
    let (s1, s2) = (short / nanos, long / nanos);
    let (r1, r2) = (short % nanos, long % nanos);
    lemma_seconds(short);
    lemma_seconds(long);
    crate::binary64::lemma_of_nat_bounds(s1);
    crate::binary64::lemma_of_nat_bounds(s2);
    let x1 = Value::of_nat(s1)->Finite_0;
    let x2 = Value::of_nat(s2)->Finite_0;
    let y1 = lemma_part_of_second(r1);
    let y2 = lemma_part_of_second(r2);
    lemma_pow2_pos(1074);
    if s1 == s2 {
        assert((r1 * one) * nanos <= (r2 * one) * nanos) by (nonlinear_arith)
            requires
                r1 <= r2,
        ;
        crate::rounding::rounding_is_monotone(r1 * one, nanos, r2 * one, nanos);
        crate::rounding::rounding_is_monotone(x1 + y1, 1, x2 + y2, 1);
    } else {
        assert(s1 + 1 <= s2);
        assert(s1 * one + one <= s2 * one) by (nonlinear_arith)
            requires
                s1 + 1 <= s2,
        ;
        crate::rounding::rounding_is_idempotent(s2 * one, 1);
        crate::rounding::rounding_is_monotone(x2, 1, x2 + y2, 1);
        if s1 < 0x20_0000_0000_0000 {
            crate::binary64::lemma_of_nat_exact(s1);
            crate::rounding::rounding_is_monotone(x1 + y1, 1, s2 * one, 1);
        } else {
            // numbers are two apart or more, so part of a second is less than half of that
            crate::rounding::lemma_width();
            lemma_pow2_adds(53, 1074);
            assert(s1 * one >= pow2(1127)) by (nonlinear_arith)
                requires
                    s1 >= pow2(53),
                    pow2(53) * one == pow2(1127),
            ;
            let e = crate::rounding::spacing(s1 * one);
            lemma_pow2_strictly_increases(1127, 1128);
            crate::rounding::lemma_spacing(pow2(1127), 1075);
            crate::rounding::lemma_spacing_monotone(pow2(1127), s1 * one);
            lemma_pow2_unfold(1075);
            if e > 1075 {
                lemma_pow2_strictly_increases(1075, e);
            }
            crate::rounding::lemma_rounded_absorbs(s1 * one, y1);
            crate::rounding::rounding_is_monotone(s1 * one, 1, s2 * one, 1);
        }
    }
}

impl Duration {
    #[verifier::type_invariant]
    spec fn fits(self) -> bool {
        self.nanos <= LONGEST_NANOS
    }

    /// No time at all.
    pub fn zero() -> (r: Self)
        ensures
            r@ == 0,
    {
        Self { nanos: 0 }
    }

    /// So many nanoseconds, if a duration can be that long.
    pub fn from_nanos(nanos: u128) -> (r: Option<Self>)
        ensures
            nanos <= LONGEST_NANOS ==> r is Some && r->0@ == nanos,
            nanos > LONGEST_NANOS ==> r is None,
    {
        if nanos <= LONGEST_NANOS {
            Some(Self { nanos })
        } else {
            None
        }
    }

    /// So many seconds.
    pub fn from_secs(secs: u64) -> (r: Self)
        ensures
            r@ == secs * 1_000_000_000,
    {
        Self { nanos: secs as u128 * NANOS_PER_SEC }
    }

    /// So many milliseconds.
    pub fn from_millis(millis: u64) -> (r: Self)
        ensures
            r@ == millis * 1_000_000,
    {
        Self { nanos: millis as u128 * 1_000_000 }
    }

    /// The length in nanoseconds.
    pub fn as_nanos(self) -> (r: u128)
        ensures
            r == self@,
            r <= LONGEST_NANOS,
    {
        proof {
            use_type_invariant(&self);
        }
        self.nanos
    }

    /// Whether no time passes at all.
    pub fn is_zero(self) -> (r: bool)
        ensures
            r == (self@ == 0),
    {
        self.nanos == 0
    }

    /// `self <= other`.
    pub fn at_most(self, other: Self) -> (r: bool)
        ensures
            r == (self@ <= other@),
    {
        self.nanos <= other.nanos
    }

    /// The shorter of two.
    pub fn shorter(self, other: Self) -> (r: Self)
        ensures
            r@ == shorter(self@, other@),
    {
        if self.nanos <= other.nanos {
            self
        } else {
            other
        }
    }

    /// The longer of two.
    pub fn longer(self, other: Self) -> (r: Self)
        ensures
            r@ == longer(self@, other@),
    {
        if self.nanos <= other.nanos {
            other
        } else {
            self
        }
    }

    /// The sum of two that a duration can hold.
    pub fn plus(self, other: Self) -> (r: Self)
        requires
            self@ + other@ <= LONGEST_NANOS,
        ensures
            r@ == self@ + other@,
    {
        Self { nanos: self.nanos + other.nanos }
    }

    /// What is left after taking a part away.
    pub fn minus(self, part: Self) -> (r: Self)
        requires
            part@ <= self@,
        ensures
            r@ == self@ - part@,
    {
        proof {
            use_type_invariant(&self);
        }
        Self { nanos: self.nanos - part.nanos }
    }

    /// The sum, at most the longest duration.
    pub fn saturating_plus(self, other: Self) -> (r: Self)
        ensures
            r@ == shorter(self@ + other@, LONGEST_NANOS as nat),
    {
        proof {
            use_type_invariant(&self);
            use_type_invariant(&other);
        }
        let sum: u128 = self.nanos + other.nanos;
        if sum <= LONGEST_NANOS {
            Self { nanos: sum }
        } else {
            Self { nanos: LONGEST_NANOS }
        }
    }

    /// What is left after taking another away, nothing if that is longer.
    pub fn saturating_minus(self, other: Self) -> (r: Self)
        ensures
            r@ == since(self@ as int, other@ as int),
    {
        proof {
            use_type_invariant(&self);
        }
        if self.nanos > other.nanos {
            Self { nanos: self.nanos - other.nanos }
        } else {
            Self { nanos: 0 }
        }
    }

    /// Twice the length, at most the longest duration.
    pub fn doubled(self) -> (r: Self)
        ensures
            r@ == shorter(2 * self@, LONGEST_NANOS as nat),
    {
        self.saturating_plus(self)
    }

    /// The length in seconds.
    pub fn in_seconds(self) -> (r: Binary64)
        ensures
            r@ == seconds(self@),
            r@ is Finite,
            r@ == Value::zero() <==> self@ == 0,
    {
        proof {
            use_type_invariant(&self);
            lemma_seconds(self@);
            lemma_pow2_pos(946);
        }
        let secs: u128 = self.nanos / NANOS_PER_SEC;
        let rest: u128 = self.nanos % NANOS_PER_SEC;
        let part = Binary64::from_u128(rest).over(Binary64::from_u128(NANOS_PER_SEC));
        Binary64::from_u128(secs).plus(part)
    }

    /// The duration nearest to a time in seconds, if there is one that long.
    pub fn from_seconds(secs: Binary64) -> (r: Option<Self>)
        ensures
            match r {
                Some(d) => nanoseconds(secs@) == Some(d@),
                None => nanoseconds(secs@) is None,
            },
    {
        match secs.scaled(1_000_000_000, LONGEST_NANOS) {
            Some(nanos) => Some(Self { nanos }),
            None => None,
        }
    }
}

/// A moment on some clock. Its view is how many nanoseconds it comes after the clock's origin.
///
/// Any clock does, as long as all moments that meet come from the same one.
#[derive(Debug, Clone, Copy, PartialEq, Eq, PartialOrd, Ord, Hash, Structural)]
pub struct Instant {
    nanos: i128,
}

impl View for Instant {
    type V = int;

    closed spec fn view(&self) -> int {
        self.nanos as int
    }
}

impl Instant {
    #[verifier::type_invariant]
    spec fn fits(self) -> bool {
        EARLIEST_NANOS <= self.nanos <= LATEST_NANOS
    }

    /// The moment so many nanoseconds after the clock's origin, or before it if negative, if it
    /// can be told.
    pub fn from_nanos(nanos: i128) -> (r: Option<Self>)
        ensures
            EARLIEST_NANOS <= nanos <= LATEST_NANOS ==> r is Some && r->0@ == nanos,
            !(EARLIEST_NANOS <= nanos <= LATEST_NANOS) ==> r is None,
    {
        if EARLIEST_NANOS <= nanos && nanos <= LATEST_NANOS {
            Some(Self { nanos })
        } else {
            None
        }
    }

    /// How many nanoseconds after the clock's origin it is.
    pub fn as_nanos(self) -> (r: i128)
        ensures
            r == self@,
            EARLIEST_NANOS <= r <= LATEST_NANOS,
    {
        proof {
            use_type_invariant(&self);
        }
        self.nanos
    }

    /// `self >= other`.
    pub fn not_before(self, other: Self) -> (r: bool)
        ensures
            r == (self@ >= other@),
    {
        self.nanos >= other.nanos
    }

    /// The moment `span` later, if it can be told.
    pub fn checked_add(self, span: Duration) -> (r: Option<Self>)
        ensures
            match r {
                Some(at) => after(self@, span@) == Some(at@),
                None => after(self@, span@) is None,
            },
    {
        proof {
            use_type_invariant(&self);
            use_type_invariant(&span);
        }
        let nanos: i128 = self.nanos + span.nanos as i128;
        if nanos <= LATEST_NANOS {
            Some(Self { nanos })
        } else {
            None
        }
    }

    /// The moment `span` earlier, if it can be told.
    pub fn checked_sub(self, span: Duration) -> (r: Option<Self>)
        ensures
            self@ - span@ >= EARLIEST_NANOS ==> r is Some && r->0@ == self@ - span@,
            self@ - span@ < EARLIEST_NANOS ==> r is None,
    {
        proof {
            use_type_invariant(&self);
            use_type_invariant(&span);
        }
        let nanos: i128 = self.nanos - span.nanos as i128;
        if nanos >= EARLIEST_NANOS {
            Some(Self { nanos })
        } else {
            None
        }
    }

    /// The time passed since `earlier`, none if that is later.
    pub fn saturating_duration_since(self, earlier: Self) -> (r: Duration)
        ensures
            r@ == since(self@, earlier@),
    {
        proof {
            use_type_invariant(&self);
            use_type_invariant(&earlier);
        }
        if self.nanos > earlier.nanos {
            Duration { nanos: (self.nanos - earlier.nanos) as u128 }
        } else {
            Duration { nanos: 0 }
        }
    }
}

/// Turning seconds into nanoseconds is off by at most half a nanosecond, and gives an even number
/// if it is off by that. It fails exactly if that would be longer than a [`Duration`] can be.
pub proof fn nanoseconds_are_nearest(secs: Value)
    ensures
        match nanoseconds(secs) {
            Some(nanos) => {
                let off = nanos * Value::one() - secs->Finite_0 * 1_000_000_000;
                &&& secs is Finite
                &&& nanos <= LONGEST_NANOS
                &&& -Value::one() <= 2 * off <= Value::one()
                &&& 2 * off == Value::one() || 2 * off == -Value::one() ==> nanos % 2 == 0
            },
            None => secs is Finite ==> (2 * LONGEST_NANOS + 1) * Value::one() <= 2
                * secs->Finite_0 * 1_000_000_000,
        },
{
    let one = Value::one();
    lemma_pow2_pos(1074);
    if secs is Finite {
        let exact = secs->Finite_0 * 1_000_000_000;
        crate::rounding::nearest_is_off_by_half_at_most(exact, one);
        let near = crate::rounding::nearest(exact, one);
        if near > LONGEST_NANOS {
            let most: nat = LONGEST_NANOS as nat;
            assert((2 * most + 1) * one <= 2 * (near * one) - one) by (nonlinear_arith)
                requires
                    near >= most + 1,
            ;
        }
    }
}

/// A span's seconds are those of its whole seconds and those of the rest, added: whole seconds are
/// as many as they are, and less than a second is its nanoseconds by as many as a second has.
pub proof fn seconds_are_whole_ones_and_a_rest(secs: nat, rest: nat)
    requires
        secs <= u64::MAX,
        rest < 1_000_000_000,
    ensures
        seconds(secs * 1_000_000_000) == Value::of_nat(secs),
        seconds(rest) == Value::of_nat(rest).over(Value::of_nat(1_000_000_000)),
        seconds(secs * 1_000_000_000 + rest) == seconds(secs * 1_000_000_000).plus(seconds(rest)),
{
    let one = Value::one();
    let giga: nat = 1_000_000_000;
    lemma_pow2_pos(1074);
    crate::rounding::lemma_quotient(secs * giga, giga, secs, 0);
    crate::rounding::lemma_quotient(rest, giga, 0, rest);
    crate::rounding::lemma_quotient(secs * giga + rest, giga, secs, rest);
    crate::binary64::lemma_of_nat_bounds(0);
    crate::binary64::lemma_of_nat_bounds(secs);
    crate::binary64::lemma_of_nat_bounds(rest);
    crate::binary64::lemma_of_nat_bounds(giga);
    let nothing = Value::of_nat(0).over(Value::of_nat(giga));
    assert(nothing == Value::Finite(0)) by {
        assert(0 * one == 0);
        crate::rounding::lemma_rounded_tiny(0, Value::of_nat(giga)->Finite_0);
        lemma_pow2_pos(2098);
    }
    crate::binary64::lemma_ratio_is_number(secs * one, 1);
    lemma_pow2_strictly_increases(1202, 2098);
    assert(Value::of_nat(secs).plus(nothing) == Value::of_nat(secs));
    let part = Value::of_nat(rest).over(Value::of_nat(giga));
    let u = Value::of_nat(rest)->Finite_0;
    crate::binary64::lemma_ratio_is_number(u * one, Value::of_nat(giga)->Finite_0);
    assert(Value::of_nat(0).plus(part) == part);
}

/// The time from one moment to a later one leads from the one to the other, and there is none to an
/// earlier one. There is a moment after every span that ends by the latest there is.
pub proof fn spans_lead_from_moment_to_moment(earlier: int, later: int, nanos: nat)
    ensures
        earlier <= later ==> earlier + since(later, earlier) == later,
        later <= earlier ==> since(later, earlier) == 0,
        after(earlier, nanos) is Some <==> earlier + nanos <= LATEST_NANOS,
        after(earlier, nanos) is Some ==> since(after(earlier, nanos)->0, earlier) == nanos,
        after(earlier, nanos) is Some ==> earlier <= after(earlier, nanos)->0,
        LONGEST_NANOS + 1 == (u64::MAX + 1) * 1_000_000_000,
        LATEST_NANOS + 1 == (i64::MAX + 1) * 1_000_000_000,
        EARLIEST_NANOS == i64::MIN * 1_000_000_000,
{
}

} // verus!
