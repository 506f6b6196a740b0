//! The numbers against the machine's own.

use starve_not::{Binary64, Duration};

/// Deterministic xorshift, so every run sees the same numbers.
struct Rng(u64);

impl Rng {
    fn next(&mut self) -> u64 {
        self.0 ^= self.0 << 13;
        self.0 ^= self.0 >> 7;
        self.0 ^= self.0 << 17;
        self.0
    }
}

fn number(x: f64) -> Binary64 {
    Binary64::from_bits(x.to_bits()).unwrap()
}

fn float(x: Binary64) -> f64 {
    f64::from_bits(x.to_bits())
}

/// Numbers of every size: the edges, and many at random.
fn numbers() -> Vec<f64> {
    let mut all = vec![
        0.0,
        f64::from_bits(1),
        f64::from_bits(2),
        f64::from_bits(0x000f_ffff_ffff_ffff),
        f64::MIN_POSITIVE,
        1e-300,
        1e-9,
        0.1,
        0.5,
        0.75,
        1.0 - f64::EPSILON / 2.0,
        1.0,
        1.0 + f64::EPSILON,
        1.05,
        1.5,
        2.0,
        3.0,
        1e9,
        9007199254740991.0,
        9007199254740992.0,
        9007199254740994.0,
        1.8446744073709552e19,
        1e100,
        f64::MAX,
        f64::INFINITY,
    ];
    let mut rng = Rng(0x9e37_79b9_7f4a_7c15);
    for i in 0..120u64 {
        let bits = rng.next() & 0x7fff_ffff_ffff_ffff;
        if bits < 0x7ff0_0000_0000_0000 {
            all.push(f64::from_bits(bits));
        }
        // near one, where most of the work is done
        let near = (0x3ff0_0000_0000_0000 - (40 << 52)) + rng.next() % (80 << 52);
        all.push(f64::from_bits(near));
        // few bits, where ties are common
        all.push((rng.next() % (1 << (i % 60 + 1))) as f64);
    }
    all
}

#[test]
fn bits_are_kept() {
    for x in numbers() {
        assert_eq!(number(x).to_bits(), x.to_bits());
    }
    assert_eq!(Binary64::from_bits((-0.0f64).to_bits()), Some(Binary64::zero()));
    assert_eq!(Binary64::from_bits((-1.0f64).to_bits()), None);
    assert_eq!(Binary64::from_bits(f64::NEG_INFINITY.to_bits()), None);
    assert_eq!(Binary64::from_bits(f64::NAN.to_bits()), None);
    assert_eq!(float(Binary64::infinity()), f64::INFINITY);
    assert_eq!(float(Binary64::zero()), 0.0);
}

#[test]
fn products_and_quotients_match_the_machine() {
    let all = numbers();
    for &x in &all {
        for &y in &all {
            let product = x * y;
            if !product.is_nan() {
                assert_eq!(number(x).times(number(y)).to_bits(), product.to_bits(), "{x} * {y}");
            }
            let quotient = x / y;
            if !quotient.is_nan() {
                assert_eq!(number(x).over(number(y)).to_bits(), quotient.to_bits(), "{x} / {y}");
            }
        }
    }
}

#[test]
fn sums_and_comparisons_match_the_machine() {
    let all = numbers();
    for &x in &all {
        for &y in &all {
            assert_eq!(number(x).plus(number(y)).to_bits(), (x + y).to_bits(), "{x} + {y}");
            assert_eq!(number(x).at_most(number(y)), x <= y, "{x} <= {y}");
            assert_eq!(number(x).below(number(y)), x < y, "{x} < {y}");
            assert_eq!(float(number(x).lesser(number(y))), x.min(y));
            assert_eq!(float(number(x).greater(number(y))), x.max(y));
        }
    }
}

#[test]
fn integers_match_the_machine() {
    for x in numbers() {
        assert_eq!(number(x).truncated(), x as usize, "{x}");
        assert_eq!(number(x).raised(), x.ceil() as usize, "{x}");
        assert_eq!(number(x).is_finite(), x.is_finite());
    }
    let mut rng = Rng(0x2545_f491_4f6c_dd1d);
    for i in 0..2000u32 {
        let wide = (rng.next() as u128) << 64 | rng.next() as u128;
        let n = wide >> (i % 128);
        assert_eq!(float(Binary64::from_u128(n)), n as f64, "{n}");
    }
    assert_eq!(float(Binary64::from_u128(u128::MAX)), u128::MAX as f64);
    assert_eq!(float(Binary64::quotient(9, 10)), 0.9);
    assert_eq!(float(Binary64::quotient(105, 100)), 1.05);
    assert_eq!(float(Binary64::quotient(1, 10)), 0.1);
    assert_eq!(float(Binary64::quotient(3, 2)), 1.5);
}

#[test]
fn seconds_match_the_machine() {
    let mut rng = Rng(0x9e37_79b9_7f4a_7c15);
    for i in 0..4000u32 {
        let secs = rng.next() >> (i % 64);
        let nanos = (rng.next() % 1_000_000_000) as u32;
        let std = std::time::Duration::new(secs, nanos);
        let own = Duration::from_nanos(std.as_nanos()).unwrap();
        assert_eq!(float(own.in_seconds()), std.as_secs_f64(), "{std:?}");
    }
    for x in numbers() {
        let std = std::time::Duration::try_from_secs_f64(x).ok();
        let own = Duration::from_seconds(number(x));
        assert_eq!(own.map(|d| d.as_nanos()), std.map(|d| d.as_nanos()), "{x}");
    }
    for i in 0..4000u64 {
        let x = f64::from_bits((0x3ff0_0000_0000_0000 - (35 << 52)) + rng.next() % (70 << 52));
        let x = if i % 2 == 0 { x } else { (i as f64 + 0.5) / 1e9 };
        let std = std::time::Duration::try_from_secs_f64(x).ok();
        let own = Duration::from_seconds(number(x));
        assert_eq!(own.map(|d| d.as_nanos()), std.map(|d| d.as_nanos()), "{x}");
    }
}

/// Rounding keeps the order: a larger factor gives no smaller product.
#[test]
fn rounding_keeps_the_order() {
    let mut all = numbers();
    all.retain(|x| x.is_finite());
    all.sort_by(f64::total_cmp);
    for pair in all.windows(2) {
        let third = Binary64::quotient(1, 3);
        assert!(number(pair[0]).times(third).at_most(number(pair[1]).times(third)));
    }
}

/// A number that is represented, and what has been rounded, rounds to itself, and nothing is
/// nearer than what a ratio rounds to.
#[test]
fn rounding_is_exact_and_nearest() {
    let one = Binary64::from_u128(1);
    for x in numbers() {
        assert_eq!(number(x).times(one), number(x));
    }
    // halfway between two numbers, the even one is taken
    assert_eq!(float(Binary64::from_u128(9007199254740993)), 9007199254740992.0);
    assert_eq!(float(Binary64::from_u128(9007199254740995)), 9007199254740996.0);
    assert_eq!(float(Binary64::quotient(1, 3)), 1.0 / 3.0);
}

/// A longer time is never fewer seconds, however long it is.
#[test]
fn longer_times_are_no_fewer_seconds() {
    for secs in [0u128, 1, 10, 1 << 52, 1 << 53, (1 << 53) + 1, (1 << 53) + 3, u64::MAX as u128 - 1] {
        for nanos in [0u128, 1, 499_999_999, 500_000_000, 999_999_998] {
            let short = Duration::from_nanos(secs * 1_000_000_000 + nanos).unwrap();
            let long = Duration::from_nanos(secs * 1_000_000_000 + nanos + 1).unwrap();
            let next = Duration::from_nanos((secs + 1) * 1_000_000_000).unwrap();
            assert!(short.in_seconds().at_most(long.in_seconds()));
            assert!(long.in_seconds().at_most(next.in_seconds()));
        }
    }
}
