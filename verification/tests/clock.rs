//! Durations, moments and the idle probe.

use starve_not::{Duration, IdleProbe, Instant};

fn at(nanos: i128) -> Instant {
    Instant::from_nanos(nanos).unwrap()
}

fn span(nanos: u128) -> Duration {
    Duration::from_nanos(nanos).unwrap()
}

#[test]
fn durations_end_where_the_standard_ones_do() {
    let longest = std::time::Duration::MAX.as_nanos();
    assert_eq!(span(longest).as_nanos(), longest);
    assert_eq!(Duration::from_nanos(longest + 1), None);
    assert_eq!(Duration::from_secs(3).as_nanos(), 3_000_000_000);
    assert_eq!(Duration::from_millis(3).as_nanos(), 3_000_000);
    assert!(Duration::zero().is_zero());
    assert_eq!(span(5).saturating_plus(span(longest)), span(longest));
    assert_eq!(span(longest).doubled(), span(longest));
    assert_eq!(span(21).doubled(), span(42));
    assert_eq!(span(5).saturating_minus(span(7)), Duration::zero());
    assert_eq!(span(7).saturating_minus(span(5)), span(2));
    assert_eq!(span(7).minus(span(5)), span(2));
    assert_eq!(span(7).plus(span(5)), span(12));
    assert_eq!(span(7).shorter(span(5)), span(5));
    assert_eq!(span(7).longer(span(5)), span(7));
}

#[test]
fn moments_add_and_subtract() {
    assert_eq!(at(10).checked_add(span(5)), Some(at(15)));
    assert_eq!(at(10).checked_sub(span(15)), Some(at(-5)));
    assert_eq!(at(10).saturating_duration_since(at(4)), span(6));
    assert_eq!(at(4).saturating_duration_since(at(10)), Duration::zero());
    assert!(at(4).not_before(at(4)));
    assert!(!at(4).not_before(at(5)));
    let longest = span(std::time::Duration::MAX.as_nanos());
    assert_eq!(at(0).checked_add(longest), None);
    assert_eq!(at(0).checked_sub(longest), None);
    assert_eq!(Instant::from_nanos(i128::MAX), None);
    assert_eq!(Instant::from_nanos(i128::MIN), None);
    assert_eq!(at(-7).as_nanos(), -7);
}

#[test]
fn unmatched_end_is_ignored() {
    let mut probe = IdleProbe::new();
    probe.end(at(100));
    assert_eq!(probe.waiting(), 0);
    assert_eq!(probe.total(at(200)), Duration::zero());
    probe.start(at(200));
    probe.end(at(230));
    probe.end(at(300));
    assert_eq!(probe.total(at(1000)), span(30));
}

#[test]
fn overlapping_waits_count_only_once() {
    let mut probe = IdleProbe::default();
    probe.start(at(10));
    probe.start(at(20));
    assert_eq!(probe.waiting(), 2);
    probe.end(at(30));
    assert_eq!(probe.total(at(35)), span(25));
    probe.end(at(50));
    assert_eq!(probe.waiting(), 0);
    assert_eq!(probe.total(at(90)), span(40));
    probe.start(at(100));
    probe.end(at(101));
    assert_eq!(probe.total(at(200)), span(41));
}

#[test]
fn idle_readings_only_grow() {
    let mut probe = IdleProbe::new();
    let mut last = Duration::zero();
    for i in 0..50i128 {
        let now = at(i * 7);
        let before = probe.total(now);
        if i % 5 < 2 {
            probe.start(now);
        } else {
            probe.end(now);
        }
        let after = probe.total(now);
        assert_eq!(before, after);
        assert!(last.at_most(after));
        assert!(probe.can_read(now));
        last = after;
    }
}

#[test]
fn idle_time_can_be_too_long_to_read() {
    let mut probe = IdleProbe::new();
    let start = at(-9_000_000_000_000_000_000_000_000_000);
    let end = at(9_000_000_000_000_000_000_000_000_000);
    probe.start(start);
    assert!(probe.can_read(end));
    probe.end(end);
    assert_eq!(probe.total(end), span(18_000_000_000_000_000_000_000_000_000));
    probe.start(start);
    assert!(!probe.can_read(end));
    assert!(probe.can_read(start));
    // with another worker still waiting, one that stops adds nothing yet
    probe.start(start);
    probe.end(end);
    assert_eq!(probe.waiting(), 1);
}

/// Whatever the workers do, the probe reads the time in which at least one of them waited.
#[test]
fn idle_time_is_the_time_waited() {
    let mut probe = IdleProbe::new();
    let mut seed = 0x9e37_79b9_7f4a_7c15u64;
    let (mut now, mut waiting, mut waited) = (0i128, 0usize, 0u128);
    for _ in 0..2000 {
        seed ^= seed << 13;
        seed ^= seed >> 7;
        seed ^= seed << 17;
        let step = (seed >> 30) % 100;
        now += step as i128;
        if waiting > 0 {
            waited += step as u128;
        }
        if seed % 5 < 2 {
            probe.start(at(now));
            waiting += 1;
        } else {
            probe.end(at(now));
            waiting = waiting.saturating_sub(1);
        }
        assert_eq!(probe.waiting(), waiting);
        assert_eq!(probe.total(at(now)), span(waited));
    }
    assert!(waited > 1000);
}
