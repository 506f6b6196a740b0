//! `Aimd`, `Fixed` and what policies report.

use starve_not::{Aimd, Binary64, Diagnostics, Duration, Fixed, Instant, Policy, Sample};

fn number(x: f64) -> Binary64 {
    Binary64::from_bits(x.to_bits()).unwrap()
}

fn sample(millis: u64, completed: u64, released: u64, in_flight: usize, limit: usize) -> Sample {
    let at = Instant::from_nanos(0).unwrap();
    let mut sample = Sample::new(at, Duration::from_millis(millis), in_flight, limit);
    sample.completed = completed;
    sample.released = released;
    sample
}

fn read(diagnostics: &Diagnostics, name: &str) -> f64 {
    let found = diagnostics.iter().into_iter().find(|(n, _)| *n == name);
    f64::from_bits(found.unwrap().1.to_bits())
}

#[test]
fn diagnostics_keep_names_and_values_in_order() {
    let mut d = Diagnostics::new();
    assert!(d.iter().is_empty());
    for (i, name) in ["a", "b", "c", "d", "e", "f", "g", "h"].into_iter().enumerate() {
        d.push(name, Binary64::from_u128(i as u128));
    }
    let all = d.iter();
    assert_eq!(all.len(), 8);
    assert_eq!(all[0], ("a", Binary64::zero()));
    assert_eq!(all[7], ("h", Binary64::from_u128(7)));
    assert!(d.clone() == d);
    assert!(d != Diagnostics::default());
}

/// Whatever happens, the limit stays.
#[test]
fn fixed_never_moves() {
    let mut policy = Fixed::new(7);
    assert_eq!((policy.limit(), policy.initial()), (7, 7));
    for s in [sample(0, 0, 0, 0, 3), sample(2000, 5, 0, 7, 7), sample(2000, 0, 9, 70, 7)] {
        assert!(policy.has_room(&s));
        assert_eq!(policy.decide(&s), 7);
    }
    assert!(policy.diagnostics().iter().is_empty());
}

#[test]
fn aimd_starts_in_range() {
    assert_eq!(Aimd::default().initial(), 1);
    assert_eq!(Aimd::builder().floor(4).build().initial(), 4);
    assert_eq!(Aimd::builder().floor(4).initial(2).build().initial(), 4);
    assert_eq!(Aimd::builder().floor(4).initial(9).build().initial(), 9);
    assert_eq!(Aimd::builder().initial(9999).build().initial(), 1024);
    // a max below the floor is the floor
    assert_eq!(Aimd::builder().floor(50).max(10).initial(99).build().initial(), 50);
}

#[test]
fn aimd_settings_out_of_range() {
    let b = Aimd::builder();
    assert!(b.is_valid());
    assert!(!b.floor(0).is_valid());
    assert!(!b.increase(0).is_valid());
    assert!(!b.backoff(number(0.0)).is_valid());
    assert!(!b.backoff(number(1.0)).is_valid());
    assert!(b.backoff(number(1.0 - f64::EPSILON / 2.0)).is_valid());
    assert!(b.backoff(number(f64::from_bits(1))).is_valid());
    assert!(!b.tolerance(number(1.0)).is_valid());
    assert!(b.tolerance(number(0.99)).is_valid());
    assert!(b.max_residence(Duration::zero()).is_valid());
}

/// On a good tick where items finished and at least half the limit is in use, the increase is
/// added, up to the max.
#[test]
fn aimd_adds_on_a_good_tick() {
    let mut policy = Aimd::builder().increase(3).max(50).build();
    assert_eq!(policy.decide(&sample(2000, 10, 0, 10, 20)), 23);
    assert_eq!(policy.decide(&sample(2000, 10, 0, 49, 49)), 50);
    let d = policy.diagnostics();
    assert_eq!(read(&d, "residence"), 49.0 * 2.0 / 10.0);
    assert_eq!(read(&d, "released_share"), 0.0);
    assert_eq!((read(&d, "congested"), read(&d, "in_use")), (0.0, 1.0));
    let mut wide = Aimd::builder().increase(usize::MAX).max(usize::MAX).build();
    assert_eq!(wide.decide(&sample(2000, 10, 0, 10, 20)), usize::MAX);
}

/// With less than half in use, or with nothing finished, the limit stays.
#[test]
fn aimd_keeps_the_limit_when_more_would_not_help() {
    let mut policy = Aimd::default();
    assert_eq!(policy.decide(&sample(2000, 10, 0, 9, 20)), 20);
    assert_eq!(read(&policy.diagnostics(), "in_use"), 0.0);
    assert_eq!(policy.decide(&sample(2000, 0, 0, 20, 20)), 20);
    let mut tolerant = Aimd::builder().tolerance(number(0.5)).build();
    assert_eq!(tolerant.decide(&sample(2000, 0, 0, 0, 20)), 20);
}

/// A bad tick multiplies the limit by the backoff, down to the floor, and always lowers it.
#[test]
fn aimd_cuts_on_a_bad_tick() {
    let mut policy = Aimd::builder().floor(5).build();
    assert_eq!(policy.decide(&sample(2000, 10, 1, 20, 100)), 90);
    let d = policy.diagnostics();
    assert_eq!(read(&d, "released_share"), 1.0 / 11.0);
    assert_eq!(read(&d, "congested"), 1.0);
    assert_eq!(policy.decide(&sample(2000, 10, 1, 20, 99)), 89);
    assert_eq!(policy.decide(&sample(2000, 10, 1, 5, 5)), 5);
    let gentle = number(1.0 - f64::EPSILON / 2.0);
    let mut policy = Aimd::builder().max(usize::MAX).backoff(gentle).build();
    for limit in [2usize, 3, 1000, 1 << 53, (1 << 53) + 1, (1 << 60) + 77, usize::MAX] {
        assert!(policy.decide(&sample(2000, 10, 1, 1, limit)) < limit);
    }
}

/// Any release is bad without tolerance; with some, only more than it.
#[test]
fn aimd_tolerates_some_releases() {
    let mut strict = Aimd::default();
    assert_eq!(strict.decide(&sample(2000, u64::MAX - 1, 1, 20, 100)), 90);
    let mut tolerant = Aimd::builder().tolerance(number(0.25)).build();
    assert_eq!(tolerant.decide(&sample(2000, 30, 10, 50, 100)), 101);
    assert_eq!(tolerant.decide(&sample(2000, 29, 10, 50, 100)), 90);
}

/// Items that take longer than allowed make a tick bad.
#[test]
fn aimd_cuts_when_items_get_slow() {
    let mut policy = Aimd::builder().max_residence(Duration::from_secs(10)).build();
    assert_eq!(policy.decide(&sample(2000, 10, 0, 50, 100)), 101);
    assert_eq!(policy.decide(&sample(2000, 10, 0, 51, 100)), 90);
    assert_eq!(read(&policy.diagnostics(), "residence"), 10.2);
}

/// Every bad tick cuts, also while more are inside than the limit allows.
#[test]
fn aimd_cuts_on_every_bad_tick() {
    let mut policy = Aimd::default();
    assert_eq!(policy.decide(&sample(1000, 0, 10, 200, 100)), 90);
    assert_eq!(policy.decide(&sample(2000, 1, 0, 95, 90)), 81);
    assert_eq!(policy.decide(&sample(2000, 1, 0, 90, 81)), 72);
}

/// A stall adds up across ticks, is bad once it has lasted for longer than allowed and not
/// before, and ends when an item leaves or none is inside.
#[test]
fn aimd_adds_up_stalls() {
    let mut policy = Aimd::builder().max_residence(Duration::from_secs(5)).build();
    assert_eq!(policy.decide(&sample(2000, 0, 0, 50, 100)), 100);
    assert_eq!(policy.decide(&sample(3000, 0, 0, 50, 100)), 100);
    assert_eq!(read(&policy.diagnostics(), "residence"), 5.0);
    assert_eq!(policy.decide(&sample(1, 0, 0, 50, 100)), 90);
    assert_eq!(policy.decide(&sample(2000, 10, 0, 10, 90)), 90);
    assert_eq!(policy.decide(&sample(4999, 0, 0, 50, 90)), 90);
    assert_eq!(policy.decide(&sample(2000, 0, 0, 0, 90)), 90);
    assert_eq!(policy.decide(&sample(4999, 0, 0, 50, 90)), 90);
    assert_eq!(read(&policy.diagnostics(), "congested"), 0.0);
}

/// If no time has passed the limit stays, and so does what is reported.
#[test]
fn aimd_needs_time_to_pass() {
    let mut policy = Aimd::default();
    policy.decide(&sample(2000, 10, 1, 20, 100));
    let before = policy.diagnostics();
    assert_eq!(policy.decide(&sample(0, 0, 50, 20, 5000)), 5000);
    assert!(policy.diagnostics() == before);
}

/// The same samples give the same answers, and the limit stays in range.
#[test]
fn aimd_repeats_itself_within_range() {
    let mut one = Aimd::builder().floor(3).max(40).build();
    let mut other = one;
    let mut limit = one.initial();
    let mut seed = 0x9e37_79b9_7f4a_7c15u64;
    for _ in 0..500 {
        seed ^= seed << 13;
        seed ^= seed >> 7;
        seed ^= seed << 17;
        let s = sample(1 + seed % 4000, seed % 13, (seed >> 32) % 13 / 12, limit, limit);
        limit = one.decide(&s);
        assert_eq!(limit, other.decide(&s));
        assert!(one.diagnostics() == other.diagnostics());
        assert!((3..=40).contains(&limit));
    }
}

#[test]
fn aimd_needs_room_for_the_counts() {
    let policy = Aimd::default();
    assert!(policy.has_room(&sample(2000, u64::MAX, 0, 1, 1)));
    assert!(!policy.has_room(&sample(2000, u64::MAX, 1, 1, 1)));
    // nothing is added up when no time has passed
    assert!(policy.has_room(&sample(0, u64::MAX, 1, 1, 1)));
    assert_eq!(Aimd::default().decide(&sample(0, u64::MAX, 1, 1, 7)), 7);
}
