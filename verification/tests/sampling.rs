//! Samples, as the pacer takes them and as a policy reads them.

use starve_not::sample::Sampler;
use starve_not::{Binary64, Duration, Gate, IdleTimes, Instant, Sample};

fn at(secs: i128) -> Instant {
    Instant::from_nanos(secs * 1_000_000_000).unwrap()
}

fn idle(millis: &[u64]) -> IdleTimes {
    let mut times = IdleTimes::new();
    for &ms in millis {
        times.push(Duration::from_millis(ms));
    }
    times
}

fn complete(gate: &mut Gate, n: usize) {
    gate.try_acquire_up_to(n).unwrap().complete(gate);
}

fn release(gate: &mut Gate, n: usize) {
    gate.try_acquire_up_to(n).unwrap().release(gate);
}

#[test]
fn idle_times_are_kept_in_order() {
    let times = idle(&[5, 7, 9]);
    assert_eq!(times.len(), 3);
    assert_eq!(times.get(0), Some(Duration::from_millis(5)));
    assert_eq!(times.get(2), Some(Duration::from_millis(9)));
    assert_eq!(times.get(3), None);
    let copy = times.clone();
    assert_eq!(copy, times);
    assert_ne!(copy, idle(&[5, 7]));
    assert_eq!(idle(&[]).len(), 0);
}

#[test]
fn new_samples_are_blank() {
    let sample = Sample::new(at(3), Duration::from_secs(2), 4, 5);
    assert_eq!(sample.at, at(3));
    assert_eq!(sample.elapsed, Duration::from_secs(2));
    assert_eq!((sample.completed, sample.released), (0, 0));
    assert_eq!(sample.idle.len(), 0);
    assert_eq!((sample.in_flight, sample.limit), (4, 5));
    assert_eq!(sample.clone(), sample);
    assert!(sample.idle_shares().is_empty());
    assert!(!sample.idle_above(Binary64::zero()));
}

/// The shares are fractions of the interval, at most one, and none of no time.
#[test]
fn idle_shares_are_at_most_one() {
    let mut sample = Sample::new(at(0), Duration::from_secs(2), 0, 1);
    sample.idle = idle(&[0, 500, 2000, 9000]);
    let shares: Vec<f64> =
        sample.idle_shares().into_iter().map(|share| f64::from_bits(share.to_bits())).collect();
    assert_eq!(shares, vec![0.0, 0.25, 1.0, 1.0]);
    assert!(sample.idle_above(Binary64::quotient(99, 100)));
    assert!(!sample.idle_above(Binary64::from_u128(1)));
    sample.idle = idle(&[0, 500]);
    assert!(sample.idle_above(Binary64::quotient(24, 100)));
    assert!(!sample.idle_above(Binary64::quotient(1, 4)));
    sample.elapsed = Duration::zero();
    assert_eq!(sample.idle_shares(), vec![Binary64::zero(), Binary64::zero()]);
    assert!(!sample.idle_above(Binary64::zero()));
}

/// What happened before the first reading is in no sample, and each sample tells of what happened
/// since the one before.
#[test]
fn first_reading_is_the_baseline() {
    let mut gate = Gate::new(10);
    let mut sampler = Sampler::default();
    complete(&mut gate, 7);
    assert!(sampler.can_sample(&gate, at(0)));
    assert!(sampler.sample(&gate, idle(&[100]), at(0)).is_none());
    complete(&mut gate, 3);
    release(&mut gate, 2);
    let inside = gate.try_acquire_up_to(4).unwrap();
    let sample = sampler.sample(&gate, idle(&[600]), at(2)).unwrap();
    assert_eq!(sample.at, at(2));
    assert_eq!(sample.elapsed, Duration::from_secs(2));
    assert_eq!((sample.completed, sample.released), (3, 2));
    assert_eq!(sample.idle, idle(&[500]));
    assert_eq!((sample.in_flight, sample.limit), (4, 10));
    inside.complete(&mut gate);
    let sample = sampler.sample(&gate, idle(&[600]), at(3)).unwrap();
    assert_eq!((sample.completed, sample.released, sample.in_flight), (4, 0, 0));
    assert_eq!(sample.idle, idle(&[0]));
}

/// A reading when no time has passed gives no sample, and what it saw is told by the next.
#[test]
fn readings_at_the_same_time_carry_over() {
    let mut gate = Gate::new(10);
    let mut sampler = Sampler::new();
    assert!(sampler.sample(&gate, idle(&[0]), at(5)).is_none());
    complete(&mut gate, 2);
    assert!(sampler.sample(&gate, idle(&[300]), at(5)).is_none());
    assert!(sampler.sample(&gate, idle(&[300]), at(4)).is_none());
    complete(&mut gate, 1);
    let peeked = sampler.peek(&gate, &idle(&[400]), at(6)).unwrap();
    let sample = sampler.sample(&gate, idle(&[400]), at(6)).unwrap();
    assert_eq!(peeked, sample);
    assert_eq!(sample.elapsed, Duration::from_secs(1));
    assert_eq!(sample.completed, 3);
    assert_eq!(sample.idle, idle(&[400]));
}

/// Two samples in a row together tell of what one over both intervals tells of.
#[test]
fn samples_add_up() {
    let mut gate = Gate::new(10);
    let mut often = Sampler::new();
    let mut once = Sampler::new();
    often.sample(&gate, idle(&[10, 20]), at(0));
    once.sample(&gate, idle(&[10, 20]), at(0));
    complete(&mut gate, 4);
    release(&mut gate, 1);
    let first = often.sample(&gate, idle(&[110, 20]), at(2)).unwrap();
    complete(&mut gate, 2);
    let second = often.sample(&gate, idle(&[150, 90]), at(7)).unwrap();
    let both = once.sample(&gate, idle(&[150, 90]), at(7)).unwrap();
    assert_eq!(first.elapsed.plus(second.elapsed), both.elapsed);
    assert_eq!(first.completed + second.completed, both.completed);
    assert_eq!(first.released + second.released, both.released);
    for i in 0..2usize {
        let sum = first.idle.get(i).unwrap().plus(second.idle.get(i).unwrap());
        assert_eq!(Some(sum), both.idle.get(i));
    }
}

#[test]
fn idle_differences_cover_the_probes_known_to_both() {
    let gate = Gate::new(1);
    let mut sampler = Sampler::new();
    sampler.sample(&gate, idle(&[10, 50]), at(0));
    // a reading below the last one counts as none
    let sample = sampler.sample(&gate, idle(&[30, 40, 70]), at(1)).unwrap();
    assert_eq!(sample.idle, idle(&[20, 0]));
    let sample = sampler.sample(&gate, idle(&[35]), at(2)).unwrap();
    assert_eq!(sample.idle, idle(&[5]));
}

#[test]
fn counts_that_go_backwards_give_no_sample() {
    let mut gate = Gate::new(1);
    complete(&mut gate, 1);
    let mut sampler = Sampler::new();
    sampler.sample(&gate, idle(&[]), at(0));
    let fresh = Gate::new(1);
    assert!(!sampler.can_sample(&fresh, at(1)));
    assert!(sampler.can_sample(&fresh, at(0)));
    assert!(sampler.can_sample(&gate, at(1)));
}

/// Over any run of readings the samples together tell of everything from the first reading to the
/// latest that was kept.
#[test]
fn samples_of_a_long_run_add_up() {
    let mut gate = Gate::new(100);
    let mut sampler = Sampler::new();
    let mut seed = 0x9e37_79b9_7f4a_7c15u64;
    complete(&mut gate, 5);
    let (mut secs, mut idle_ms) = (0i128, 0u64);
    let (mut elapsed, mut completed, mut released, mut waited) = (0u128, 0u64, 0u64, 0u128);
    assert!(sampler.sample(&gate, idle(&[idle_ms]), at(secs)).is_none());
    for i in 0..500u64 {
        seed ^= seed << 13;
        seed ^= seed >> 7;
        seed ^= seed << 17;
        complete(&mut gate, 1 + seed as usize % 7);
        if seed % 3 == 0 {
            release(&mut gate, 1);
        }
        idle_ms += seed % 900;
        // now and then no time passes; the last reading is later than all others
        if seed % 4 > 0 || i == 499 {
            secs += 1 + (seed >> 40) as i128 % 5;
        }
        if let Some(sample) = sampler.sample(&gate, idle(&[idle_ms]), at(secs)) {
            elapsed += sample.elapsed.as_nanos();
            completed += sample.completed;
            released += sample.released;
            waited += sample.idle.get(0).unwrap().as_nanos();
        }
    }
    assert_eq!(elapsed, secs as u128 * 1_000_000_000);
    assert_eq!(completed, gate.completed() - 5);
    assert_eq!(released, gate.released());
    assert_eq!(waited, idle_ms as u128 * 1_000_000);
}
