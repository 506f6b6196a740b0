//! The pacer around a gate and a policy.

use starve_not::{
    Aimd, Binary64, Decision, Diagnostics, DrainBounded, Duration, Fixed, Gate, IdleTimes, Instant,
    Pacer, Policy, Sample,
};

fn at(secs: i128) -> Instant {
    Instant::from_nanos(secs * 1_000_000_000).unwrap()
}

fn idle(millis: u64) -> IdleTimes {
    let mut times = IdleTimes::new();
    times.push(Duration::from_millis(millis));
    times
}

/// Asks for as much as can be asked for, and reports how often it was asked.
struct Greedy {
    asked: u64,
}

impl Policy for Greedy {
    fn initial(&self) -> usize {
        3
    }

    fn has_room(&self, _: &Sample) -> bool {
        self.asked < 2
    }

    fn decide(&mut self, sample: &Sample) -> usize {
        self.asked += 1;
        assert_eq!(sample.limit, 3);
        usize::MAX
    }

    fn diagnostics(&self) -> Diagnostics {
        let mut d = Diagnostics::new();
        d.push("asked", Binary64::from_u128(self.asked as u128));
        d
    }
}

fn step<P: Policy>(
    pacer: &mut Pacer<P>,
    gate: &mut Gate,
    idle: IdleTimes,
    now: Instant,
) -> Option<Decision> {
    assert!(pacer.can_step(gate, &idle, now));
    pacer.step(gate, idle, now)
}

#[test]
fn building_sets_the_limit() {
    let mut gate = Gate::new(1);
    let pacer = Pacer::builder(Fixed::new(12)).build(&mut gate);
    assert_eq!(gate.limit(), 12);
    assert_eq!(pacer.tick(), Duration::from_secs(2));
    assert_eq!(pacer.policy().limit(), 12);
    let pacer = Pacer::builder(Fixed::new(5)).tick(Duration::from_millis(10)).build(&mut gate);
    assert_eq!(gate.limit(), 5);
    assert_eq!(pacer.tick(), Duration::from_millis(10));
    let pacer = Pacer::new(&mut gate, Aimd::builder().floor(9).build(), Duration::from_secs(1));
    assert_eq!(gate.limit(), 9);
    assert_eq!(pacer.policy().initial(), 9);
}

#[test]
fn first_step_only_records_a_starting_point() {
    let mut gate = Gate::new(1);
    let mut pacer = Pacer::builder(Aimd::default()).build(&mut gate);
    gate.try_acquire_up_to(1).unwrap().complete(&mut gate);
    assert!(step(&mut pacer, &mut gate, idle(0), at(0)).is_none());
    assert!(step(&mut pacer, &mut gate, idle(0), at(0)).is_none());
    let inside = gate.try_acquire_up_to(1).unwrap();
    let mut seen = step(&mut pacer, &mut gate, idle(0), at(2)).unwrap();
    assert_eq!((seen.limit, seen.target, seen.sample.completed), (1, 1, 0));
    inside.complete(&mut gate);
    let inside = gate.try_acquire_up_to(1).unwrap();
    seen = step(&mut pacer, &mut gate, idle(0), at(4)).unwrap();
    assert_eq!((seen.limit, seen.target, seen.sample.completed), (1, 2, 1));
    assert_eq!(gate.limit(), 2);
    assert_eq!(seen.sample.elapsed, Duration::from_secs(2));
    assert!(seen.diagnostics == pacer.policy().diagnostics());
    assert!(inside.complete(&mut gate));
}

#[test]
fn decisions_tell_what_was_applied() {
    let mut gate = Gate::new(1);
    let mut pacer = Pacer::builder(Greedy { asked: 0 }).build(&mut gate);
    assert_eq!(gate.limit(), 3);
    assert!(step(&mut pacer, &mut gate, idle(0), at(0)).is_none());
    assert_eq!(pacer.policy().asked, 0);
    let decision = step(&mut pacer, &mut gate, idle(700), at(1)).unwrap();
    // the most that a semaphore holds
    assert_eq!((decision.limit, decision.target), (3, usize::MAX >> 3));
    assert_eq!(gate.limit(), usize::MAX >> 3);
    assert_eq!(decision.sample.idle, idle(700));
    assert_eq!(decision.diagnostics.iter(), vec![("asked", Binary64::from_u128(1))]);
    let copy = decision.clone();
    assert_eq!((copy.limit, copy.target), (decision.limit, decision.target));
    assert!(copy.sample == decision.sample && copy.diagnostics == decision.diagnostics);
    gate.resize(3);
    step(&mut pacer, &mut gate, idle(700), at(2));
    // the policy has no room for more
    assert!(!pacer.can_step(&gate, &idle(700), at(3)));
    assert!(pacer.can_step(&gate, &idle(700), at(2)));
}

/// A pacer is for the `Gate` that it was built for.
#[test]
fn no_step_for_another_gate() {
    let mut gate = Gate::new(1);
    let mut pacer = Pacer::builder(Fixed::new(1)).build(&mut gate);
    let other = Gate::new(1);
    assert!(!pacer.can_step(&other, &idle(0), at(0)));
    step(&mut pacer, &mut gate, idle(0), at(0));
    assert!(!pacer.can_step(&other, &idle(0), at(1)));
    assert!(pacer.can_step(&gate, &idle(0), at(1)));
}

/// Feeding and draining a gate by hand: the limit doubles while the bottleneck waits.
#[test]
fn drain_bounded_grows_a_hungry_gate() {
    let mut gate = Gate::new(1);
    let policy = DrainBounded::builder().floor(4).build();
    let mut pacer = Pacer::builder(policy).build(&mut gate);
    assert!(step(&mut pacer, &mut gate, idle(0), at(0)).is_none());
    let mut limits = Vec::new();
    for tick in 1..=20u64 {
        // everything inside finishes in each tick, and the bottleneck waits half of the time
        while let Some(ticket) = gate.try_acquire_up_to(1) {
            ticket.complete(&mut gate);
            if gate.completed() >= tick * gate.limit() as u64 {
                break;
            }
        }
        let inside = gate.try_acquire_up_to(usize::MAX).unwrap();
        let decision = step(&mut pacer, &mut gate, idle(tick * 1000), at(2 * tick as i128)).unwrap();
        limits.push(decision.target);
        inside.complete(&mut gate);
    }
    assert_eq!(*limits.first().unwrap(), 8);
    assert!(limits.windows(2).all(|pair| pair[1] == pair[0] || pair[1] == 2 * pair[0]));
    assert!(*limits.last().unwrap() > 8, "{limits:?}");
}
