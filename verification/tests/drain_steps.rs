//! `DrainBounded` step by step, on samples made by hand.

use starve_not::policy::{DrainBoundedBuilder, Tally, Window};
use starve_not::{Binary64, Diagnostics, DrainBounded, Duration, Instant, Policy, Sample};

fn number(x: f64) -> Binary64 {
    Binary64::from_bits(x.to_bits()).unwrap()
}

fn read(diagnostics: &Diagnostics, name: &str) -> f64 {
    let found = diagnostics.iter().into_iter().find(|(n, _)| *n == name);
    f64::from_bits(found.unwrap().1.to_bits())
}

/// A policy and the limit that follows its answers.
struct Driver {
    policy: DrainBounded,
    now: u64,
    limit: usize,
}

impl Driver {
    fn new(builder: DrainBoundedBuilder) -> Self {
        assert!(builder.is_valid());
        let policy = builder.build();
        let limit = policy.initial();
        Self { policy, now: 0, limit }
    }

    /// One tick of so many milliseconds, the last of which the bottleneck waited.
    fn tick(&mut self, millis: u64, completed: u64, released: u64, inside: usize, idle: u64) -> usize {
        self.now += millis;
        let at = Instant::from_nanos(self.now as i128 * 1_000_000).unwrap();
        let mut sample = Sample::new(at, Duration::from_millis(millis), inside, self.limit);
        sample.completed = completed;
        sample.released = released;
        sample.idle.push(Duration::from_millis(idle));
        assert!(self.policy.has_room(&sample));
        self.limit = self.policy.decide(&sample);
        self.limit
    }

    fn reports(&self, name: &str) -> f64 {
        read(&self.policy.diagnostics(), name)
    }
}

fn four() -> DrainBoundedBuilder {
    DrainBounded::builder().floor(4)
}

/// A hundred inside at 50 per second, long enough for the fastest time to be known.
fn settled() -> Driver {
    let mut d = Driver::new(DrainBounded::builder().initial(100).window_items(1));
    for _ in 0..3 {
        assert_eq!(d.tick(2000, 100, 0, 100, 0), 100);
    }
    assert_eq!(d.policy.fastest(), Some(Duration::from_secs(2)));
    d
}

#[test]
fn drain_bounded_starts_within_range() {
    assert_eq!(DrainBounded::default().initial(), 1);
    assert_eq!(four().build().initial(), 4);
    assert_eq!(four().initial(2).build().initial(), 4);
    assert_eq!(four().initial(77).build().initial(), 77);
    assert_eq!(four().initial(7777).build().initial(), 1024);
    assert_eq!(four().max(3).initial(77).build().initial(), 4);
}

#[test]
fn drain_bounded_settings_out_of_range() {
    let b = DrainBounded::builder();
    assert!(b.is_valid());
    assert!(!b.floor(0).is_valid());
    assert!(!b.max_slowdown(number(0.999)).is_valid());
    assert!(b.max_slowdown(number(1.0)).is_valid());
    assert!(!b.growth(number(1.0)).is_valid());
    assert!(b.growth(number(1.0 + f64::EPSILON)).is_valid());
    assert!(b.growth(number(f64::INFINITY)).is_valid());
    assert!(!b.starving(number(1.0)).is_valid());
    assert!(b.starving(number(0.0)).is_valid());
    assert!(!b.window_items(0).is_valid());
    assert!(!b.max_window(Duration::zero()).is_valid());
    assert!(!b.fastest_decay(number(0.999)).is_valid());
    assert!(b.max_settle(Duration::zero()).drain_target(Duration::zero()).is_valid());
}

/// Nothing to report before the first sample, nor anything learned.
#[test]
fn new_policies_know_nothing() {
    let policy = DrainBounded::default();
    assert_eq!(policy.throughput(), Binary64::zero());
    assert_eq!(policy.fastest(), None);
    let d = policy.diagnostics();
    let names: Vec<&str> = d.iter().into_iter().map(|(name, _)| name).collect();
    assert_eq!(
        names,
        vec![
            "throughput",
            "departures",
            "residence",
            "fastest",
            "bound",
            "window",
            "starving",
            "saturated"
        ]
    );
    assert_eq!(read(&d, "residence"), f64::INFINITY);
    assert_eq!(read(&d, "bound"), f64::INFINITY);
    assert_eq!(read(&d, "window"), 0.0);
}

/// A waiting bottleneck behind a full gate: the limit doubles, up to the max.
#[test]
fn hungry_bottleneck_doubles_the_limit() {
    let mut d = Driver::new(four());
    assert_eq!(d.tick(2000, 4, 0, 4, 1000), 8);
    assert_eq!(d.reports("departures"), 2.0);
    assert_eq!(d.reports("throughput"), 2.0);
    assert_eq!(d.reports("residence"), 2.0);
    assert_eq!((d.reports("starving"), d.reports("saturated")), (1.0, 1.0));
    let mut d = Driver::new(four().max(6));
    assert_eq!(d.tick(2000, 4, 0, 4, 1000), 6);
    // rounded up
    let mut d = Driver::new(four().growth(number(1.3)));
    assert_eq!(d.tick(2000, 4, 0, 4, 1000), 6);
    // always more, however small the growth and however high the limit
    for limit in [4usize, 1 << 53, (1 << 53) + 1, (1 << 60) + 7] {
        let builder = four().max(usize::MAX).initial(limit).growth(number(1.0 + f64::EPSILON));
        let mut d = Driver::new(builder);
        assert!(d.tick(2000, limit as u64, 0, limit, 1000) > limit);
    }
}

/// Without a waiting probe, or without any probe, the limit is never raised.
#[test]
fn busy_bottleneck_is_not_fed() {
    let mut d = Driver::new(four());
    assert_eq!(d.tick(2000, 4, 0, 4, 200), 4);
    assert_eq!(d.reports("starving"), 0.0);
    let mut policy = four().build();
    let at = Instant::from_nanos(2_000_000_000).unwrap();
    let mut sample = Sample::new(at, Duration::from_secs(2), 4, 4);
    sample.completed = 4;
    assert_eq!(policy.decide(&sample), 4);
    sample.limit = 2;
    assert_eq!(policy.decide(&sample), 4);
}

/// Each of the conditions for a raise is needed.
#[test]
fn raises_need_every_condition() {
    // a gate that isn't nearly full: below nine tenths
    let mut d = Driver::new(DrainBounded::builder().floor(10));
    assert_eq!(d.tick(2000, 8, 0, 8, 1000), 10);
    let mut d = Driver::new(DrainBounded::builder().floor(10));
    assert_eq!(d.tick(2000, 9, 0, 9, 1000), 20);
    // residence past the target
    let mut d = Driver::new(four().drain_target(Duration::from_millis(1999)));
    assert_eq!(d.tick(2000, 4, 0, 4, 1000), 4);
    // no success, or mostly failures
    let mut d = Driver::new(four());
    assert_eq!(d.tick(2000, 0, 4, 4, 1000), 4);
    let mut d = Driver::new(four());
    assert_eq!(d.tick(2000, 1, 2, 4, 1000), 4);
    let mut d = Driver::new(four());
    assert_eq!(d.tick(2000, 2, 2, 4, 1000), 8);
}

/// After a raise the next waits for one pass, for another success, and for more departures.
#[test]
fn raise_waits_for_the_one_before() {
    let mut d = Driver::new(four());
    assert_eq!(d.tick(2000, 4, 0, 4, 1000), 8);
    assert_eq!(d.tick(1000, 6, 0, 8, 1000), 8);
    let mut d = Driver::new(four());
    assert_eq!(d.tick(2000, 4, 0, 4, 1000), 8);
    // enough departures have to be successes since the raise
    assert_eq!(d.tick(2000, 0, 8, 8, 1000), 8);
    let mut d = Driver::new(four());
    assert_eq!(d.tick(2000, 4, 0, 4, 1000), 8);
    assert_eq!(d.tick(2000, 8, 0, 8, 1000), 16);
    let mut d = Driver::new(four().window_items(1));
    assert_eq!(d.tick(2000, 4, 0, 4, 1000), 8);
    // three per second would be half as much more as the limit is
    assert_eq!(d.tick(2000, 5, 0, 8, 1000), 8);
    let mut d = Driver::new(four().window_items(1));
    assert_eq!(d.tick(2000, 4, 0, 4, 1000), 8);
    assert_eq!(d.tick(2000, 6, 0, 8, 1000), 16);
    // the wait is at most `max_settle`
    let mut d = Driver::new(four().window_items(1).max_settle(Duration::from_millis(500)));
    assert_eq!(d.tick(2000, 4, 0, 4, 1000), 8);
    assert_eq!(d.tick(500, 6, 0, 8, 500), 16);
}

/// The limit stays where no time has passed, and only what is reported of the sample changes.
#[test]
fn no_time_decides_nothing() {
    let mut d = settled();
    let fastest = d.policy.fastest();
    let throughput = d.policy.throughput();
    let bound = d.reports("bound");
    assert_eq!(d.tick(0, 99, 99, 5, 9999), 100);
    assert_eq!(d.policy.fastest(), fastest);
    assert_eq!(d.policy.throughput(), throughput);
    assert_eq!(d.reports("bound"), bound);
    assert_eq!((d.reports("starving"), d.reports("saturated")), (0.0, 0.0));
}

/// Samples of no length in between change no later answer.
#[test]
fn no_time_changes_no_later_answer() {
    for at in [0usize, 1, 7, 40] {
        let mut plain = Driver::new(four().window_items(5));
        let mut nudged = Driver::new(four().window_items(5));
        for i in 0..200usize {
            if i == at {
                let limit = nudged.limit;
                assert_eq!(nudged.tick(0, 50, 3, 1, 0), limit);
            }
            let (completed, inside) = ((i % 9) as u64, plain.limit);
            let idle = (i % 4) as u64 * 500;
            let answer = plain.tick(2000, completed, 0, inside, idle);
            assert_eq!(answer, nudged.tick(2000, completed, 0, inside, idle));
            assert!(plain.policy.diagnostics() == nudged.policy.diagnostics());
        }
    }
}

/// When residence passes the bound while the bottleneck is busy, the limit is cut to what leaves
/// within the bound. The next cut waits until the excess has left, at most `max_settle`.
#[test]
fn overfull_pipeline_is_cut() {
    let mut d = settled();
    assert_eq!(d.reports("bound"), 10.0);
    // one per second with a hundred inside
    assert_eq!(d.tick(2000, 2, 0, 100, 0), 10);
    assert_eq!(d.reports("residence"), 100.0);
    for _ in 0..14 {
        assert_eq!(d.tick(2000, 1, 0, 100, 0), 10);
    }
    assert_eq!(d.tick(2000, 1, 0, 100, 0), 5);
}

/// While the bottleneck waits, a long residence alone never cuts the limit.
#[test]
fn waiting_bottleneck_keeps_the_limit() {
    let mut d = settled();
    for _ in 0..10 {
        assert_eq!(d.tick(2000, 2, 0, 100, 1000), 100);
    }
    assert!(d.reports("residence") > d.reports("bound"));
}

/// After a cut there is no raise until another item has succeeded.
#[test]
fn raise_after_a_cut_needs_a_success() {
    let mut d = settled();
    assert_eq!(d.tick(2000, 2, 0, 100, 0), 10);
    for _ in 0..10 {
        assert_eq!(d.tick(2000, 0, 20, 10, 1000), 10);
    }
    for _ in 0..10 {
        d.tick(2000, 20, 0, 10, 1000);
    }
    assert!(d.limit > 10);
}

/// A pipeline that nothing leaves for far longer than before drops to the floor if the bottleneck
/// waits, but not before, and not while nothing is inside.
#[test]
fn stuck_pipeline_falls_to_the_floor() {
    let mut d = settled();
    for _ in 0..15 {
        assert_eq!(d.tick(2000, 0, 0, 50, 1000), 100);
    }
    assert_eq!(d.tick(2000, 0, 0, 50, 1000), 1);
    let mut d = settled();
    for _ in 0..40 {
        assert_eq!(d.tick(2000, 0, 0, 0, 1000), 100);
    }
    // before anything has left it is filling, not stuck
    let mut d = Driver::new(four().initial(50));
    for _ in 0..40 {
        assert_eq!(d.tick(2000, 0, 0, 50, 1000), 50);
    }
    // silences that have been longer before are no surprise
    let mut d = settled();
    for _ in 0..14 {
        d.tick(2000, 0, 0, 50, 1000);
    }
    d.tick(2000, 100, 0, 50, 1000);
    for _ in 0..30 {
        assert_eq!(d.tick(2000, 0, 0, 50, 1000), 100);
    }
    assert_eq!(d.tick(2000, 0, 0, 50, 1000), 1);
}

/// A raise that brought no more departures and pushed residence past the target is taken back,
/// and there is no other until departures change by a quarter.
#[test]
fn raise_into_a_hidden_queue_is_taken_back() {
    let builder = four().window_items(1).drain_target(Duration::from_secs(3));
    let mut d = Driver::new(builder);
    assert_eq!(d.tick(2000, 4, 0, 4, 1000), 8);
    // until the raised items have come through
    assert_eq!(d.tick(2000, 4, 0, 8, 1000), 8);
    assert_eq!(d.tick(2000, 4, 0, 8, 1000), 8);
    assert_eq!(d.tick(2000, 4, 0, 8, 1000), 4);
    // 2 or 2.25 per second is still about the same, 2.5 per second isn't
    for _ in 0..5 {
        assert_eq!(d.tick(2000, 4, 0, 4, 1000), 4);
    }
    for _ in 0..5 {
        assert_eq!(d.tick(4000, 9, 0, 4, 2000), 4);
    }
    assert_eq!(d.tick(2000, 5, 0, 4, 1000), 8);
}

/// A raise that only failed to help but kept within the target is left alone.
#[test]
fn harmless_raise_is_left_alone() {
    let builder = four().window_items(1).drain_target(Duration::from_secs(4));
    let mut d = Driver::new(builder);
    assert_eq!(d.tick(2000, 4, 0, 4, 1000), 8);
    assert_eq!(d.tick(2000, 4, 0, 8, 1000), 8);
    assert_eq!(d.tick(2000, 4, 0, 8, 0), 8);
}

/// The fastest time needs a full gate and no more inside than it allows, enough items that mostly
/// succeeded, and a whole pass.
#[test]
fn fastest_time_needs_a_steady_pipeline() {
    let start = || Driver::new(DrainBounded::builder().initial(100).window_items(50));
    // the first departures only end the filling
    let mut d = start();
    d.tick(2000, 100, 0, 100, 0);
    assert_eq!(d.policy.fastest(), None);
    d.tick(2000, 100, 0, 100, 0);
    assert_eq!(d.policy.fastest(), Some(Duration::from_secs(2)));
    // too few inside, too many inside, too few successes, too few departures, too short a time
    for (inside, completed, released) in [(89, 100, 0), (101, 101, 0), (100, 49, 51), (100, 49, 0)] {
        let mut d = start();
        d.tick(2000, 1, 0, inside, 0);
        d.tick(2000, completed, released, inside, 0);
        assert_eq!(d.policy.fastest(), None, "{inside} {completed} {released}");
    }
    let mut d = start();
    d.tick(2000, 1, 0, 100, 0);
    d.tick(2000, 60, 0, 100, 0);
    assert_eq!(d.policy.fastest(), None);
}

/// The lowest time is kept. It creeps up by `fastest_decay` only while the bottleneck waits.
#[test]
fn fastest_time_creeps_up_only_while_waiting() {
    let mut d = settled();
    for _ in 0..5 {
        d.tick(2000, 80, 0, 100, 0);
        assert_eq!(d.policy.fastest(), Some(Duration::from_secs(2)));
    }
    d.tick(2000, 80, 0, 100, 1000);
    assert_eq!(d.reports("fastest"), 2.0 * 1.05);
    d.tick(2000, 80, 0, 100, 0);
    assert_eq!(d.reports("fastest"), 2.0 * 1.05);
}

/// The bound is the longer of the target and `max_slowdown` times the fastest time, and infinite
/// until that is known.
#[test]
fn bound_follows_what_is_known() {
    let builder = DrainBounded::builder().initial(100).window_items(1);
    let mut d = Driver::new(builder.drain_target(Duration::from_secs(1)));
    d.tick(2000, 100, 0, 100, 0);
    assert_eq!(d.reports("bound"), f64::INFINITY);
    d.tick(2000, 100, 0, 100, 0);
    assert_eq!(d.reports("bound"), 3.0);
    assert_eq!(settled().reports("bound"), 10.0);
}

/// In any run, a raise needs a success since the limit last changed, and the reported bound is
/// between the plain one and `growth` times it.
#[test]
fn runs_keep_their_promises() {
    let mut d = Driver::new(four().max(300).window_items(5));
    let mut seed = 0x9e37_79b9_7f4a_7c15u64;
    let (mut success, mut raises) = (false, 0u32);
    for _ in 0..3000 {
        seed ^= seed << 13;
        seed ^= seed >> 7;
        seed ^= seed << 17;
        let completed = if seed % 3 == 0 { 0 } else { (seed >> 20) % (d.limit as u64 + 1) };
        let (before, inside) = (d.limit, d.limit);
        let target = d.tick(2000, completed, 0, inside, (seed >> 40) % 2000);
        success |= completed > 0;
        if target > before {
            assert!(success);
            raises += 1;
        }
        if target != before {
            success = false;
        }
        let plain = (d.reports("fastest") * 1.5).max(10.0);
        assert!(plain <= d.reports("bound") && d.reports("bound") <= plain * 2.0);
    }
    assert!(raises > 10);
}

/// Before anything has left, the limit stays.
#[test]
fn filling_keeps_the_limit() {
    for inside in [0usize, 30, 50] {
        let mut d = Driver::new(four().initial(50));
        for i in 0..100u64 {
            assert_eq!(d.tick(1 + i * 50, 0, 0, inside, i * 50), 50);
            assert_eq!(d.policy.fastest(), None);
        }
    }
}

/// Runs of failures never set the fastest time.
#[test]
fn failures_teach_no_fastest_time() {
    let mut d = Driver::new(four().initial(50).window_items(1));
    for i in 0..100u64 {
        d.tick(2000, i % 3, i % 3 + 1, d.limit, 0);
        assert_eq!(d.policy.fastest(), None);
    }
}

/// While a raise ramps the bound is widened by at most `growth`.
#[test]
fn bound_widens_by_growth_at_most() {
    let mut d = settled();
    assert_eq!(d.tick(2000, 100, 0, 100, 1000), 200);
    assert_eq!(d.reports("bound"), 10.0);
    d.tick(1000, 100, 0, 200, 1000);
    assert_eq!(d.reports("bound"), 20.0);
    d.limit = 10_000;
    d.tick(500, 100, 0, 200, 500);
    assert_eq!(d.reports("bound"), 20.0);
}

/// The same samples give the same answers, the limit stays in range, and a clone goes on as its
/// source does.
#[test]
fn drain_bounded_repeats_itself_within_range() {
    let mut one = Driver::new(four().max(300).window_items(5));
    let mut other = Driver::new(four().max(300).window_items(5));
    let mut seed = 0x9e37_79b9_7f4a_7c15u64;
    for i in 0..2000u32 {
        seed ^= seed << 13;
        seed ^= seed >> 7;
        seed ^= seed << 17;
        let millis = 1 + seed % 3000;
        let completed = (seed >> 20) % (one.limit as u64 + 1);
        let released = (seed >> 30) % 40 / 38;
        let idle = (seed >> 40) % millis;
        let inside = one.limit;
        let target = one.tick(millis, completed, released, inside, idle);
        assert_eq!(target, other.tick(millis, completed, released, inside, idle));
        assert!(one.policy.diagnostics() == other.policy.diagnostics());
        assert!((4..=300).contains(&target));
        if i == 1000 {
            other.policy = one.policy.clone();
        }
    }
}

#[test]
fn drain_bounded_needs_room_for_its_counters() {
    let policy = four().build();
    let at = Instant::from_nanos(0).unwrap();
    let mut sample = Sample::new(at, Duration::from_secs(2), usize::MAX, usize::MAX);
    assert!(policy.has_room(&sample));
    sample.completed = u64::MAX;
    assert!(policy.has_room(&sample));
    sample.released = 1;
    assert!(!policy.has_room(&sample));
    sample.elapsed = Duration::zero();
    assert!(policy.has_room(&sample));
    let longest = Duration::from_nanos(std::time::Duration::MAX.as_nanos()).unwrap();
    let sample = Sample::new(at, longest, usize::MAX, 1);
    assert!(!policy.has_room(&sample));
}

fn tally(millis: u64, departed: u64) -> Tally {
    Tally {
        elapsed: Duration::from_millis(millis),
        occupancy: 1000 * millis as u128,
        departed,
        completed: departed / 2,
    }
}

/// The window is the shortest run of the latest ticks that saw enough departures over long enough,
/// or else spans long enough, so it runs over by one tick at most.
#[test]
fn window_keeps_the_shortest_run() {
    let secs = Duration::from_secs;
    let start = |s: u64| Instant::from_nanos(s as i128 * 1_000_000_000).unwrap();
    let mut window = Window::new();
    assert_eq!(window.start(), None);
    assert_eq!(window.total().departed, 0);
    for i in 0..10u64 {
        window.push(start(2 * i), tally(2000, 3), 10, secs(3), secs(30));
    }
    // four ticks see twelve leave, three would see nine
    assert_eq!(window.start(), Some(start(12)));
    assert_eq!(window.total().departed, 12);
    assert_eq!(window.total().elapsed, secs(8));
    // enough departures over too short a time
    window.push(start(20), tally(2000, 100), 10, secs(3), secs(30));
    assert_eq!(window.start(), Some(start(18)));
    // without departures it spans the longest time
    for i in 11..40u64 {
        window.push(start(2 * i), tally(2000, 0), 10, secs(3), secs(9));
    }
    assert_eq!(window.total().elapsed, secs(10));
    // the latest tick always stays
    window.push(start(80), tally(60_000, 0), 10, secs(3), secs(9));
    assert_eq!(window.total().elapsed, secs(60));
    let copy = window.clone();
    assert_eq!(copy.start(), window.start());
    assert_eq!(copy.total().elapsed, secs(60));
}

#[test]
fn tallies_follow_littles_law() {
    let mut sum = Tally::new();
    assert_eq!(sum.residence(), Binary64::zero());
    assert_eq!(sum.throughput(), Binary64::zero());
    assert!(sum.mostly_succeeded());
    sum.add(&tally(2000, 4));
    sum.add(&tally(3000, 0));
    assert_eq!((sum.departed, sum.completed), (4, 2));
    assert_eq!(sum.departures(), number(0.8));
    assert_eq!(sum.throughput(), number(0.4));
    assert_eq!(sum.residence(), number(5_000_000.0 / 1e9 / 4.0));
    assert!(sum.mostly_succeeded());
    sum.sub(&tally(2000, 4));
    assert_eq!(sum.residence(), Binary64::infinity());
    assert!(sum.has_room(&tally(1, u64::MAX)));
    sum.departed = 1;
    assert!(!sum.has_room(&tally(1, u64::MAX)));
    assert!(!sum.mostly_succeeded());
    assert_eq!(Tally::default().occupancy, 0);
}
