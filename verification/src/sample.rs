//! What a policy sees each time it decides.

use smallvec::SmallVec;
use vstd::arithmetic::power2::*;
use vstd::prelude::*;

use crate::binary64::{Binary64, Value};
use crate::gate::Gate;
use crate::ledger::Ledger;
use crate::time::{self, Duration, Instant};

verus! {

/// Idle times, one per probe, in a list that needs no allocation for up to two.
#[verifier::external_body]
#[derive(Debug, PartialEq)]
pub struct IdleTimes {
    list: SmallVec<[Duration; 2]>,
}

/// The idle times in a list, in nanoseconds.
pub uninterp spec fn spans(times: IdleTimes) -> Seq<nat>;

impl View for IdleTimes {
    type V = Seq<nat>;

    open spec fn view(&self) -> Seq<nat> {
        spans(*self)
    }
}

/// `SmallVec::new`: a list with nothing in it.
#[verifier::external_body]
fn list_new() -> (r: IdleTimes)
    ensures
        spans(r) == Seq::<nat>::empty(),
{
    IdleTimes { list: SmallVec::new() }
}

/// `SmallVec::push`: adds an item at the end. It fails only where memory does.
#[verifier::external_body]
fn list_push(times: &mut IdleTimes, time: Duration)
    ensures
        spans(*final(times)) == spans(*old(times)).push(time@),
{
    times.list.push(time)
}

/// `SmallVec::len`: how many items it holds.
#[verifier::external_body]
fn list_len(times: &IdleTimes) -> (r: usize)
    ensures
        r == spans(*times).len(),
{
    times.list.len()
}

/// Indexing a `SmallVec`: the item at the index. It panics if there is none.
#[verifier::external_body]
fn list_get(times: &IdleTimes, index: usize) -> (r: Duration)
    requires
        index < spans(*times).len(),
    ensures
        r@ == spans(*times)[index as int],
{
    times.list[index]
}

/// `SmallVec::clone`: a list of copies of the same items.
#[verifier::external_body]
fn list_clone(times: &IdleTimes) -> (r: IdleTimes)
    ensures
        spans(r) == spans(*times),
{
    IdleTimes { list: times.list.clone() }
}

impl Clone for IdleTimes {
    fn clone(&self) -> (r: Self)
        ensures
            r@ == self@,
    {
        list_clone(self)
    }
}

impl IdleTimes {
    /// No idle times.
    pub fn new() -> (r: Self)
        ensures
            r@ == Seq::<nat>::empty(),
    {
        list_new()
    }

    /// Add the idle time of one more probe.
    pub fn push(&mut self, time: Duration)
        ensures
            final(self)@ == old(self)@.push(time@),
    {
        list_push(self, time);
    }

    /// How many there are.
    pub fn len(&self) -> (r: usize)
        ensures
            r == self@.len(),
    {
        list_len(self)
    }

    /// The idle time of one probe, if there are that many.
    pub fn get(&self, index: usize) -> (r: Option<Duration>)
        ensures
            index < self@.len() ==> r is Some && r->0@ == self@[index as int],
            index >= self@.len() ==> r is None,
    {
        if index < list_len(self) {
            Some(list_get(self, index))
        } else {
            None
        }
    }
}

/// What happened in the pipeline, as a [`Sample`] tells it: times in nanoseconds.
pub struct Observation {
    pub at: int,
    pub elapsed: nat,
    pub completed: nat,
    pub released: nat,
    pub idle: Seq<nat>,
    pub in_flight: nat,
    pub limit: nat,
}

impl Observation {
    /// The fraction of an interval spent idle, at most one; none of an interval of no length.
    pub open spec fn share(idle: nat, elapsed: nat) -> Value {
        if elapsed > 0 {
            time::seconds(idle).over(time::seconds(elapsed)).lesser(Value::of_nat(1))
        } else {
            Value::zero()
        }
    }

    /// For each probe, the fraction of the interval it spent idle.
    pub open spec fn shares(self) -> Seq<Value> {
        Seq::new(self.idle.len(), |i: int| Observation::share(self.idle[i], self.elapsed))
    }

    /// Whether some probe was idle for more than `threshold` of the interval.
    pub open spec fn idle_above(self, threshold: Value) -> bool {
        exists|i: int|
            0 <= i < self.idle.len() && threshold.below(
                #[trigger] Observation::share(self.idle[i], self.elapsed),
            )
    }
}

/// What happened in the pipeline since the pacer last looked.
///
/// The [`Pacer`](crate::Pacer) builds one on every tick and hands it to the
/// [`Policy`](crate::Policy). Counts such as `completed` cover only the time since the previous
/// sample. `in_flight` and `limit` are the values at the moment the sample was taken.
///
/// To test a policy with made-up or recorded data, start from [`Sample::new`] and fill in the
/// other fields.
#[derive(Debug, PartialEq)]
#[non_exhaustive]
pub struct Sample {
    /// When the sample was taken.
    pub at: Instant,
    /// Time since the previous sample. Never zero in samples from a [`Pacer`](crate::Pacer).
    pub elapsed: Duration,
    /// Items finished since the previous sample, that is, permits handed back with
    /// [`complete`](crate::Ticket::complete).
    pub completed: u64,
    /// Items that left without finishing since the previous sample: permits handed back with
    /// [`release`](crate::Ticket::release).
    pub released: u64,
    /// How long each probe was idle since the previous sample, in the order the probes were
    /// added to the pacer.
    ///
    /// Probes always use the system clock. If the pacer runs on a different clock, these times
    /// may not match `elapsed`.
    pub idle: IdleTimes,
    /// Items inside the pipeline when the sample was taken.
    pub in_flight: usize,
    /// The `Gate`'s limit when the sample was taken.
    pub limit: usize,
}

impl View for Sample {
    type V = Observation;

    open spec fn view(&self) -> Observation {
        Observation {
            at: self.at@,
            elapsed: self.elapsed@,
            completed: self.completed as nat,
            released: self.released as nat,
            idle: self.idle@,
            in_flight: self.in_flight as nat,
            limit: self.limit as nat,
        }
    }
}

impl Clone for Sample {
    fn clone(&self) -> (r: Self)
        ensures
            r@ == self@,
    {
        Self {
            at: self.at,
            elapsed: self.elapsed,
            completed: self.completed,
            released: self.released,
            idle: self.idle.clone(),
            in_flight: self.in_flight,
            limit: self.limit,
        }
    }
}

impl Sample {
    /// A sample with the given time and gate state, and nothing finished, released or idle.
    pub fn new(at: Instant, elapsed: Duration, in_flight: usize, limit: usize) -> (r: Self)
        ensures
            r@ == (Observation {
                at: at@,
                elapsed: elapsed@,
                completed: 0,
                released: 0,
                idle: Seq::empty(),
                in_flight: in_flight as nat,
                limit: limit as nat,
            }),
    {
        Self { at, elapsed, completed: 0, released: 0, idle: IdleTimes::new(), in_flight, limit }
    }

    /// The fraction of the interval that one probe spent idle.
    fn share(&self, index: usize) -> (r: Binary64)
        requires
            index < self@.idle.len(),
        ensures
            r@ == Observation::share(self@.idle[index as int], self@.elapsed),
    {
        let elapsed = self.elapsed.in_seconds();
        let idle = list_get(&self.idle, index);
        if Binary64::zero().below(elapsed) {
            idle.in_seconds().over(elapsed).lesser(Binary64::from_u128(1))
        } else {
            Binary64::zero()
        }
    }

    /// For each probe, the fraction of the interval it spent idle: 0 means always busy, 1
    /// means always waiting.
    pub fn idle_shares(&self) -> (r: Vec<Binary64>)
        ensures
            r@.map_values(|share: Binary64| share@) == self@.shares(),
    {
        let mut shares: Vec<Binary64> = Vec::new();
        let n = self.idle.len();
        let mut i: usize = 0;
        while i < n
            invariant
                i <= n == self@.idle.len(),
                shares@.len() == i,
                forall|j: int|
                    0 <= j < i ==> (#[trigger] shares@[j])@ == Observation::share(
                        self@.idle[j],
                        self@.elapsed,
                    ),
            decreases n - i,
        {
            shares.push(self.share(i));
            i = i + 1;
        }
        assert(shares@.map_values(|share: Binary64| share@) =~= self@.shares());
        shares
    }

    /// Whether some probe was idle for more than `threshold` of the interval.
    pub fn idle_above(&self, threshold: Binary64) -> (r: bool)
        ensures
            r == self@.idle_above(threshold@),
    {
        let n = self.idle.len();
        let mut i: usize = 0;
        while i < n
            invariant
                i <= n == self@.idle.len(),
                forall|j: int|
                    0 <= j < i ==> !threshold@.below(
                        #[trigger] Observation::share(self@.idle[j], self@.elapsed),
                    ),
            decreases n - i,
        {
            if threshold.below(self.share(i)) {
                return true;
            }
            i = i + 1;
        }
        false
    }
}

/// The running totals at one moment, times in nanoseconds.
pub struct Totals {
    pub at: int,
    pub completed: u64,
    pub released: u64,
    pub idle: Seq<nat>,
}

impl Totals {
    /// The totals of a gate and its probes.
    pub open spec fn read(ledger: Ledger, idle: Seq<nat>, now: int) -> Totals {
        Totals { at: now, completed: ledger.completed, released: ledger.released, idle }
    }

    /// Whether no count has gone backwards since `last`.
    pub open spec fn follows(self, last: Totals) -> bool {
        last.completed <= self.completed && last.released <= self.released
    }

    /// What happened since `last`: the differences, for as many probes as both know.
    pub open spec fn since(self, last: Totals, ledger: Ledger) -> Observation {
        Observation {
            at: self.at,
            elapsed: time::since(self.at, last.at),
            completed: (self.completed - last.completed) as nat,
            released: (self.released - last.released) as nat,
            idle: Seq::new(
                crate::ledger::min(self.idle.len(), last.idle.len()),
                |i: int| time::since(self.idle[i] as int, last.idle[i] as int),
            ),
            in_flight: ledger.held,
            limit: ledger.limit,
        }
    }
}

/// Whether a sampler can go on to the given totals: if time has passed, no count has gone
/// backwards.
pub open spec fn can_sample(last: Option<Totals>, now: Totals) -> bool {
    match last {
        None => true,
        Some(then) => now.at > then.at ==> now.follows(then),
    }
}

/// What a sampler does with new totals: the first only set the baseline, and so do none that come
/// when no time has passed. Returns the totals to go on from and what to tell the policy.
pub open spec fn sampled(last: Option<Totals>, now: Totals, ledger: Ledger) -> (
    Option<Totals>,
    Option<Observation>,
) {
    match last {
        None => (Some(now), None),
        Some(then) => if now.at <= then.at {
            (last, None)
        } else {
            (Some(now), Some(now.since(then, ledger)))
        },
    }
}

/// The running totals at one moment.
#[derive(Debug)]
struct Reading {
    at: Instant,
    completed: u64,
    released: u64,
    idle: IdleTimes,
}

impl View for Reading {
    type V = Totals;

    closed spec fn view(&self) -> Totals {
        Totals {
            at: self.at@,
            completed: self.completed,
            released: self.released,
            idle: self.idle@,
        }
    }
}

/// Turns the `Gate`'s and probes' running totals into per-interval [`Sample`]s.
///
/// The first reading only sets the baseline, so the driver's clock (whatever it is) defines
/// every interval, and activity before the first reading never lands in one.
#[derive(Debug)]
pub struct Sampler {
    last: Option<Reading>,
}

impl View for Sampler {
    type V = Option<Totals>;

    closed spec fn view(&self) -> Option<Totals> {
        match self.last {
            Some(last) => Some(last@),
            None => None,
        }
    }
}

impl Sampler {
    /// A sampler without a baseline.
    pub fn new() -> (r: Self)
        ensures
            r@ is None,
    {
        Self { last: None }
    }

    /// Whether there can be a sample at `now`: if time has passed since the previous reading, no
    /// count has gone backwards.
    pub fn can_sample(&self, gate: &Gate, now: Instant) -> (r: bool)
        ensures
            forall|idle: Seq<nat>| r == can_sample(self@, #[trigger] Totals::read(gate@, idle, now@)),
    {
        match &self.last {
            None => true,
            Some(last) => last.at.not_before(now) || (last.completed <= gate.completed()
                && last.released <= gate.released()),
        }
    }

    /// What [`sample`](Self::sample) gives, without going on to the next interval.
    pub fn peek(&self, gate: &Gate, idle: &IdleTimes, now: Instant) -> (r: Option<Sample>)
        requires
            can_sample(self@, Totals::read(gate@, idle@, now@)),
        ensures
            ({
                let (_, seen) = sampled(self@, Totals::read(gate@, idle@, now@), gate@);
                &&& r is Some <==> seen is Some
                &&& r is Some ==> r->0@ == seen->0
            }),
    {
        match &self.last {
            None => None,
            Some(last) => {
                let elapsed = now.saturating_duration_since(last.at);
                if elapsed.is_zero() {
                    return None;
                }
                Some(
                    Sample {
                        at: now,
                        elapsed,
                        completed: gate.completed() - last.completed,
                        released: gate.released() - last.released,
                        idle: differences(idle, &last.idle),
                        in_flight: gate.in_flight(),
                        limit: gate.limit(),
                    },
                )
            },
        }
    }

    /// The sample for the interval since the previous reading, or `None` on the first reading
    /// and when no time has passed since the previous one (its deltas then carry over).
    ///
    /// `idle` holds each probe's total idle time.
    pub fn sample(&mut self, gate: &Gate, idle: IdleTimes, now: Instant) -> (r: Option<Sample>)
        requires
            can_sample(old(self)@, Totals::read(gate@, idle@, now@)),
        ensures
            ({
                let (kept, seen) = sampled(
                    old(self)@,
                    Totals::read(gate@, idle@, now@),
                    gate@,
                );
                &&& final(self)@ == kept
                &&& r is Some <==> seen is Some
                &&& r is Some ==> r->0@ == seen->0
            }),
    {
        let sample = self.peek(gate, &idle, now);
        if self.last.is_none() || sample.is_some() {
            self.last = Some(
                Reading {
                    at: now,
                    completed: gate.completed(),
                    released: gate.released(),
                    idle,
                },
            );
        }
        sample
    }
}

impl Default for Sampler {
    fn default() -> (r: Self)
        ensures
            r@ is None,
    {
        Self::new()
    }
}

/// By how much each idle time has grown, for as many as there are of both.
fn differences(now: &IdleTimes, last: &IdleTimes) -> (r: IdleTimes)
    ensures
        r@ == Seq::new(
            crate::ledger::min(now@.len(), last@.len()),
            |i: int| time::since(now@[i] as int, last@[i] as int),
        ),
{
    let mut grown = IdleTimes::new();
    let n: usize = if now.len() <= last.len() {
        now.len()
    } else {
        last.len()
    };
    let mut i: usize = 0;
    while i < n
        invariant
            i <= n <= now@.len(),
            n <= last@.len(),
            grown@ == Seq::new(
                i as nat,
                |i: int| time::since(now@[i] as int, last@[i] as int),
            ),
        decreases n - i,
    {
        grown.push(list_get(now, i).saturating_minus(list_get(last, i)));
        i = i + 1;
        assert(grown@ =~= Seq::new(
            i as nat,
            |i: int| time::since(now@[i] as int, last@[i] as int),
        ));
    }
    grown
}

/// Nothing is lost between samples, and nothing counts twice: two samples in a row together tell
/// of what one sample over both intervals tells of.
pub proof fn samples_cover_everything_once(
    start: Totals,
    middle: Totals,
    end: Totals,
    at_middle: Ledger,
    at_end: Ledger,
)
    requires
        start.at <= middle.at <= end.at,
        middle.follows(start),
        end.follows(middle),
        start.idle.len() == middle.idle.len() == end.idle.len(),
        forall|i: int|
            0 <= i < start.idle.len() ==> start.idle[i] <= #[trigger] middle.idle[i]
                <= end.idle[i],
    ensures
        ({
            let first = middle.since(start, at_middle);
            let second = end.since(middle, at_end);
            let both = end.since(start, at_end);
            &&& first.elapsed + second.elapsed == both.elapsed
            &&& first.completed + second.completed == both.completed
            &&& first.released + second.released == both.released
            &&& forall|i: int|
                0 <= i < start.idle.len() ==> #[trigger] first.idle[i] + second.idle[i]
                    == both.idle[i]
        }),
{
    let first = middle.since(start, at_middle);
    assert forall|i: int| 0 <= i < start.idle.len() implies #[trigger] first.idle[i]
        + end.since(middle, at_end).idle[i] == end.since(start, at_end).idle[i] by {
        assert(start.idle[i] <= middle.idle[i] <= end.idle[i]);
    }
}

/// The totals that a sampler goes on from after a run of readings.
pub open spec fn kept(readings: Seq<(Totals, Ledger)>) -> Option<Totals>
    decreases readings.len(),
{
    if readings.len() == 0 {
        None
    } else {
        let (now, ledger) = readings.last();
        sampled(kept(readings.drop_last()), now, ledger).0
    }
}

/// The samples that a sampler gives over a run of readings.
pub open spec fn told(readings: Seq<(Totals, Ledger)>) -> Seq<Observation>
    decreases readings.len(),
{
    if readings.len() == 0 {
        Seq::empty()
    } else {
        let (now, ledger) = readings.last();
        let before = told(readings.drop_last());
        match sampled(kept(readings.drop_last()), now, ledger).1 {
            Some(seen) => before.push(seen),
            None => before,
        }
    }
}

/// Whether a sampler can take a whole run of readings.
pub open spec fn can_run(readings: Seq<(Totals, Ledger)>) -> bool
    decreases readings.len(),
{
    readings.len() == 0 || {
        &&& can_run(readings.drop_last())
        &&& can_sample(kept(readings.drop_last()), readings.last().0)
    }
}

/// All the time that samples tell of.
pub open spec fn all_elapsed(seen: Seq<Observation>) -> nat
    decreases seen.len(),
{
    if seen.len() == 0 {
        0
    } else {
        all_elapsed(seen.drop_last()) + seen.last().elapsed
    }
}

/// All the items that samples tell of as completed.
pub open spec fn all_completed(seen: Seq<Observation>) -> nat
    decreases seen.len(),
{
    if seen.len() == 0 {
        0
    } else {
        all_completed(seen.drop_last()) + seen.last().completed
    }
}

/// All the items that samples tell of as released.
pub open spec fn all_released(seen: Seq<Observation>) -> nat
    decreases seen.len(),
{
    if seen.len() == 0 {
        0
    } else {
        all_released(seen.drop_last()) + seen.last().released
    }
}

/// All the idle time of one probe that samples tell of.
pub open spec fn all_idle(seen: Seq<Observation>, probe: int) -> nat
    decreases seen.len(),
{
    if seen.len() == 0 {
        0
    } else {
        all_idle(seen.drop_last(), probe) + seen.last().idle[probe]
    }
}

/// Over any run of readings nothing is lost and nothing counts twice: the samples together tell of
/// all the time, and of all that finished, from the first reading to the latest that was kept, and
/// no reading is later than that one.
pub proof fn samples_of_a_run_add_up(readings: Seq<(Totals, Ledger)>)
    requires
        readings.len() > 0,
        can_run(readings),
    ensures
        ({
            let (first, seen) = (readings[0].0, told(readings));
            &&& kept(readings) is Some
            &&& first.at + all_elapsed(seen) == kept(readings)->0.at
            &&& first.completed + all_completed(seen) == kept(readings)->0.completed
            &&& first.released + all_released(seen) == kept(readings)->0.released
            &&& forall|j: int|
                0 <= j < readings.len() ==> (#[trigger] readings[j]).0.at <= kept(readings)->0.at
        }),
    decreases readings.len(),
{
    let before = readings.drop_last();
    if before.len() == 0 {
        assert(kept(before) is None);
        assert(told(before) =~= Seq::empty());
        assert(told(readings) =~= Seq::empty());
    } else {
        samples_of_a_run_add_up(before);
        assert(before[0] == readings[0]);
        let (now, ledger) = readings.last();
        let last = kept(before)->0;
        if now.at > last.at {
            assert(told(readings).drop_last() =~= told(before));
        }
        assert forall|j: int| 0 <= j < readings.len() implies (#[trigger] readings[j]).0.at
            <= kept(readings)->0.at by {
            if j < before.len() {
                assert(before[j] == readings[j]);
            }
        }
    }
}

/// Over any run of readings in which a probe's total never goes back, the samples together tell of
/// all the time that it was idle from the first reading to the latest that was kept.
pub proof fn idle_of_a_run_adds_up(readings: Seq<(Totals, Ledger)>, probe: int)
    requires
        readings.len() > 0,
        can_run(readings),
        0 <= probe,
        forall|j: int| 0 <= j < readings.len() ==> probe < (#[trigger] readings[j]).0.idle.len(),
        forall|j: int, k: int|
            0 <= j <= k < readings.len() ==> (#[trigger] readings[j]).0.idle[probe] <= (
            #[trigger] readings[k]).0.idle[probe],
    ensures
        kept(readings) is Some,
        probe < kept(readings)->0.idle.len(),
        readings[0].0.idle[probe] + all_idle(told(readings), probe)
            == kept(readings)->0.idle[probe],
        kept(readings)->0.idle[probe] <= readings.last().0.idle[probe],
    decreases readings.len(),
{
    let before = readings.drop_last();
    if before.len() == 0 {
        assert(kept(before) is None);
        assert(told(before) =~= Seq::empty());
        assert(told(readings) =~= Seq::empty());
    } else {
        assert forall|j: int, k: int| 0 <= j <= k < before.len() implies (
        #[trigger] before[j]).0.idle[probe] <= (#[trigger] before[k]).0.idle[probe] by {
            assert(readings[j].0.idle[probe] <= readings[k].0.idle[probe]);
        }
        assert forall|j: int| 0 <= j < before.len() implies probe < (
        #[trigger] before[j]).0.idle.len() by {
            assert(readings[j].0.idle.len() > probe);
        }
        idle_of_a_run_adds_up(before, probe);
        assert(before[0] == readings[0]);
        let (now, ledger) = readings.last();
        let last = kept(before)->0;
        let end = readings.len() - 1;
        assert(readings[end - 1].0.idle[probe] <= readings[end].0.idle[probe]);
        if now.at > last.at {
            assert(told(readings).drop_last() =~= told(before));
            assert(now.since(last, ledger).idle[probe] == now.idle[probe] - last.idle[probe]);
        }
    }
}

/// A reading when no time has passed changes nothing: what it saw is told by the next sample.
pub proof fn no_time_carries_over(last: Totals, now: Totals, ledger: Ledger)
    requires
        now.at <= last.at,
    ensures
        sampled(Some(last), now, ledger) == (Some(last), None::<Observation>),
{
}

/// What happened before the first reading is in no sample, and from then on each sample tells of
/// time that has passed.
pub proof fn first_reading_sets_the_baseline(last: Option<Totals>, now: Totals, ledger: Ledger)
    ensures
        sampled(None, now, ledger) == (Some(now), None::<Observation>),
        sampled(last, now, ledger).1 is Some ==> sampled(last, now, ledger).1->0.elapsed > 0,
{
}

/// The share of an interval that a probe was idle is at most one, and none of no time.
pub proof fn idle_shares_are_fractions(seen: Observation)
    ensures
        forall|i: int|
            0 <= i < seen.shares().len() ==> (#[trigger] seen.shares()[i]).at_most(
                Value::of_nat(1),
            ),
        seen.shares().len() == seen.idle.len(),
{
    crate::binary64::lemma_of_nat_exact(1);
}

/// What a probe's share tells: none of no time, all of it if the probe was idle for as long as the
/// interval or longer, and else its idle time divided by the interval, but for rounding.
pub proof fn idle_share_is_idle_time_by_interval(seen: Observation, i: int)
    requires
        0 <= i < seen.idle.len(),
        seen.elapsed <= time::LONGEST_NANOS,
        seen.idle[i] <= time::LONGEST_NANOS,
    ensures
        ({
            let (idle, elapsed, share) = (seen.idle[i], seen.elapsed, seen.shares()[i]);
            &&& seen.shares().len() == seen.idle.len()
            &&& elapsed == 0 || idle == 0 ==> share == Value::Finite(0)
            &&& 0 < elapsed <= idle ==> share == Value::Finite(Value::one())
            &&& 0 < idle < elapsed ==> share.about(idle, elapsed)
        }),
{
    let (idle, elapsed) = (seen.idle[i], seen.elapsed);
    let one = Value::one();
    lemma_pow2_pos(1074);
    crate::binary64::lemma_of_nat_exact(1);
    if elapsed > 0 {
        let (x, y) = (time::seconds(idle), time::seconds(elapsed));
        time::lemma_seconds(idle);
        time::lemma_seconds(elapsed);
        lemma_pow2_pos(946);
        let (u, v) = (x->Finite_0, y->Finite_0);
        if idle == 0 {
            assert(0 * one == 0);
            crate::rounding::lemma_rounded_tiny(0, v);
            lemma_pow2_pos(2098);
        } else {
            crate::nearly::lemma_near_seconds(idle);
            crate::nearly::lemma_near_seconds(elapsed);
            crate::rounding::rounding_is_exact(1, 1074, 1);
            lemma_pow2_strictly_increases(1074, 2098);
            if elapsed <= idle {
                time::longer_is_more_seconds(elapsed, idle);
                assert(((1 * one) * 1) * v <= (u * one) * 1) by (nonlinear_arith)
                    requires
                        v <= u,
                ;
                crate::rounding::rounding_is_monotone((1 * one) * 1, 1, u * one, v);
            } else {
                time::longer_is_more_seconds(idle, elapsed);
                assert((u * one) * 1 <= ((1 * one) * 1) * v) by (nonlinear_arith)
                    requires
                        u <= v,
                ;
                crate::rounding::rounding_is_monotone(u * one, v, (1 * one) * 1, 1);
                let giga: nat = 1_000_000_000;
                crate::nearly::lemma_near_over(
                    x,
                    idle,
                    giga,
                    y,
                    elapsed,
                    giga,
                    0x4000_0000_0000,
                    946,
                    1203,
                    946,
                    1203,
                );
                let z = x.over(y)->Finite_0;
                assert(z * (giga * elapsed) == (z * elapsed) * giga && (idle * giga) * one == (idle
                    * one) * giga) by (nonlinear_arith);
                crate::nearly::lemma_near_cancels(
                    z * elapsed,
                    idle * one,
                    giga,
                    0x4000_0000_0000,
                );
                crate::nearly::lemma_about(x.over(y), idle, elapsed, 0x4000_0000_0000);
            }
        }
    }
}

/// A stage counts as idle for more than a threshold exactly if some probe's share is above it: all
/// probes together add up to nothing more.
pub proof fn idle_above_is_some_share_above(seen: Observation, threshold: Value)
    ensures
        seen.idle_above(threshold) <==> exists|i: int|
            0 <= i < seen.shares().len() && !(#[trigger] seen.shares()[i]).at_most(threshold),
{
    if seen.idle_above(threshold) {
        let i = choose|i: int|
            0 <= i < seen.idle.len() && threshold.below(
                #[trigger] Observation::share(seen.idle[i], seen.elapsed),
            );
        assert(!seen.shares()[i].at_most(threshold));
    }
    if exists|i: int|
        0 <= i < seen.shares().len() && !(#[trigger] seen.shares()[i]).at_most(threshold) {
        let i = choose|i: int|
            0 <= i < seen.shares().len() && !(#[trigger] seen.shares()[i]).at_most(threshold);
        assert(threshold.below(Observation::share(seen.idle[i], seen.elapsed)));
    }
}

/// Every sample tells of the permits handed out and not yet given back when it was taken, also
/// while that is more than a lowered limit allows, and of the limit and the moment.
pub proof fn samples_tell_what_is_inside(
    bell: tokio::sync::Notify,
    initial: nat,
    history: Seq<crate::ledger::Event>,
    last: Option<Totals>,
    idle: Seq<nat>,
    now: int,
)
    requires
        Ledger::new(bell, initial).can_run(history),
    ensures
        ({
            let ledger = Ledger::new(bell, initial).run(history);
            match sampled(last, Totals::read(ledger, idle, now), ledger).1 {
                Some(seen) => {
                    &&& seen.in_flight + crate::ledger::brought_back(history)
                        == crate::ledger::handed_out(history)
                    &&& seen.in_flight == ledger.held
                    &&& seen.limit == ledger.limit
                    &&& seen.at == now
                },
                None => last is None || now <= last->0.at,
            }
        }),
{
    crate::ledger::gate_never_loses_track(bell, initial, history);
}

/// Whenever time has passed there is a sample, and what it tells added to the totals it started
/// from gives the totals it ends at, from which the next one starts.
pub proof fn samples_lead_from_totals_to_totals(
    last: Totals,
    ledger: Ledger,
    idle: Seq<nat>,
    now: int,
)
    requires
        now > last.at,
        last.completed <= ledger.completed,
        last.released <= ledger.released,
    ensures
        ({
            let (kept, seen) = sampled(Some(last), Totals::read(ledger, idle, now), ledger);
            &&& kept is Some && seen is Some
            &&& kept->0.at == now && kept->0.idle == idle
            &&& kept->0.completed == ledger.completed && kept->0.released == ledger.released
            &&& last.at + seen->0.elapsed == now
            &&& last.completed + seen->0.completed == ledger.completed
            &&& last.released + seen->0.released == ledger.released
            &&& seen->0.idle.len() <= idle.len() && seen->0.idle.len() <= last.idle.len()
            &&& seen->0.idle.len() == idle.len() || seen->0.idle.len() == last.idle.len()
            &&& forall|i: int|
                0 <= i < seen->0.idle.len() ==> if last.idle[i] <= idle[i] {
                    last.idle[i] + #[trigger] seen->0.idle[i] == idle[i]
                } else {
                    seen->0.idle[i] == 0
                }
        }),
{
}

} // verus!
