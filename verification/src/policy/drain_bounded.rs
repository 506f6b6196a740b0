//! The recommended policy: grow while the bottleneck waits, but keep shutdown quick.

use vstd::arithmetic::power2::*;
use vstd::prelude::*;

use super::drain_model::{DrainModel, DrainSettings, RampModel};
use super::window::{self, Tally, Window};
use super::{Diagnostics, Policy};
use crate::binary64::{Binary64, Value};
use crate::sample::{Observation, Sample};
use crate::time::{self, Duration, Instant};

verus! {

/// Raises the limit while the bottleneck is waiting for input, and lowers it when the work
/// inside would take too long to finish.
///
/// This is the policy to start with. It needs at least one [`IdleProbe`](crate::IdleProbe) on
/// the pacer, because the probe is how it learns that the bottleneck is waiting. Without one it
/// never raises the limit.
///
/// # What it controls
///
/// The `Gate` only decides how many items are let in, so the limit only controls how fast
/// upstream is fed. Everything from the bottleneck on runs at its own pace. The aim is that this
/// part never waits for input, while the items inside can still finish in about
/// [`drain_target`] on shutdown.
///
/// A ticket is held until its item is done, so the time an item spends after the bottleneck
/// counts like any other. The probe on the bottleneck says when that part waits for input. If a
/// slower stage sits behind the bottleneck with room for more items than the limit, the probe
/// can't see its queue: see [Checking a raise](#checking-a-raise).
///
/// # How it decides
///
/// ### Residence
///
/// How long an item stays in the pipeline: the average number of items inside divided by how
/// many leave per second (Little's law). It is also about how long a clean shutdown takes.
///
/// It is measured over a *window* of recent ticks that saw at least [`window_items`] items leave
/// and covers one pass through the pipeline, or else spans [`max_window`]. A whole pass sees a
/// whole wave of departures, not just its crest or trough.
///
/// ### The bound
///
/// The longest residence allowed: [`drain_target`], or [`max_slowdown`] times the *fastest*
/// residence seen if that is longer, so a pipeline that is slow by nature isn't squeezed.
///
/// - Until the fastest time is known there is no bound, since a long residence may just be the
///   pipeline filling up. Raises then stop at [`drain_target`] instead.
/// - Right after a raise, the new items are inside but none has left yet, so residence reads
///   high, by at most [`growth`]. The bound is widened by as much until they show up in the
///   window.
///
/// ### The fastest time
///
/// Learned from everything since the pipeline last settled: since the first items left, the
/// limit last changed, or a raise's items came through. It needs at least [`window_items`]
/// items to have left, over at least one pass.
///
/// Queueing only adds to residence, so the lowest value seen is kept. It creeps up (by
/// [`fastest_decay`]) only while the bottleneck waits, when nothing queues for it, so a slower
/// upstream is eventually accepted but a slower bottleneck is not.
///
/// ### Raising
///
/// When the bottleneck waits for input ([`starving`]) while the `Gate` is nearly full, the limit
/// is multiplied by [`growth`]. Only if all of these hold:
///
/// - Residence is within the bound (or [`drain_target`] while no bound is known): more items
///   can't make them leave sooner.
/// - Items have been succeeding: at least one since the last change, and at least half of those
///   leaving lately. Otherwise items that fail fast, or hang, would look like a hungry
///   bottleneck.
/// - The previous raise has shown: one pass has passed (at most [`max_settle`]), so its items
///   have reached the bottleneck, and departures have risen as in the next section.
///
/// ### Checking a raise
///
/// A waiting bottleneck turns more items into more departures. Once a raise's items come
/// through, departures should have risen by at least half as much as the limit did. If not,
/// the part after the `Gate` wasn't short of input: the items are queueing where no probe sees,
/// such as behind the bottleneck.
///
/// If that raise also pushed residence past the bound, it is taken back, and there is no other
/// raise until departures change by a quarter or more. A raise that only failed to help but
/// kept within the bound is left alone.
///
/// This needs to know when the raise's items come through: once the fastest time is known, or
/// while a pass is shorter than [`max_window`].
///
/// ### Lowering
///
/// Letting more in only makes items slower once the bottleneck is busy: then they queue in
/// front of it, and residence rises. When residence passes the bound while the bottleneck is
/// busy, the limit is cut to what leaves within the bound. While the bottleneck waits nothing
/// queues for it, and a cut would only starve it further. After a cut, the next waits until the
/// excess has left (at most [`max_settle`]).
///
/// When nothing has left for longer than [`max_window`] and twice the longest silence seen
/// before, the pipeline is stuck. If the bottleneck waits, or no bound is known yet, the limit
/// drops to [`floor`].
///
/// [`floor`]: DrainBoundedBuilder::floor
/// [`starving`]: DrainBoundedBuilder::starving
/// [`growth`]: DrainBoundedBuilder::growth
/// [`drain_target`]: DrainBoundedBuilder::drain_target
/// [`max_slowdown`]: DrainBoundedBuilder::max_slowdown
/// [`max_settle`]: DrainBoundedBuilder::max_settle
/// [`window_items`]: DrainBoundedBuilder::window_items
/// [`max_window`]: DrainBoundedBuilder::max_window
/// [`fastest_decay`]: DrainBoundedBuilder::fastest_decay
///
/// # Diagnostics
///
/// Each decision reports `throughput` (items finished per second), `departures` (items leaving
/// per second, finished or not), `residence` (seconds an item stays inside), `fastest` (the
/// fastest residence seen), `bound` (the residence allowed right now), `window` (the seconds the
/// window spans), and `starving` and `saturated` (1 if the bottleneck was waiting, or the `Gate`
/// was nearly full, else 0).
#[derive(Debug)]
pub struct DrainBounded {
    config: DrainBoundedBuilder,
    /// recent ticks: residence and rates for the decisions
    window: Window,
    /// everything since the pipeline last settled: where the fastest time is learned
    settled: Tally,
    /// whether any item has left yet; until then the pipeline is still filling
    filled: bool,
    /// when an item last left (at first, when the first tick started)
    last_departure: Option<Instant>,
    /// the longest time without departures so far
    longest_silence: Duration,
    /// whether an item has succeeded since the limit last changed
    succeeded: bool,
    /// items in flight at the previous sample
    last_in_flight: Option<usize>,
    /// lowest residence seen, in seconds
    fastest: Binary64,
    /// one pass through the pipeline, once the fastest time is known
    pass: Option<Duration>,
    /// the raises whose items haven't reached the whole window yet
    ramp: Option<Ramp>,
    /// departures per second when a raise last failed to bring more; no raise until they
    /// change
    plateau: Option<Binary64>,
    /// no raise before this: the latest raise's items haven't reached the bottleneck
    raise_after: Option<Instant>,
    /// no cut before this: the latest cut's excess hasn't left
    cut_after: Option<Instant>,
    // the latest decision's inputs, for diagnostics
    residence: Binary64,
    bound: Binary64,
    starving: bool,
    saturated: bool,
}

/// Raises whose items haven't reached the whole window yet.
#[derive(Debug, Clone, Copy)]
struct Ramp {
    /// the limit before the first of these raises
    from: usize,
    /// the limit before the latest raise
    last: usize,
    /// departures per second before the latest raise
    departures: Binary64,
    /// whether the pass was known at the latest raise, or at least not capped at
    /// `max_window`; if not, the ramp may end before its items come through, and it can't be
    /// checked
    checked: bool,
    /// when the latest raise's items start leaving
    until: Instant,
}

/// Sets up a [`DrainBounded`] policy. Every setting has a default.
#[derive(Debug, Clone, Copy)]
pub struct DrainBoundedBuilder {
    floor: usize,
    max: usize,
    initial: Option<usize>,
    drain_target: Duration,
    max_slowdown: Binary64,
    growth: Binary64,
    window_items: u64,
    max_window: Duration,
    starving: Binary64,
    fastest_decay: Binary64,
    max_settle: Duration,
}

/// What is in an optional limit.
pub open spec fn limit_of(limit: Option<usize>) -> Option<nat> {
    match limit {
        Some(limit) => Some(limit as nat),
        None => None,
    }
}

/// What an optional moment stands for.
pub open spec fn moment_of(at: Option<Instant>) -> Option<int> {
    match at {
        Some(at) => Some(at@),
        None => None,
    }
}

/// What an optional span stands for.
pub open spec fn span_of(span: Option<Duration>) -> Option<nat> {
    match span {
        Some(span) => Some(span@),
        None => None,
    }
}

/// What an optional number stands for.
pub open spec fn number_of(number: Option<Binary64>) -> Option<Value> {
    match number {
        Some(number) => Some(number@),
        None => None,
    }
}

impl View for Ramp {
    type V = RampModel;

    closed spec fn view(&self) -> RampModel {
        RampModel {
            from: self.from as nat,
            last: self.last as nat,
            departures: self.departures@,
            checked: self.checked,
            until: self.until@,
        }
    }
}

/// What an optional ramp stands for.
spec fn ramp_of(ramp: Option<Ramp>) -> Option<RampModel> {
    match ramp {
        Some(ramp) => Some(ramp@),
        None => None,
    }
}

impl View for DrainBoundedBuilder {
    type V = DrainSettings;

    closed spec fn view(&self) -> DrainSettings {
        DrainSettings {
            floor: self.floor as nat,
            max: self.max as nat,
            initial: limit_of(self.initial),
            drain_target: self.drain_target@,
            max_slowdown: self.max_slowdown@,
            growth: self.growth@,
            window_items: self.window_items as nat,
            max_window: self.max_window@,
            starving: self.starving@,
            fastest_decay: self.fastest_decay@,
            max_settle: self.max_settle@,
        }
    }
}

impl View for DrainBounded {
    type V = DrainModel;

    closed spec fn view(&self) -> DrainModel {
        DrainModel {
            settings: self.config@,
            window: self.window@,
            settled: self.settled@,
            filled: self.filled,
            last_departure: moment_of(self.last_departure),
            longest_silence: self.longest_silence@,
            succeeded: self.succeeded,
            last_in_flight: limit_of(self.last_in_flight),
            fastest: self.fastest@,
            pass: span_of(self.pass),
            ramp: ramp_of(self.ramp),
            plateau: number_of(self.plateau),
            raise_after: moment_of(self.raise_after),
            cut_after: moment_of(self.cut_after),
            residence: self.residence@,
            bound: self.bound@,
            starving: self.starving,
            saturated: self.saturated,
        }
    }
}

/// Integers are close enough together that one more than the quotient of two is a number.
pub proof fn lemma_raise_is_finite(limit: nat, from: nat)
    requires
        limit <= u64::MAX,
        0 < from <= u64::MAX,
    ensures
        Value::of_nat(limit).over(Value::of_nat(from)) is Finite,
        Value::of_nat(1).plus(Value::of_nat(limit).over(Value::of_nat(from))) is Finite,
        Value::of_nat(1).plus(Value::of_nat(limit).over(Value::of_nat(from))) != Value::zero(),
        Value::of_nat(1) == Value::Finite(Value::one()),
        Value::one() > 0,
{
    let one = Value::one();
    lemma_pow2_pos(1074);
    crate::binary64::lemma_of_nat_bounds(limit);
    crate::binary64::lemma_of_nat_bounds(from);
    crate::binary64::lemma_of_nat_exact(1);
    let x = Value::of_nat(limit)->Finite_0;
    let y = Value::of_nat(from)->Finite_0;
    assert((x * one) * 1 <= ((1 * pow2(1202)) * 1) * y) by (nonlinear_arith)
        requires
            x <= pow2(1202),
            one <= y,
    ;
    crate::rounding::rounding_is_exact(1, 1202, 1);
    crate::rounding::rounding_is_monotone(x * one, y, (1 * pow2(1202)) * 1, 1);
    lemma_pow2_strictly_increases(1074, 1202);
    lemma_pow2_strictly_increases(1202, 2098);
    lemma_pow2_unfold(1203);
    lemma_pow2_strictly_increases(1203, 2098);
    let z = crate::rounding::rounded(x * one, y);
    crate::rounding::rounding_is_exact(1, 1203, 1);
    crate::rounding::rounding_is_monotone(one + z, 1, (1 * pow2(1203)) * 1, 1);
    crate::rounding::rounding_is_exact(1, 1074, 1);
    crate::rounding::rounding_is_monotone((1 * one) * 1, 1, one + z, 1);
}

impl Ramp {
    /// Whether the latest raise brought more departures. A waiting bottleneck gets more work
    /// from more items, so departures follow the limit; if they rose by less than half as much,
    /// the items queue where no probe sees.
    fn paid(&self, limit: usize, departures: Binary64) -> (r: bool)
        requires
            self@.last > 0,
        ensures
            r == self@.paid(limit as nat, departures@),
    {
        proof {
            lemma_raise_is_finite(limit as nat, self.last as nat);
        }
        let raised = Binary64::from_u128(limit as u128).over(
            Binary64::from_u128(self.last as u128),
        );
        let expected = self.departures.times(Binary64::from_u128(1).plus(raised)).over(
            Binary64::from_u128(2),
        );
        expected.at_most(departures)
    }
}

impl DrainBounded {
    /// One pass through the pipeline, as best known: before the fastest time is known, the
    /// latest residence, which a stall inflates, so at most `max_window`.
    fn pass_estimate(&self) -> (r: Option<Duration>)
        ensures
            span_of(r) == self@.pass_estimate(),
    {
        match self.pass {
            Some(pass) => Some(pass),
            None => Duration::from_seconds(
                self.residence.lesser(self.config.max_window.in_seconds()),
            ),
        }
    }

    /// Record what happened in a tick.
    fn record(&mut self, sample: &Sample)
        requires
            old(self).wf(),
            sample@.elapsed > 0,
            old(self)@.has_room(sample@),
        ensures
            final(self).wf(),
            final(self)@ == old(self)@.recorded(sample@),
    {
        // only both ends are known: assume in flight changed evenly in between
        let before: usize = match self.last_in_flight {
            Some(before) => before,
            None => sample.in_flight,
        };
        let ends: u128 = before as u128 + sample.in_flight as u128;
        let tick = Tally {
            elapsed: sample.elapsed,
            occupancy: ends * sample.elapsed.as_nanos() / 2,
            departed: sample.completed + sample.released,
            completed: sample.completed,
        };
        assert(tick@ == self@.tick(sample@));
        self.last_in_flight = Some(sample.in_flight);
        let start = match sample.at.checked_sub(sample.elapsed) {
            Some(start) => start,
            None => sample.at,
        };
        // at least one pass, but only a known pass may go past `max_window`: a stall
        // would stretch an estimated one without end
        let min = match self.pass_estimate() {
            Some(pass) => pass,
            None => self.config.max_window,
        };
        let max = match self.pass {
            Some(pass) => pass.longer(self.config.max_window),
            None => self.config.max_window,
        };
        self.window.push(start, tick, self.config.window_items, min, max);
        if self.filled {
            self.settled.add(&tick);
        }
        // the first departures end the filling, which says nothing about the pace
        self.filled = self.filled || tick.departed > 0;
        let last_departure = match self.last_departure {
            Some(at) => at,
            None => start,
        };
        if tick.departed > 0 {
            let silence = sample.at.saturating_duration_since(last_departure);
            self.longest_silence = self.longest_silence.longer(silence);
            self.last_departure = Some(sample.at);
        } else {
            self.last_departure = Some(last_departure);
        }
        self.succeeded = self.succeeded || tick.completed > 0;
    }

    /// Take in what the sample says about the pipeline.
    fn observe(&mut self, sample: &Sample)
        requires
            old(self).wf(),
            old(self)@.has_room(sample@),
        ensures
            final(self).wf(),
            final(self)@ == old(self)@.observed(sample@),
    {
        if !sample.elapsed.is_zero() {
            self.record(sample);
        }
        self.residence = self.window.total().residence();
        self.starving = sample.idle_above(self.config.starving);
        self.saturated = sample.in_flight as u128 * 10 >= sample.limit as u128 * 9;
    }

    /// End the ramp once the window starts after the raised items began to leave, and leave a
    /// plateau once the pace has changed. Returns the ramp that is over.
    fn ease(&mut self, departures: Binary64) -> (r: Option<Ramp>)
        requires
            old(self).wf(),
            departures@ == old(self)@.departures(),
        ensures
            final(self).wf(),
            final(self)@ == old(self)@.eased(),
            ramp_of(r) == old(self)@.ended(),
    {
        let mut ended: Option<Ramp> = None;
        if let Some(plateau) = self.plateau {
            proof {
                lemma2_to64();
                crate::binary64::lemma_quotient_between(3, 4, 3, 3, 2);
                crate::binary64::lemma_quotient_between(5, 4, 5, 5, 2);
                lemma_pow2_pos(1072);
            }
            let less = plateau.times(Binary64::quotient(3, 4));
            let more = plateau.times(Binary64::quotient(5, 4));
            let same = departures.at_most(plateau) && plateau.at_most(departures);
            // the pace changed by a quarter or more: a raise may help now
            if !same && !(less.below(departures) && departures.below(more)) {
                self.plateau = None;
            }
        }
        if let Some(ramp) = self.ramp {
            if let Some(start) = self.window.start() {
                if start.not_before(ramp.until) {
                    self.ramp = None;
                    self.settled = Tally::new();
                    ended = Some(ramp);
                }
            }
        }
        ended
    }

    /// Learn the fastest time, from a full gate that isn't still shedding a cut's excess, and
    /// from enough items over a whole pass that mostly succeeded (fast failures aren't the pace,
    /// and part of a pass may catch a burst).
    fn learn(&mut self, sample: &Sample)
        requires
            old(self).wf(),
        ensures
            final(self).wf(),
            final(self)@ == old(self)@.learned(sample@),
    {
        let settled = self.settled.residence();
        if self.saturated && sample.in_flight <= sample.limit && self.ramp.is_none()
            && self.settled.departed >= self.config.window_items && settled.at_most(
            self.settled.elapsed.in_seconds(),
        ) && self.settled.mostly_succeeded() && Binary64::zero().below(settled)
            && settled.is_finite() {
            // creep up only while nothing queues for the bottleneck
            if self.starving {
                proof {
                    crate::binary64::lemma_product_is_not_zero(self.fastest@, self.config.fastest_decay@);
                }
                self.fastest = self.fastest.times(self.config.fastest_decay);
            }
            self.fastest = self.fastest.lesser(settled);
        }
    }

    /// The longest residence allowed: infinite until the fastest time is known.
    fn drain_bound(&self) -> (r: Binary64)
        requires
            self.wf(),
        ensures
            r@ == self@.drain_bound(),
            r@ != Value::zero(),
    {
        if self.fastest.is_finite() {
            proof {
                crate::binary64::lemma_product_is_not_zero(self.fastest@, self.config.max_slowdown@);
            }
            self.fastest.times(self.config.max_slowdown).greater(
                self.config.drain_target.in_seconds(),
            )
        } else {
            Binary64::infinity()
        }
    }

    /// By how much the bound is widened while a raise ramps.
    fn widening(&self, limit: usize) -> (r: Binary64)
        requires
            self.wf(),
        ensures
            r@ == self@.widening(limit as nat),
            r@ is Finite,
            Value::of_nat(1).at_most(r@),
    {
        match self.ramp {
            Some(ramp) => {
                proof {
                    lemma_raise_is_finite(limit as nat, ramp.from as nat);
                }
                Binary64::from_u128(limit as u128).over(
                    Binary64::from_u128(ramp.from as u128),
                ).greater(Binary64::from_u128(1)).lesser(self.config.growth)
            },
            None => Binary64::from_u128(1),
        }
    }

    /// Set the bound, and one pass once the bound is known. Returns the bound before it is
    /// widened, and the residence up to which the limit may be raised.
    fn set_bound(&mut self, limit: usize) -> (r: (Binary64, Binary64))
        requires
            old(self).wf(),
        ensures
            final(self).wf(),
            final(self)@ == old(self)@.bounded(limit as nat),
            r.0@ == old(self)@.drain_bound(),
            r.0@ != Value::zero(),
            r.1@ == old(self)@.raise_bound(limit as nat),
    {
        let drain_bound = self.drain_bound();
        let widen = self.widening(limit);
        proof {
            crate::binary64::lemma_product_is_not_zero(drain_bound@, widen@);
        }
        self.bound = drain_bound.times(widen);
        if drain_bound.is_finite() {
            self.pass = Duration::from_seconds(self.residence.lesser(drain_bound));
            (drain_bound, self.bound)
        } else {
            self.pass = None;
            // raising can't make items leave sooner: never past `drain_target` before the bound
            // is known
            (drain_bound, self.config.drain_target.in_seconds().times(widen))
        }
    }

    /// Keep a limit between `floor` and `max`.
    fn clamp(&self, limit: usize) -> (r: usize)
        ensures
            r == self@.settings.clamped(limit as nat),
    {
        let c = &self.config;
        let raised: usize = if limit <= c.floor {
            c.floor
        } else {
            limit
        };
        if raised <= c.max {
            raised
        } else {
            c.max
        }
    }

    /// Whether items are inside and have left before, but none for far longer than usual.
    fn is_stuck(&self, sample: &Sample) -> (r: bool)
        ensures
            r == self@.stuck(sample@),
    {
        let silence = match self.last_departure {
            Some(at) => sample.at.saturating_duration_since(at),
            None => Duration::zero(),
        };
        let usual = self.config.max_window.longer(self.longest_silence.doubled());
        self.filled && sample.in_flight > 0 && !silence.at_most(usual)
    }

    /// What to do about the sample, given the ramp that it ended.
    fn choose_target(
        &mut self,
        sample: &Sample,
        ended: Option<Ramp>,
        departures: Binary64,
        drain_bound: Binary64,
        raise_bound: Binary64,
    ) -> (r: usize)
        requires
            old(self).wf(),
            ramp_of(ended) is Some ==> ramp_of(ended)->0.last > 0,
            departures@ == old(self)@.departures(),
            drain_bound@ == old(self)@.drain_bound(),
            drain_bound@ != Value::zero(),
            raise_bound@ == old(self)@.raise_bound(sample@.limit),
            old(self)@.bound == drain_bound@.times(old(self)@.widening(sample@.limit)),
        ensures
            final(self).wf(),
            final(self)@ == old(self)@.checked(sample@, ramp_of(ended)),
            r == old(self)@.target(sample@, ramp_of(ended)),
    {
        let limit: usize = sample.limit;
        let stuck = self.is_stuck(sample);
        let may_cut = match self.cut_after {
            Some(after) => sample.at.not_before(after),
            None => true,
        };
        let may_raise = match self.raise_after {
            Some(after) => sample.at.not_before(after),
            None => true,
        };
        // a raise that brought no more departures and pushed residence past the bound only
        // lengthened a hidden queue
        let useless: Option<Ramp> = match ended {
            Some(ramp) => if ramp.checked && self.starving && !ramp.paid(limit, departures)
                && raise_bound.below(self.residence) {
                Some(ramp)
            } else {
                None
            },
            None => None,
        };
        assert(useless is Some <==> self@.useless(sample@, ramp_of(ended)));
        let paid = match self.ramp {
            Some(ramp) => ramp.paid(limit, departures),
            None => true,
        };
        let hungry = self.starving && self.saturated && may_raise && self.residence.at_most(
            raise_bound,
        ) && self.plateau.is_none() && paid && self.succeeded
            && self.window.total().mostly_succeeded();
        let target: usize = if stuck && (self.starving || !drain_bound.is_finite()) && may_cut {
            // nothing else would cut: the bound only acts on a busy bottleneck, once known
            0
        } else if let Some(ramp) = useless {
            ramp.last
        } else if self.bound.below(self.residence) && !self.starving && may_cut {
            // keep what leaves within the bound. Not while the bottleneck waits: then nothing
            // queues, and a long residence is upstream latency, which a cut can't shorten.
            // Never above the limit: while a cut's permits retire, more can be in flight
            let drainable: usize = departures.times(drain_bound).truncated();
            if drainable <= limit {
                drainable
            } else {
                limit
            }
        } else if hungry {
            if limit == 0 {
                0
            } else {
                proof {
                    crate::binary64::lemma_of_nat_bounds(limit as nat);
                    crate::binary64::lemma_of_nat_exact(1);
                }
                Binary64::from_u128(limit as u128).times(self.config.growth).raised()
            }
        } else {
            limit
        };
        if let Some(ramp) = useless {
            self.plateau = Some(ramp.departures);
        }
        self.clamp(target)
    }

    /// Hold the next change until this one shows.
    fn hold(&mut self, sample: &Sample, target: usize, departures: Binary64)
        requires
            old(self).wf(),
            departures@ == old(self)@.departures(),
        ensures
            final(self).wf(),
            final(self)@ == old(self)@.held(sample@, target as nat),
    {
        let limit: usize = sample.limit;
        if target > limit {
            // the new items reach the bottleneck, and start leaving, about one pass from now
            let pass = match self.pass_estimate() {
                Some(pass) => pass,
                None => self.config.max_settle,
            };
            let checked = self.pass.is_some() || self.residence.below(
                self.config.max_window.in_seconds(),
            );
            self.raise_after = sample.at.checked_add(pass.shorter(self.config.max_settle));
            // a raise within a ramp extends it
            let from: usize = match self.ramp {
                Some(ramp) => ramp.from,
                None => limit,
            };
            self.ramp = match sample.at.checked_add(pass) {
                Some(until) => Some(
                    Ramp {
                        from: if from <= 1 {
                            1
                        } else {
                            from
                        },
                        last: if limit <= 1 {
                            1
                        } else {
                            limit
                        },
                        departures,
                        checked,
                        until,
                    },
                ),
                None => None,
            };
            self.settled = Tally::new();
            self.succeeded = false;
        } else if target < limit {
            self.ramp = None;
            self.raise_after = None;
            // until the excess leaves at the current rate
            let hold = if sample.in_flight <= target {
                Duration::zero()
            } else {
                let excess: usize = sample.in_flight - target;
                match Duration::from_seconds(Binary64::from_u128(excess as u128).over(departures)) {
                    Some(hold) => hold.shorter(self.config.max_settle),
                    None => self.config.max_settle,
                }
            };
            self.cut_after = sample.at.checked_add(hold);
            self.settled = Tally::new();
            self.succeeded = false;
        }
    }
}

impl DrainBoundedBuilder {
    /// The lowest the limit goes. Default: 1.
    ///
    /// Two batches is a good choice: the bottleneck works on one while the next waits.
    pub fn floor(self, floor: usize) -> (r: Self)
        ensures
            r@ == (DrainSettings { floor: floor as nat, ..self@ }),
    {
        Self { floor, ..self }
    }

    /// The highest the limit goes, as a safety cap on memory. Default: 1024.
    ///
    /// If set below `floor`, `floor` is used.
    pub fn max(self, max: usize) -> (r: Self)
        ensures
            r@ == (DrainSettings { max: max as nat, ..self@ }),
    {
        Self { max, ..self }
    }

    /// The limit to start with. Default: `floor`. Kept between `floor` and `max`.
    pub fn initial(self, initial: usize) -> (r: Self)
        ensures
            r@ == (DrainSettings { initial: Some(initial as nat), ..self@ }),
    {
        Self { initial: Some(initial), ..self }
    }

    /// How long the policy aims for items to stay inside the pipeline, which is also about
    /// how long a clean shutdown takes. Default: 10 seconds.
    ///
    /// For most pipelines this works as a cap: the limit comes down whenever items would
    /// take longer. The exception is a pipeline where items take longer than this even at
    /// their fastest. Capping it here would starve the bottleneck, so the policy allows
    /// [`max_slowdown`](Self::max_slowdown) times the fastest time observed instead.
    pub fn drain_target(self, drain_target: Duration) -> (r: Self)
        ensures
            r@ == (DrainSettings { drain_target: drain_target@, ..self@ }),
    {
        Self { drain_target, ..self }
    }

    /// How many times slower than their fastest observed time items may get before the
    /// limit comes down. Default: 1.5, so items may take up to 50% longer. Must be at least 1.
    ///
    /// Only matters for pipelines where items take longer than `drain_target` even at their
    /// fastest.
    pub fn max_slowdown(self, max_slowdown: Binary64) -> (r: Self)
        ensures
            r@ == (DrainSettings { max_slowdown: max_slowdown@, ..self@ }),
    {
        Self { max_slowdown, ..self }
    }

    /// What the limit is multiplied by each time it grows. Default: 2. Must be above 1.
    pub fn growth(self, growth: Binary64) -> (r: Self)
        ensures
            r@ == (DrainSettings { growth: growth@, ..self@ }),
    {
        Self { growth, ..self }
    }

    /// How many items must have left (finished or not) before the policy trusts how fast
    /// they leave. Default: 20. Must be at least 1.
    ///
    /// The window stretches over as many recent ticks as it takes. Higher is steadier but
    /// reacts more slowly when items are few.
    pub fn window_items(self, window_items: u64) -> (r: Self)
        ensures
            r@ == (DrainSettings { window_items: window_items as nat, ..self@ }),
    {
        Self { window_items, ..self }
    }

    /// The longest the window spans, however few items left in it. Default: 30 seconds.
    /// Must be non-zero.
    ///
    /// Once the fastest time is known, the window spans at least one pass through the
    /// pipeline, even if that is longer. It is made of whole ticks, so it can also run over
    /// by up to one tick.
    pub fn max_window(self, max_window: Duration) -> (r: Self)
        ensures
            r@ == (DrainSettings { max_window: max_window@, ..self@ }),
    {
        Self { max_window, ..self }
    }

    /// How much of a tick the bottleneck may spend waiting before it counts as starving.
    /// Default: 0.1, that is, 10%.
    ///
    /// At least 0 and below 1. A little waiting is normal (handing over a batch takes some
    /// time), so 0 is rarely a good idea.
    pub fn starving(self, starving: Binary64) -> (r: Self)
        ensures
            r@ == (DrainSettings { starving: starving@, ..self@ }),
    {
        Self { starving, ..self }
    }

    /// How fast the fastest time creeps back up, as a factor per tick in which it is
    /// measured while the bottleneck waits. Default: 1.05, that is, 5%. Must be at least 1.
    ///
    /// This lets the policy accept a pipeline whose upstream has become slower for good. 1
    /// means never forgetting.
    pub fn fastest_decay(self, fastest_decay: Binary64) -> (r: Self)
        ensures
            r@ == (DrainSettings { fastest_decay: fastest_decay@, ..self@ }),
    {
        Self { fastest_decay, ..self }
    }

    /// The longest the policy waits after a change before it may change the limit the same
    /// way again. Default: 30 seconds.
    pub fn max_settle(self, max_settle: Duration) -> (r: Self)
        ensures
            r@ == (DrainSettings { max_settle: max_settle@, ..self@ }),
    {
        Self { max_settle, ..self }
    }

    /// Whether the settings are in range: `floor` and `window_items` at least 1, `max_slowdown` and
    /// `fastest_decay` at least 1, `growth` above 1, `max_window` not zero, and `starving` below 1.
    /// Others would quietly keep the limit from ever growing, or stick it at the floor.
    pub fn is_valid(&self) -> (r: bool)
        ensures
            r == self@.valid(),
    {
        proof {
            crate::binary64::lemma_is_number(self.growth);
        }
        let one = Binary64::from_u128(1);
        self.floor > 0 && one.at_most(self.max_slowdown) && one.below(self.growth)
            && self.starving.below(one) && self.window_items > 0 && !self.max_window.is_zero()
            && one.at_most(self.fastest_decay)
    }

    /// Create the policy from settings that are in range.
    pub fn build(self) -> (r: DrainBounded)
        requires
            self@.valid(),
        ensures
            r.wf(),
            r@ == DrainModel::new(self@),
    {
        DrainBounded::new(
            self.floor,
            self.max,
            self.initial,
            self.drain_target,
            self.max_slowdown,
            self.growth,
            self.window_items,
            self.max_window,
            self.starving,
            self.fastest_decay,
            self.max_settle,
        )
    }
}

impl DrainBounded {
    /// Set up the policy. Every setting has a default, so `DrainBounded::builder().build()`
    /// (or `DrainBounded::default()`) works as is.
    pub fn builder() -> (r: DrainBoundedBuilder)
        ensures
            r@ == DrainSettings::defaults(),
            r@.valid(),
    {
        let growth = Binary64::from_u128(2);
        proof {
            crate::binary64::lemma_is_number(growth);
            lemma_defaults();
        }
        DrainBoundedBuilder {
            floor: 1,
            max: 1024,
            initial: None,
            drain_target: Duration::from_secs(10),
            max_slowdown: Binary64::quotient(3, 2),
            growth,
            window_items: 20,
            max_window: Duration::from_secs(30),
            starving: Binary64::quotient(1, 10),
            fastest_decay: Binary64::quotient(105, 100),
            max_settle: Duration::from_secs(30),
        }
    }

    /// Create the policy from settings that are in range; [`builder`](Self::builder) has
    /// defaults for them.
    pub fn new(
        floor: usize,
        max: usize,
        initial: Option<usize>,
        drain_target: Duration,
        max_slowdown: Binary64,
        growth: Binary64,
        window_items: u64,
        max_window: Duration,
        starving: Binary64,
        fastest_decay: Binary64,
        max_settle: Duration,
    ) -> (r: Self)
        requires
            floor > 0,
            Value::of_nat(1).at_most(max_slowdown@),
            Value::of_nat(1).below(growth@),
            starving@.below(Value::of_nat(1)),
            window_items > 0,
            max_window@ > 0,
            Value::of_nat(1).at_most(fastest_decay@),
        ensures
            r.wf(),
            r@ == DrainModel::new(
                DrainSettings {
                    floor: floor as nat,
                    max: max as nat,
                    initial: limit_of(initial),
                    drain_target: drain_target@,
                    max_slowdown: max_slowdown@,
                    growth: growth@,
                    window_items: window_items as nat,
                    max_window: max_window@,
                    starving: starving@,
                    fastest_decay: fastest_decay@,
                    max_settle: max_settle@,
                },
            ),
    {
        proof {
            crate::binary64::lemma_is_number(growth);
        }
        Self {
            config: DrainBoundedBuilder {
                floor,
                max: if max <= floor {
                    floor
                } else {
                    max
                },
                initial,
                drain_target,
                max_slowdown,
                growth,
                window_items,
                max_window,
                starving,
                fastest_decay,
                max_settle,
            },
            window: Window::new(),
            settled: Tally::new(),
            filled: false,
            last_departure: None,
            longest_silence: Duration::zero(),
            succeeded: false,
            last_in_flight: None,
            fastest: Binary64::infinity(),
            pass: None,
            ramp: None,
            plateau: None,
            raise_after: None,
            cut_after: None,
            residence: Binary64::infinity(),
            bound: Binary64::infinity(),
            starving: false,
            saturated: false,
        }
    }

    /// Items finished per second, averaged over recent ticks.
    pub fn throughput(&self) -> (r: Binary64)
        requires
            self.wf(),
        ensures
            r@ == window::sum(self@.window).throughput(),
    {
        self.window.total().throughput()
    }

    /// The shortest time an item took to go through the pipeline while the `Gate` was full,
    /// slowly creeping up while the bottleneck waits for input. `None` until one has been
    /// observed.
    pub fn fastest(&self) -> (r: Option<Duration>)
        ensures
            span_of(r) == time::nanoseconds(self@.fastest),
    {
        Duration::from_seconds(self.fastest)
    }
}

/// The default settings are in range.
proof fn lemma_defaults()
    requires
        DrainSettings::defaults().growth.is_number(),
    ensures
        DrainSettings::defaults().valid(),
{
    lemma2_to64();
    crate::binary64::lemma_of_nat_exact(1);
    crate::binary64::lemma_of_nat_exact(2);
    crate::binary64::lemma_quotient_between(3, 2, 1, 2, 0);
    crate::binary64::lemma_quotient_between(105, 100, 1, 2, 0);
    crate::binary64::lemma_quotient_between(1, 10, 0, 1, 3);
    lemma_pow2_pos(1074);
    lemma_pow2_strictly_increases(1071, 1074);
}

impl Default for DrainBounded {
    fn default() -> (r: Self)
        ensures
            r.wf(),
            r@ == DrainModel::new(DrainSettings::defaults()),
    {
        Self::builder().build()
    }
}

impl Clone for DrainBounded {
    fn clone(&self) -> (r: Self)
        ensures
            r@ == self@,
            r.wf() == self.wf(),
    {
        Self { window: self.window.clone(), ..*self }
    }
}

/// A policy that is in order is in a sound state.
pub proof fn policies_in_order_are_sound(policy: DrainBounded)
    requires
        policy.wf(),
    ensures
        policy@.sound(),
{
}

impl Policy for DrainBounded {
    /// The state is sound and the window is in order.
    closed spec fn wf(&self) -> bool {
        self@.sound() && self.window.wf()
    }

    open spec fn starts_with(&self, limit: nat) -> bool {
        limit == self@.settings.start()
    }

    open spec fn can_judge(&self, seen: Observation) -> bool {
        self@.has_room(seen)
    }

    open spec fn answers(&self, seen: Observation, after: &Self, target: nat) -> bool {
        after@ == self@.next(seen) && target == self@.decision(seen)
    }

    fn initial(&self) -> usize {
        match self.config.initial {
            Some(initial) => self.clamp(initial),
            None => self.clamp(self.config.floor),
        }
    }

    fn has_room(&self, sample: &Sample) -> bool {
        if sample.elapsed.is_zero() {
            return true;
        }
        let before: usize = match self.last_in_flight {
            Some(before) => before,
            None => sample.in_flight,
        };
        let ends: u128 = before as u128 + sample.in_flight as u128;
        match ends.checked_mul(sample.elapsed.as_nanos()) {
            None => false,
            Some(twice) => {
                if sample.completed > u64::MAX - sample.released {
                    return false;
                }
                let tick = Tally {
                    elapsed: sample.elapsed,
                    occupancy: twice / 2,
                    departed: sample.completed + sample.released,
                    completed: sample.completed,
                };
                self.window.total().has_room(&tick) && (!self.filled || self.settled.has_room(
                    &tick,
                ))
            },
        }
    }

    fn decide(&mut self, sample: &Sample) -> usize {
        self.observe(sample);
        // no time passed: nothing to decide from
        if sample.elapsed.is_zero() {
            return sample.limit;
        }
        let departures = self.window.total().departures();
        let ended = self.ease(departures);
        self.learn(sample);
        let (drain_bound, raise_bound) = self.set_bound(sample.limit);
        let target = self.choose_target(sample, ended, departures, drain_bound, raise_bound);
        self.hold(sample, target, departures);
        target
    }

    fn diagnostics(&self) -> (r: Diagnostics)
        ensures
            r@ == self@.report(),
    {
        let window = self.window.total();
        let mut d = Diagnostics::new();
        d.push("throughput", window.throughput());
        d.push("departures", window.departures());
        d.push("residence", self.residence);
        d.push("fastest", self.fastest);
        d.push("bound", self.bound);
        d.push("window", window.elapsed.in_seconds());
        d.push("starving", super::flag_value(self.starving));
        d.push("saturated", super::flag_value(self.saturated));
        assert(d@ =~= self@.report());
        d
    }
}

} // verus!
