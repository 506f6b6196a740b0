//! What a [`DrainBounded`](super::DrainBounded) policy is to do, step by step.

use vstd::prelude::*;

use super::window::{self, TallyModel};
use crate::binary64::Value;
use crate::ledger;
use crate::sample::Observation;
use crate::time;

verus! {

/// [`DrainBounded`](super::DrainBounded)'s settings: times in nanoseconds.
pub struct DrainSettings {
    pub floor: nat,
    pub max: nat,
    pub initial: Option<nat>,
    pub drain_target: nat,
    pub max_slowdown: Value,
    pub growth: Value,
    pub window_items: nat,
    pub max_window: nat,
    pub starving: Value,
    pub fastest_decay: Value,
    pub max_settle: nat,
}

impl DrainSettings {
    /// What a builder starts from.
    pub open spec fn defaults() -> DrainSettings {
        DrainSettings {
            floor: 1,
            max: 1024,
            initial: None,
            drain_target: 10_000_000_000,
            max_slowdown: Value::quotient(3, 2),
            growth: Value::of_nat(2),
            window_items: 20,
            max_window: 30_000_000_000,
            starving: Value::quotient(1, 10),
            fastest_decay: Value::quotient(105, 100),
            max_settle: 30_000_000_000,
        }
    }

    /// Settings that a policy can be made of.
    pub open spec fn valid(self) -> bool {
        &&& self.growth.is_number()
        &&& self.floor > 0
        &&& Value::of_nat(1).at_most(self.max_slowdown)
        &&& Value::of_nat(1).below(self.growth)
        &&& self.starving.below(Value::of_nat(1))
        &&& self.window_items > 0
        &&& self.max_window > 0
        &&& Value::of_nat(1).at_most(self.fastest_decay)
    }

    /// The settings as a policy keeps them: a `max` below `floor` is `floor`.
    pub open spec fn kept(self) -> DrainSettings {
        DrainSettings { max: ledger::max(self.max, self.floor), ..self }
    }

    /// Kept between `floor` and `max`.
    pub open spec fn clamped(self, limit: nat) -> nat {
        ledger::min(ledger::max(limit, self.floor), self.max)
    }

    /// The limit to start with.
    pub open spec fn start(self) -> nat {
        self.clamped(
            match self.initial {
                Some(initial) => initial,
                None => self.floor,
            },
        )
    }
}

/// Raises whose items haven't reached the whole window yet.
pub struct RampModel {
    /// the limit before the first of these raises
    pub from: nat,
    /// the limit before the latest raise
    pub last: nat,
    /// departures per second before the latest raise
    pub departures: Value,
    /// whether it is known when the latest raise's items come through
    pub checked: bool,
    /// when the latest raise's items start leaving
    pub until: int,
}

impl RampModel {
    /// Whether the latest raise brought more departures: they rose by at least half as much as
    /// the limit did.
    pub open spec fn paid(self, limit: nat, departures: Value) -> bool {
        let raised = Value::of_nat(limit).over(Value::of_nat(self.last));
        self.departures.times(Value::of_nat(1).plus(raised)).over(Value::of_nat(2)).at_most(
            departures,
        )
    }
}

/// A [`DrainBounded`](super::DrainBounded) policy's state: times and moments in nanoseconds.
pub struct DrainModel {
    pub settings: DrainSettings,
    /// recent ticks: residence and rates for the decisions
    pub window: Seq<(int, TallyModel)>,
    /// everything since the pipeline last settled: where the fastest time is learned
    pub settled: TallyModel,
    /// whether any item has left yet; until then the pipeline is still filling
    pub filled: bool,
    /// when an item last left (at first, when the first tick started)
    pub last_departure: Option<int>,
    /// the longest time without departures so far
    pub longest_silence: nat,
    /// whether an item has succeeded since the limit last changed
    pub succeeded: bool,
    /// items in flight at the previous sample
    pub last_in_flight: Option<nat>,
    /// lowest residence seen, in seconds
    pub fastest: Value,
    /// one pass through the pipeline, once the fastest time is known
    pub pass: Option<nat>,
    /// the raises whose items haven't reached the whole window yet
    pub ramp: Option<RampModel>,
    /// departures per second when a raise last failed to bring more
    pub plateau: Option<Value>,
    /// no raise before this
    pub raise_after: Option<int>,
    /// no cut before this
    pub cut_after: Option<int>,
    /// seconds an item stays inside
    pub residence: Value,
    /// the residence allowed
    pub bound: Value,
    /// whether the bottleneck was waiting
    pub starving: bool,
    /// whether the `Gate` was nearly full
    pub saturated: bool,
}

impl DrainModel {
    /// A new policy's state.
    pub open spec fn new(settings: DrainSettings) -> DrainModel {
        DrainModel {
            settings: settings.kept(),
            window: Seq::empty(),
            settled: TallyModel::zero(),
            filled: false,
            last_departure: None,
            longest_silence: 0,
            succeeded: false,
            last_in_flight: None,
            fastest: Value::Infinite,
            pass: None,
            ramp: None,
            plateau: None,
            raise_after: None,
            cut_after: None,
            residence: Value::Infinite,
            bound: Value::Infinite,
            starving: false,
            saturated: false,
        }
    }

    /// What holds of every state: the settings are in range, the fastest time is not zero, and a
    /// ramp starts from a limit.
    pub open spec fn sound(self) -> bool {
        &&& self.settings.valid()
        &&& self.settings.floor <= self.settings.max
        &&& self.fastest != Value::zero()
        &&& self.ramp is Some ==> self.ramp->0.from > 0 && self.ramp->0.last > 0
    }

    // 1. Record the tick.

    /// What happened in a tick. Only both ends are known of the items in flight, so they are
    /// taken to have changed evenly in between.
    pub open spec fn tick(self, seen: Observation) -> TallyModel {
        let before = match self.last_in_flight {
            Some(before) => before,
            None => seen.in_flight,
        };
        TallyModel {
            elapsed: seen.elapsed,
            occupancy: (before + seen.in_flight) * seen.elapsed / 2,
            departed: seen.completed + seen.released,
            completed: seen.completed,
        }
    }

    /// When a tick started, or its end if that can't be told.
    pub open spec fn tick_start(seen: Observation) -> int {
        if seen.at - seen.elapsed >= time::EARLIEST_NANOS {
            seen.at - seen.elapsed
        } else {
            seen.at
        }
    }

    /// One pass through the pipeline, as best known: before the fastest time is known, the
    /// latest residence, which a stall inflates, so at most `max_window`.
    pub open spec fn pass_estimate(self) -> Option<nat> {
        match self.pass {
            Some(pass) => Some(pass),
            None => time::nanoseconds(
                self.residence.lesser(time::seconds(self.settings.max_window)),
            ),
        }
    }

    /// What the window is to span at least: one pass.
    pub open spec fn window_min(self) -> nat {
        match self.pass_estimate() {
            Some(pass) => pass,
            None => self.settings.max_window,
        }
    }

    /// What the window is to span at most: only a known pass may go past `max_window`.
    pub open spec fn window_max(self) -> nat {
        match self.pass {
            Some(pass) => time::longer(pass, self.settings.max_window),
            None => self.settings.max_window,
        }
    }

    /// When an item last left, as known when a tick starts.
    pub open spec fn departure_before(self, seen: Observation) -> int {
        match self.last_departure {
            Some(at) => at,
            None => DrainModel::tick_start(seen),
        }
    }

    /// With a tick recorded.
    pub open spec fn recorded(self, seen: Observation) -> DrainModel {
        let tick = self.tick(seen);
        let left = tick.departed > 0;
        let before = self.departure_before(seen);
        DrainModel {
            window: window::trimmed(
                self.window.push((DrainModel::tick_start(seen), tick)),
                self.settings.window_items,
                self.window_min(),
                self.window_max(),
            ),
            // the first departures end the filling, which says nothing about the pace
            settled: if self.filled {
                self.settled.plus(tick)
            } else {
                self.settled
            },
            filled: self.filled || left,
            last_departure: Some(
                if left {
                    seen.at
                } else {
                    before
                },
            ),
            longest_silence: if left {
                time::longer(self.longest_silence, time::since(seen.at, before))
            } else {
                self.longest_silence
            },
            succeeded: self.succeeded || tick.completed > 0,
            last_in_flight: Some(seen.in_flight),
            ..self
        }
    }

    /// With what the sample says about the pipeline.
    pub open spec fn observed(self, seen: Observation) -> DrainModel {
        let recorded = if seen.elapsed > 0 {
            self.recorded(seen)
        } else {
            self
        };
        DrainModel {
            residence: window::sum(recorded.window).residence(),
            starving: seen.idle_above(self.settings.starving),
            saturated: seen.in_flight * 10 >= seen.limit * 9,
            ..recorded
        }
    }

    /// Whether the counters have room for a sample.
    pub open spec fn has_room(self, seen: Observation) -> bool {
        seen.elapsed > 0 ==> {
            let tick = self.tick(seen);
            let before = match self.last_in_flight {
                Some(before) => before,
                None => seen.in_flight,
            };
            &&& (before + seen.in_flight) * seen.elapsed <= u128::MAX
            &&& window::sum(self.window).plus(tick).fits()
            &&& self.filled ==> self.settled.plus(tick).fits()
        }
    }

    /// Items leaving per second.
    pub open spec fn departures(self) -> Value {
        window::sum(self.window).departures()
    }

    // 2. End the ramp once the window starts after the raised items began to leave.

    /// The ramp that is over.
    pub open spec fn ended(self) -> Option<RampModel> {
        match self.ramp {
            Some(ramp) => if self.window.len() > 0 && self.window[0].0 >= ramp.until {
                Some(ramp)
            } else {
                None
            },
            None => None,
        }
    }

    /// Whether departures are still about what they were when a raise failed to bring more: they
    /// are the same, or changed by less than a quarter.
    pub open spec fn on_plateau(self, plateau: Value) -> bool {
        ||| self.departures() == plateau
        ||| {
            &&& plateau.times(Value::quotient(3, 4)).below(self.departures())
            &&& self.departures().below(plateau.times(Value::quotient(5, 4)))
        }
    }

    /// Without a ramp that is over, and without a plateau that has been left.
    pub open spec fn eased(self) -> DrainModel {
        DrainModel {
            ramp: if self.ended() is Some {
                None
            } else {
                self.ramp
            },
            settled: if self.ended() is Some {
                TallyModel::zero()
            } else {
                self.settled
            },
            plateau: match self.plateau {
                Some(plateau) => if self.on_plateau(plateau) {
                    Some(plateau)
                } else {
                    None
                },
                None => None,
            },
            ..self
        }
    }

    // 3. Learn the fastest time.

    /// Whether the pipeline's pace can be read from what happened since it settled: the `Gate` is
    /// full and not still shedding a cut's excess, no raise is ramping, and enough items left
    /// over a whole pass and mostly succeeded.
    pub open spec fn shows_pace(self, seen: Observation) -> bool {
        let pace = self.settled.residence();
        &&& self.saturated
        &&& seen.in_flight <= seen.limit
        &&& self.ramp is None
        &&& self.settled.departed >= self.settings.window_items
        &&& pace.at_most(time::seconds(self.settled.elapsed))
        &&& self.settled.mostly_succeeded()
        &&& Value::zero().below(pace)
        &&& pace is Finite
    }

    /// With the lowest residence seen. It creeps up only while nothing queues for the bottleneck.
    pub open spec fn learned(self, seen: Observation) -> DrainModel {
        if self.shows_pace(seen) {
            let fastest = if self.starving {
                self.fastest.times(self.settings.fastest_decay)
            } else {
                self.fastest
            };
            DrainModel { fastest: fastest.lesser(self.settled.residence()), ..self }
        } else {
            self
        }
    }

    // 4. The bound.

    /// The longest residence allowed, infinite until the fastest time is known.
    pub open spec fn drain_bound(self) -> Value {
        if self.fastest is Finite {
            self.fastest.times(self.settings.max_slowdown).greater(
                time::seconds(self.settings.drain_target),
            )
        } else {
            Value::Infinite
        }
    }

    /// By how much the bound is widened while a raise ramps: by what the limit has grown, but by
    /// no more than one raise's growth.
    pub open spec fn widening(self, limit: nat) -> Value {
        match self.ramp {
            Some(ramp) => Value::of_nat(limit).over(Value::of_nat(ramp.from)).greater(
                Value::of_nat(1),
            ).lesser(self.settings.growth),
            None => Value::of_nat(1),
        }
    }

    /// The residence up to which the limit may be raised: the bound, or `drain_target` before the
    /// bound is known.
    pub open spec fn raise_bound(self, limit: nat) -> Value {
        if self.drain_bound() is Finite {
            self.drain_bound().times(self.widening(limit))
        } else {
            time::seconds(self.settings.drain_target).times(self.widening(limit))
        }
    }

    /// With the bound, and one pass once the bound is known.
    pub open spec fn bounded(self, limit: nat) -> DrainModel {
        DrainModel {
            bound: self.drain_bound().times(self.widening(limit)),
            pass: if self.drain_bound() is Finite {
                time::nanoseconds(self.residence.lesser(self.drain_bound()))
            } else {
                None
            },
            ..self
        }
    }

    // 5. Decide.

    /// How long nothing has left.
    pub open spec fn silence(self, seen: Observation) -> nat {
        match self.last_departure {
            Some(at) => time::since(seen.at, at),
            None => 0,
        }
    }

    /// Whether items are inside and have left before, but none for far longer than usual.
    pub open spec fn stuck(self, seen: Observation) -> bool {
        &&& self.filled
        &&& seen.in_flight > 0
        &&& self.silence(seen) > time::longer(
            self.settings.max_window,
            time::shorter(2 * self.longest_silence, time::LONGEST_NANOS as nat),
        )
    }

    /// Whether the latest cut has shown.
    pub open spec fn may_cut(self, seen: Observation) -> bool {
        match self.cut_after {
            Some(after) => seen.at >= after,
            None => true,
        }
    }

    /// Whether the latest raise has reached the bottleneck.
    pub open spec fn may_raise(self, seen: Observation) -> bool {
        match self.raise_after {
            Some(after) => seen.at >= after,
            None => true,
        }
    }

    /// Whether the raise that a ramp ended with brought no more departures and pushed residence
    /// past the bound: it only lengthened a hidden queue.
    pub open spec fn useless(self, seen: Observation, ended: Option<RampModel>) -> bool {
        match ended {
            Some(ramp) => {
                &&& ramp.checked
                &&& self.starving
                &&& !ramp.paid(seen.limit, self.departures())
                &&& self.raise_bound(seen.limit).below(self.residence)
            },
            None => false,
        }
    }

    /// Whether the pipeline is stuck and nothing else would cut: the bound only acts on a busy
    /// bottleneck, once known.
    pub open spec fn drops(self, seen: Observation) -> bool {
        &&& self.stuck(seen)
        &&& self.starving || self.drain_bound() is Infinite
        &&& self.may_cut(seen)
    }

    /// Whether residence has passed the bound while the bottleneck is busy.
    pub open spec fn overfull(self, seen: Observation) -> bool {
        &&& self.bound.below(self.residence)
        &&& !self.starving
        &&& self.may_cut(seen)
    }

    /// Whether the bottleneck waits for input while the `Gate` is nearly full, and more items can
    /// help.
    pub open spec fn hungry(self, seen: Observation) -> bool {
        &&& self.starving
        &&& self.saturated
        &&& self.may_raise(seen)
        &&& self.residence.at_most(self.raise_bound(seen.limit))
        &&& self.plateau is None
        // raise again within a ramp only once the latest raise has paid
        &&& self.ramp is Some ==> self.ramp->0.paid(seen.limit, self.departures())
        &&& self.succeeded
        &&& window::sum(self.window).mostly_succeeded()
    }

    /// The items that leave within the bound.
    pub open spec fn drainable(self) -> nat {
        self.departures().times(self.drain_bound()).truncated(usize::MAX as nat)
    }

    /// The limit multiplied by `growth`, rounded up.
    pub open spec fn grown(self, limit: nat) -> nat {
        if limit == 0 {
            0
        } else {
            Value::of_nat(limit).times(self.settings.growth).raised(usize::MAX as nat)
        }
    }

    /// The answer to a sample, given the ramp that it ended.
    pub open spec fn target(self, seen: Observation, ended: Option<RampModel>) -> nat {
        self.settings.clamped(
            if self.drops(seen) {
                0
            } else if self.useless(seen, ended) {
                ended->0.last
            } else if self.overfull(seen) {
                ledger::min(self.drainable(), seen.limit)
            } else if self.hungry(seen) {
                self.grown(seen.limit)
            } else {
                seen.limit
            },
        )
    }

    /// With the plateau that a useless raise was on.
    pub open spec fn checked(self, seen: Observation, ended: Option<RampModel>) -> DrainModel {
        if self.useless(seen, ended) {
            DrainModel { plateau: Some(ended->0.departures), ..self }
        } else {
            self
        }
    }

    // 6. Hold the next change until this one shows.

    /// How long after a raise its items start leaving.
    pub open spec fn raise_pass(self) -> nat {
        match self.pass_estimate() {
            Some(pass) => pass,
            None => self.settings.max_settle,
        }
    }

    /// How long after a cut its excess has left at the current rate.
    pub open spec fn cut_hold(self, seen: Observation, target: nat) -> nat {
        if seen.in_flight <= target {
            0
        } else {
            let excess = (seen.in_flight - target) as nat;
            match time::nanoseconds(Value::of_nat(excess).over(self.departures())) {
                Some(hold) => time::shorter(hold, self.settings.max_settle),
                None => self.settings.max_settle,
            }
        }
    }

    /// The ramp that a raise starts or extends.
    pub open spec fn ramped(self, seen: Observation) -> Option<RampModel> {
        let from = match self.ramp {
            Some(ramp) => ramp.from,
            None => seen.limit,
        };
        match time::after(seen.at, self.raise_pass()) {
            Some(until) => Some(
                RampModel {
                    from: ledger::max(from, 1),
                    last: ledger::max(seen.limit, 1),
                    departures: self.departures(),
                    checked: self.pass is Some || self.residence.below(
                        time::seconds(self.settings.max_window),
                    ),
                    until,
                },
            ),
            None => None,
        }
    }

    /// With what a change to `target` is to wait for.
    pub open spec fn held(self, seen: Observation, target: nat) -> DrainModel {
        if target > seen.limit {
            DrainModel {
                settled: TallyModel::zero(),
                succeeded: false,
                raise_after: time::after(
                    seen.at,
                    time::shorter(self.raise_pass(), self.settings.max_settle),
                ),
                ramp: self.ramped(seen),
                ..self
            }
        } else if target < seen.limit {
            DrainModel {
                settled: TallyModel::zero(),
                succeeded: false,
                ramp: None,
                raise_after: None,
                cut_after: time::after(seen.at, self.cut_hold(seen, target)),
                ..self
            }
        } else {
            self
        }
    }

    /// The state in which a sample is answered: recorded, with what has been learned from it and
    /// the bound that follows.
    pub open spec fn informed(self, seen: Observation) -> DrainModel {
        self.observed(seen).eased().learned(seen).bounded(seen.limit)
    }

    /// The answer to a sample. If no time has passed there is nothing to decide from.
    pub open spec fn decision(self, seen: Observation) -> nat {
        if seen.elapsed == 0 {
            seen.limit
        } else {
            self.informed(seen).target(seen, self.observed(seen).ended())
        }
    }

    /// The state after a sample.
    pub open spec fn next(self, seen: Observation) -> DrainModel {
        if seen.elapsed == 0 {
            self.observed(seen)
        } else {
            self.informed(seen).checked(seen, self.observed(seen).ended()).held(
                seen,
                self.decision(seen),
            )
        }
    }

    /// The state after a run of samples.
    pub open spec fn shown(self, all: Seq<Observation>) -> DrainModel
        decreases all.len(),
    {
        if all.len() == 0 {
            self
        } else {
            self.shown(all.drop_last()).next(all.last())
        }
    }

    /// What the policy reports about its latest decision.
    pub open spec fn report(self) -> Seq<(Seq<char>, Value)> {
        let window = window::sum(self.window);
        seq![
            ("throughput"@, window.throughput()),
            ("departures"@, window.departures()),
            ("residence"@, self.residence),
            ("fastest"@, self.fastest),
            ("bound"@, self.bound),
            ("window"@, time::seconds(window.elapsed)),
            ("starving"@, super::flag(self.starving)),
            ("saturated"@, super::flag(self.saturated)),
        ]
    }
}

} // verus!
