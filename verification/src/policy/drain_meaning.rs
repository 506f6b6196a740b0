//! What a [`DrainBounded`](super::DrainBounded) policy makes of a sample, in terms of what the
//! sample says, of what the policy knew before, and of what it knows and answers after.

use vstd::arithmetic::div_mod::*;
use vstd::arithmetic::power2::*;
use vstd::prelude::*;

use super::drain_bounded::DrainBounded;
use super::drain_model::{DrainModel, DrainSettings, RampModel};
use super::window::{self, TallyModel};
use super::Policy;
use crate::binary64::Value;
use crate::nearly;
use crate::sample::Observation;
use crate::time;

verus! {

/// What a number is if it is within two others, and else the nearer of the two.
pub open spec fn within(x: nat, floor: nat, max: nat) -> nat {
    if max < x {
        max
    } else if x < floor {
        floor
    } else {
        x
    }
}

/// Whether a moment that something waits for has come.
pub open spec fn has_come(moment: Option<int>, now: int) -> bool {
    moment is None || moment->0 <= now
}

/// Whether a sample ended the ramp that there was: all the ticks that the policy then measures by
/// started after the raised items began to leave.
pub open spec fn ramp_over(before: DrainModel, after: DrainModel) -> bool {
    before.ramp is Some && after.window.len() > 0 && before.ramp->0.until <= after.window[0].0
}

/// The ramp that a sample left.
pub open spec fn ramp_left(before: DrainModel, after: DrainModel) -> Option<RampModel> {
    if ramp_over(before, after) {
        None
    } else {
        before.ramp
    }
}

/// How the parts of a state that the answer does not touch come about.
proof fn lemma_parts(model: DrainModel, seen: Observation)
    requires
        seen.elapsed > 0,
    ensures
        ({
            let (informed, after) = (model.informed(seen), model.next(seen));
            let recorded = model.recorded(seen);
            &&& after.settings == model.settings && informed.settings == model.settings
            &&& after.window == recorded.window && informed.window == recorded.window
            &&& after.residence == window::sum(recorded.window).residence()
            &&& informed.residence == after.residence
            &&& after.filled == recorded.filled && informed.filled == after.filled
            &&& after.last_departure == recorded.last_departure
            &&& informed.last_departure == after.last_departure
            &&& after.longest_silence == recorded.longest_silence
            &&& informed.longest_silence == after.longest_silence
            &&& after.last_in_flight == recorded.last_in_flight
            &&& after.starving == seen.idle_above(model.settings.starving)
            &&& informed.starving == after.starving
            &&& after.saturated == (seen.in_flight * 10 >= seen.limit * 9)
            &&& informed.saturated == after.saturated
            &&& after.fastest == informed.fastest
            &&& after.bound == informed.bound
            &&& after.pass == informed.pass
            &&& informed.succeeded == recorded.succeeded
            &&& informed.raise_after == model.raise_after
            &&& informed.cut_after == model.cut_after
            &&& informed.ramp == ramp_left(model, after)
            &&& model.observed(seen).ended() == if ramp_over(model, after) {
                model.ramp
            } else {
                None
            }
        }),
{
}

/// The latest tick in the window is what the sample says: it lasted as long, as many left, finished
/// or not, and as many finished, and the items inside are taken to have changed evenly from the
/// sample before. Before it come ticks that were there already, the latest of them.
pub proof fn tick_is_what_the_sample_says(model: DrainModel, seen: Observation)
    requires
        seen.elapsed > 0,
    ensures
        ({
            let after = model.next(seen);
            let (start, tick) = after.window.last();
            let before = match model.last_in_flight {
                Some(before) => before,
                None => seen.in_flight,
            };
            &&& after.window.len() > 0
            &&& after.window.drop_last() == model.window.skip(
                model.window.len() + 1 - after.window.len(),
            )
            &&& after.window.len() <= model.window.len() + 1
            &&& tick.elapsed == seen.elapsed
            &&& tick.departed == seen.completed + seen.released
            &&& tick.completed == seen.completed
            &&& 2 * tick.occupancy <= (before + seen.in_flight) * seen.elapsed <= 2 * tick.occupancy
                + 1
            &&& start + seen.elapsed == seen.at || (start == seen.at && seen.at - seen.elapsed
                < time::EARLIEST_NANOS)
            &&& after.last_in_flight == Some(seen.in_flight)
        }),
{
    lemma_parts(model, seen);
    let tick = (DrainModel::tick_start(seen), model.tick(seen));
    let ticks = model.window.push(tick);
    let (items, min, max) = (
        model.settings.window_items,
        model.window_min(),
        model.window_max(),
    );
    window::window_is_shortest(ticks, items, min, max);
    let kept = window::trimmed(ticks, items, min, max);
    let dropped = ticks.len() - kept.len();
    assert(kept.last() == ticks.last());
    assert(kept.drop_last() =~= model.window.skip(dropped));
}

/// What the window is to span at least before the pass is known: the residence, or `max_window` if
/// that is shorter, to the nanosecond.
pub open spec fn estimated_pass(model: DrainModel) -> nat {
    let longest = time::seconds(model.settings.max_window);
    match time::nanoseconds(
        if model.residence.at_most(longest) {
            model.residence
        } else {
            longest
        },
    ) {
        Some(nanos) => nanos,
        None => model.settings.max_window,
    }
}

/// The window holds the fewest of the latest ticks that saw `window_items` leave over one pass, or
/// else span `max_window`, or the pass if that is known and longer: no later part of it does.
pub proof fn window_spans_a_pass(model: DrainModel, seen: Observation, from: int)
    requires
        seen.elapsed > 0,
        0 < from < model.next(seen).window.len(),
    ensures
        ({
            let after = model.next(seen);
            let (pass, longest) = match model.pass {
                Some(pass) => (pass, if pass < model.settings.max_window {
                    model.settings.max_window
                } else {
                    pass
                }),
                None => (estimated_pass(model), model.settings.max_window),
            };
            let items = model.settings.window_items;
            let (whole, later) = (window::sum(after.window), window::sum(after.window.skip(from)));
            &&& after.window.len() <= model.window.len() ==> longest <= whole.elapsed || (items
                <= whole.departed && pass <= whole.elapsed)
            &&& later.elapsed < longest
            &&& later.departed < items || later.elapsed < pass
        }),
{
    lemma_parts(model, seen);
    let tick = (DrainModel::tick_start(seen), model.tick(seen));
    window::kept_ticks_are_enough_and_no_more(
        model.window.push(tick),
        model.settings.window_items,
        model.window_min(),
        model.window_max(),
        from,
    );
}

/// What is reported of a sample: residence and rates are those of the window, the bottleneck is
/// starving if some probe waited for more than `starving` of the time, and the `Gate` is nearly full
/// if at least nine tenths of its limit are inside.
pub proof fn samples_are_read_as_they_are(model: DrainModel, seen: Observation)
    ensures
        ({
            let after = model.next(seen);
            &&& after.residence == window::sum(after.window).residence()
            &&& after.departures() == window::sum(after.window).departures()
            &&& after.starving <==> exists|i: int|
                0 <= i < seen.shares().len() && !(#[trigger] seen.shares()[i]).at_most(
                    model.settings.starving,
                )
            &&& after.saturated <==> 9 * seen.limit <= 10 * seen.in_flight
            &&& seen.elapsed == 0 ==> after.window == model.window
        }),
{
    crate::sample::idle_above_is_some_share_above(seen, model.settings.starving);
    if seen.elapsed > 0 {
        lemma_parts(model, seen);
    }
}

/// What a policy remembers of departures: whether any item has left, when one last left, the
/// longest time without, and whether one has succeeded since the limit last changed.
pub proof fn departures_are_remembered(model: DrainModel, seen: Observation)
    requires
        seen.elapsed > 0,
    ensures
        ({
            let after = model.next(seen);
            let left = seen.completed + seen.released > 0;
            let before = match model.last_departure {
                Some(at) => at,
                None => after.window.last().0,
            };
            &&& after.filled <==> model.filled || left
            &&& after.last_departure == Some(
                if left {
                    seen.at
                } else {
                    before
                },
            )
            &&& !left ==> after.longest_silence == model.longest_silence
            &&& left ==> {
                &&& model.longest_silence <= after.longest_silence
                &&& seen.at - before <= after.longest_silence
                &&& after.longest_silence == model.longest_silence || after.longest_silence
                    == seen.at - before
            }
            &&& after.succeeded <==> model.decision(seen) == seen.limit && (model.succeeded
                || seen.completed > 0)
        }),
{
    tick_is_what_the_sample_says(model, seen);
    lemma_parts(model, seen);
    let tick = (DrainModel::tick_start(seen), model.tick(seen));
    let ticks = model.window.push(tick);
    window::window_is_shortest(
        ticks,
        model.settings.window_items,
        model.window_min(),
        model.window_max(),
    );
    assert(model.recorded(seen).window.last() == ticks.last());
}

/// What has happened since the pipeline settled, with a tick added: nothing counts while it fills,
/// and a raise whose items came through begins it anew.
pub open spec fn settled_with(before: DrainModel, after: DrainModel) -> TallyModel {
    let tick = after.window.last().1;
    if ramp_over(before, after) {
        TallyModel { elapsed: 0, occupancy: 0, departed: 0, completed: 0 }
    } else if before.filled {
        TallyModel {
            elapsed: before.settled.elapsed + tick.elapsed,
            occupancy: before.settled.occupancy + tick.occupancy,
            departed: before.settled.departed + tick.departed,
            completed: before.settled.completed + tick.completed,
        }
    } else {
        before.settled
    }
}

/// What is measured for the fastest time: everything since the first items left, the limit last
/// changed, or a raise's items came through.
pub proof fn measuring_begins_anew_with_each_change(model: DrainModel, seen: Observation)
    requires
        seen.elapsed > 0,
    ensures
        ({
            let after = model.next(seen);
            &&& model.decision(seen) == seen.limit ==> after.settled == settled_with(model, after)
            &&& model.decision(seen) != seen.limit ==> after.settled.elapsed == 0
                && after.settled.occupancy == 0 && after.settled.departed == 0
                && after.settled.completed == 0
        }),
{
    lemma_parts(model, seen);
    tick_is_what_the_sample_says(model, seen);
    lemma_eased_settled(model, seen);
}

/// What has been settled before the fastest time is learned.
proof fn lemma_eased_settled(model: DrainModel, seen: Observation)
    requires
        seen.elapsed > 0,
    ensures
        model.observed(seen).eased().settled == settled_with(model, model.next(seen)),
{
    lemma_parts(model, seen);
    let ticks = model.window.push((DrainModel::tick_start(seen), model.tick(seen)));
    window::window_is_shortest(
        ticks,
        model.settings.window_items,
        model.window_min(),
        model.window_max(),
    );
    assert(model.recorded(seen).window.last() == ticks.last());
}

/// The fastest time is learned whenever it can be: if at least nine tenths of the limit are inside
/// and no more than the limit, no raise ramps, and at least `window_items` have left since the
/// pipeline settled, over at least one pass and at least half of them with success, then the
/// fastest time is the time they show, or the one known before if that is less, which grows by
/// `fastest_decay` while the bottleneck waits. Else it stays as it is.
pub proof fn fastest_time_is_learned_when_it_shows(model: DrainModel, seen: Observation)
    requires
        seen.elapsed > 0,
    ensures
        ({
            let after = model.next(seen);
            let settled = settled_with(model, after);
            let pace = settled.residence();
            let known = if after.starving {
                model.fastest.times(model.settings.fastest_decay)
            } else {
                model.fastest
            };
            if 9 * seen.limit <= 10 * seen.in_flight && seen.in_flight <= seen.limit && ramp_left(
                model,
                after,
            ) is None && model.settings.window_items <= settled.departed && settled.departed <= 2
                * settled.completed && pace is Finite && pace != Value::Finite(0) && pace.at_most(
                time::seconds(settled.elapsed),
            ) {
                &&& after.fastest.at_most(pace) && after.fastest.at_most(known)
                &&& after.fastest == pace || after.fastest == known
            } else {
                after.fastest == model.fastest
            }
        }),
{
    lemma_parts(model, seen);
    lemma_eased_settled(model, seen);
    samples_are_read_as_they_are(model, seen);
}

/// The plain bound and the bound: the plain one is the longer of `drain_target` and `max_slowdown`
/// times the fastest time, and there is none before that is known. The bound is the plain one,
/// widened while a raise ramps. One pass is the residence, or the plain bound if that is shorter,
/// to the nanosecond, once there is a bound.
pub proof fn bound_and_pass_follow_from_what_is_learned(model: DrainModel, seen: Observation)
    requires
        model.sound(),
        seen.elapsed > 0,
    ensures
        ({
            let after = model.next(seen);
            let plain = after.drain_bound();
            &&& ramp_left(model, after) is None ==> after.bound == plain.times(Value::of_nat(1))
            &&& ramp_left(model, after) is Some ==> after.bound == plain.times(
                widened_by(ramp_left(model, after)->0, seen.limit, model.settings.growth),
            )
            &&& plain is Infinite ==> after.pass is None
            &&& plain is Finite ==> after.pass == time::nanoseconds(
                if after.residence.at_most(plain) {
                    after.residence
                } else {
                    plain
                },
            )
        }),
{
    lemma_parts(model, seen);
    let after = model.next(seen);
    assert(after.drain_bound() == model.observed(seen).eased().learned(seen).drain_bound());
}

/// By how much a ramp widens the bound: by what the limit has grown since the ramp began, at least
/// by one and at most by `growth`.
pub open spec fn widened_by(ramp: RampModel, limit: nat, growth: Value) -> Value {
    let grown = Value::of_nat(limit).over(Value::of_nat(ramp.from));
    if !Value::of_nat(1).at_most(grown) {
        Value::of_nat(1)
    } else if growth.at_most(grown) {
        growth
    } else {
        grown
    }
}

/// By how much a ramp widens the bound is the limit by what it was before the first of the raises,
/// but for rounding, unless it is less than one or more than `growth`.
pub proof fn bound_widens_as_the_limit_grew(model: DrainModel, limit: nat)
    requires
        model.sound(),
        model.ramp is Some,
        limit <= usize::MAX,
        model.ramp->0.from <= usize::MAX,
    ensures
        ({
            let (from, widening) = (model.ramp->0.from, model.widening(limit));
            &&& widening == widened_by(model.ramp->0, limit, model.settings.growth)
            &&& limit <= from ==> widening == Value::Finite(Value::one())
            &&& from < limit ==> widening == model.settings.growth || widening.about(limit, from)
        }),
{
    let from = model.ramp->0.from;
    let one = Value::one();
    let (x, y) = (Value::of_nat(limit), Value::of_nat(from));
    lemma_pow2_pos(1074);
    crate::binary64::lemma_of_nat_exact(1);
    crate::nearly::lemma_near_of_nat(from);
    crate::binary64::lemma_of_nat_bounds(limit);
    let (u, v) = (x->Finite_0, y->Finite_0);
    lemma_pow2_strictly_increases(1074, 2098);
    crate::rounding::rounding_is_exact(1, 1074, 1);
    if limit <= from {
        assert((limit * one) * 1 <= (from * one) * 1) by (nonlinear_arith)
            requires
                limit <= from,
        ;
        crate::rounding::rounding_is_monotone(limit * one, 1, from * one, 1);
        assert((u * one) * 1 <= ((1 * one) * 1) * v) by (nonlinear_arith)
            requires
                u <= v,
        ;
        crate::rounding::rounding_is_monotone(u * one, v, (1 * one) * 1, 1);
    } else {
        nearly::lemma_near_of_nat(limit);
        nearly::lemma_near_over(
            x,
            limit,
            1,
            y,
            from,
            1,
            0x1_0000_0000_0000,
            1074,
            1202,
            1074,
            1202,
        );
        assert(limit * 1 == limit && 1 * from == from);
        nearly::lemma_about(x.over(y), limit, from, 0x1_0000_0000_0000);
        assert((from * one) * 1 <= (limit * one) * 1) by (nonlinear_arith)
            requires
                from <= limit,
        ;
        crate::rounding::rounding_is_monotone(from * one, 1, limit * one, 1);
        assert(((1 * one) * 1) * v <= (u * one) * 1) by (nonlinear_arith)
            requires
                v <= u,
        ;
        crate::rounding::rounding_is_monotone((1 * one) * 1, 1, u * one, v);
    }
}

/// A raise has paid exactly if departures rose by at least half as much as the limit did, but for
/// rounding: twice what leaves now, by the limit before the raise, against what left before it, by
/// both limits together.
pub proof fn raise_pays_if_departures_rise_by_half(ramp: RampModel, limit: nat, departures: Value)
    requires
        0 < ramp.last <= usize::MAX,
        limit <= usize::MAX,
        departures is Finite,
        ramp.departures == Value::Finite(0) || nearly::between(ramp.departures, 900, 1400),
    ensures
        ({
            let k = nearly::parts();
            let have = (2 * ramp.last) * departures->Finite_0;
            let need = (ramp.last + limit) * ramp.departures->Finite_0;
            &&& need * (k + 1) <= have * k ==> ramp.paid(limit, departures)
            &&& have * (k + 1) < need * k ==> !ramp.paid(limit, departures)
        }),
{
    let (one, last, old) = (Value::one(), ramp.last, ramp.departures);
    let parts = nearly::parts();
    let (had, has) = (old->Finite_0, departures->Finite_0);
    super::drain_bounded::lemma_raise_is_finite(limit, last);
    lemma_pow2_pos(1074);
    crate::binary64::lemma_of_nat_exact(1);
    crate::binary64::lemma_of_nat_exact(2);
    let raised = Value::of_nat(limit).over(Value::of_nat(last));
    let both = Value::of_nat(1).plus(raised);
    if had == 0 {
        lemma_pow2_pos(2098);
        assert(0 * both->Finite_0 == 0 && 0 * one == 0);
        crate::rounding::lemma_rounded_tiny(0, one);
        crate::rounding::lemma_rounded_tiny(0, 2 * one);
        assert((last + limit) * 0 == 0 && 0 * parts == 0);
    } else {
        nearly::lemma_near_of_nat(last);
        let k: nat = 0x1_0000_0000_0000;
        assert(nearly::near_ratio(raised, limit, last, k) && raised->Finite_0 <= pow2(1202)) by {
            if limit > 0 {
                nearly::lemma_near_of_nat(limit);
                nearly::lemma_near_over(
                    Value::of_nat(limit),
                    limit,
                    1,
                    Value::of_nat(last),
                    last,
                    1,
                    k,
                    1074,
                    1202,
                    1074,
                    1202,
                );
                assert(limit * 1 == limit && 1 * last == last);
            } else {
                crate::binary64::lemma_of_nat_bounds(0);
                assert(0 * one == 0 && 0 * last == 0);
                crate::rounding::lemma_rounded_tiny(0, Value::of_nat(last)->Finite_0);
                lemma_pow2_pos(2098);
                lemma_pow2_pos(1202);
                nearly::lemma_near_same(0, k);
            }
        }
        let (k1, k2, k3) = (0x4000_0000_0000nat, 0x400_0000_0000nat, 0x40_0000_0000nat);
        lemma_pow2_strictly_increases(1074, 1202);
        assert(one * last == last * one) by (nonlinear_arith);
        nearly::lemma_near_same(one * last, k);
        nearly::lemma_near_plus(Value::of_nat(1), last, raised, limit, last, k1, 1074, 1202);
        nearly::lemma_near_same(had * one, 16 * k2);
        nearly::lemma_near_times(
            old,
            had,
            one,
            both,
            last + limit,
            last,
            k2,
            900,
            1400,
            1074,
            1203,
        );
        let product = old.times(both);
        nearly::lemma_near_of_nat(2);
        nearly::lemma_near_looser(
            Value::of_nat(2)->Finite_0 * 1,
            2 * one,
            0x10_0000_0000_0000,
            16 * k3,
        );
        nearly::lemma_near_over(
            product,
            had * (last + limit),
            one * last,
            Value::of_nat(2),
            2,
            1,
            k3,
            900,
            1529,
            1074,
            1202,
        );
        let needed = product.over(Value::of_nat(2))->Finite_0;
        let need = (last + limit) * had;
        let half = needed * (2 * last);
        assert(needed * ((one * last) * 2) == half * one && ((had * (last + limit)) * 1) * one
            == need * one) by (nonlinear_arith)
            requires
                half == needed * (2 * last),
                need == (last + limit) * had,
        ;
        nearly::lemma_near_cancels(half, need, one, k3);
        nearly::lemma_near_looser(half, need, k3, parts);
        let have = (2 * last) * has;
        assert(need * (parts + 1) <= have * parts ==> needed <= has) by (nonlinear_arith)
            requires
                half * parts <= need * (parts + 1),
                half == needed * (2 * last),
                have == (2 * last) * has,
                last > 0,
                parts > 0,
        ;
        assert(have * (parts + 1) < need * parts ==> has < needed) by (nonlinear_arith)
            requires
                need * parts <= half * (parts + 1),
                half == needed * (2 * last),
                have == (2 * last) * has,
                last > 0,
        ;
    }
}

/// Whether items are inside and have left before, but none for longer than `max_window` and than
/// twice the longest time before.
pub open spec fn is_stuck(after: DrainModel, seen: Observation) -> bool {
    &&& after.filled
    &&& seen.in_flight > 0
    &&& after.last_departure is Some
    &&& seen.at - after.last_departure->0 > after.settings.max_window
    &&& {
        ||| seen.at - after.last_departure->0 > 2 * after.longest_silence
        ||| seen.at - after.last_departure->0 > time::LONGEST_NANOS
    }
}

/// Whether a stuck pipeline is to be cut to `floor`.
pub open spec fn stall_calls_for_floor(
    before: DrainModel,
    after: DrainModel,
    seen: Observation,
) -> bool {
    &&& is_stuck(after, seen)
    &&& after.starving || after.drain_bound() is Infinite
    &&& has_come(before.cut_after, seen.at)
}

/// The residence up to which raises may go: the bound, or before there is one `drain_target`,
/// widened as the bound would be.
pub open spec fn raises_go_up_to(before: DrainModel, after: DrainModel, seen: Observation) -> Value {
    if after.drain_bound() is Finite {
        after.bound
    } else {
        time::seconds(before.settings.drain_target).times(
            match ramp_left(before, after) {
                Some(ramp) => widened_by(ramp, seen.limit, before.settings.growth),
                None => Value::of_nat(1),
            },
        )
    }
}

/// Whether the raise whose ramp is over brought no more departures, and residence is past what
/// raises may go up to.
pub open spec fn raise_failed(before: DrainModel, after: DrainModel, seen: Observation) -> bool {
    &&& ramp_over(before, after)
    &&& before.ramp->0.checked
    &&& after.starving
    &&& !before.ramp->0.paid(seen.limit, window::sum(after.window).departures())
    &&& !after.residence.at_most(raises_go_up_to(before, after, seen))
}

/// Whether residence is past the bound while the bottleneck is busy and the latest cut has shown.
pub open spec fn is_too_full(before: DrainModel, after: DrainModel, seen: Observation) -> bool {
    &&& !after.residence.at_most(after.bound)
    &&& !after.starving
    &&& has_come(before.cut_after, seen.at)
}

/// Whether departures have changed by a quarter or more since a raise last failed.
pub open spec fn plateau_is_left(before: DrainModel, after: DrainModel) -> bool {
    let pace = window::sum(after.window).departures();
    before.plateau is None || (pace != before.plateau->0 && (pace.at_most(
        before.plateau->0.times(Value::quotient(3, 4)),
    ) || before.plateau->0.times(Value::quotient(5, 4)).at_most(pace)))
}

/// Whether the bottleneck waits for input while the `Gate` is nearly full, and all that a raise needs
/// is given.
pub open spec fn wants_more(before: DrainModel, after: DrainModel, seen: Observation) -> bool {
    let total = window::sum(after.window);
    &&& after.starving
    &&& 9 * seen.limit <= 10 * seen.in_flight
    &&& has_come(before.raise_after, seen.at)
    &&& after.residence.at_most(raises_go_up_to(before, after, seen))
    &&& plateau_is_left(before, after)
    &&& ramp_left(before, after) is Some ==> ramp_left(before, after)->0.paid(
        seen.limit,
        total.departures(),
    )
    &&& before.succeeded || seen.completed > 0
    &&& total.departed <= 2 * total.completed
}

/// The conditions for an answer are those that the state after a sample shows.
proof fn lemma_conditions(model: DrainModel, seen: Observation)
    requires
        model.sound(),
        seen.elapsed > 0,
    ensures
        ({
            let (informed, after) = (model.informed(seen), model.next(seen));
            let ended = model.observed(seen).ended();
            &&& informed.drops(seen) == stall_calls_for_floor(model, after, seen)
            &&& informed.useless(seen, ended) == raise_failed(model, after, seen)
            &&& informed.overfull(seen) == is_too_full(model, after, seen)
            &&& informed.hungry(seen) == wants_more(model, after, seen)
            &&& informed.drain_bound() == after.drain_bound()
            &&& informed.departures() == window::sum(after.window).departures()
        }),
{
    lemma_parts(model, seen);
    let (informed, after) = (model.informed(seen), model.next(seen));
    let eased = model.observed(seen).eased();
    assert(informed.drain_bound() == after.drain_bound());
    assert(informed.raise_bound(seen.limit) == raises_go_up_to(model, after, seen)) by {
        assert(informed.bound == informed.drain_bound().times(informed.widening(seen.limit)));
    }
    assert(informed.stuck(seen) == is_stuck(after, seen));
    assert(informed.plateau is None <==> plateau_is_left(model, after)) by {
        assert(informed.plateau == eased.plateau);
        assert(model.observed(seen).departures() == window::sum(after.window).departures());
    }
}

/// A stuck pipeline is cut to `floor`, if the bottleneck waits or there is no bound yet.
pub proof fn stalls_are_answered_with_floor(model: DrainModel, seen: Observation)
    requires
        model.sound(),
        seen.elapsed > 0,
        ({
            let after = model.next(seen);
            let left = after.last_departure;
            &&& after.filled && seen.in_flight > 0 && left is Some
            &&& seen.at - left->0 > model.settings.max_window
            &&& seen.at - left->0 > 2 * after.longest_silence
            &&& after.starving || after.drain_bound() is Infinite
            &&& model.cut_after is None || model.cut_after->0 <= seen.at
        }),
    ensures
        model.decision(seen) == model.settings.floor,
{
    lemma_parts(model, seen);
    lemma_conditions(model, seen);
}

/// A raise that failed is answered with the limit before it.
pub proof fn failed_raises_are_answered_with_the_limit_before(model: DrainModel, seen: Observation)
    requires
        model.sound(),
        seen.elapsed > 0,
        !stall_calls_for_floor(model, model.next(seen), seen),
        ({
            let after = model.next(seen);
            &&& model.ramp is Some && after.window.len() > 0
            &&& model.ramp->0.until <= after.window[0].0 && model.ramp->0.checked
            &&& after.starving
            &&& !model.ramp->0.paid(seen.limit, window::sum(after.window).departures())
            &&& after.drain_bound() is Finite ==> !after.residence.at_most(after.bound)
            &&& after.drain_bound() is Infinite ==> !after.residence.at_most(
                time::seconds(model.settings.drain_target).times(Value::of_nat(1)),
            )
        }),
    ensures
        model.decision(seen) == within(
            model.ramp->0.last,
            model.settings.floor,
            model.settings.max,
        ),
        model.next(seen).plateau == Some(model.ramp->0.departures),
{
    lemma_parts(model, seen);
    lemma_conditions(model, seen);
}

/// A pipeline that is too full is answered with the largest whole number of items that leave within
/// the plain bound, at the rate at which items leave now, finished or not, but never with more than
/// the limit.
pub proof fn full_pipelines_are_cut_to_what_leaves_within_the_bound(
    model: DrainModel,
    seen: Observation,
)
    requires
        model.sound(),
        seen.elapsed > 0,
        seen.limit <= usize::MAX,
        !model.next(seen).residence.at_most(model.next(seen).bound),
        forall|i: int|
            0 <= i < seen.shares().len() ==> (#[trigger] seen.shares()[i]).at_most(
                model.settings.starving,
            ),
        model.cut_after is None || model.cut_after->0 <= seen.at,
    ensures
        ({
            let after = model.next(seen);
            let leaving = window::sum(after.window).departures().times(after.drain_bound());
            exists|items: nat|
                {
                    &&& items <= seen.limit
                    &&& leaving is Finite ==> items * Value::one() <= leaving->Finite_0
                    &&& items < seen.limit ==> leaving is Finite && leaving->Finite_0 < (items + 1)
                        * Value::one()
                    &&& model.decision(seen) == #[trigger] within(
                        items,
                        model.settings.floor,
                        model.settings.max,
                    )
                }
        }),
{
    lemma_parts(model, seen);
    lemma_conditions(model, seen);
    crate::sample::idle_above_is_some_share_above(seen, model.settings.starving);
    let (informed, after) = (model.informed(seen), model.next(seen));
    let leaving = window::sum(after.window).departures().times(after.drain_bound());
    let one = Value::one();
    let drainable = informed.drainable();
    let items = if drainable <= seen.limit {
        drainable
    } else {
        seen.limit
    };
    lemma_pow2_pos(1074);
    if leaving is Finite {
        let (x, whole) = (leaving->Finite_0, leaving->Finite_0 / one);
        lemma_fundamental_div_mod(x as int, one as int);
        assert(items * one <= x) by (nonlinear_arith)
            requires
                items <= whole,
                x == one * whole + x % one,
                x % one >= 0,
        ;
        if items < seen.limit {
            assert(items == whole);
            let rest = x % one;
            assert(x < (whole + 1) * one) by (nonlinear_arith)
                requires
                    x == one * whole + rest,
                    rest < one,
            ;
        }
    }
    assert(model.decision(seen) == within(items, model.settings.floor, model.settings.max));
}

/// A bottleneck that waits for more is answered with the smallest whole number that is not below
/// the limit times `growth`, or the largest there is.
pub proof fn hunger_is_answered_with_growth(model: DrainModel, seen: Observation)
    requires
        model.sound(),
        seen.elapsed > 0,
        0 < seen.limit <= usize::MAX,
        !stall_calls_for_floor(model, model.next(seen), seen),
        exists|i: int|
            0 <= i < seen.shares().len() && !(#[trigger] seen.shares()[i]).at_most(
                model.settings.starving,
            ),
        9 * seen.limit <= 10 * seen.in_flight,
        model.raise_after is None || model.raise_after->0 <= seen.at,
        model.succeeded || seen.completed > 0,
        plateau_is_left(model, model.next(seen)),
        ({
            let after = model.next(seen);
            let (total, ramp) = (window::sum(after.window), ramp_left(model, after));
            &&& total.departed <= 2 * total.completed
            &&& ramp is Some ==> ramp->0.paid(seen.limit, total.departures())
            &&& after.residence.at_most(raises_go_up_to(model, after, seen))
        }),
    ensures
        ({
            let wanted = Value::of_nat(seen.limit).times(model.settings.growth);
            exists|limit: nat|
                {
                    &&& seen.limit <= limit <= usize::MAX
                    &&& limit < usize::MAX ==> wanted is Finite && wanted->Finite_0 <= limit
                        * Value::one()
                    &&& wanted is Finite ==> (limit - 1) * Value::one() < wanted->Finite_0
                    &&& model.decision(seen) == #[trigger] within(
                        limit,
                        model.settings.floor,
                        model.settings.max,
                    )
                }
        }),
{
    lemma_parts(model, seen);
    lemma_conditions(model, seen);
    crate::sample::idle_above_is_some_share_above(seen, model.settings.starving);
    let informed = model.informed(seen);
    let wanted = Value::of_nat(seen.limit).times(model.settings.growth);
    let one = Value::one();
    let limit = informed.grown(seen.limit);
    super::drain_laws::growth_raises(informed, seen.limit);
    lemma_pow2_pos(1074);
    if wanted is Finite {
        let (x, whole) = (wanted->Finite_0, wanted->Finite_0 / one);
        lemma_fundamental_div_mod(x as int, one as int);
        let up = if x % one == 0 {
            whole
        } else {
            whole + 1
        };
        assert(x <= up * one && (up - 1) * one < x) by (nonlinear_arith)
            requires
                x == one * whole + x % one,
                0 <= x % one < one,
                up == (if x % one == 0 {
                    whole
                } else {
                    whole + 1
                }),
        ;
        assert((limit - 1) * one <= (up - 1) * one) by (nonlinear_arith)
            requires
                limit <= up,
        ;
    }
    assert(model.decision(seen) == within(limit, model.settings.floor, model.settings.max));
}

/// With nothing else to answer, the limit is kept.
pub proof fn otherwise_the_limit_is_kept(model: DrainModel, seen: Observation)
    requires
        model.sound(),
        seen.elapsed > 0,
        !stall_calls_for_floor(model, model.next(seen), seen),
        !raise_failed(model, model.next(seen), seen),
        !is_too_full(model, model.next(seen), seen),
        !wants_more(model, model.next(seen), seen) || seen.limit == 0,
    ensures
        model.decision(seen) == within(seen.limit, model.settings.floor, model.settings.max),
{
    lemma_parts(model, seen);
    lemma_conditions(model, seen);
}

/// How long one pass takes, as best known after a sample: the pass, or else the residence, at most
/// `max_window`, to the nanosecond, or else `max_settle`.
pub open spec fn pass_ahead(after: DrainModel) -> nat {
    let longest = time::seconds(after.settings.max_window);
    match after.pass {
        Some(pass) => pass,
        None => match time::nanoseconds(
            if after.residence.at_most(longest) {
                after.residence
            } else {
                longest
            },
        ) {
            Some(nanos) => nanos,
            None => after.settings.max_settle,
        },
    }
}

/// The moment a time after another, if there is one.
pub open spec fn later(at: int, nanos: nat) -> Option<int> {
    if time::LATEST_NANOS < at + nanos {
        None
    } else {
        Some(at + nanos)
    }
}

/// After a raise the next waits for one pass, at most for `max_settle`. The raise ramps until one
/// pass from now: from the limit that the ramp before it started from, if one goes on, and it is
/// checked against the departures of now if it is known when its items come through.
pub proof fn raises_wait_for_a_pass_and_ramp(model: DrainModel, seen: Observation)
    requires
        seen.elapsed > 0,
        model.decision(seen) > seen.limit,
    ensures
        ({
            let after = model.next(seen);
            let pass = pass_ahead(after);
            let settle = model.settings.max_settle;
            let from = match ramp_left(model, after) {
                Some(ramp) => ramp.from,
                None => seen.limit,
            };
            &&& after.raise_after == later(
                seen.at,
                if pass < settle {
                    pass
                } else {
                    settle
                },
            )
            &&& after.cut_after == model.cut_after
            &&& after.ramp is Some <==> later(seen.at, pass) is Some
            &&& after.ramp is Some ==> {
                let ramp = after.ramp->0;
                &&& ramp.until == seen.at + pass
                &&& ramp.departures == window::sum(after.window).departures()
                &&& ramp.from == if from == 0 { 1 } else { from }
                &&& ramp.last == if seen.limit == 0 { 1 } else { seen.limit }
                &&& ramp.checked <==> after.pass is Some || !time::seconds(
                    model.settings.max_window,
                ).at_most(after.residence)
            }
        }),
{
    lemma_parts(model, seen);
    let checked = model.informed(seen).checked(seen, model.observed(seen).ended());
    assert(model.next(seen) == checked.held(seen, model.decision(seen)));
    assert(checked.departures() == window::sum(model.next(seen).window).departures());
    assert(checked.raise_pass() == pass_ahead(model.next(seen)));
}

/// After a cut no raise ramps or is waited for, and the next cut waits until what is inside beyond
/// the new limit has left at the rate of now, to the nanosecond, at most for `max_settle`, and not
/// at all if nothing is.
pub proof fn cuts_wait_for_the_excess_to_leave(model: DrainModel, seen: Observation)
    requires
        seen.elapsed > 0,
        model.decision(seen) < seen.limit,
    ensures
        ({
            let after = model.next(seen);
            let target = model.decision(seen);
            let settle = model.settings.max_settle;
            let excess = Value::of_nat((seen.in_flight - target) as nat);
            let leaves = time::nanoseconds(excess.over(window::sum(after.window).departures()));
            &&& after.ramp is None
            &&& after.raise_after is None
            &&& seen.in_flight <= target ==> after.cut_after == later(seen.at, 0)
            &&& target < seen.in_flight && (leaves is None || settle <= leaves->0)
                ==> after.cut_after == later(seen.at, settle)
            &&& target < seen.in_flight && leaves is Some && leaves->0 <= settle
                ==> after.cut_after == later(seen.at, leaves->0)
        }),
{
    lemma_parts(model, seen);
    let checked = model.informed(seen).checked(seen, model.observed(seen).ended());
    assert(model.next(seen) == checked.held(seen, model.decision(seen)));
    assert(checked.departures() == window::sum(model.next(seen).window).departures());
}

/// A sample that keeps the limit leaves the waits as they were, and the ramp unless it is over. A
/// plateau goes only once it is left, and comes only with a raise that failed.
pub proof fn kept_limits_leave_the_waits(model: DrainModel, seen: Observation)
    requires
        model.sound(),
        seen.elapsed > 0,
    ensures
        ({
            let after = model.next(seen);
            &&& model.decision(seen) == seen.limit ==> {
                &&& after.ramp == ramp_left(model, after)
                &&& after.raise_after == model.raise_after
                &&& after.cut_after == model.cut_after
            }
            &&& !raise_failed(model, after, seen) ==> after.plateau == if plateau_is_left(
                model,
                after,
            ) {
                None
            } else {
                model.plateau
            }
        }),
{
    lemma_parts(model, seen);
    lemma_conditions(model, seen);
}

/// Each name is reported with its value.
pub proof fn drain_bounded_reports_what_it_knows(model: DrainModel)
    ensures
        ({
            let (report, total) = (model.report(), window::sum(model.window));
            &&& report.len() == 8
            &&& report[0] == ("throughput"@, total.throughput())
            &&& report[1] == ("departures"@, total.departures())
            &&& report[2] == ("residence"@, model.residence)
            &&& report[3] == ("fastest"@, model.fastest)
            &&& report[4] == ("bound"@, model.bound)
            &&& report[5] == ("window"@, time::seconds(total.elapsed))
            &&& report[6].0 == "starving"@ && report[7].0 == "saturated"@
            &&& report[6].1 == Value::Finite(if model.starving { Value::one() } else { 0 })
            &&& report[7].1 == Value::Finite(if model.saturated { Value::one() } else { 0 })
        }),
{
    crate::binary64::lemma_of_nat_exact(1);
    crate::binary64::lemma_of_nat_exact(0);
}

/// Which settings a policy can be made of, and which it starts from.
pub proof fn drain_bounded_settings_in_range(settings: DrainSettings)
    requires
        settings.growth.is_number(),
    ensures
        settings.valid() <==> {
            &&& settings.floor >= 1 && settings.window_items >= 1 && settings.max_window >= 1
            &&& Value::Finite(Value::one()).at_most(settings.max_slowdown)
            &&& Value::Finite(Value::one()).at_most(settings.fastest_decay)
            &&& !settings.growth.at_most(Value::Finite(Value::one()))
            &&& settings.starving is Finite && settings.starving->Finite_0 < Value::one()
        },
        ({
            let defaults = DrainSettings::defaults();
            &&& defaults.floor == 1 && defaults.max == 1024 && defaults.initial is None
            &&& defaults.drain_target == 10_000_000_000 && defaults.window_items == 20
            &&& defaults.max_window == 30_000_000_000 && defaults.max_settle == 30_000_000_000
            &&& defaults.growth == Value::Finite(2 * Value::one())
            &&& defaults.max_slowdown == Value::of_nat(3).over(Value::of_nat(2))
            &&& defaults.starving == Value::of_nat(1).over(Value::of_nat(10))
            &&& defaults.fastest_decay == Value::of_nat(105).over(Value::of_nat(100))
        }),
{
    lemma_pow2_pos(1074);
    crate::binary64::lemma_of_nat_exact(1);
    crate::binary64::lemma_of_nat_exact(2);
}

/// A new policy knows nothing yet, and starts with `initial` if that is within `floor` and `max`,
/// and else with the nearer of the two; without `initial`, with `floor`. A `max` below `floor` is
/// `floor`.
pub proof fn new_policies_start_in_range(settings: DrainSettings)
    ensures
        ({
            let model = DrainModel::new(settings);
            let max = if settings.max < settings.floor {
                settings.floor
            } else {
                settings.max
            };
            &&& model.settings == DrainSettings { max, ..settings }
            &&& model.settings.start() == match settings.initial {
                Some(initial) => within(initial, settings.floor, max),
                None => settings.floor,
            }
            &&& model.window.len() == 0 && model.settled.departed == 0 && !model.filled
            &&& !model.succeeded && model.fastest is Infinite && model.pass is None
            &&& model.ramp is None && model.plateau is None && model.raise_after is None
            &&& model.cut_after is None && model.last_departure is None
            &&& model.last_in_flight is None && model.longest_silence == 0
            &&& model.residence is Infinite && model.bound is Infinite
        }),
{
}

/// A policy can judge a sample exactly if no time passed or all that it then adds up fits: times
/// into a [`Duration`](time::Duration), items into 64 bits, and the items inside, summed over time,
/// into 128.
pub proof fn samples_that_fit_can_be_judged(model: DrainModel, seen: Observation)
    ensures
        model.has_room(seen) <==> seen.elapsed == 0 || {
            let before = match model.last_in_flight {
                Some(before) => before,
                None => seen.in_flight,
            };
            let whole = (before + seen.in_flight) * seen.elapsed;
            let left = seen.completed + seen.released;
            let (recent, settled) = (window::sum(model.window), model.settled);
            &&& whole <= u128::MAX
            &&& 2 * recent.occupancy + whole <= 2 * u128::MAX + 1
            &&& recent.elapsed + seen.elapsed <= time::LONGEST_NANOS
            &&& recent.departed + left <= u64::MAX
            &&& recent.completed + seen.completed <= u64::MAX
            &&& model.filled ==> {
                &&& 2 * settled.occupancy + whole <= 2 * u128::MAX + 1
                &&& settled.elapsed + seen.elapsed <= time::LONGEST_NANOS
                &&& settled.departed + left <= u64::MAX
                &&& settled.completed + seen.completed <= u64::MAX
            }
        },
{
}

/// What an answer is: it is the model's decision, and leaves the policy in the model's next state.
pub proof fn drain_bounded_answers_as_modelled(
    policy: DrainBounded,
    seen: Observation,
    after: DrainBounded,
    target: nat,
    start: nat,
)
    requires
        policy.answers(seen, &after, target),
        policy.starts_with(start),
    ensures
        target == policy@.decision(seen),
        after@ == policy@.next(seen),
        start == policy@.settings.start(),
        policy.can_judge(seen) == policy@.has_room(seen),
{
}

} // verus!
