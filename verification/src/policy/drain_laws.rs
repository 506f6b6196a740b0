//! What holds of every [`DrainBounded`](super::DrainBounded) policy, whatever it is shown.
//!
//! The laws speak of sound states. Every policy that is in order is in one: see
//! [`policies_in_order_are_sound`](super::drain_bounded::policies_in_order_are_sound).

use vstd::arithmetic::power2::*;
use vstd::prelude::*;

use super::drain_bounded::DrainBounded;
use super::drain_model::{DrainModel, DrainSettings, RampModel};
use super::window::{self, TallyModel};
use super::Policy;
use crate::binary64::Value;
use crate::ledger;
use crate::sample::Observation;
use crate::time;

verus! {

/// A policy stays sound, and keeps its settings, whatever it is shown.
pub proof fn state_stays_sound(model: DrainModel, seen: Observation)
    requires
        model.sound(),
    ensures
        model.next(seen).sound(),
        model.next(seen).settings == model.settings,
{
    if model.observed(seen).eased().shows_pace(seen) {
        crate::binary64::lemma_product_is_not_zero(
            model.fastest,
            model.settings.fastest_decay,
        );
    }
}

/// A policy made of settings in range is sound after whatever samples it has been shown, and still
/// has those settings.
pub proof fn every_state_is_sound(settings: DrainSettings, all: Seq<Observation>)
    requires
        settings.valid(),
    ensures
        DrainModel::new(settings).shown(all).sound(),
        DrainModel::new(settings).shown(all).settings == settings.kept(),
    decreases all.len(),
{
    if all.len() > 0 {
        every_state_is_sound(settings, all.drop_last());
        state_stays_sound(DrainModel::new(settings).shown(all.drop_last()), all.last());
    }
}

/// The same samples always give the same answers, and leave the same state.
pub proof fn same_samples_same_answers(
    one: DrainBounded,
    other: DrainBounded,
    seen: Observation,
    one_after: DrainBounded,
    other_after: DrainBounded,
    one_target: nat,
    other_target: nat,
)
    requires
        one@ == other@,
        one.answers(seen, &one_after, one_target),
        other.answers(seen, &other_after, other_target),
    ensures
        one_after@ == other_after@,
        one_target == other_target,
{
}

/// The limit stays between `floor` and `max`, from the start on.
pub proof fn limit_stays_in_range(model: DrainModel, seen: Observation)
    requires
        model.sound(),
        seen.elapsed > 0,
    ensures
        model.settings.floor <= model.settings.start() <= model.settings.max,
        model.settings.floor <= model.decision(seen) <= model.settings.max,
{
}

/// If no time has passed the limit stays, and nothing is learned: only what is reported of the
/// sample changes.
pub proof fn no_time_no_change(model: DrainModel, seen: Observation)
    requires
        seen.elapsed == 0,
    ensures
        model.decision(seen) == seen.limit,
        model.next(seen) == (DrainModel {
            residence: model.next(seen).residence,
            starving: model.next(seen).starving,
            saturated: model.next(seen).saturated,
            ..model
        }),
{
}

/// Whether two states differ at most in what they report of the latest sample, and in residence
/// only while there is no tick to measure it by.
spec fn alike(one: DrainModel, other: DrainModel) -> bool {
    &&& one == (DrainModel {
        residence: one.residence,
        starving: one.starving,
        saturated: one.saturated,
        ..other
    })
    &&& other.window.len() > 0 ==> one.residence == other.residence
}

/// States that are alike give the same answer and stay alike, and once time has passed they are
/// the same.
proof fn lemma_alike(one: DrainModel, other: DrainModel, seen: Observation)
    requires
        alike(one, other),
    ensures
        one.decision(seen) == other.decision(seen),
        alike(one.next(seen), other.next(seen)),
        seen.elapsed > 0 ==> one.next(seen) == other.next(seen),
{
    if seen.elapsed > 0 {
        let ticks = other.window.push((DrainModel::tick_start(seen), other.tick(seen)));
        assert(one.tick(seen) == other.tick(seen));
        if other.window.len() == 0 {
            assert(ticks.len() == 1);
        }
        assert(one.recorded(seen).window == other.recorded(seen).window);
    }
    assert(one.observed(seen) == other.observed(seen));
}

/// After whatever samples, residence is what the window gives, once there is a tick in it.
proof fn lemma_residence_is_current(settings: DrainSettings, all: Seq<Observation>)
    ensures
        ({
            let model = DrainModel::new(settings).shown(all);
            model.window.len() > 0 ==> model.residence == window::sum(model.window).residence()
        }),
{
    if all.len() > 0 {
        let before = DrainModel::new(settings).shown(all.drop_last());
        let seen = all.last();
        let after = before.next(seen);
        assert(after.window == before.observed(seen).window);
        assert(after.residence == before.observed(seen).residence);
    }
}

/// A sample of no length changes no later answer, whatever was shown before it and whatever comes
/// after, and from the next tick on not even the state.
pub proof fn no_time_changes_no_later_answer(
    settings: DrainSettings,
    before: Seq<Observation>,
    empty: Observation,
    after: Seq<Observation>,
    seen: Observation,
)
    requires
        empty.elapsed == 0,
    ensures
        ({
            let without = DrainModel::new(settings).shown(before);
            let with = without.next(empty);
            &&& with.shown(after).decision(seen) == without.shown(after).decision(seen)
            &&& seen.elapsed > 0 ==> with.shown(after).next(seen) == without.shown(after).next(seen)
        }),
{
    let without = DrainModel::new(settings).shown(before);
    lemma_residence_is_current(settings, before);
    lemma_alike_run(without.next(empty), without, after);
    lemma_alike(without.next(empty).shown(after), without.shown(after), seen);
}

/// States that are alike stay so over any run of samples.
proof fn lemma_alike_run(one: DrainModel, other: DrainModel, all: Seq<Observation>)
    requires
        alike(one, other),
    ensures
        alike(one.shown(all), other.shown(all)),
    decreases all.len(),
{
    if all.len() > 0 {
        lemma_alike_run(one, other, all.drop_last());
        lemma_alike(one.shown(all.drop_last()), other.shown(all.drop_last()), all.last());
    }
}

/// A raise never lowers the limit: multiplied by `growth` and rounded up it is more, unless it is
/// as high as a limit can be.
pub proof fn growth_raises(model: DrainModel, limit: nat)
    requires
        model.settings.valid(),
        limit <= usize::MAX,
    ensures
        limit <= model.grown(limit),
        0 < limit < usize::MAX ==> limit < model.grown(limit),
{
    if limit > 0 {
        crate::binary64::lemma_growth_raises(limit, model.settings.growth, usize::MAX as nat);
    }
}

/// The default `growth` doubles the limit exactly, as far as binary64 tells limits apart.
pub proof fn default_growth_doubles(model: DrainModel, limit: nat)
    requires
        model.settings.growth == DrainSettings::defaults().growth,
        limit < 0x20_0000_0000_0000,
        2 * limit <= usize::MAX,
    ensures
        model.grown(limit) == 2 * limit,
{
    let one = Value::one();
    lemma_pow2_pos(1074);
    lemma_pow2_unfold(1075);
    crate::rounding::lemma_width();
    crate::binary64::lemma_of_nat_exact(limit);
    crate::binary64::lemma_of_nat_exact(2);
    let doubled = limit * pow2(1075);
    assert((limit * one) * (2 * one) == doubled * one && doubled == (2 * limit) * one)
        by (nonlinear_arith)
        requires
            doubled == limit * (2 * one),
    ;
    crate::rounding::rounding_is_exact(limit, 1075, one);
    assert(doubled <= pow2(53) * pow2(1075)) by (nonlinear_arith)
        requires
            doubled == limit * pow2(1075),
            limit <= pow2(53),
    ;
    lemma_pow2_adds(53, 1075);
    lemma_pow2_strictly_increases(1128, 2098);
    crate::rounding::lemma_quotient(doubled, one, 2 * limit, 0);
}

/// Unless a probe has been idle for more than `starving` of the time the limit is never raised,
/// except to `floor`.
pub proof fn busy_bottleneck_gets_no_raise(model: DrainModel, seen: Observation)
    requires
        model.sound(),
        !seen.idle_above(model.settings.starving),
    ensures
        model.decision(seen) <= ledger::max(seen.limit, model.settings.floor),
{
}

/// Without a probe the limit is never raised, except to `floor`.
pub proof fn without_a_probe_no_raise(model: DrainModel, seen: Observation)
    requires
        model.sound(),
        seen.idle.len() == 0,
    ensures
        model.decision(seen) <= ledger::max(seen.limit, model.settings.floor),
{
    busy_bottleneck_gets_no_raise(model, seen);
}

/// The limit is raised only to `floor`, to take back a change, or by `growth`. The last only if
/// the bottleneck waits while the `Gate` is nearly full, residence is within what raises may go up
/// to, an item has succeeded since the limit last changed, at least half of those leaving lately
/// succeeded, the latest raise has reached the bottleneck and has paid, and departures are not
/// those of a raise that failed.
pub proof fn raises_only_when_more_can_help(model: DrainModel, seen: Observation)
    requires
        model.sound(),
        model.decision(seen) > ledger::max(seen.limit, model.settings.floor),
    ensures
        ({
            let informed = model.informed(seen);
            let ended = model.observed(seen).ended();
            ||| {
                &&& model.decision(seen) == ledger::min(
                    informed.grown(seen.limit),
                    model.settings.max,
                )
                &&& seen.idle_above(model.settings.starving)
                &&& seen.in_flight * 10 >= seen.limit * 9
                &&& informed.residence.at_most(informed.raise_bound(seen.limit))
                &&& model.succeeded || seen.completed > 0
                &&& window::sum(informed.window).mostly_succeeded()
                &&& model.raise_after is Some ==> seen.at >= model.raise_after->0
                &&& informed.ramp is Some ==> informed.ramp->0.paid(
                    seen.limit,
                    informed.departures(),
                )
                &&& informed.plateau is None
            }
            ||| {
                &&& informed.useless(seen, ended)
                &&& model.decision(seen) == ledger::min(ended->0.last, model.settings.max)
            }
        }),
{
}

/// Where the conditions for a raise hold, and nothing calls for a cut, the limit is multiplied by
/// `growth`, rounded up, and kept in range.
pub proof fn hungry_bottleneck_is_fed(model: DrainModel, seen: Observation)
    requires
        model.sound(),
        seen.elapsed > 0,
        ({
            let informed = model.informed(seen);
            &&& informed.hungry(seen)
            &&& !informed.drops(seen)
            &&& !informed.useless(seen, model.observed(seen).ended())
        }),
    ensures
        model.decision(seen) == model.settings.clamped(model.informed(seen).grown(seen.limit)),
        model.next(seen).settings == model.settings,
{
}

/// What can have lowered an answer.
proof fn lemma_lowered(informed: DrainModel, seen: Observation, ended: Option<RampModel>)
    requires
        informed.settings.valid(),
        informed.settings.floor <= informed.settings.max,
        seen.limit <= usize::MAX,
        informed.target(seen, ended) < ledger::min(seen.limit, informed.settings.max),
    ensures
        ({
            let target = informed.target(seen, ended);
            let settings = informed.settings;
            ||| informed.drops(seen) && target == settings.floor
            ||| informed.useless(seen, ended) && target == settings.clamped(ended->0.last)
            ||| informed.overfull(seen) && target == settings.clamped(informed.drainable())
        }),
{
    growth_raises(informed, seen.limit);
}

/// The limit is lowered only to `max`, to `floor` when the pipeline is stuck, to take back a raise
/// that only lengthened a hidden queue, or, while the bottleneck is busy, to what leaves within
/// the bound when residence is past it.
pub proof fn lowers_only_with_reason(model: DrainModel, seen: Observation)
    requires
        model.sound(),
        seen.limit <= usize::MAX,
        model.decision(seen) < ledger::min(seen.limit, model.settings.max),
    ensures
        ({
            let informed = model.informed(seen);
            let ended = model.observed(seen).ended();
            &&& seen.elapsed > 0
            &&& {
                ||| {
                    &&& informed.stuck(seen)
                    &&& informed.starving || informed.drain_bound() is Infinite
                    &&& model.cut_after is Some ==> seen.at >= model.cut_after->0
                    &&& model.decision(seen) == model.settings.floor
                }
                ||| {
                    &&& informed.useless(seen, ended)
                    &&& model.decision(seen) == model.settings.clamped(ended->0.last)
                }
                ||| {
                    &&& !seen.idle_above(model.settings.starving)
                    &&& informed.bound.below(informed.residence)
                    &&& model.cut_after is Some ==> seen.at >= model.cut_after->0
                    &&& model.decision(seen) == model.settings.clamped(informed.drainable())
                }
            }
        }),
{
    lemma_lowered(model.informed(seen), seen, model.observed(seen).ended());
}

/// When residence is past the bound while the bottleneck is busy, the limit is cut to what leaves
/// within the bound at the current rate, unless the latest cut hasn't shown, and is never raised
/// above what it was, except to `floor`.
pub proof fn overfull_pipeline_is_cut(model: DrainModel, seen: Observation)
    requires
        model.sound(),
        seen.elapsed > 0,
        ({
            let informed = model.informed(seen);
            &&& informed.bound.below(informed.residence)
            &&& !informed.starving
            &&& informed.may_cut(seen)
            &&& !informed.drops(seen)
        }),
    ensures
        ({
            let informed = model.informed(seen);
            let leaving = informed.departures().times(informed.drain_bound());
            &&& model.decision(seen) == model.settings.clamped(
                ledger::min(informed.drainable(), seen.limit),
            )
            &&& model.decision(seen) <= ledger::max(seen.limit, model.settings.floor)
            &&& leaving is Finite ==> informed.drainable() * Value::one() <= leaving->Finite_0
        }),
{
    let informed = model.informed(seen);
    let leaving = informed.departures().times(informed.drain_bound());
    if leaving is Finite {
        let (x, one) = (leaving->Finite_0, Value::one());
        let (whole, kept) = (x / one, informed.drainable());
        lemma_pow2_pos(1074);
        vstd::arithmetic::div_mod::lemma_fundamental_div_mod(x as int, one as int);
        assert(kept * one <= x) by (nonlinear_arith)
            requires
                kept <= whole,
                x == one * whole + x % one,
                x % one >= 0,
        ;
    }
}

/// While the bottleneck waits, the bound alone never cuts the limit: a long residence is then
/// upstream latency, which a cut can't shorten.
pub proof fn waiting_bottleneck_is_not_cut_by_the_bound(model: DrainModel, seen: Observation)
    requires
        model.sound(),
        seen.limit <= usize::MAX,
        seen.idle_above(model.settings.starving),
        !model.informed(seen).stuck(seen),
        !model.informed(seen).useless(seen, model.observed(seen).ended()),
    ensures
        model.decision(seen) >= ledger::min(seen.limit, model.settings.max),
{
    if model.decision(seen) < ledger::min(seen.limit, model.settings.max) {
        lowers_only_with_reason(model, seen);
    }
}

/// A stuck pipeline drops to `floor` if the bottleneck waits or no bound is known yet, unless the
/// latest cut hasn't shown.
pub proof fn stuck_pipeline_drops_to_floor(model: DrainModel, seen: Observation)
    requires
        model.sound(),
        seen.elapsed > 0,
        ({
            let informed = model.informed(seen);
            &&& informed.stuck(seen)
            &&& informed.starving || informed.drain_bound() is Infinite
            &&& informed.may_cut(seen)
        }),
    ensures
        model.decision(seen) == model.settings.floor,
{
}

/// A pipeline is stuck only once items have left before, some are inside, and none has left for
/// longer than `max_window` and for longer than twice the longest silence before.
pub proof fn stuck_means_far_longer_than_usual(model: DrainModel, seen: Observation)
    requires
        model.stuck(seen),
        2 * model.longest_silence <= time::LONGEST_NANOS,
    ensures
        model.filled,
        seen.in_flight > 0,
        model.silence(seen) > model.settings.max_window,
        model.silence(seen) > 2 * model.longest_silence,
{
}

/// After a raise there is no other for at most `max_settle`, nor until another item has succeeded,
/// and what has been measured before doesn't count towards the fastest time any more.
pub proof fn raise_holds_the_next(model: DrainModel, seen: Observation)
    requires
        model.sound(),
        model.decision(seen) > seen.limit,
    ensures
        ({
            let after = model.next(seen);
            let wait = time::shorter(model.informed(seen).raise_pass(), model.settings.max_settle);
            &&& wait <= model.settings.max_settle
            &&& after.raise_after == time::after(seen.at, wait)
            &&& !after.succeeded
            &&& after.settled == TallyModel::zero()
        }),
{
}

/// After a cut there is no other for at most `max_settle`, there is no raise until another item
/// has succeeded, and what has been measured before doesn't count towards the fastest time any
/// more.
pub proof fn cut_holds_the_next(model: DrainModel, seen: Observation)
    requires
        model.sound(),
        model.decision(seen) < seen.limit,
    ensures
        ({
            let after = model.next(seen);
            let wait = model.informed(seen).cut_hold(seen, model.decision(seen));
            &&& wait <= model.settings.max_settle
            &&& after.cut_after == time::after(seen.at, wait)
            &&& after.ramp is None
            &&& after.raise_after is None
            &&& !after.succeeded
            &&& after.settled == TallyModel::zero()
        }),
{
}

/// Until the moment a cut waits for, the limit is lowered only to `max` or to take back a raise.
pub proof fn no_cut_while_one_is_held(model: DrainModel, seen: Observation)
    requires
        model.sound(),
        seen.limit <= usize::MAX,
        model.cut_after is Some,
        seen.at < model.cut_after->0,
        !model.informed(seen).useless(seen, model.observed(seen).ended()),
    ensures
        model.decision(seen) >= ledger::min(seen.limit, model.settings.max),
{
    if model.decision(seen) < ledger::min(seen.limit, model.settings.max) {
        lowers_only_with_reason(model, seen);
    }
}

/// Until the moment a raise waits for, the limit is raised only to `floor` or to take back a
/// change.
pub proof fn no_raise_while_one_is_held(model: DrainModel, seen: Observation)
    requires
        model.sound(),
        model.raise_after is Some,
        seen.at < model.raise_after->0,
        !model.informed(seen).useless(seen, model.observed(seen).ended()),
    ensures
        model.decision(seen) <= ledger::max(seen.limit, model.settings.floor),
{
}

/// What holds a change stays until the limit changes: a tick that keeps the limit forgets neither
/// a raise's wait nor a cut's, and a success counts until the next change.
pub proof fn keeping_the_limit_keeps_the_waits(model: DrainModel, seen: Observation)
    requires
        model.sound(),
        model.decision(seen) == seen.limit,
    ensures
        model.next(seen).raise_after == model.raise_after,
        model.next(seen).cut_after == model.cut_after,
        model.succeeded ==> model.next(seen).succeeded,
        model.next(seen).succeeded ==> model.succeeded || seen.completed > 0,
{
}

/// A raise is taken back only if it can be checked, the bottleneck still waits, departures did
/// not rise by half as much as the limit did, and residence is past what raises may go up to. One
/// that only failed to help but kept within the bound is left alone.
pub proof fn only_useless_raises_are_taken_back(
    model: DrainModel,
    seen: Observation,
    ended: Option<RampModel>,
)
    requires
        model.useless(seen, ended),
    ensures
        ended is Some,
        ended->0.checked,
        model.starving,
        !ended->0.paid(seen.limit, model.departures()),
        !model.residence.at_most(model.raise_bound(seen.limit)),
{
}

/// A raise that was useless is taken back, unless the limit drops to `floor`, and its departures
/// are remembered.
pub proof fn useless_raise_is_taken_back(model: DrainModel, seen: Observation)
    requires
        model.sound(),
        seen.elapsed > 0,
        model.informed(seen).useless(seen, model.observed(seen).ended()),
    ensures
        ({
            let ended = model.observed(seen).ended();
            &&& !model.informed(seen).drops(seen) ==> model.decision(seen)
                == model.settings.clamped(ended->0.last)
            &&& model.next(seen).plateau == Some(ended->0.departures)
        }),
{
}

/// After a raise failed there is no other until departures change by a quarter or more.
pub proof fn no_raise_on_a_plateau(model: DrainModel, seen: Observation)
    requires
        model.sound(),
        model.plateau is Some,
        ({
            let (pace, before) = (model.observed(seen).departures(), model.plateau->0);
            pace == before || {
                &&& before.times(Value::quotient(3, 4)).below(pace)
                &&& pace.below(before.times(Value::quotient(5, 4)))
            }
        }),
        !model.informed(seen).useless(seen, model.observed(seen).ended()),
    ensures
        model.decision(seen) <= ledger::max(seen.limit, model.settings.floor),
        seen.elapsed > 0 ==> model.next(seen).plateau == model.plateau,
{
}

/// Once departures have changed by a quarter or more since a raise failed, that raise holds the
/// others back no longer.
pub proof fn quarter_more_or_less_leaves_a_plateau(model: DrainModel, seen: Observation)
    requires
        seen.elapsed > 0,
        model.plateau is Some,
        ({
            let (pace, before) = (model.observed(seen).departures(), model.plateau->0);
            pace != before && (pace.at_most(before.times(Value::quotient(3, 4)))
                || before.times(Value::quotient(5, 4)).at_most(pace))
        }),
    ensures
        model.informed(seen).plateau is None,
{
}

/// The fastest time changes only while it can be measured: the `Gate` is nearly full but not over
/// its limit, no raise ramps, and enough items have left over a whole pass, at least half of them
/// with success.
pub proof fn fastest_needs_a_full_steady_pipeline(model: DrainModel, seen: Observation)
    requires
        model.next(seen).fastest != model.fastest,
    ensures
        ({
            let eased = model.observed(seen).eased();
            &&& seen.elapsed > 0
            &&& seen.limit * 9 <= seen.in_flight * 10
            &&& seen.in_flight <= seen.limit
            &&& eased.ramp is None
            &&& eased.settled.departed >= model.settings.window_items
            &&& eased.settled.residence().at_most(time::seconds(eased.settled.elapsed))
            &&& eased.settled.mostly_succeeded()
        }),
{
}

/// The fastest time never grows unless the bottleneck waits, and then by no more than
/// `fastest_decay`.
pub proof fn fastest_creeps_up_only_while_waiting(model: DrainModel, seen: Observation)
    ensures
        !seen.idle_above(model.settings.starving) ==> model.next(seen).fastest.at_most(
            model.fastest,
        ),
        model.next(seen).fastest.at_most(model.fastest) || model.next(seen).fastest.at_most(
            model.fastest.times(model.settings.fastest_decay),
        ),
{
}

/// Until the fastest time is known there is no bound. Then it is the longer of `drain_target` and
/// `max_slowdown` times the fastest time.
pub proof fn bound_follows_the_fastest_time(model: DrainModel)
    ensures
        model.fastest is Infinite ==> model.drain_bound() is Infinite,
        model.fastest is Finite ==> {
            let slowed = model.fastest.times(model.settings.max_slowdown);
            let aim = time::seconds(model.settings.drain_target);
            &&& slowed.at_most(model.drain_bound())
            &&& aim.at_most(model.drain_bound())
            &&& model.drain_bound() == slowed || model.drain_bound() == aim
        },
{
}

/// While a raise ramps the bound is widened by at most `growth`, and is never narrowed.
pub proof fn bound_widens_by_one_growth_at_most(model: DrainModel, limit: nat)
    requires
        model.settings.valid(),
    ensures
        Value::of_nat(1).at_most(model.widening(limit)),
        model.widening(limit).at_most(model.settings.growth),
        model.ramp is None ==> model.widening(limit) == Value::of_nat(1),
{
    crate::binary64::lemma_of_nat_exact(1);
}

/// The answer to one sample of a run.
pub open spec fn answer_in_run(start: DrainModel, all: Seq<Observation>, i: int) -> nat {
    start.shown(all.take(i)).decision(all[i])
}

/// Whether in a run an item has succeeded since the limit last changed: in some tick items
/// finished, and from that tick on each answer kept the limit.
pub open spec fn success_since_change(start: DrainModel, all: Seq<Observation>) -> bool {
    exists|j: int|
        {
            &&& 0 <= j < all.len()
            &&& (#[trigger] all[j]).elapsed > 0
            &&& all[j].completed > 0
            &&& forall|k: int|
                j <= k < all.len() ==> #[trigger] answer_in_run(start, all, k) == all[k].limit
        }
}

/// A success is remembered only if the limit is kept, and only from before or from this tick.
proof fn lemma_success_step(model: DrainModel, seen: Observation)
    ensures
        model.next(seen).succeeded ==> {
            &&& model.decision(seen) == seen.limit
            &&& model.succeeded || (seen.elapsed > 0 && seen.completed > 0)
        },
{
}

/// A policy that remembers a success has had one since the limit last changed.
proof fn lemma_remembers_success(settings: DrainSettings, all: Seq<Observation>)
    ensures
        DrainModel::new(settings).shown(all).succeeded ==> success_since_change(
            DrainModel::new(settings),
            all,
        ),
    decreases all.len(),
{
    let start = DrainModel::new(settings);
    if all.len() > 0 && start.shown(all).succeeded {
        let before = all.drop_last();
        let last = all.len() - 1;
        let (model, seen) = (start.shown(before), all.last());
        lemma_remembers_success(settings, before);
        assert(all.take(last) =~= before);
        lemma_success_step(model, seen);
        assert(answer_in_run(start, all, last) == all[last].limit);
        let j = if seen.elapsed > 0 && seen.completed > 0 {
            last
        } else {
            assert(model.succeeded);
            choose|j: int|
                {
                    &&& 0 <= j < before.len()
                    &&& (#[trigger] before[j]).elapsed > 0
                    &&& before[j].completed > 0
                    &&& forall|k: int|
                        j <= k < before.len() ==> #[trigger] answer_in_run(start, before, k)
                            == before[k].limit
                }
        };
        assert(all[j].elapsed > 0 && all[j].completed > 0);
        assert forall|k: int| j <= k < all.len() implies #[trigger] answer_in_run(start, all, k)
            == all[k].limit by {
            if k < last {
                assert(all.take(k) =~= before.take(k));
                assert(answer_in_run(start, before, k) == before[k].limit);
            }
        }
    }
}

/// In any run, a raise other than to `floor` or to take back a change needs a success since the
/// limit last changed: in the tick itself, or in one before it since when the limit has been kept.
pub proof fn every_raise_needs_a_success(
    settings: DrainSettings,
    all: Seq<Observation>,
    seen: Observation,
)
    requires
        settings.valid(),
        ({
            let model = DrainModel::new(settings).shown(all);
            &&& model.decision(seen) > ledger::max(seen.limit, model.settings.floor)
            &&& !model.informed(seen).useless(seen, model.observed(seen).ended())
        }),
    ensures
        seen.completed > 0 || success_since_change(DrainModel::new(settings), all),
{
    let model = DrainModel::new(settings).shown(all);
    every_state_is_sound(settings, all);
    raises_only_when_more_can_help(model, seen);
    lemma_remembers_success(settings, all);
}

/// Whether nothing leaves in a sample.
pub open spec fn nothing_left(seen: Observation) -> bool {
    seen.completed == 0 && seen.released == 0
}

/// What holds of a policy that has seen nothing leave.
spec fn still_filling(model: DrainModel) -> bool {
    &&& model.sound()
    &&& !model.filled
    &&& !model.succeeded
    &&& model.fastest is Infinite
    &&& model.settled.departed == 0
    &&& window::sum(model.window).departed == 0
    &&& match model.ramp {
        Some(ramp) => ramp.departures == Value::zero() && ramp.last <= usize::MAX,
        None => true,
    }
}

/// Nothing leaves at a rate of zero.
proof fn lemma_no_departures(model: DrainModel)
    requires
        window::sum(model.window).departed == 0,
    ensures
        model.departures() == Value::zero(),
{
    let total = window::sum(model.window);
    if total.elapsed > 0 {
        time::lemma_seconds_positive(total.elapsed);
        crate::binary64::lemma_of_nat_bounds(0);
        match time::seconds(total.elapsed) {
            Value::Finite(y) => {
                assert(0 * Value::one() == 0);
                crate::rounding::lemma_rounded_tiny(0, y);
                lemma_pow2_pos(2098);
            },
            Value::Infinite => {},
        }
    }
}

/// Where nothing left before a raise, it pays whatever leaves after it.
proof fn lemma_nothing_to_pay(ramp: RampModel, limit: nat)
    requires
        ramp.departures == Value::zero(),
        0 < ramp.last <= usize::MAX,
        limit <= usize::MAX,
    ensures
        ramp.paid(limit, Value::zero()),
{
    super::drain_bounded::lemma_raise_is_finite(limit, ramp.last);
    let y = Value::of_nat(1).plus(
        Value::of_nat(limit).over(Value::of_nat(ramp.last)),
    )->Finite_0;
    let one = Value::one();
    lemma_pow2_pos(2098);
    assert(0 * y == 0);
    crate::rounding::lemma_rounded_tiny(0, one);
    crate::binary64::lemma_of_nat_exact(2);
    assert(0 * one == 0);
    crate::rounding::lemma_rounded_tiny(0, 2 * one);
}

/// A tick recorded in which nothing left adds no departures.
proof fn lemma_nothing_recorded(model: DrainModel, seen: Observation)
    requires
        window::sum(model.window).departed == 0,
        nothing_left(seen),
        seen.elapsed > 0,
    ensures
        window::sum(model.recorded(seen).window).departed == 0,
{
    let tick = (DrainModel::tick_start(seen), model.tick(seen));
    let ticks = model.window.push(tick);
    window::lemma_sum_push(model.window, tick);
    let (items, min, max) = (
        model.settings.window_items,
        model.window_min(),
        model.window_max(),
    );
    window::window_is_shortest(ticks, items, min, max);
    let kept = window::trimmed(ticks, items, min, max);
    window::lemma_sum_skip(ticks, ticks.len() - kept.len());
}

/// While nothing leaves the limit stays, and what holds then goes on to hold.
proof fn lemma_filling_step(model: DrainModel, seen: Observation)
    requires
        still_filling(model),
        nothing_left(seen),
        seen.limit <= usize::MAX,
    ensures
        still_filling(model.next(seen)),
        model.decision(seen) == if seen.elapsed > 0 {
            model.settings.clamped(seen.limit)
        } else {
            seen.limit
        },
{
    if seen.elapsed > 0 {
        state_stays_sound(model, seen);
        lemma_nothing_recorded(model, seen);
        let informed = model.informed(seen);
        let ended = model.observed(seen).ended();
        assert(informed.window == model.recorded(seen).window);
        lemma_no_departures(informed);
        if let Some(ramp) = model.ramp {
            lemma_nothing_to_pay(ramp, seen.limit);
        }
        assert(!informed.useless(seen, ended));
        assert(informed.fastest is Infinite);
        assert(!informed.overfull(seen));
        assert(!informed.hungry(seen));
    }
}

/// A policy that has been shown only samples in which nothing leaves is still filling.
proof fn lemma_filling_run(settings: DrainSettings, all: Seq<Observation>)
    requires
        settings.valid(),
        forall|i: int|
            0 <= i < all.len() ==> nothing_left(#[trigger] all[i]) && all[i].limit <= usize::MAX,
    ensures
        still_filling(DrainModel::new(settings).shown(all)),
        DrainModel::new(settings).shown(all).settings == settings.kept(),
    decreases all.len(),
{
    every_state_is_sound(settings, all);
    if all.len() > 0 {
        let before = all.drop_last();
        assert forall|i: int| 0 <= i < before.len() implies nothing_left(#[trigger] before[i])
            && before[i].limit <= usize::MAX by {
            assert(all[i] == before[i]);
        }
        lemma_filling_run(settings, before);
        assert(all.last() == all[all.len() - 1]);
        lemma_filling_step(DrainModel::new(settings).shown(before), all.last());
    }
}

/// Before anything has left, the limit stays where it is, within `floor` and `max`, however long
/// that takes and however long the bottleneck waits, and no fastest time is learned.
pub proof fn limit_stays_while_filling(
    settings: DrainSettings,
    all: Seq<Observation>,
    seen: Observation,
)
    requires
        settings.valid(),
        forall|i: int|
            0 <= i < all.len() ==> nothing_left(#[trigger] all[i]) && all[i].limit <= usize::MAX,
        nothing_left(seen),
        seen.limit <= usize::MAX,
    ensures
        ({
            let model = DrainModel::new(settings).shown(all);
            &&& model.decision(seen) == if seen.elapsed > 0 {
                settings.kept().clamped(seen.limit)
            } else {
                seen.limit
            }
            &&& model.next(seen).fastest is Infinite
        }),
{
    lemma_filling_run(settings, all);
    lemma_filling_step(DrainModel::new(settings).shown(all), seen);
}

/// Whether in a sample nothing leaves, or more than half of what leaves fails.
pub open spec fn mostly_failed(seen: Observation) -> bool {
    nothing_left(seen) || seen.completed < seen.released
}

/// Whether nothing that has left since the pipeline settled shows the pace: nothing has left, or
/// more than half of it failed.
pub open spec fn settled_on_failures(model: DrainModel) -> bool {
    ||| model.settled.departed == 0 && model.settled.completed == 0
    ||| 2 * model.settled.completed < model.settled.departed
}

/// A run of failures never sets the fastest time: from the start, from any change of the limit, or
/// from when a raise's items came through, as long as more than half of what leaves in each sample
/// fails.
pub proof fn failures_never_set_the_fastest_time(model: DrainModel, all: Seq<Observation>)
    requires
        model.sound(),
        settled_on_failures(model),
        forall|i: int| 0 <= i < all.len() ==> mostly_failed(#[trigger] all[i]),
    ensures
        model.shown(all).fastest == model.fastest,
        settled_on_failures(model.shown(all)),
        model.shown(all).sound(),
    decreases all.len(),
{
    if all.len() > 0 {
        let before = all.drop_last();
        assert forall|i: int| 0 <= i < before.len() implies mostly_failed(
            #[trigger] before[i],
        ) by {
            assert(all[i] == before[i]);
        }
        failures_never_set_the_fastest_time(model, before);
        assert(mostly_failed(all[all.len() - 1]));
        lemma_failure_step(model.shown(before), all.last());
    }
}

/// One sample in which more than half of what leaves fails teaches no fastest time.
proof fn lemma_failure_step(model: DrainModel, seen: Observation)
    requires
        model.sound(),
        settled_on_failures(model),
        mostly_failed(seen),
    ensures
        model.next(seen).fastest == model.fastest,
        settled_on_failures(model.next(seen)),
        model.next(seen).sound(),
{
    state_stays_sound(model, seen);
    if seen.elapsed > 0 {
        let eased = model.observed(seen).eased();
        assert(settled_on_failures(eased));
        assert(!eased.shows_pace(seen));
    }
}

/// The start, and every change of the limit, begins to measure anew.
pub proof fn changes_settle_on_nothing(
    settings: DrainSettings,
    model: DrainModel,
    seen: Observation,
)
    requires
        model.decision(seen) != seen.limit,
    ensures
        settled_on_failures(DrainModel::new(settings)),
        settled_on_failures(model.next(seen)),
{
}

/// After any run, the bound that a policy reports is at least the plain one, and at most `growth`
/// times that.
pub proof fn reported_bound_is_within_growth(settings: DrainSettings, all: Seq<Observation>)
    requires
        settings.valid(),
    ensures
        ({
            let model = DrainModel::new(settings).shown(all);
            &&& model.drain_bound().at_most(model.bound)
            &&& model.bound.at_most(model.drain_bound().times(model.settings.growth))
        }),
    decreases all.len(),
{
    if all.len() > 0 {
        let (before, seen) = (all.drop_last(), all.last());
        let model = DrainModel::new(settings).shown(before);
        reported_bound_is_within_growth(settings, before);
        every_state_is_sound(settings, before);
        if seen.elapsed > 0 {
            state_stays_sound(model, seen);
            let learned = model.observed(seen).eased().learned(seen);
            let plain = learned.drain_bound();
            assert(model.next(seen).drain_bound() == plain);
            assert(model.next(seen).bound == plain.times(learned.widening(seen.limit)));
            lemma_bound_is_number(learned);
            bound_widens_by_one_growth_at_most(learned, seen.limit);
            crate::binary64::lemma_times_is_monotone(
                plain,
                learned.widening(seen.limit),
                learned.settings.growth,
            );
        }
    }
}

/// The plain bound is a number.
proof fn lemma_bound_is_number(model: DrainModel)
    ensures
        model.drain_bound().is_number(),
{
    lemma_pow2_pos(1074);
    if let (Value::Finite(x), Value::Finite(y)) = (model.fastest, model.settings.max_slowdown) {
        crate::binary64::lemma_ratio_is_number(x * y, Value::one());
    }
    let aim = model.settings.drain_target;
    let whole = Value::of_nat(aim / 1_000_000_000);
    let part = Value::of_nat(aim % 1_000_000_000).over(Value::of_nat(1_000_000_000));
    if let (Value::Finite(x), Value::Finite(y)) = (whole, part) {
        crate::binary64::lemma_ratio_is_number(x + y, 1);
    }
}

} // verus!
