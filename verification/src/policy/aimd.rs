//! Grow slowly, cut quickly, as TCP does.

use vstd::arithmetic::power2::*;
use vstd::prelude::*;

use super::{Diagnostics, Policy};
use crate::binary64::{Binary64, Value};
use crate::sample::{Observation, Sample};
use crate::time::{self, Duration};

verus! {

/// [`Aimd`]'s settings: times in nanoseconds.
pub struct AimdSettings {
    pub floor: nat,
    pub max: nat,
    pub initial: Option<nat>,
    pub increase: nat,
    pub backoff: Value,
    pub max_residence: nat,
    pub tolerance: Value,
}

impl AimdSettings {
    /// What a builder starts from.
    pub open spec fn defaults() -> AimdSettings {
        AimdSettings {
            floor: 1,
            max: 1024,
            initial: None,
            increase: 1,
            backoff: Value::quotient(9, 10),
            max_residence: 10_000_000_000,
            tolerance: Value::zero(),
        }
    }

    /// Settings that a policy can be made of.
    pub open spec fn valid(self) -> bool {
        &&& self.backoff.is_number()
        &&& self.floor > 0
        &&& self.increase > 0
        &&& Value::zero().below(self.backoff) && self.backoff.below(Value::of_nat(1))
        &&& self.tolerance.below(Value::of_nat(1))
    }

    /// The settings as a policy keeps them: a `max` below `floor` is `floor`.
    pub open spec fn kept(self) -> AimdSettings {
        AimdSettings { max: crate::ledger::max(self.max, self.floor), ..self }
    }
}

/// An [`Aimd`] policy's state.
pub struct AimdModel {
    pub settings: AimdSettings,
    pub residence: Value,
    pub released_share: Value,
    pub stalled: nat,
    pub congested: bool,
    pub in_use: bool,
}

impl AimdModel {
    /// A new policy's state.
    pub open spec fn new(settings: AimdSettings) -> AimdModel {
        AimdModel {
            settings: settings.kept(),
            residence: Value::zero(),
            released_share: Value::zero(),
            stalled: 0,
            congested: false,
            in_use: false,
        }
    }

    /// What holds of every state: the settings are in range.
    pub open spec fn sound(self) -> bool {
        self.settings.valid() && self.settings.floor <= self.settings.max
    }

    /// The fraction of the items that left which were released.
    pub open spec fn share_of_released(seen: Observation) -> Value {
        if seen.completed + seen.released == 0 {
            Value::zero()
        } else {
            Value::of_nat(seen.released).over(Value::of_nat(seen.completed + seen.released))
        }
    }

    /// How long items have been inside with none leaving, across samples.
    pub open spec fn stall(self, seen: Observation) -> nat {
        if seen.in_flight > 0 && seen.completed + seen.released == 0 {
            time::shorter(self.stalled + seen.elapsed, time::LONGEST_NANOS as nat)
        } else {
            0
        }
    }

    /// How long items take to go through: none inside take no time, none leaving take as long as
    /// none has left, and else it is those inside divided by how many leave per second.
    pub open spec fn estimate(self, seen: Observation) -> Value {
        if seen.in_flight == 0 {
            Value::zero()
        } else if seen.completed + seen.released == 0 {
            time::seconds(self.stall(seen))
        } else {
            Value::of_nat(seen.in_flight).times(time::seconds(seen.elapsed)).over(
                Value::of_nat(seen.completed + seen.released),
            )
        }
    }

    /// The state after a sample.
    pub open spec fn next(self, seen: Observation) -> AimdModel {
        if seen.elapsed == 0 {
            self
        } else {
            let residence = self.estimate(seen);
            let released_share = AimdModel::share_of_released(seen);
            AimdModel {
                residence,
                released_share,
                stalled: self.stall(seen),
                congested: self.settings.tolerance.below(released_share) || time::seconds(
                    self.settings.max_residence,
                ).below(residence),
                in_use: seen.in_flight * 2 >= seen.limit,
                ..self
            }
        }
    }

    /// Kept between `floor` and `max`.
    pub open spec fn clamped(self, limit: nat) -> nat {
        crate::ledger::min(crate::ledger::max(limit, self.settings.floor), self.settings.max)
    }

    /// The limit to start with.
    pub open spec fn start(self) -> nat {
        self.clamped(
            match self.settings.initial {
                Some(initial) => initial,
                None => self.settings.floor,
            },
        )
    }

    /// The answer to a sample.
    pub open spec fn target(self, seen: Observation) -> nat {
        let next = self.next(seen);
        if seen.elapsed == 0 {
            seen.limit
        } else if next.congested {
            self.clamped(
                Value::of_nat(seen.limit).times(self.settings.backoff).truncated(usize::MAX as nat),
            )
        } else if next.in_use && seen.completed > 0 {
            self.clamped(
                crate::ledger::min(seen.limit + self.settings.increase, usize::MAX as nat),
            )
        } else {
            self.clamped(seen.limit)
        }
    }

    /// What the policy reports about its latest decision.
    pub open spec fn report(self) -> Seq<(Seq<char>, Value)> {
        seq![
            ("residence"@, self.residence),
            ("released_share"@, self.released_share),
            ("congested"@, super::flag(self.congested)),
            ("in_use"@, super::flag(self.in_use)),
        ]
    }
}

/// Raises the limit a little on every good tick, and cuts it by a percentage on every bad one.
///
/// This is the classic rule TCP uses to share a network, known as AIMD (additive increase,
/// multiplicative decrease). It doesn't need an [`IdleProbe`](crate::IdleProbe). It looks only
/// at failures and at how long items take, so it suits pipelines with no single bottleneck.
///
/// # How it decides
///
/// A tick is **bad** if either:
///
/// - more than [`tolerance`] of the items that left were released rather than completed
///   (failures, timeouts), or
/// - items take longer than [`max_residence`] to go through the pipeline. This time is
///   estimated as the number of items inside divided by how many leave per second. If nothing
///   leaves at all, it's the time since items last left, counted across ticks, so a pipeline
///   that is stuck counts as bad once it has been stuck for `max_residence`.
///
/// On a bad tick the limit is multiplied by [`backoff`]. On a good tick where items finished and
/// at least half the limit is in use, [`increase`] is added. Otherwise the limit stays: with
/// less than half in use more room wouldn't be used anyway, and with nothing finishing there's
/// no sign that more work would get through.
///
/// Since it can't see whether a bottleneck is waiting, it keeps pushing the limit up until
/// something goes wrong, then backs off. The limit ends up going up and down in a sawtooth just
/// below the point where trouble starts.
///
/// [`tolerance`]: AimdBuilder::tolerance
/// [`max_residence`]: AimdBuilder::max_residence
/// [`backoff`]: AimdBuilder::backoff
/// [`increase`]: AimdBuilder::increase
///
/// # Diagnostics
///
/// Each decision reports `residence` (estimated seconds an item stays inside), `released_share`
/// (the fraction of leaving items that were released), and `congested` and `in_use` (1 if the
/// tick was bad, or at least half the limit was in use, else 0).
#[derive(Debug, Clone, Copy)]
pub struct Aimd {
    config: AimdBuilder,
    /// the latest decision's inputs, for diagnostics
    residence: Binary64,
    released_share: Binary64,
    /// time items have been inside with none leaving, across ticks
    stalled: Duration,
    congested: bool,
    in_use: bool,
}

/// Sets up an [`Aimd`] policy. Every setting has a default.
#[derive(Debug, Clone, Copy)]
pub struct AimdBuilder {
    floor: usize,
    max: usize,
    initial: Option<usize>,
    increase: usize,
    backoff: Binary64,
    max_residence: Duration,
    tolerance: Binary64,
}

impl View for AimdBuilder {
    type V = AimdSettings;

    closed spec fn view(&self) -> AimdSettings {
        AimdSettings {
            floor: self.floor as nat,
            max: self.max as nat,
            initial: match self.initial {
                Some(initial) => Some(initial as nat),
                None => None,
            },
            increase: self.increase as nat,
            backoff: self.backoff@,
            max_residence: self.max_residence@,
            tolerance: self.tolerance@,
        }
    }
}

impl View for Aimd {
    type V = AimdModel;

    closed spec fn view(&self) -> AimdModel {
        AimdModel {
            settings: self.config@,
            residence: self.residence@,
            released_share: self.released_share@,
            stalled: self.stalled@,
            congested: self.congested,
            in_use: self.in_use,
        }
    }
}

impl AimdBuilder {
    /// The lowest the limit goes. Default: 1.
    pub fn floor(self, floor: usize) -> (r: Self)
        ensures
            r@ == (AimdSettings { floor: floor as nat, ..self@ }),
    {
        Self { floor, ..self }
    }

    /// The highest the limit goes, as a safety cap on memory. Default: 1024.
    ///
    /// If set below `floor`, `floor` is used.
    pub fn max(self, max: usize) -> (r: Self)
        ensures
            r@ == (AimdSettings { max: max as nat, ..self@ }),
    {
        Self { max, ..self }
    }

    /// The limit to start with. Default: `floor`. Kept between `floor` and `max`.
    pub fn initial(self, initial: usize) -> (r: Self)
        ensures
            r@ == (AimdSettings { initial: Some(initial as nat), ..self@ }),
    {
        Self { initial: Some(initial), ..self }
    }

    /// How much the limit grows on each good tick. Default: 1.
    ///
    /// The default grows slowly: with 2-second ticks, going from 10 to 100 takes three
    /// minutes. Raise it if your pipeline needs hundreds of items inside.
    pub fn increase(self, increase: usize) -> (r: Self)
        ensures
            r@ == (AimdSettings { increase: increase as nat, ..self@ }),
    {
        Self { increase, ..self }
    }

    /// What the limit is multiplied by on a bad tick. Default: 0.9, a 10% cut.
    ///
    /// Must be strictly between 0 and 1.
    pub fn backoff(self, backoff: Binary64) -> (r: Self)
        ensures
            r@ == (AimdSettings { backoff: backoff@, ..self@ }),
    {
        Self { backoff, ..self }
    }

    /// How long items may take to go through the pipeline before a tick counts as bad.
    /// Default: 10 seconds.
    pub fn max_residence(self, max_residence: Duration) -> (r: Self)
        ensures
            r@ == (AimdSettings { max_residence: max_residence@, ..self@ }),
    {
        Self { max_residence, ..self }
    }

    /// The fraction of items that may be released, rather than completed, on a good tick.
    /// Default: 0, so any release makes the tick bad.
    ///
    /// At least 0 and below 1. Raise it if some failures are normal, for example 0.05 to
    /// allow 5%.
    pub fn tolerance(self, tolerance: Binary64) -> (r: Self)
        ensures
            r@ == (AimdSettings { tolerance: tolerance@, ..self@ }),
    {
        Self { tolerance, ..self }
    }

    /// Whether the settings are in range: `floor` and `increase` at least 1, `backoff` strictly
    /// between 0 and 1, and `tolerance` below 1.
    pub fn is_valid(&self) -> (r: bool)
        ensures
            r == self@.valid(),
    {
        proof {
            crate::binary64::lemma_is_number(self.backoff);
        }
        let one = Binary64::from_u128(1);
        self.floor > 0 && self.increase > 0 && Binary64::zero().below(self.backoff)
            && self.backoff.below(one) && self.tolerance.below(one)
    }

    /// Create the policy from settings that are in range.
    pub fn build(self) -> (r: Aimd)
        requires
            self@.valid(),
        ensures
            r.wf(),
            r@ == AimdModel::new(self@),
    {
        Aimd::new(
            self.floor,
            self.max,
            self.initial,
            self.increase,
            self.backoff,
            self.max_residence,
            self.tolerance,
        )
    }
}

impl Aimd {
    /// Set up the policy. Every setting has a default, so `Aimd::builder().build()` (or
    /// `Aimd::default()`) works as is.
    pub fn builder() -> (r: AimdBuilder)
        ensures
            r@ == AimdSettings::defaults(),
            r@.valid(),
    {
        let backoff = Binary64::quotient(9, 10);
        proof {
            crate::binary64::lemma_is_number(backoff);
            lemma_defaults();
        }
        AimdBuilder {
            floor: 1,
            max: 1024,
            initial: None,
            increase: 1,
            backoff,
            max_residence: Duration::from_secs(10),
            tolerance: Binary64::zero(),
        }
    }

    /// Create the policy from settings that are in range; [`builder`](Self::builder) has
    /// defaults for them.
    pub fn new(
        floor: usize,
        max: usize,
        initial: Option<usize>,
        increase: usize,
        backoff: Binary64,
        max_residence: Duration,
        tolerance: Binary64,
    ) -> (r: Self)
        requires
            floor > 0,
            increase > 0,
            Value::zero().below(backoff@) && backoff@.below(Value::of_nat(1)),
            tolerance@.below(Value::of_nat(1)),
        ensures
            r.wf(),
            r@ == AimdModel::new(
                AimdSettings {
                    floor: floor as nat,
                    max: max as nat,
                    initial: match initial {
                        Some(initial) => Some(initial as nat),
                        None => None,
                    },
                    increase: increase as nat,
                    backoff: backoff@,
                    max_residence: max_residence@,
                    tolerance: tolerance@,
                },
            ),
    {
        proof {
            crate::binary64::lemma_is_number(backoff);
        }
        Self {
            config: AimdBuilder {
                floor,
                max: if max <= floor {
                    floor
                } else {
                    max
                },
                initial,
                increase,
                backoff,
                max_residence,
                tolerance,
            },
            residence: Binary64::zero(),
            released_share: Binary64::zero(),
            stalled: Duration::zero(),
            congested: false,
            in_use: false,
        }
    }

    /// Keep a limit between `floor` and `max`.
    fn clamp(&self, limit: usize) -> (r: usize)
        ensures
            r == self@.clamped(limit as nat),
    {
        let c = &self.config;
        let raised: usize = if limit <= c.floor {
            c.floor
        } else {
            limit
        };
        if raised <= c.max {
            raised
        } else {
            c.max
        }
    }
}

/// The default settings are in range.
proof fn lemma_defaults()
    requires
        AimdSettings::defaults().backoff.is_number(),
    ensures
        AimdSettings::defaults().valid(),
{
    lemma2_to64();
    assert(9 * pow2(4) == 144);
    crate::binary64::lemma_quotient_between(9, 10, 1, 15, 4);
    crate::binary64::lemma_of_nat_exact(1);
    lemma_pow2_adds(4, 1070);
    lemma_pow2_pos(1070);
}

impl Default for Aimd {
    fn default() -> (r: Self)
        ensures
            r.wf(),
            r@ == AimdModel::new(AimdSettings::defaults()),
    {
        Self::builder().build()
    }
}

impl Policy for Aimd {
    /// The state is sound.
    open spec fn wf(&self) -> bool {
        self@.sound()
    }

    open spec fn starts_with(&self, limit: nat) -> bool {
        limit == self@.start()
    }

    open spec fn can_judge(&self, seen: Observation) -> bool {
        seen.elapsed > 0 ==> seen.completed + seen.released <= u64::MAX
    }

    open spec fn answers(&self, seen: Observation, after: &Self, target: nat) -> bool {
        after@ == self@.next(seen) && target == self@.target(seen)
    }

    fn initial(&self) -> usize {
        match self.config.initial {
            Some(initial) => self.clamp(initial),
            None => self.clamp(self.config.floor),
        }
    }

    fn has_room(&self, sample: &Sample) -> bool {
        sample.elapsed.is_zero() || sample.completed <= u64::MAX - sample.released
    }

    fn decide(&mut self, sample: &Sample) -> usize {
        let limit: usize = sample.limit;
        let elapsed = sample.elapsed.in_seconds();
        if elapsed.at_most(Binary64::zero()) {
            return limit;
        }
        let departed: u64 = sample.completed + sample.released;
        self.released_share = if departed == 0 {
            Binary64::zero()
        } else {
            Binary64::from_u128(sample.released as u128).over(Binary64::from_u128(departed as u128))
        };
        if sample.in_flight == 0 {
            self.stalled = Duration::zero();
            self.residence = Binary64::zero();
        } else if departed == 0 {
            // nothing left: the items inside have been there at least as long as nothing has
            // left, which may span many ticks. Counting only this tick would let a stall
            // longer than `max_residence` go unnoticed when ticks are shorter than it
            self.stalled = self.stalled.saturating_plus(sample.elapsed);
            self.residence = self.stalled.in_seconds();
        } else {
            self.stalled = Duration::zero();
            self.residence = Binary64::from_u128(sample.in_flight as u128).times(elapsed).over(
                Binary64::from_u128(departed as u128),
            );
        }
        self.congested = self.config.tolerance.below(self.released_share)
            || self.config.max_residence.in_seconds().below(self.residence);
        self.in_use = sample.in_flight as u128 * 2 >= limit as u128;
        if self.congested {
            let cut = Binary64::from_u128(limit as u128).times(self.config.backoff).truncated();
            self.clamp(cut)
        } else if self.in_use && sample.completed > 0 {
            // growth needs items finishing now: a tick where nothing left (the start of a
            // stall) or everything failed within `tolerance` is no evidence of room
            self.clamp(limit.saturating_add(self.config.increase))
        } else {
            self.clamp(limit)
        }
    }

    fn diagnostics(&self) -> (r: Diagnostics)
        ensures
            r@ == self@.report(),
    {
        let mut d = Diagnostics::new();
        d.push("residence", self.residence);
        d.push("released_share", self.released_share);
        d.push("congested", super::flag_value(self.congested));
        d.push("in_use", super::flag_value(self.in_use));
        assert(d@ =~= self@.report());
        d
    }
}

/// A policy stays sound, and keeps its settings, whatever it is shown.
pub proof fn aimd_stays_sound(model: AimdModel, seen: Observation)
    requires
        model.sound(),
    ensures
        model.next(seen).sound(),
        model.next(seen).settings == model.settings,
{
}

/// The same samples always give the same answers, and leave the same state.
pub proof fn aimd_answers_repeat(
    one: Aimd,
    other: Aimd,
    seen: Observation,
    one_after: Aimd,
    other_after: Aimd,
    one_target: nat,
    other_target: nat,
)
    requires
        one@ == other@,
        one.answers(seen, &one_after, one_target),
        other.answers(seen, &other_after, other_target),
    ensures
        one_after@ == other_after@,
        one_target == other_target,
{
}

/// The limit stays between `floor` and `max`, from the start on.
pub proof fn aimd_limit_stays_in_range(model: AimdModel, seen: Observation)
    requires
        model.sound(),
        seen.elapsed > 0,
    ensures
        model.settings.floor <= model.start() <= model.settings.max,
        model.settings.floor <= model.target(seen) <= model.settings.max,
{
}

/// If no time has passed the limit stays, and so does the state.
pub proof fn aimd_no_time_no_change(model: AimdModel, seen: Observation)
    requires
        seen.elapsed == 0,
    ensures
        model.target(seen) == seen.limit,
        model.next(seen) == model,
{
}

/// Every bad tick cuts the limit: it is multiplied by `backoff` and is then less than before, unless
/// that is less than `floor`.
pub proof fn bad_tick_cuts(model: AimdModel, seen: Observation)
    requires
        model.sound(),
        seen.elapsed > 0,
        0 < seen.limit <= usize::MAX,
        model.next(seen).congested,
    ensures
        model.target(seen) == model.clamped(
            Value::of_nat(seen.limit).times(model.settings.backoff).truncated(usize::MAX as nat),
        ),
        model.target(seen) < seen.limit || model.target(seen) == model.settings.floor,
{
    crate::binary64::lemma_backoff_lowers(
        seen.limit,
        model.settings.backoff,
        usize::MAX as nat,
    );
}

/// On a good tick where items finished and at least half the limit is in use, `increase` is
/// added.
pub proof fn good_tick_adds_increase(model: AimdModel, seen: Observation)
    requires
        model.sound(),
        seen.elapsed > 0,
        !model.next(seen).congested,
        seen.in_flight * 2 >= seen.limit,
        seen.completed > 0,
        model.settings.floor <= seen.limit,
        seen.limit + model.settings.increase <= model.settings.max,
        model.settings.max <= usize::MAX,
    ensures
        model.target(seen) == seen.limit + model.settings.increase,
{
}

/// On a good tick where nothing finished, or less than half the limit is in use, the limit stays.
pub proof fn idle_tick_keeps_the_limit(model: AimdModel, seen: Observation)
    requires
        seen.elapsed > 0,
        !model.next(seen).congested,
        seen.in_flight * 2 < seen.limit || seen.completed == 0,
    ensures
        model.target(seen) == model.clamped(seen.limit),
{
}

/// A tick is bad exactly if more than `tolerance` of the items that left were released, or items
/// take longer than `max_residence`.
pub proof fn what_makes_a_tick_bad(model: AimdModel, seen: Observation)
    requires
        seen.elapsed > 0,
    ensures
        model.next(seen).congested <==> model.settings.tolerance.below(
            AimdModel::share_of_released(seen),
        ) || time::seconds(model.settings.max_residence).below(model.estimate(seen)),
{
}

/// Without any tolerance, a single release makes a tick bad.
pub proof fn any_release_is_bad_without_tolerance(model: AimdModel, seen: Observation)
    requires
        model.settings.tolerance == Value::zero(),
        seen.elapsed > 0,
        seen.released > 0,
        seen.completed + seen.released <= u64::MAX,
    ensures
        model.next(seen).congested,
{
    let one = Value::one();
    lemma_pow2_pos(1074);
    lemma2_to64();
    crate::binary64::lemma_of_nat_bounds(seen.released);
    crate::binary64::lemma_of_nat_bounds(seen.completed + seen.released);
    let x = Value::of_nat(seen.released)->Finite_0;
    let y = Value::of_nat(seen.completed + seen.released)->Finite_0;
    lemma_pow2_strictly_increases(1202, 2148);
    lemma_pow2_adds(1074, 1074);
    assert(((1 * pow2(0)) * 1) * y <= (x * one) * 1) by (nonlinear_arith)
        requires
            x >= one,
            y <= one * one,
            pow2(0) == 1,
    ;
    crate::rounding::rounding_is_exact(1, 0, 1);
    crate::rounding::rounding_is_monotone((1 * pow2(0)) * 1, 1, x * one, y);
}

/// While items are inside and none leaves, the time adds up across ticks, and it is what counts
/// as the time that items take.
pub proof fn stall_adds_up(model: AimdModel, seen: Observation)
    requires
        seen.elapsed > 0,
        seen.in_flight > 0,
        seen.completed + seen.released == 0,
        model.stalled + seen.elapsed <= time::LONGEST_NANOS,
    ensures
        model.next(seen).stalled == model.stalled + seen.elapsed,
        model.next(seen).residence == time::seconds(model.stalled + seen.elapsed),
{
}

/// A stall is not bad before it has lasted for longer than `max_residence`.
pub proof fn short_stall_is_not_bad(model: AimdModel, seen: Observation)
    requires
        seen.elapsed > 0,
        seen.in_flight > 0,
        seen.completed + seen.released == 0,
        model.stalled + seen.elapsed <= model.settings.max_residence,
        model.settings.max_residence <= time::LONGEST_NANOS,
    ensures
        !model.next(seen).congested,
{
    time::longer_is_more_seconds(model.stalled + seen.elapsed, model.settings.max_residence);
}

/// A stall is bad once it has lasted for longer than `max_residence`, by as much as their seconds
/// tell apart.
pub proof fn long_stall_is_bad(model: AimdModel, seen: Observation)
    requires
        seen.elapsed > 0,
        seen.in_flight > 0,
        seen.completed + seen.released == 0,
        model.stalled + seen.elapsed <= time::LONGEST_NANOS,
        time::seconds(model.settings.max_residence).below(
            time::seconds(model.stalled + seen.elapsed),
        ),
    ensures
        model.next(seen).congested,
{
}

/// A tick in which an item leaves, or none is inside, ends a stall.
pub proof fn leaving_ends_a_stall(model: AimdModel, seen: Observation)
    requires
        seen.elapsed > 0,
        seen.in_flight == 0 || seen.completed + seen.released > 0,
    ensures
        model.next(seen).stalled == 0,
{
}

/// When some items are inside and some left, the time a tick is judged by is the number inside
/// divided by how many left per second, finished or not, but for rounding. With none inside it is
/// zero.
pub proof fn aimd_residence_is_items_inside_by_rate(model: AimdModel, seen: Observation)
    requires
        0 < seen.elapsed <= time::LONGEST_NANOS,
        seen.in_flight <= u64::MAX,
        seen.completed + seen.released <= u64::MAX,
    ensures
        seen.in_flight == 0 ==> model.next(seen).residence == Value::Finite(0),
        seen.in_flight > 0 && seen.completed + seen.released > 0 ==> model.next(
            seen,
        ).residence.about(
            seen.in_flight * seen.elapsed,
            1_000_000_000 * (seen.completed + seen.released),
        ),
{
    let left = seen.completed + seen.released;
    if seen.in_flight > 0 && left > 0 {
        let giga: nat = 1_000_000_000;
        let (x, y, z) = (
            Value::of_nat(seen.in_flight),
            time::seconds(seen.elapsed),
            Value::of_nat(left),
        );
        crate::nearly::lemma_near_of_nat(seen.in_flight);
        crate::nearly::lemma_near_of_nat(left);
        crate::nearly::lemma_near_seconds(seen.elapsed);
        let k: nat = 0x4000_0000_0000;
        let less: nat = 0x400_0000_0000;
        let one = Value::one();
        crate::nearly::lemma_near_looser(
            x->Finite_0 * 1,
            seen.in_flight * one,
            0x10_0000_0000_0000,
            16 * k,
        );
        crate::nearly::lemma_near_times(
            x,
            seen.in_flight,
            1,
            y,
            seen.elapsed,
            giga,
            k,
            1074,
            1202,
            946,
            1203,
        );
        crate::nearly::lemma_near_looser(
            z->Finite_0 * 1,
            left * one,
            0x10_0000_0000_0000,
            16 * less,
        );
        crate::nearly::lemma_near_over(
            x.times(y),
            seen.in_flight * seen.elapsed,
            1 * giga,
            z,
            left,
            1,
            less,
            946,
            1331,
            1074,
            1202,
        );
        let n = seen.in_flight * seen.elapsed;
        assert(n * 1 == n && (1 * giga) * left == giga * left);
        crate::nearly::lemma_about(x.times(y).over(z), n, giga * left, less);
    }
}

/// It makes no difference to the time a tick is judged by whether items finished or were released:
/// only how many left counts.
pub proof fn aimd_residence_counts_all_that_left(
    model: AimdModel,
    one: Observation,
    other: Observation,
)
    requires
        one.elapsed == other.elapsed,
        one.in_flight == other.in_flight,
        one.completed + one.released == other.completed + other.released,
    ensures
        model.next(one).residence == model.next(other).residence,
        model.next(one).stalled == model.next(other).stalled,
{
}

/// The share of released items is those released by all that left, but for rounding, and zero if
/// none was released.
pub proof fn released_share_is_released_by_left(model: AimdModel, seen: Observation)
    requires
        seen.elapsed > 0,
        seen.completed + seen.released <= u64::MAX,
    ensures
        seen.released == 0 ==> model.next(seen).released_share == Value::Finite(0),
        seen.released > 0 ==> model.next(seen).released_share.about(
            seen.released,
            seen.completed + seen.released,
        ),
{
    let left = seen.completed + seen.released;
    if left > 0 {
        let (x, y) = (Value::of_nat(seen.released), Value::of_nat(left));
        crate::nearly::lemma_near_of_nat(left);
        lemma_pow2_pos(1074);
        if seen.released == 0 {
            crate::binary64::lemma_of_nat_bounds(0);
            assert(0 * Value::one() == 0);
            crate::rounding::lemma_rounded_tiny(0, y->Finite_0);
            lemma_pow2_pos(2098);
        } else {
            let k: nat = 0x1_0000_0000_0000;
            crate::nearly::lemma_near_of_nat(seen.released);
            crate::nearly::lemma_near_over(
                x,
                seen.released,
                1,
                y,
                left,
                1,
                k,
                1074,
                1202,
                1074,
                1202,
            );
            assert(seen.released * 1 == seen.released && 1 * left == left);
            crate::nearly::lemma_about(x.over(y), seen.released, left, k);
        }
    }
}

/// A tick is bad exactly if its share of released items is above `tolerance`, or the time it is
/// judged by is longer than `max_residence`, and at least half the limit is in use exactly if twice
/// as many as inside reach it.
pub proof fn aimd_judges_by_share_and_residence(model: AimdModel, seen: Observation)
    requires
        seen.elapsed > 0,
    ensures
        ({
            let after = model.next(seen);
            &&& after.congested <==> !after.released_share.at_most(model.settings.tolerance)
                || !after.residence.at_most(time::seconds(model.settings.max_residence))
            &&& after.in_use <==> seen.limit <= 2 * seen.in_flight
            &&& after.settings == model.settings
        }),
{
}

/// While items are inside and none leaves, the time a tick is judged by is all the time that this
/// has lasted, but for rounding.
pub proof fn aimd_stall_is_time_without_departures(model: AimdModel, seen: Observation)
    requires
        seen.elapsed > 0,
        seen.in_flight > 0,
        seen.completed == 0,
        seen.released == 0,
        model.stalled + seen.elapsed <= time::LONGEST_NANOS,
    ensures
        model.next(seen).stalled == model.stalled + seen.elapsed,
        model.next(seen).residence.about(model.stalled + seen.elapsed, 1_000_000_000),
{
    let stalled = model.stalled + seen.elapsed;
    crate::nearly::lemma_near_seconds(stalled);
    crate::nearly::lemma_about(
        time::seconds(stalled),
        stalled,
        1_000_000_000,
        0x4_0000_0000_0000,
    );
}

/// What a bad tick leaves of the limit is the largest whole number not above the limit times
/// `backoff`, but for rounding, unless that is outside `floor` and `max`.
pub proof fn bad_tick_multiplies_by_backoff(model: AimdModel, seen: Observation)
    requires
        model.sound(),
        seen.elapsed > 0,
        0 < seen.limit <= usize::MAX,
        model.next(seen).congested,
        crate::nearly::between(model.settings.backoff, 500, 1074),
    ensures
        ({
            let (target, k) = (model.target(seen), crate::nearly::parts());
            let exact = seen.limit * model.settings.backoff->Finite_0;
            &&& model.settings.floor <= target <= model.settings.max
            &&& target > model.settings.floor ==> (target * Value::one()) * k <= exact * (k + 1)
            &&& target < model.settings.max ==> exact * k < ((target + 1) * Value::one()) * (k + 1)
        }),
{
    let one = Value::one();
    let x = Value::of_nat(seen.limit);
    let b = model.settings.backoff;
    let (k, parts) = (0x1_0000_0000_0000nat, crate::nearly::parts());
    crate::nearly::lemma_near_of_nat(seen.limit);
    crate::nearly::lemma_near_same(b->Finite_0 * one, 16 * k);
    crate::nearly::lemma_near_times(x, seen.limit, 1, b, b->Finite_0, one, k, 1074, 1202, 500, 1074);
    let p = x.times(b)->Finite_0;
    let exact = seen.limit * b->Finite_0;
    lemma_pow2_pos(1074);
    assert(1 * one == one);
    crate::nearly::lemma_near_cancels(p, exact, one, k);
    crate::nearly::lemma_near_looser(p, exact, k, parts);
    crate::binary64::lemma_backoff_lowers(seen.limit, b, usize::MAX as nat);
    let whole = p / one;
    vstd::arithmetic::div_mod::lemma_fundamental_div_mod(p as int, one as int);
    let target = model.target(seen);
    assert(whole * one <= p && p < (whole + 1) * one) by (nonlinear_arith)
        requires
            p == one * whole + p % one,
            0 <= p % one < one,
    ;
    if target > model.settings.floor {
        assert((target * one) * parts <= exact * (parts + 1)) by (nonlinear_arith)
            requires
                target <= whole,
                whole * one <= p,
                p * parts <= exact * (parts + 1),
        ;
    }
    if target < model.settings.max {
        assert(exact * parts < ((target + 1) * one) * (parts + 1)) by (nonlinear_arith)
            requires
                whole <= target,
                p < (whole + 1) * one,
                exact * parts <= p * (parts + 1),
        ;
    }
}

/// On a good tick the limit goes up by `increase` if items finished and at least half of it is in
/// use, and else stays, in both cases within `floor` and `max`.
pub proof fn good_tick_adds_or_keeps(model: AimdModel, seen: Observation)
    requires
        model.sound(),
        model.settings.max <= usize::MAX,
        seen.elapsed > 0,
        !model.next(seen).congested,
    ensures
        ({
            let (target, floor, max) = (
                model.target(seen),
                model.settings.floor,
                model.settings.max,
            );
            let wanted = if seen.completed > 0 && seen.limit <= 2 * seen.in_flight {
                seen.limit + model.settings.increase
            } else {
                seen.limit
            };
            &&& floor <= wanted <= max ==> target == wanted
            &&& wanted < floor ==> target == floor
            &&& max < wanted ==> target == max
        }),
{
}

/// A policy starts with `initial` if that is within `floor` and `max`, and else with the nearer of
/// the two; without `initial`, with `floor`. A `max` below `floor` is `floor`.
pub proof fn aimd_starts_in_range(settings: AimdSettings)
    ensures
        ({
            let start = AimdModel::new(settings).start();
            let max = if settings.max < settings.floor {
                settings.floor
            } else {
                settings.max
            };
            match settings.initial {
                None => start == settings.floor,
                Some(initial) => {
                    &&& initial < settings.floor ==> start == settings.floor
                    &&& settings.floor <= initial <= max ==> start == initial
                    &&& max < initial ==> start == max
                },
            }
        }),
        AimdModel::new(settings).stalled == 0,
{
}

/// Which settings a policy can be made of, and which it starts from.
pub proof fn aimd_settings_in_range(settings: AimdSettings)
    requires
        settings.backoff.is_number(),
    ensures
        settings.valid() <==> {
            &&& settings.floor >= 1
            &&& settings.increase >= 1
            &&& settings.backoff is Finite && 0 < settings.backoff->Finite_0 < Value::one()
            &&& settings.tolerance is Finite && settings.tolerance->Finite_0 < Value::one()
        },
        ({
            let defaults = AimdSettings::defaults();
            &&& defaults.floor == 1 && defaults.max == 1024 && defaults.initial is None
            &&& defaults.increase == 1 && defaults.max_residence == 10_000_000_000
            &&& defaults.tolerance == Value::Finite(0)
            &&& defaults.backoff == Value::of_nat(9).over(Value::of_nat(10))
        }),
{
    lemma_pow2_pos(1074);
    crate::binary64::lemma_of_nat_exact(1);
}

/// What an answer is: it is the model's target, and leaves the policy in the model's next state. A
/// policy can judge every sample whose counts of items that left fit together, and any of no time.
pub proof fn aimd_answers_as_modelled(
    policy: Aimd,
    seen: Observation,
    after: Aimd,
    target: nat,
    start: nat,
)
    requires
        policy.answers(seen, &after, target),
        policy.starts_with(start),
    ensures
        target == policy@.target(seen),
        after@ == policy@.next(seen),
        start == policy@.start(),
        policy.can_judge(seen) <==> seen.elapsed == 0 || seen.completed + seen.released <= u64::MAX,
{
}

/// Each name is reported with its value.
pub proof fn aimd_reports_what_it_saw(model: AimdModel)
    ensures
        model.report().len() == 4,
        model.report()[0] == ("residence"@, model.residence),
        model.report()[1] == ("released_share"@, model.released_share),
        model.report()[2].0 == "congested"@,
        model.report()[2].1 == Value::Finite(if model.congested { Value::one() } else { 0 }),
        model.report()[3].0 == "in_use"@,
        model.report()[3].1 == Value::Finite(if model.in_use { Value::one() } else { 0 }),
{
    crate::binary64::lemma_of_nat_exact(1);
    crate::binary64::lemma_of_nat_exact(0);
}

} // verus!
