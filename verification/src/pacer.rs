//! The pacer, which adjusts the `Gate`'s limit.

use tokio::sync::Notify;
use vstd::prelude::*;

use crate::bell::Bell;
use crate::gate::Gate;
use crate::ledger::Ledger;
use crate::policy::{Diagnostics, Policy};
use crate::sample::{self, IdleTimes, Observation, Sample, Sampler, Totals};
use crate::time::{Duration, Instant};

verus! {

/// Adjusts a [`Gate`]'s limit at a regular interval, as its [`Policy`] decides.
///
/// Every *tick* (2 seconds by default), the pacer looks at how many items finished, how many
/// are inside and how long the bottleneck waited. It passes all that to the policy as a
/// [`Sample`] and sets the `Gate`'s limit to the policy's answer.
///
/// Call [`step`](Self::step) on your own timer, with the `Gate` that the pacer was built for.
#[derive(Debug)]
pub struct Pacer<P: Policy> {
    policy: P,
    tick: Duration,
    sampler: Sampler,
    /// of the `Gate` that it was built for
    bell: Bell,
}

/// Sets up a [`Pacer`].
#[derive(Debug)]
pub struct PacerBuilder<P: Policy> {
    policy: P,
    tick: Duration,
}

impl<P: Policy> PacerBuilder<P> {
    /// The policy to decide with.
    pub closed spec fn policy(self) -> P {
        self.policy
    }

    /// The time between decisions, in nanoseconds.
    pub closed spec fn interval(self) -> nat {
        self.tick@
    }

    /// How often the pacer decides. Default: 2 seconds.
    ///
    /// Shorter ticks react faster but judge from fewer finished items. A tick should
    /// comfortably cover a few batches going through the bottleneck.
    pub fn tick(self, tick: Duration) -> (r: Self)
        ensures
            r.policy() == self.policy(),
            r.interval() == tick@,
    {
        Self { policy: self.policy, tick }
    }

    /// Create the pacer, and set the `Gate`'s limit to the policy's starting value.
    pub fn build(self, gate: &mut Gate) -> (r: Pacer<P>)
        requires
            old(gate).wf(),
            self.policy().wf(),
            self.interval() > 0,
        ensures
            final(gate).wf(),
            exists|start: usize|
                {
                    &&& #[trigger] self.policy().starts_with(start as nat)
                    &&& final(gate)@ == old(gate)@.resized(start as nat)
                },
            r.wf(),
            r.deciding() == self.policy(),
            r.interval() == self.interval(),
            r.totals() is None,
            r.home() == final(gate)@.bell,
    {
        Pacer::new(gate, self.policy, self.tick)
    }
}

impl<P: Policy> Pacer<P> {
    /// The policy as it is now.
    pub closed spec fn deciding(self) -> P {
        self.policy
    }

    /// The time between decisions, in nanoseconds.
    pub closed spec fn interval(self) -> nat {
        self.tick@
    }

    /// The totals that the next sample starts from.
    pub closed spec fn totals(self) -> Option<Totals> {
        self.sampler@
    }

    /// The bell of the `Gate` that it was built for.
    pub closed spec fn home(self) -> Notify {
        self.bell@
    }

    /// The policy is in order, and there is time between decisions.
    pub open spec fn wf(self) -> bool {
        self.deciding().wf() && self.interval() > 0
    }

    /// What a step with the given totals hands to the policy.
    pub open spec fn sees(self, gate: Ledger, idle: Seq<nat>, now: int) -> Option<Observation> {
        sample::sampled(self.totals(), Totals::read(gate, idle, now), gate).1
    }

    /// Whether a step can be made: it is for the `Gate` that the pacer was built for, no count has
    /// gone backwards, and the policy's counters have room for the sample.
    pub open spec fn steps(self, gate: Ledger, idle: Seq<nat>, now: int) -> bool {
        &&& gate.bell == self.home()
        &&& sample::can_sample(self.totals(), Totals::read(gate, idle, now))
        &&& match self.sees(gate, idle, now) {
            Some(seen) => self.deciding().can_judge(seen),
            None => true,
        }
    }

    /// Set up a pacer that adjusts a gate using `policy`.
    pub fn builder(policy: P) -> (r: PacerBuilder<P>)
        ensures
            r.policy() == policy,
            r.interval() == 2_000_000_000,
    {
        PacerBuilder { policy, tick: Duration::from_secs(2) }
    }

    /// Create a pacer that decides every `tick`, and set the `Gate`'s limit to the policy's starting
    /// value.
    pub fn new(gate: &mut Gate, policy: P, tick: Duration) -> (r: Self)
        requires
            old(gate).wf(),
            policy.wf(),
            tick@ > 0,
        ensures
            final(gate).wf(),
            exists|start: usize|
                {
                    &&& #[trigger] policy.starts_with(start as nat)
                    &&& final(gate)@ == old(gate)@.resized(start as nat)
                },
            r.wf(),
            r.deciding() == policy,
            r.interval() == tick@,
            r.totals() is None,
            r.home() == final(gate)@.bell,
    {
        gate.resize(policy.initial());
        Self { policy, tick, sampler: Sampler::new(), bell: gate.bell().clone() }
    }

    /// The policy, for example to read its current state.
    pub fn policy(&self) -> (r: &P)
        ensures
            *r == self.deciding(),
    {
        &self.policy
    }

    /// The time between decisions.
    pub fn tick(&self) -> (r: Duration)
        ensures
            r@ == self.interval(),
    {
        self.tick
    }

    /// Whether a [`step`](Self::step) can be made now.
    pub fn can_step(&self, gate: &Gate, idle: &IdleTimes, now: Instant) -> (r: bool)
        requires
            self.wf(),
        ensures
            r == self.steps(gate@, idle@, now@),
    {
        if !self.bell.same(gate.bell()) {
            return false;
        }
        if !self.sampler.can_sample(gate, now) {
            assert(!sample::can_sample(self.totals(), Totals::read(gate@, idle@, now@)));
            return false;
        }
        assert(sample::can_sample(self.totals(), Totals::read(gate@, idle@, now@)));
        match self.sampler.peek(gate, idle, now) {
            Some(sample) => self.policy.has_room(&sample),
            None => true,
        }
    }

    /// Run one tick: look at the `Gate` and the probes, ask the policy, set the new limit.
    ///
    /// Call it at regular intervals, passing the current time as `now`, and each probe's total
    /// idle time as `idle`. Any clock works, as long as every call uses the same one.
    ///
    /// Returns `None` on the first call, which only records a starting point, and when `now`
    /// is not after the previous call's, since no time has passed to judge.
    pub fn step(&mut self, gate: &mut Gate, idle: IdleTimes, now: Instant) -> (r: Option<Decision>)
        requires
            old(self).wf(),
            old(gate).wf(),
            old(self).steps(old(gate)@, idle@, now@),
        ensures
            final(self).wf(),
            final(gate).wf(),
            final(self).interval() == old(self).interval(),
            final(self).home() == old(self).home(),
            final(self).totals() == sample::sampled(
                old(self).totals(),
                Totals::read(old(gate)@, idle@, now@),
                old(gate)@,
            ).0,
            match old(self).sees(old(gate)@, idle@, now@) {
                None => {
                    &&& r is None
                    &&& final(self).deciding() == old(self).deciding()
                    &&& final(gate)@ == old(gate)@
                },
                Some(seen) => {
                    &&& r is Some
                    &&& r->0.limit == seen.limit
                    &&& r->0.target == final(gate)@.limit
                    &&& r->0.sample@ == seen
                    &&& exists|asked: usize|
                        {
                            &&& #[trigger] old(self).deciding().answers(
                                seen,
                                &final(self).deciding(),
                                asked as nat,
                            )
                            &&& final(gate)@ == old(gate)@.resized(asked as nat)
                        }
                    &&& call_ensures(
                        P::diagnostics,
                        (&final(self).deciding(),),
                        r->0.diagnostics,
                    )
                },
            },
    {
        let sample = match self.sampler.sample(gate, idle, now) {
            Some(sample) => sample,
            None => {
                return None;
            },
        };
        let ghost seen = sample@;
        let asked = self.policy.decide(&sample);
        assert(old(self).deciding().answers(seen, &self.deciding(), asked as nat));
        gate.resize(asked);
        let diagnostics = self.policy.diagnostics();
        assert(call_ensures(P::diagnostics, (&self.policy,), diagnostics));
        Some(
            Decision {
                limit: sample.limit,
                // what the `Gate` applied, which caps what the policy asked for
                target: gate.limit(),
                sample,
                diagnostics,
            },
        )
    }
}

/// What the pacer decided on one tick, and why.
#[derive(Debug)]
#[non_exhaustive]
pub struct Decision {
    /// The limit before this decision.
    pub limit: usize,
    /// The limit from now on. This can differ from what the policy asked for if the `Gate` had to
    /// cap it.
    pub target: usize,
    /// The data the policy decided from.
    pub sample: Sample,
    /// The policy's own explanation of the decision.
    pub diagnostics: Diagnostics,
}

impl Clone for Decision {
    fn clone(&self) -> (r: Self)
        ensures
            r.limit == self.limit,
            r.target == self.target,
            r.sample@ == self.sample@,
            r.diagnostics@ == self.diagnostics@,
    {
        Self {
            limit: self.limit,
            target: self.target,
            sample: self.sample.clone(),
            diagnostics: self.diagnostics.clone(),
        }
    }
}

/// What a step hands to the policy: nothing if it is the first or no time has passed, and else all
/// that happened since the step before, all that is inside and the limit.
pub proof fn steps_show_what_happened_since<P: Policy>(
    pacer: Pacer<P>,
    gate: Ledger,
    idle: Seq<nat>,
    now: int,
)
    ensures
        pacer.sees(gate, idle, now) is None <==> pacer.totals() is None || now
            <= pacer.totals()->0.at,
        pacer.steps(gate, idle, now) && pacer.sees(gate, idle, now) is Some ==> {
            let (last, seen) = (pacer.totals()->0, pacer.sees(gate, idle, now)->0);
            &&& gate.bell == pacer.home() && pacer.deciding().can_judge(seen)
            &&& seen.at == now && last.at + seen.elapsed == now
            &&& last.completed + seen.completed == gate.completed
            &&& last.released + seen.released == gate.released
            &&& seen.in_flight == gate.held && seen.limit == gate.limit
            &&& idle.len() == last.idle.len() ==> seen.idle.len() == idle.len()
            &&& forall|i: int|
                0 <= i < seen.idle.len() && last.idle[i] <= idle[i] ==> last.idle[i]
                    + #[trigger] seen.idle[i] == idle[i]
        },
        pacer.sees(gate, idle, now) is None ==> (pacer.steps(gate, idle, now) <==> gate.bell
            == pacer.home()),
{
}

} // verus!
