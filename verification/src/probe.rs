//! Measuring how long the bottleneck waits for input.

use vstd::prelude::*;

use crate::time::{self, Duration, Instant};

verus! {

/// What a probe has recorded.
pub struct IdleModel {
    /// finished idle time
    pub total: nat,
    /// when the current idle period began
    pub since: Option<int>,
    /// workers waiting for input
    pub waiting: nat,
}

impl IdleModel {
    /// Nothing recorded yet.
    pub open spec fn new() -> IdleModel {
        IdleModel { total: 0, since: None, waiting: 0 }
    }

    /// After one more worker started to wait.
    pub open spec fn started(self, now: int) -> IdleModel {
        IdleModel {
            since: match self.since {
                Some(since) => Some(since),
                None => Some(now),
            },
            waiting: self.waiting + 1,
            ..self
        }
    }

    /// After one worker stopped waiting. The idle period ends with the last one.
    pub open spec fn ended(self, now: int) -> IdleModel {
        if self.waiting > 1 {
            IdleModel { waiting: (self.waiting - 1) as nat, ..self }
        } else {
            IdleModel { total: self.read(now), since: None, waiting: 0 }
        }
    }

    /// The time idle so far, including a wait still going on.
    pub open spec fn read(self, now: int) -> nat {
        match self.since {
            Some(since) => self.total + time::since(now, since),
            None => self.total,
        }
    }

    /// A period is going on exactly while some worker waits.
    pub open spec fn wf(self) -> bool {
        self.since is Some <==> self.waiting > 0
    }
}

/// Measures how long a stage spends waiting for input.
///
/// Put one on the bottleneck, the slowest stage (for example the loop feeding a GPU), and mark
/// every wait for its next input with [`start`](Self::start) and [`end`](Self::end).
///
/// The [`Pacer`](crate::Pacer) reads the probe regularly. If the bottleneck waits for input
/// while the `Gate` is full, the pipeline doesn't let enough work in, and the limit should go up.
///
/// The probe only sees the stage it is on. If a slower stage comes after it, with a buffer in
/// between that holds more items than the `Gate` lets in, this stage waits while that queue
/// grows, and the probe reports hunger that more items won't fix. Put the probe on that slower
/// stage instead, or keep the buffers after the probed stage small, so a slow stage behind it
/// holds it up rather than leaving it idle.
///
/// When several workers run the same stage, let them share one probe. The stage counts as idle
/// whenever at least one of them is waiting, since one worker with nothing to do is already
/// wasted capacity.
#[derive(Debug)]
pub struct IdleProbe {
    total: Duration,
    since: Option<Instant>,
    waiting: usize,
}

impl View for IdleProbe {
    type V = IdleModel;

    closed spec fn view(&self) -> IdleModel {
        IdleModel {
            total: self.total@,
            since: match self.since {
                Some(at) => Some(at@),
                None => None,
            },
            waiting: self.waiting as nat,
        }
    }
}

impl Default for IdleProbe {
    fn default() -> (r: Self)
        ensures
            r@ == IdleModel::new(),
            r@.wf(),
    {
        Self::new()
    }
}

impl IdleProbe {
    #[verifier::type_invariant]
    spec fn consistent(self) -> bool {
        self@.wf()
    }

    /// Create a probe with no idle time recorded yet.
    pub fn new() -> (r: Self)
        ensures
            r@ == IdleModel::new(),
            r@.wf(),
    {
        Self { total: Duration::zero(), since: None, waiting: 0 }
    }

    /// Mark that a worker started waiting for input.
    ///
    /// Every call needs a matching [`end`](Self::end).
    pub fn start(&mut self, now: Instant)
        requires
            old(self)@.waiting < usize::MAX,
        ensures
            final(self)@ == old(self)@.started(now@),
            old(self)@.wf(),
            final(self)@.wf(),
    {
        proof {
            use_type_invariant(&*self);
        }
        let since: Instant = match self.since {
            Some(since) => since,
            None => now,
        };
        *self = Self { total: self.total, since: Some(since), waiting: self.waiting + 1 };
    }

    /// Mark that a worker stopped waiting for input. Does nothing if no worker was waiting.
    pub fn end(&mut self, now: Instant)
        requires
            old(self)@.waiting <= 1 ==> old(self)@.read(now@) <= time::LONGEST_NANOS,
        ensures
            final(self)@ == old(self)@.ended(now@),
            old(self)@.wf(),
            final(self)@.wf(),
    {
        proof {
            use_type_invariant(&*self);
        }
        let waiting: usize = self.waiting.saturating_sub(1);
        if waiting == 0 {
            *self = Self { total: self.total(now), since: None, waiting: 0 };
        } else {
            *self = Self { total: self.total, since: self.since, waiting };
        }
    }

    /// How many workers wait for input.
    pub fn waiting(&self) -> (r: usize)
        ensures
            r == self@.waiting,
            self@.wf(),
    {
        proof {
            use_type_invariant(self);
        }
        self.waiting
    }

    /// Whether a duration can be as long as the stage has been idle so far.
    pub fn can_read(&self, now: Instant) -> (r: bool)
        ensures
            r == (self@.read(now@) <= time::LONGEST_NANOS),
            self@.wf(),
    {
        proof {
            use_type_invariant(self);
        }
        match self.since {
            Some(since) => now.saturating_duration_since(since).as_nanos()
                <= time::LONGEST_NANOS - self.total.as_nanos(),
            None => self.total.as_nanos() <= time::LONGEST_NANOS,
        }
    }

    /// Total time the stage has been idle so far, including a wait still going on.
    pub fn total(&self, now: Instant) -> (r: Duration)
        requires
            self@.read(now@) <= time::LONGEST_NANOS,
        ensures
            r@ == self@.read(now@),
            self@.wf(),
    {
        proof {
            use_type_invariant(self);
        }
        match self.since {
            Some(since) => self.total.plus(now.saturating_duration_since(since)),
            None => self.total,
        }
    }
}

/// A stage without a worker waiting stays as it is when one more wait is marked as over.
pub proof fn unmatched_end_does_nothing(probe: IdleModel, now: int)
    requires
        probe.wf(),
        probe.waiting == 0,
    ensures
        probe.ended(now) == probe,
{
}

/// Readings never go backwards, neither as time passes nor as waits start and end.
pub proof fn readings_never_go_backwards(probe: IdleModel, now: int, later: int)
    requires
        probe.wf(),
        now <= later,
    ensures
        probe.read(now) <= probe.read(later),
        probe.started(now).read(now) == probe.read(now),
        probe.ended(now).read(now) == probe.read(now),
        probe.read(now) <= probe.started(now).read(later),
        probe.read(now) <= probe.ended(now).read(later),
{
}

/// The stage is idle while at least one worker waits: waits that overlap count once, from the
/// first start to the last end.
pub proof fn overlapping_waits_count_once(probe: IdleModel, a: int, b: int, c: int, d: int)
    requires
        probe.wf(),
        probe.waiting == 0,
        a <= b <= c <= d,
    ensures
        probe.started(a).started(b).ended(c).ended(d) == (IdleModel {
            total: probe.total + (d - a) as nat,
            since: None,
            waiting: 0,
        }),
        probe.started(a).ended(b).started(c).ended(d) == (IdleModel {
            total: probe.total + (b - a) as nat + (d - c) as nat,
            since: None,
            waiting: 0,
        }),
{
}

/// A wait that starts or ends.
pub struct WaitEvent {
    /// when it happens
    pub at: int,
    /// whether a worker starts to wait, or else stops
    pub starts: bool,
}

impl IdleModel {
    /// After a whole history.
    pub open spec fn run(self, history: Seq<WaitEvent>) -> IdleModel
        decreases history.len(),
    {
        if history.len() == 0 {
            self
        } else {
            let before = self.run(history.drop_last());
            let event = history.last();
            if event.starts {
                before.started(event.at)
            } else {
                before.ended(event.at)
            }
        }
    }
}

/// How many workers wait after a history, none at its start. A wait that was never started does
/// not end.
pub open spec fn waiting_after(history: Seq<WaitEvent>) -> nat
    decreases history.len(),
{
    if history.len() == 0 {
        0
    } else {
        let before = waiting_after(history.drop_last());
        if history.last().starts {
            before + 1
        } else if before > 0 {
            (before - 1) as nat
        } else {
            0
        }
    }
}

/// The time up to `now` in which at least one worker waits: each stretch from one event to the
/// next, or from the last event to `now`, if somebody waits in it.
pub open spec fn time_waited(history: Seq<WaitEvent>, now: int) -> nat
    decreases history.len(),
{
    if history.len() == 0 {
        0
    } else {
        let last = history.last().at;
        time_waited(history.drop_last(), last) + if waiting_after(history) > 0 {
            time::since(now, last)
        } else {
            0
        }
    }
}

/// Whether the events of a history are in order, and none comes after `now`.
pub open spec fn in_order(history: Seq<WaitEvent>, now: int) -> bool
    decreases history.len(),
{
    history.len() == 0 || {
        &&& history.last().at <= now
        &&& in_order(history.drop_last(), history.last().at)
    }
}

/// Whatever the workers do, a probe reads the time in which at least one of them waited, and knows
/// how many wait now.
pub proof fn idle_time_is_time_waited(history: Seq<WaitEvent>, now: int)
    requires
        in_order(history, now),
    ensures
        IdleModel::new().run(history).read(now) == time_waited(history, now),
        IdleModel::new().run(history).waiting == waiting_after(history),
        IdleModel::new().run(history).wf(),
{
    lemma_time_waited(history, now, now);
}

/// The same of every moment from `now` on, and a period that is going on began by `now`.
proof fn lemma_time_waited(history: Seq<WaitEvent>, now: int, later: int)
    requires
        in_order(history, now),
        now <= later,
    ensures
        ({
            let probe = IdleModel::new().run(history);
            &&& probe.read(later) == time_waited(history, later)
            &&& probe.waiting == waiting_after(history)
            &&& probe.wf()
            &&& probe.since is Some ==> probe.since->0 <= now
        }),
    decreases history.len(),
{
    if history.len() > 0 {
        let last = history.last().at;
        lemma_time_waited(history.drop_last(), last, last);
    }
}

} // verus!
