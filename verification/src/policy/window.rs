//! What happened over the recent ticks.

use std::collections::VecDeque;

use vstd::prelude::*;

use crate::binary64::{Binary64, Value};
use crate::time::{self, Duration, Instant};

verus! {

/// What happened over some stretch of time: times in nanoseconds.
pub struct TallyModel {
    pub elapsed: nat,
    /// items inside, summed over time, in item-nanoseconds
    pub occupancy: nat,
    pub departed: nat,
    pub completed: nat,
}

impl TallyModel {
    /// Nothing over no time.
    pub open spec fn zero() -> TallyModel {
        TallyModel { elapsed: 0, occupancy: 0, departed: 0, completed: 0 }
    }

    /// Both stretches together.
    pub open spec fn plus(self, other: TallyModel) -> TallyModel {
        TallyModel {
            elapsed: self.elapsed + other.elapsed,
            occupancy: self.occupancy + other.occupancy,
            departed: self.departed + other.departed,
            completed: self.completed + other.completed,
        }
    }

    /// Whether another stretch is part of this one.
    pub open spec fn has(self, part: TallyModel) -> bool {
        &&& part.elapsed <= self.elapsed
        &&& part.occupancy <= self.occupancy
        &&& part.departed <= self.departed
        &&& part.completed <= self.completed
    }

    /// What is left without a part.
    pub open spec fn minus(self, part: TallyModel) -> TallyModel {
        TallyModel {
            elapsed: (self.elapsed - part.elapsed) as nat,
            occupancy: (self.occupancy - part.occupancy) as nat,
            departed: (self.departed - part.departed) as nat,
            completed: (self.completed - part.completed) as nat,
        }
    }

    /// Whether the counters have room for it.
    pub open spec fn fits(self) -> bool {
        &&& self.elapsed <= time::LONGEST_NANOS
        &&& self.occupancy <= u128::MAX
        &&& self.departed <= u64::MAX
        &&& self.completed <= u64::MAX
    }

    /// Seconds an item stays inside, by Little's law: the items inside, averaged over time,
    /// divided by how many leave per second. With nothing inside it is idle, not stuck.
    pub open spec fn residence(self) -> Value {
        if self.occupancy == 0 {
            Value::zero()
        } else if self.departed == 0 {
            Value::Infinite
        } else {
            Value::of_nat(self.occupancy).over(Value::of_nat(1_000_000_000)).over(
                Value::of_nat(self.departed),
            )
        }
    }

    /// So many items per second.
    pub open spec fn rate(self, items: nat) -> Value {
        if self.elapsed == 0 {
            Value::zero()
        } else {
            Value::of_nat(items).over(time::seconds(self.elapsed))
        }
    }

    /// Items finished per second.
    pub open spec fn throughput(self) -> Value {
        self.rate(self.completed)
    }

    /// Items leaving per second, finished or not.
    pub open spec fn departures(self) -> Value {
        self.rate(self.departed)
    }

    /// Whether at least half of the items that left succeeded.
    pub open spec fn mostly_succeeded(self) -> bool {
        self.completed * 2 >= self.departed
    }
}

/// All ticks of a run together.
pub open spec fn sum(ticks: Seq<(int, TallyModel)>) -> TallyModel
    decreases ticks.len(),
{
    if ticks.len() == 0 {
        TallyModel::zero()
    } else {
        ticks[0].1.plus(sum(ticks.drop_first()))
    }
}

/// Whether a run of ticks is long enough to judge from: it saw `items` departures and spans
/// `min`, or else it spans `max`.
pub open spec fn sufficient(ticks: Seq<(int, TallyModel)>, items: nat, min: nat, max: nat) -> bool {
    let total = sum(ticks);
    (total.departed >= items && total.elapsed >= min) || total.elapsed >= max
}

/// What is kept of a run of ticks: the oldest are dropped while the rest is still sufficient, but
/// not the latest.
pub open spec fn trimmed(ticks: Seq<(int, TallyModel)>, items: nat, min: nat, max: nat) -> Seq<
    (int, TallyModel),
>
    decreases ticks.len(),
{
    if ticks.len() > 1 && sufficient(ticks.drop_first(), items, min, max) {
        trimmed(ticks.drop_first(), items, min, max)
    } else {
        ticks
    }
}

/// One more tick at the end adds to the total.
pub proof fn lemma_sum_push(ticks: Seq<(int, TallyModel)>, tick: (int, TallyModel))
    ensures
        sum(ticks.push(tick)) == sum(ticks).plus(tick.1),
    decreases ticks.len(),
{
    let more = ticks.push(tick);
    if ticks.len() == 0 {
        assert(more.drop_first() =~= Seq::<(int, TallyModel)>::empty());
        assert(sum(more.drop_first()) == TallyModel::zero());
        assert(sum(more) == tick.1.plus(TallyModel::zero()));
    } else {
        assert(more.drop_first() =~= ticks.drop_first().push(tick));
        lemma_sum_push(ticks.drop_first(), tick);
    }
}

/// A later run is part of the whole run.
pub proof fn lemma_sum_skip(ticks: Seq<(int, TallyModel)>, from: int)
    requires
        0 <= from <= ticks.len(),
    ensures
        sum(ticks).has(sum(ticks.skip(from))),
    decreases ticks.len(),
{
    if from == 0 {
        assert(ticks.skip(0) =~= ticks);
    } else {
        assert(ticks.skip(from) =~= ticks.drop_first().skip(from - 1));
        lemma_sum_skip(ticks.drop_first(), from - 1);
    }
}

/// A run that is sufficient stays so with earlier ticks before it.
proof fn lemma_sufficient_grows(
    ticks: Seq<(int, TallyModel)>,
    from: int,
    items: nat,
    min: nat,
    max: nat,
)
    requires
        0 <= from <= ticks.len(),
        sufficient(ticks.skip(from), items, min, max),
    ensures
        sufficient(ticks, items, min, max),
{
    lemma_sum_skip(ticks, from);
}

/// The window is the shortest run of the latest ticks that is sufficient: what is kept is a later
/// part of the run, nothing shorter would be sufficient, and unless it is the whole run it is
/// sufficient itself.
pub proof fn window_is_shortest(ticks: Seq<(int, TallyModel)>, items: nat, min: nat, max: nat)
    requires
        ticks.len() > 0,
    ensures
        ({
            let kept = trimmed(ticks, items, min, max);
            let dropped = ticks.len() - kept.len();
            &&& 1 <= kept.len() <= ticks.len()
            &&& kept == ticks.skip(dropped)
            &&& dropped > 0 ==> sufficient(kept, items, min, max)
            &&& forall|from: int|
                dropped < from < ticks.len() ==> !sufficient(
                    #[trigger] ticks.skip(from),
                    items,
                    min,
                    max,
                )
        }),
    decreases ticks.len(),
{
    let rest = ticks.drop_first();
    let kept = trimmed(ticks, items, min, max);
    let dropped = ticks.len() - kept.len();
    if ticks.len() > 1 && sufficient(rest, items, min, max) {
        window_is_shortest(rest, items, min, max);
        assert(ticks.skip(dropped) =~= rest.skip(dropped - 1));
        if dropped == 1 {
            assert(rest.skip(0) =~= rest);
        }
        assert forall|from: int| dropped < from < ticks.len() implies !sufficient(
            #[trigger] ticks.skip(from),
            items,
            min,
            max,
        ) by {
            assert(ticks.skip(from) =~= rest.skip(from - 1));
        }
    } else {
        assert(ticks.skip(0) =~= ticks);
        assert forall|from: int| 0 < from < ticks.len() implies !sufficient(
            #[trigger] ticks.skip(from),
            items,
            min,
            max,
        ) by {
            assert(ticks.skip(from) =~= rest.skip(from - 1));
            if sufficient(ticks.skip(from), items, min, max) {
                lemma_sufficient_grows(rest, from - 1, items, min, max);
            }
        }
    }
}

/// A window that is over-long is so by at most one tick: without its oldest tick it spans less
/// than `max`.
pub proof fn window_overruns_by_one_tick(
    ticks: Seq<(int, TallyModel)>,
    items: nat,
    min: nat,
    max: nat,
)
    requires
        ticks.len() > 0,
    ensures
        ({
            let kept = trimmed(ticks, items, min, max);
            kept.len() > 1 ==> sum(kept.drop_first()).elapsed < max
        }),
    decreases ticks.len(),
{
    if ticks.len() > 1 && sufficient(ticks.drop_first(), items, min, max) {
        window_overruns_by_one_tick(ticks.drop_first(), items, min, max);
    }
}

/// What happened over some stretch of time. All integers, so adding and removing ticks is
/// exact.
#[derive(Debug, Clone, Copy)]
pub struct Tally {
    pub elapsed: Duration,
    /// items inside, summed over time, in item-nanoseconds
    pub occupancy: u128,
    pub departed: u64,
    pub completed: u64,
}

impl View for Tally {
    type V = TallyModel;

    open spec fn view(&self) -> TallyModel {
        TallyModel {
            elapsed: self.elapsed@,
            occupancy: self.occupancy as nat,
            departed: self.departed as nat,
            completed: self.completed as nat,
        }
    }
}

impl Default for Tally {
    fn default() -> (r: Self)
        ensures
            r@ == TallyModel::zero(),
    {
        Self::new()
    }
}

impl Tally {
    /// Nothing over no time.
    pub fn new() -> (r: Self)
        ensures
            r@ == TallyModel::zero(),
    {
        Self { elapsed: Duration::zero(), occupancy: 0, departed: 0, completed: 0 }
    }

    /// Add another stretch.
    pub fn add(&mut self, other: &Tally)
        requires
            old(self)@.plus(other@).fits(),
        ensures
            final(self)@ == old(self)@.plus(other@),
    {
        self.elapsed = self.elapsed.plus(other.elapsed);
        self.occupancy = self.occupancy + other.occupancy;
        self.departed = self.departed + other.departed;
        self.completed = self.completed + other.completed;
    }

    /// Whether the counters have room for another stretch.
    pub fn has_room(&self, other: &Tally) -> (r: bool)
        ensures
            r == self@.plus(other@).fits(),
    {
        let longest: u128 = time::LONGEST_NANOS;
        self.elapsed.as_nanos() <= longest - other.elapsed.as_nanos() && self.occupancy
            <= u128::MAX - other.occupancy && self.departed <= u64::MAX - other.departed
            && self.completed <= u64::MAX - other.completed
    }

    /// Remove a part of this tally, such as its oldest tick.
    pub fn sub(&mut self, part: &Tally)
        requires
            old(self)@.has(part@),
        ensures
            final(self)@ == old(self)@.minus(part@),
    {
        self.elapsed = self.elapsed.minus(part.elapsed);
        self.occupancy = self.occupancy - part.occupancy;
        self.departed = self.departed - part.departed;
        self.completed = self.completed - part.completed;
    }

    /// Seconds an item stays inside, by Little's law.
    pub fn residence(&self) -> (r: Binary64)
        ensures
            r@ == self@.residence(),
    {
        if self.occupancy == 0 {
            // nothing was inside: idle, not stuck
            Binary64::zero()
        } else if self.departed == 0 {
            Binary64::infinity()
        } else {
            Binary64::from_u128(self.occupancy).over(Binary64::from_u128(1_000_000_000)).over(
                Binary64::from_u128(self.departed as u128),
            )
        }
    }

    /// So many items per second.
    fn rate(&self, items: u64) -> (r: Binary64)
        ensures
            r@ == self@.rate(items as nat),
    {
        if self.elapsed.is_zero() {
            Binary64::zero()
        } else {
            Binary64::from_u128(items as u128).over(self.elapsed.in_seconds())
        }
    }

    /// Items finished per second.
    pub fn throughput(&self) -> (r: Binary64)
        ensures
            r@ == self@.throughput(),
    {
        self.rate(self.completed)
    }

    /// Items leaving per second, finished or not.
    pub fn departures(&self) -> (r: Binary64)
        ensures
            r@ == self@.departures(),
    {
        self.rate(self.departed)
    }

    /// Whether at least half of the items that left succeeded.
    pub fn mostly_succeeded(&self) -> (r: bool)
        ensures
            r == self@.mostly_succeeded(),
    {
        self.completed as u128 * 2 >= self.departed as u128
    }
}

/// The shortest run of recent ticks that saw `window_items` departures and spans `min`, or
/// else spans `max`.
#[derive(Debug)]
pub struct Window {
    /// each tick, with when it started
    ticks: VecDeque<(Instant, Tally)>,
    /// the ticks summed
    total: Tally,
}

/// The ticks of a window as they are seen from outside.
pub open spec fn ticks_of(ticks: Seq<(Instant, Tally)>) -> Seq<(int, TallyModel)> {
    ticks.map_values(|tick: (Instant, Tally)| (tick.0@, tick.1@))
}

impl View for Window {
    type V = Seq<(int, TallyModel)>;

    closed spec fn view(&self) -> Seq<(int, TallyModel)> {
        ticks_of(self.ticks@)
    }
}

impl Clone for Window {
    fn clone(&self) -> (r: Self)
        ensures
            r@ == self@,
            r.wf() == self.wf(),
    {
        let mut ticks: VecDeque<(Instant, Tally)> = VecDeque::new();
        let n = self.ticks.len();
        let mut i: usize = 0;
        while i < n
            invariant
                i <= n == self.ticks@.len(),
                ticks@ == self.ticks@.take(i as int),
            decreases n - i,
        {
            ticks.push_back(self.ticks[i]);
            i = i + 1;
            assert(ticks@ =~= self.ticks@.take(i as int));
        }
        assert(ticks@ =~= self.ticks@);
        Self { ticks, total: self.total }
    }
}

impl Window {
    /// The total is the sum of the ticks.
    pub closed spec fn wf(self) -> bool {
        self.total@ == sum(self@)
    }

    /// A window over no ticks.
    pub fn new() -> (r: Self)
        ensures
            r.wf(),
            r@ == Seq::<(int, TallyModel)>::empty(),
    {
        let w = Self { ticks: VecDeque::new(), total: Tally::new() };
        assert(w@ =~= Seq::<(int, TallyModel)>::empty());
        w
    }

    /// All its ticks together.
    pub fn total(&self) -> (r: Tally)
        requires
            self.wf(),
        ensures
            r@ == sum(self@),
    {
        self.total
    }

    /// Add a tick that started at `start`, and drop the oldest ones while the rest is still
    /// enough.
    pub fn push(&mut self, start: Instant, tick: Tally, items: u64, min: Duration, max: Duration)
        requires
            old(self).wf(),
            sum(old(self)@).plus(tick@).fits(),
        ensures
            final(self).wf(),
            final(self)@ == trimmed(old(self)@.push((start@, tick@)), items as nat, min@, max@),
    {
        let ghost all = self@.push((start@, tick@));
        proof {
            lemma_sum_push(self@, (start@, tick@));
        }
        self.ticks.push_back((start, tick));
        self.total.add(&tick);
        assert(self@ =~= all);
        // ticks are only ever added at the back, so a dropped tick is never needed again
        while self.ticks.len() > 1
            invariant
                self.wf(),
                trimmed(self@, items as nat, min@, max@) == trimmed(
                    all,
                    items as nat,
                    min@,
                    max@,
                ),
            ensures
                self@ == trimmed(all, items as nat, min@, max@),
            decreases self.ticks@.len(),
        {
            let oldest = self.ticks[0].1;
            let mut rest = self.total;
            let ghost before = self@;
            assert(self@[0].1 == oldest@);
            rest.sub(&oldest);
            assert(rest@ == sum(self@.drop_first()));
            let enough: bool = rest.departed >= items && min.at_most(rest.elapsed);
            if !enough && !max.at_most(rest.elapsed) {
                break;
            }
            self.ticks.pop_front();
            self.total = rest;
            assert(self@ =~= before.drop_first());
        }
    }

    /// When its first tick started.
    pub fn start(&self) -> (r: Option<Instant>)
        ensures
            r is Some <==> self@.len() > 0,
            r is Some ==> r->0@ == self@[0].0,
    {
        if self.ticks.len() > 0 {
            Some(self.ticks[0].0)
        } else {
            None
        }
    }
}

/// The residence that a stretch of time shows is the items inside, averaged over time, divided by
/// how many leave per second, finished or not, but for rounding: the item-nanoseconds by a billion
/// for each that left. With nothing inside it is zero, and with something inside and nothing
/// leaving it has no end.
pub proof fn residence_follows_littles_law(tally: TallyModel)
    requires
        tally.fits(),
    ensures
        tally.occupancy == 0 ==> tally.residence() == Value::Finite(0),
        tally.occupancy > 0 && tally.departed == 0 ==> tally.residence() is Infinite,
        tally.occupancy > 0 && tally.departed > 0 ==> tally.residence().about(
            tally.occupancy,
            1_000_000_000 * tally.departed,
        ),
{
    if tally.occupancy > 0 && tally.departed > 0 {
        let giga: nat = 1_000_000_000;
        let most: nat = 0x1_0000_0000_0000;
        let (x, y, z) = (
            Value::of_nat(tally.occupancy),
            Value::of_nat(giga),
            Value::of_nat(tally.departed),
        );
        crate::nearly::lemma_near_of_nat(tally.occupancy);
        crate::nearly::lemma_near_of_nat(giga);
        crate::nearly::lemma_near_of_nat(tally.departed);
        crate::nearly::lemma_near_over(
            x,
            tally.occupancy,
            1,
            y,
            giga,
            1,
            most,
            1074,
            1202,
            1074,
            1202,
        );
        let less: nat = 0x1000_0000_0000;
        crate::nearly::lemma_near_looser(
            z->Finite_0 * 1,
            tally.departed * Value::one(),
            0x10_0000_0000_0000,
            16 * less,
        );
        crate::nearly::lemma_near_over(
            x.over(y),
            tally.occupancy * 1,
            1 * giga,
            z,
            tally.departed,
            1,
            less,
            946,
            1202,
            1074,
            1202,
        );
        assert((tally.occupancy * 1) * 1 == tally.occupancy && (1 * giga) * tally.departed == giga
            * tally.departed);
        crate::nearly::lemma_about(
            x.over(y).over(z),
            tally.occupancy,
            giga * tally.departed,
            less,
        );
    }
}

/// The rates that a stretch of time shows are counts by its seconds, but for rounding: those that
/// left, finished or not, and those that finished. Over no time, or with none, they are zero.
pub proof fn rates_are_counts_by_time(tally: TallyModel)
    requires
        tally.fits(),
    ensures
        tally.elapsed == 0 || tally.departed == 0 ==> tally.departures() == Value::Finite(0),
        tally.elapsed > 0 && tally.departed > 0 ==> tally.departures().about(
            tally.departed * 1_000_000_000,
            tally.elapsed,
        ),
        tally.elapsed == 0 || tally.completed == 0 ==> tally.throughput() == Value::Finite(0),
        tally.elapsed > 0 && tally.completed > 0 ==> tally.throughput().about(
            tally.completed * 1_000_000_000,
            tally.elapsed,
        ),
{
    lemma_rate(tally.elapsed, tally.departed);
    lemma_rate(tally.elapsed, tally.completed);
}

/// A count by some time in seconds.
proof fn lemma_rate(elapsed: nat, items: nat)
    requires
        elapsed <= time::LONGEST_NANOS,
        items <= u64::MAX,
    ensures
        ({
            let rate = Value::of_nat(items).over(time::seconds(elapsed));
            &&& elapsed > 0 && items == 0 ==> rate == Value::Finite(0)
            &&& elapsed > 0 && items > 0 ==> rate.about(items * 1_000_000_000, elapsed)
        }),
{
    if elapsed > 0 {
        let x = Value::of_nat(items);
        let y = time::seconds(elapsed);
        let giga: nat = 1_000_000_000;
        crate::nearly::lemma_near_seconds(elapsed);
        vstd::arithmetic::power2::lemma_pow2_pos(946);
        if items == 0 {
            crate::binary64::lemma_of_nat_bounds(0);
            assert(0 * Value::one() == 0);
            crate::rounding::lemma_rounded_tiny(0, y->Finite_0);
            vstd::arithmetic::power2::lemma_pow2_pos(2098);
        } else {
            let most: nat = 0x4000_0000_0000;
            crate::nearly::lemma_near_of_nat(items);
            crate::nearly::lemma_near_looser(
                x->Finite_0 * 1,
                items * Value::one(),
                0x10_0000_0000_0000,
                16 * most,
            );
            crate::nearly::lemma_near_over(x, items, 1, y, elapsed, giga, most, 1074, 1202, 946, 1203);
            assert(1 * elapsed == elapsed);
            crate::nearly::lemma_about(x.over(y), items * giga, elapsed, most);
        }
    }
}

/// At least half succeeded exactly if no more failed than succeeded.
pub proof fn mostly_succeeded_is_no_more_failed(tally: TallyModel, failed: nat)
    requires
        tally.departed == tally.completed + failed,
    ensures
        tally.mostly_succeeded() <==> failed <= tally.completed,
{
}

/// The total of a run is that of its parts together, of no ticks nothing, and of one tick what
/// happened in it.
pub proof fn totals_add_up(before: Seq<(int, TallyModel)>, after: Seq<(int, TallyModel)>)
    ensures
        ({
            let (a, b, both) = (sum(before), sum(after), sum(before + after));
            &&& both.elapsed == a.elapsed + b.elapsed
            &&& both.occupancy == a.occupancy + b.occupancy
            &&& both.departed == a.departed + b.departed
            &&& both.completed == a.completed + b.completed
        }),
        before.len() == 0 ==> sum(before).elapsed == 0 && sum(before).occupancy == 0 && sum(
            before,
        ).departed == 0 && sum(before).completed == 0,
        before.len() == 1 ==> sum(before) == before[0].1,
    decreases before.len(),
{
    if before.len() == 0 {
        assert(before + after =~= after);
    } else {
        assert((before + after).drop_first() =~= before.drop_first() + after);
        totals_add_up(before.drop_first(), after);
        if before.len() == 1 {
            assert(before.drop_first() =~= Seq::<(int, TallyModel)>::empty());
        }
    }
}

/// What is kept of a run saw `items` leave and spans `min`, or spans `max`, unless it is the whole
/// run, and no later part of it with at least one tick does.
pub proof fn kept_ticks_are_enough_and_no_more(
    ticks: Seq<(int, TallyModel)>,
    items: nat,
    min: nat,
    max: nat,
    from: int,
)
    requires
        ticks.len() > 0,
        0 < from < trimmed(ticks, items, min, max).len(),
    ensures
        ({
            let kept = trimmed(ticks, items, min, max);
            let (whole, later) = (sum(kept), sum(kept.skip(from)));
            &&& kept == ticks.skip(ticks.len() - kept.len())
            &&& kept.len() < ticks.len() ==> whole.elapsed >= max || (whole.departed >= items
                && whole.elapsed >= min)
            &&& later.elapsed < max
            &&& later.departed < items || later.elapsed < min
        }),
{
    window_is_shortest(ticks, items, min, max);
    let kept = trimmed(ticks, items, min, max);
    let dropped = ticks.len() - kept.len();
    assert(kept.skip(from) =~= ticks.skip(dropped + from));
}

} // verus!
