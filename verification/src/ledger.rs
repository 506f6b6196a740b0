//! What a gate keeps account of, and the laws that its account obeys.

use tokio::sync::Notify;
use vstd::prelude::*;

use crate::permits;

verus! {

/// What a gate keeps account of.
///
/// The permits that are free, and those that a lowered limit still owes, follow from the limit
/// and from what is held: see [`free`](Ledger::free) and [`owed`](Ledger::owed).
pub struct Ledger {
    /// which gate it is: its bell
    pub bell: Notify,
    /// the most permits to be out at once
    pub limit: nat,
    /// permits held by tickets, or set aside by a weighted item that waits to get in
    pub held: nat,
    /// acquires in progress
    pub admitting: nat,
    /// permits returned by completing, counted in 64 bits
    pub completed: u64,
    /// permits returned without completing, counted in 64 bits
    pub released: u64,
    /// twice the shrinks so far, counted in 64 bits
    pub shrinks: u64,
    /// whether some weighted item has its turn to gather permits
    pub turn: bool,
    /// whether the `Gate` is closed
    pub closed: bool,
}

/// `n` more on a counter of 64 bits, which starts over from 0.
pub open spec fn counted(counter: u64, n: nat) -> u64 {
    ((counter + n) % 0x1_0000_0000_0000_0000) as u64
}

/// The lesser of two counts.
pub open spec fn min(a: nat, b: nat) -> nat {
    if a <= b {
        a
    } else {
        b
    }
}

/// The greater of two counts.
pub open spec fn max(a: nat, b: nat) -> nat {
    if a <= b {
        b
    } else {
        a
    }
}

impl Ledger {
    /// A new gate's ledger: nothing inside, and a limit that a semaphore can hold.
    pub open spec fn new(bell: Notify, initial: nat) -> Ledger {
        Ledger {
            bell,
            limit: min(initial, permits::most()),
            held: 0,
            admitting: 0,
            completed: 0,
            released: 0,
            shrinks: 0,
            turn: false,
            closed: false,
        }
    }

    /// Permits that can be handed out right now.
    pub open spec fn free(self) -> nat {
        if self.held <= self.limit {
            (self.limit - self.held) as nat
        } else {
            0
        }
    }

    /// Permits to keep when they come back, because the limit has been lowered below what is
    /// held.
    pub open spec fn owed(self) -> nat {
        if self.held <= self.limit {
            0
        } else {
            (self.held - self.limit) as nat
        }
    }

    /// Permits that an open gate hands out to somebody who wants `want` of them.
    pub open spec fn available(self, want: nat) -> nat {
        if self.closed {
            0
        } else {
            min(want, self.free())
        }
    }

    /// What an item of the given weight takes: its weight or the whole limit, at least one.
    pub open spec fn share(self, weight: nat) -> nat {
        max(min(max(weight, 1), self.limit), 1)
    }

    /// After `n` permits have been handed out.
    pub open spec fn admitted(self, n: nat) -> Ledger {
        Ledger { held: self.held + n, ..self }
    }

    /// After `n` held permits have come back without leaving the pipeline.
    pub open spec fn put_back(self, n: nat) -> Ledger {
        Ledger { held: (self.held - n) as nat, ..self }
    }

    /// After `n` held permits have come back, completed or not.
    pub open spec fn given_back(self, n: nat, completed: bool) -> Ledger {
        if completed {
            Ledger { completed: counted(self.completed, n), ..self.put_back(n) }
        } else {
            Ledger { released: counted(self.released, n), ..self.put_back(n) }
        }
    }

    /// After the limit has been set to `target`, or to the most that a semaphore can hold.
    pub open spec fn resized(self, target: nat) -> Ledger {
        let limit = min(target, permits::most());
        Ledger {
            limit,
            shrinks: if limit < self.limit {
                counted(self.shrinks, 2)
            } else {
                self.shrinks
            },
            ..self
        }
    }

    /// Whether nobody is inside or on the way in.
    pub open spec fn drained(self) -> bool {
        self.held == 0 && self.admitting == 0
    }
}

/// What a ticket stands for: some permits of one gate.
pub struct TicketModel {
    /// the bell of the `Gate` that it is from
    pub bell: Notify,
    pub permits: nat,
}

impl TicketModel {
    /// Whether the permits are among those that the `Gate` with this ledger handed out.
    pub open spec fn held_from(self, ledger: Ledger) -> bool {
        self.bell == ledger.bell && self.permits <= ledger.held
    }

    /// What is left after `n` permits have gone.
    pub open spec fn without(self, n: nat) -> TicketModel {
        TicketModel { permits: (self.permits - n) as nat, ..self }
    }
}

/// What a reservation stands for: a weighted item, the permits that it has set aside, and the
/// shrinks that it knows of.
pub struct ReservationModel {
    /// the bell of the `Gate` that it is from
    pub bell: Notify,
    pub weight: nat,
    pub permits: nat,
    pub seen: u64,
}

impl ReservationModel {
    /// The ledger and the permits set aside, once what was gathered before a shrink has been
    /// handed back.
    pub open spec fn refreshed(self, ledger: Ledger) -> (Ledger, nat) {
        if self.seen == ledger.shrinks {
            (ledger, self.permits)
        } else {
            (ledger.put_back(self.permits), 0)
        }
    }
}

impl ReservationModel {
    /// What holds of a reservation at every moment, from its start on: if it has seen every
    /// shrink, it holds no more than its item takes, and nothing while the `Gate` is over its limit.
    pub open spec fn sound(self, ledger: Ledger) -> bool {
        &&& self.permits <= ledger.held
        &&& self.seen == ledger.shrinks ==> self.permits <= ledger.share(self.weight)
        &&& self.seen == ledger.shrinks && self.permits > 0 ==> ledger.held <= ledger.limit
    }
}

/// One thing that happens to a gate.
pub enum Event {
    /// permits are handed out
    Admit(nat),
    /// held permits come back, completed or not
    GiveBack(nat, bool),
    /// permits that were set aside come back
    PutBack(nat),
    /// the limit is set
    Resize(nat),
    /// the `Gate` is closed
    Close,
    /// an acquire begins
    Begin,
    /// an acquire ends
    End,
    /// the turn to gather permits is taken or ends
    Turn(bool),
}

impl Event {
    /// Whether it can happen: permits are handed out only as far as they are available, and come
    /// back only from among those held.
    pub open spec fn can_happen(self, ledger: Ledger) -> bool {
        match self {
            Event::Admit(n) => n <= ledger.available(n),
            Event::GiveBack(n, _) => n <= ledger.held,
            Event::PutBack(n) => n <= ledger.held,
            Event::End => ledger.admitting > 0,
            _ => true,
        }
    }

    /// The permits that it hands out.
    pub open spec fn handed_out(self) -> nat {
        match self {
            Event::Admit(n) => n,
            _ => 0,
        }
    }

    /// The permits that it brings back.
    pub open spec fn brought_back(self) -> nat {
        match self {
            Event::GiveBack(n, _) => n,
            Event::PutBack(n) => n,
            _ => 0,
        }
    }
}

impl Ledger {
    /// After one event.
    pub open spec fn step(self, event: Event) -> Ledger {
        match event {
            Event::Admit(n) => self.admitted(n),
            Event::GiveBack(n, completed) => self.given_back(n, completed),
            Event::PutBack(n) => self.put_back(n),
            Event::Resize(target) => self.resized(target),
            Event::Close => Ledger { closed: true, ..self },
            Event::Begin => Ledger { admitting: self.admitting + 1, ..self },
            Event::End => Ledger { admitting: (self.admitting - 1) as nat, ..self },
            Event::Turn(turn) => Ledger { turn, ..self },
        }
    }

    /// After a whole history.
    pub open spec fn run(self, history: Seq<Event>) -> Ledger
        decreases history.len(),
    {
        if history.len() == 0 {
            self
        } else {
            self.run(history.drop_last()).step(history.last())
        }
    }

    /// Whether each event of a history can happen when its time comes.
    pub open spec fn can_run(self, history: Seq<Event>) -> bool
        decreases history.len(),
    {
        history.len() == 0 || {
            &&& self.can_run(history.drop_last())
            &&& history.last().can_happen(self.run(history.drop_last()))
        }
    }
}

/// All the permits that a history hands out.
pub open spec fn handed_out(history: Seq<Event>) -> nat
    decreases history.len(),
{
    if history.len() == 0 {
        0
    } else {
        handed_out(history.drop_last()) + history.last().handed_out()
    }
}

/// All the permits that a history brings back.
pub open spec fn brought_back(history: Seq<Event>) -> nat
    decreases history.len(),
{
    if history.len() == 0 {
        0
    } else {
        brought_back(history.drop_last()) + history.last().brought_back()
    }
}

/// The highest limit that a gate has had in a history.
pub open spec fn highest_limit(start: Ledger, history: Seq<Event>) -> nat
    decreases history.len(),
{
    if history.len() == 0 {
        start.limit
    } else {
        max(highest_limit(start, history.drop_last()), start.run(history).limit)
    }
}

/// The `Gate` never loses track: whatever happens, the permits it counts as inside are those it
/// handed out less those that came back. So once all have come back, none is inside.
pub proof fn gate_never_loses_track(bell: Notify, initial: nat, history: Seq<Event>)
    requires
        Ledger::new(bell, initial).can_run(history),
    ensures
        Ledger::new(bell, initial).run(history).held + brought_back(history) == handed_out(history),
    decreases history.len(),
{
    if history.len() > 0 {
        gate_never_loses_track(bell, initial, history.drop_last());
    }
}

/// What is inside never exceeds the highest limit so far, and no limit exceeds what a semaphore
/// can hold.
pub proof fn inside_stays_within_highest_limit(bell: Notify, initial: nat, history: Seq<Event>)
    requires
        Ledger::new(bell, initial).can_run(history),
    ensures
        Ledger::new(bell, initial).run(history).held <= highest_limit(
            Ledger::new(bell, initial),
            history,
        ),
        highest_limit(Ledger::new(bell, initial), history) <= permits::most(),
    decreases history.len(),
{
    if history.len() > 0 {
        inside_stays_within_highest_limit(bell, initial, history.drop_last());
    }
}

/// Handing out permits never takes what is inside above the limit, and an over-full gate hands
/// out none.
pub proof fn admission_respects_limit(ledger: Ledger, n: nat)
    requires
        Event::Admit(n).can_happen(ledger),
    ensures
        n > 0 ==> ledger.step(Event::Admit(n)).held <= ledger.limit,
        ledger.held >= ledger.limit ==> n == 0,
{
}

/// A closed gate lets nothing in, and closing can't be undone.
pub proof fn closing_is_final(ledger: Ledger, history: Seq<Event>)
    requires
        ledger.closed,
        ledger.can_run(history),
    ensures
        ledger.run(history).closed,
        handed_out(history) == 0,
        ledger.run(history).held <= ledger.held,
    decreases history.len(),
{
    if history.len() > 0 {
        closing_is_final(ledger, history.drop_last());
    }
}

/// Changing the limit never takes a permit back and counts nothing as done: what is inside, and
/// who is on the way in, stays.
pub proof fn resizing_interrupts_nothing(ledger: Ledger, target: nat)
    ensures
        ({
            let after = ledger.resized(target);
            &&& after.held == ledger.held
            &&& after.admitting == ledger.admitting
            &&& after.completed == ledger.completed
            &&& after.released == ledger.released
            &&& after.closed == ledger.closed
            &&& after.limit == min(target, permits::most())
        }),
{
}

/// After the limit has been lowered below what is inside, the next permits to come back are kept,
/// until what is inside is back under the limit: only what comes back beyond that is free again.
pub proof fn returns_pay_what_is_owed_first(ledger: Ledger, n: nat)
    requires
        n <= ledger.held,
    ensures
        n <= ledger.owed() ==> ledger.put_back(n).free() == ledger.free()
            && ledger.put_back(n).owed() == ledger.owed() - n,
        n >= ledger.owed() ==> ledger.put_back(n).free() == ledger.free() + n - ledger.owed()
            && ledger.put_back(n).owed() == 0,
{
}

/// The permits always add up: those free and those inside are those of the limit and those still
/// owed, and none is free while some are owed.
pub proof fn permits_add_up(ledger: Ledger)
    ensures
        ledger.free() + ledger.held == ledger.limit + ledger.owed(),
        ledger.free() == 0 || ledger.owed() == 0,
{
}

/// Everything that happens to the `Gate` leaves a waiting reservation sound, as long as the permits
/// that come back are not its own and fewer shrinks happen than 64 bits can tell apart.
pub proof fn reservations_stay_sound(
    reservation: ReservationModel,
    ledger: Ledger,
    event: Event,
)
    requires
        reservation.sound(ledger),
        event.can_happen(ledger),
        reservation.permits + event.brought_back() <= ledger.held,
        reservation.seen != ledger.shrinks ==> reservation.seen != ledger.step(event).shrinks,
    ensures
        reservation.sound(ledger.step(event)),
{
}

/// A weighted item gets in with exactly its share, and only while what is inside stays within
/// the limit; an item that takes the whole limit gets in alone.
pub proof fn weighted_items_fit(reservation: ReservationModel, ledger: Ledger)
    requires
        reservation.sound(ledger),
    ensures
        ({
            let (fresh, permits) = reservation.refreshed(ledger);
            let share = fresh.share(reservation.weight);
            permits + fresh.available((share - permits) as nat) >= share ==> {
                let inside = fresh.admitted((share - permits) as nat).held;
                &&& max(permits, share) == share
                &&& inside <= fresh.limit
                &&& share == fresh.limit ==> inside == share
            }
        }),
{
}

/// A weighted item that doesn't fit yet keeps a sound reservation: with what it has set aside it
/// still lacks part of its share, and what is inside is within the limit if it has any.
pub proof fn gathering_stays_sound(reservation: ReservationModel, ledger: Ledger)
    requires
        reservation.sound(ledger),
    ensures
        ({
            let (fresh, permits) = reservation.refreshed(ledger);
            let share = fresh.share(reservation.weight);
            !fresh.closed && permits + fresh.available((share - permits) as nat) < share ==> {
                let after = ReservationModel {
                    permits: permits + fresh.free(),
                    seen: fresh.shrinks,
                    ..reservation
                };
                &&& after.permits < share
                &&& after.sound(fresh.admitted(fresh.free()))
            }
        }),
{
}

/// Whatever happens, a gate keeps its bell.
pub proof fn gate_keeps_its_bell(ledger: Ledger, history: Seq<Event>)
    ensures
        ledger.run(history).bell == ledger.bell,
    decreases history.len(),
{
    if history.len() > 0 {
        gate_keeps_its_bell(ledger, history.drop_last());
    }
}

/// A ticket goes back only to the `Gate` that it came from, whatever happens to that or to any
/// other gate meanwhile, and so do the parts it is split into. Tickets of different gates are not
/// merged.
pub proof fn tickets_go_back_to_their_own_gate(
    own: Ledger,
    own_history: Seq<Event>,
    other: Ledger,
    other_history: Seq<Event>,
    ticket: TicketModel,
    stranger: TicketModel,
    n: nat,
)
    requires
        own.bell != other.bell,
        ticket.held_from(own),
        stranger.held_from(other),
        n <= ticket.permits,
    ensures
        !ticket.held_from(other.run(other_history)),
        !ticket.without(n).held_from(other.run(other_history)),
        ticket.permits <= own.run(own_history).held ==> ticket.held_from(own.run(own_history)),
        ticket.bell != stranger.bell,
{
    gate_keeps_its_bell(own, own_history);
    gate_keeps_its_bell(other, other_history);
}

/// Splitting a ticket and merging the parts gives the ticket back.
pub proof fn split_then_merge(ticket: TicketModel, n: nat)
    requires
        n <= ticket.permits,
    ensures
        ticket.without(n).permits + n == ticket.permits,
        ticket.without(n).bell == ticket.bell,
{
}

/// An open gate hands out all that is wanted, or as much as brings what is inside up to the limit;
/// a closed one hands out nothing.
pub proof fn as_many_as_fit_are_handed_out(ledger: Ledger, want: nat)
    ensures
        ({
            let n = ledger.available(want);
            &&& n <= want
            &&& n > 0 ==> !ledger.closed && ledger.held + n <= ledger.limit
            &&& n < want ==> ledger.closed || ledger.limit <= ledger.held + n
        }),
        ledger.free() > 0 <==> ledger.held < ledger.limit,
        ledger.held <= ledger.limit ==> ledger.held + ledger.free() == ledger.limit
            && ledger.owed() == 0,
        ledger.limit <= ledger.held ==> ledger.limit + ledger.owed() == ledger.held
            && ledger.free() == 0,
{
}

/// A weighted item takes its weight, at least one, or the whole limit if it is heavier than that,
/// and one that has yet to come if the limit is zero.
pub proof fn weighted_items_take_weight_or_limit(ledger: Ledger, weight: nat)
    ensures
        1 <= weight <= ledger.limit ==> ledger.share(weight) == weight,
        1 <= ledger.limit <= weight ==> ledger.share(weight) == ledger.limit,
        weight == 0 || ledger.limit == 0 ==> ledger.share(weight) == 1,
{
}

/// A new gate is open and empty, nobody is on the way in, nothing has left, and its limit is what
/// was asked for, or the most that a semaphore can hold.
pub proof fn new_gates_are_empty(bell: Notify, initial: nat)
    ensures
        ({
            let gate = Ledger::new(bell, initial);
            &&& gate.bell == bell && gate.held == 0 && gate.admitting == 0
            &&& gate.completed == 0 && gate.released == 0
            &&& !gate.closed && !gate.turn && gate.drained()
            &&& gate.limit <= initial && gate.limit <= permits::most()
            &&& gate.limit == initial || gate.limit == permits::most()
        }),
        8 * permits::most() <= usize::MAX < 8 * (permits::most() + 1),
{
}

/// All the permits of a history that came back completed, or all that came back otherwise.
pub open spec fn came_back(history: Seq<Event>, completed: bool) -> nat
    decreases history.len(),
{
    if history.len() == 0 {
        0
    } else {
        came_back(history.drop_last(), completed) + match history.last() {
            Event::GiveBack(n, done) => if done == completed {
                n
            } else {
                0
            },
            _ => 0,
        }
    }
}

/// The acquires of a history that began and have not ended.
pub open spec fn on_the_way(history: Seq<Event>) -> int
    decreases history.len(),
{
    if history.len() == 0 {
        0
    } else {
        on_the_way(history.drop_last()) + match history.last() {
            Event::Begin => 1int,
            Event::End => -1,
            _ => 0,
        }
    }
}

/// Whatever happens, the counters tell what came back completed and what came back otherwise, in
/// 64 bits, the acquires in progress are those that began and have not ended, and the `Gate` is
/// closed exactly if it was ever closed.
pub proof fn counters_tell_what_happened(bell: Notify, initial: nat, history: Seq<Event>)
    requires
        Ledger::new(bell, initial).can_run(history),
    ensures
        ({
            let gate = Ledger::new(bell, initial).run(history);
            &&& gate.completed == came_back(history, true) % 0x1_0000_0000_0000_0000
            &&& gate.released == came_back(history, false) % 0x1_0000_0000_0000_0000
            &&& gate.admitting == on_the_way(history)
            &&& gate.closed <==> exists|i: int|
                0 <= i < history.len() && #[trigger] history[i] is Close
            &&& gate.drained() <==> handed_out(history) == brought_back(history) && on_the_way(
                history,
            ) == 0
        }),
    decreases history.len(),
{
    gate_never_loses_track(bell, initial, history);
    if history.len() > 0 {
        let before = history.drop_last();
        counters_tell_what_happened(bell, initial, before);
        let (was, now) = (
            Ledger::new(bell, initial).run(before),
            Ledger::new(bell, initial).run(history),
        );
        if was.closed {
            let i = choose|i: int| 0 <= i < before.len() && #[trigger] before[i] is Close;
            assert(history[i] is Close);
        }
        if history.last() is Close {
            assert(history[history.len() - 1] is Close);
        }
        if exists|i: int| 0 <= i < history.len() && #[trigger] history[i] is Close {
            let i = choose|i: int| 0 <= i < history.len() && #[trigger] history[i] is Close;
            if i < before.len() {
                assert(before[i] is Close);
            } else {
                assert(history.last() is Close);
            }
        }
    }
}

/// The limit is what it was last set to, or the most that a semaphore can hold, and nothing else
/// changes it. Each time it is lowered, and only then, the count of shrinks goes on by two.
pub proof fn limit_is_what_it_was_set_to(ledger: Ledger, event: Event)
    ensures
        match event {
            Event::Resize(target) => {
                let after = ledger.step(event);
                &&& after.limit <= target && after.limit <= permits::most()
                &&& after.limit == target || after.limit == permits::most()
                &&& after.shrinks == if after.limit < ledger.limit {
                    (ledger.shrinks + 2) % 0x1_0000_0000_0000_0000
                } else {
                    ledger.shrinks as int
                }
            },
            _ => ledger.step(event).limit == ledger.limit && ledger.step(event).shrinks
                == ledger.shrinks,
        },
{
}

/// What was set aside under a limit that has been lowered since goes back whole, and what was set
/// aside since stays.
pub proof fn old_reservations_start_over(reservation: ReservationModel, ledger: Ledger)
    requires
        reservation.permits <= ledger.held,
    ensures
        ({
            let (fresh, permits) = reservation.refreshed(ledger);
            &&& reservation.seen == ledger.shrinks ==> permits == reservation.permits && fresh.held
                == ledger.held
            &&& reservation.seen != ledger.shrinks ==> permits == 0 && fresh.held
                + reservation.permits == ledger.held
            &&& fresh.limit == ledger.limit && fresh.completed == ledger.completed
            &&& fresh.released == ledger.released && fresh.closed == ledger.closed
            &&& fresh.shrinks == ledger.shrinks && fresh.bell == ledger.bell
        }),
{
}

} // verus!
