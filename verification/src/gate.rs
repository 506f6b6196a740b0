//! The `Gate` at the pipeline's entry, and the tickets that travel with admitted work.

use tokio::sync::{Semaphore, TryAcquireError};
use vstd::prelude::*;

use crate::bell::Bell;
use crate::ledger::{self, Ledger, ReservationModel, TicketModel};
use crate::permits;

verus! {

/// Returned when the `Gate` has been closed with [`Gate::close`], so it lets nothing new in.
#[derive(Debug, Clone, Copy, PartialEq, Eq, Structural)]
pub struct Closed;

impl Closed {
    /// What to tell whoever asked.
    pub fn message(&self) -> (r: &'static str)
        ensures
            r@ == "gate closed"@,
    {
        "gate closed"
    }
}

/// Limits how much work is inside the pipeline at once.
///
/// Before an item enters the pipeline, ask the `Gate` for a [`Ticket`]. The ticket holds one
/// *permit* per item, and the `Gate` hands out at most [`limit`](Self::limit) permits at a time.
/// When the item is done, however many stages later, give the ticket back with
/// [`complete`](Ticket::complete) (or [`release`](Ticket::release) if it failed). Then the `Gate`
/// can let the next item in.
///
/// A [`Pacer`](crate::Pacer) changes the limit while the pipeline runs. Lowering it never takes
/// back a permit that is already out. Instead the `Gate` keeps the next permits returned to it,
/// until the number handed out is back under the new limit.
///
/// Every method takes the `Gate` exclusively, and none of them waits: a call that would have to
/// wait says so, and is made again when permits have come back, the limit has changed or the `Gate`
/// has been closed. Share a gate between tasks behind a lock.
///
/// # Weighted items
///
/// A permit doesn't have to mean one item. If items differ a lot in cost, give each a *weight* in
/// whatever unit fits, say megabytes, and admit it with
/// [`acquire_weighted`](Self::acquire_weighted). An item of weight 5 then takes 5 permits, and
/// the limit becomes a limit on total weight. Everything else counts in the same unit.
///
/// An item heavier than the whole limit would never fit. Instead it waits until nothing else is
/// inside and then takes the whole limit, so it goes through alone.
pub struct Gate {
    /// what those who wait listen for; tells its tickets from those of other gates
    bell: Bell,
    /// the free permits
    semaphore: Semaphore,
    limit: usize,
    /// permits still to retire for a shrink that free permits couldn't cover
    retiring: usize,
    /// permits held by tickets and reservations
    held: usize,
    /// acquires in progress
    admitting: usize,
    /// permits returned by `complete`, i.e. useful throughput
    completed: u64,
    /// permits returned without completing
    released: u64,
    /// twice the shrinks so far, plus one while a shrink is underway, so a weighted acquire can
    /// tell its gathered permits predate one
    shrinks: u64,
    /// whether a weighted acquire has its turn to gather permits
    turn: bool,
}

impl View for Gate {
    type V = Ledger;

    closed spec fn view(&self) -> Ledger {
        Ledger {
            bell: self.bell@,
            limit: self.limit as nat,
            held: self.held as nat,
            admitting: self.admitting as nat,
            completed: self.completed,
            released: self.released,
            shrinks: self.shrinks,
            turn: self.turn,
            closed: permits::closed(self.semaphore),
        }
    }
}

impl Gate {
    /// The semaphore holds the free permits, the retiring ones are those owed, neither the limit
    /// nor what is held exceeds what a semaphore can hold, and no shrink is underway.
    pub closed spec fn wf(self) -> bool {
        &&& permits::free(self.semaphore) == self@.free()
        &&& self.retiring == self@.owed()
        &&& self.limit <= permits::most()
        &&& self.held <= permits::most()
        &&& self.shrinks % 2 == 0
    }

    /// What holds between two steps of one operation, while `hand` permits are neither free nor
    /// held: the permits all add up, and if some are free, those in hand cover what is owed.
    spec fn adds_up(self, hand: nat) -> bool {
        &&& permits::free(self.semaphore) + self.held + hand == self.limit + self.retiring
        &&& permits::free(self.semaphore) > 0 ==> self.retiring <= hand
        &&& self.limit + self.retiring <= permits::most() + ledger::min(self.retiring as nat, hand)
    }

    /// Create a gate that lets in up to `initial` items at once.
    ///
    /// If you drive the `Gate` with a [`Pacer`](crate::Pacer), the pacer sets the limit to its
    /// policy's starting value as soon as it's built, so `initial` doesn't matter much. The limit
    /// can't go above what a semaphore can hold; larger values are lowered to it.
    ///
    /// The `Gate` has a bell of its own, which nothing is known of beforehand: its tickets are told
    /// from those of other gates by it.
    pub fn new(initial: usize) -> (r: Self)
        ensures
            r.wf(),
            r@ == Ledger::new(r@.bell, initial as nat),
    {
        let most = permits::max_permits();
        let limit: usize = if initial <= most {
            initial
        } else {
            most
        };
        Self {
            bell: Bell::new(),
            semaphore: permits::new(limit),
            limit,
            retiring: 0,
            held: 0,
            admitting: 0,
            completed: 0,
            released: 0,
            shrinks: 0,
            turn: false,
        }
    }

    /// Take up to `want` free permits out of the semaphore and return how many: the lesser of
    /// what is wanted and what is free, none if it is closed. They are then in hand, neither free
    /// nor held, beside any that were in hand before.
    fn take_free(&mut self, want: usize) -> (taken: usize)
        requires
            permits::free(old(self).semaphore) <= permits::most(),
        ensures
            taken == (if permits::closed(old(self).semaphore) {
                0
            } else {
                ledger::min(want as nat, permits::free(old(self).semaphore))
            }),
            permits::free(final(self).semaphore) == permits::free(old(self).semaphore) - taken,
            final(self)@ == old(self)@,
            final(self).retiring == old(self).retiring,
    {
        let mut taken: usize = 0;
        let ghost open = permits::free(self.semaphore);
        loop
            invariant
                self@ == old(self)@,
                self.retiring == old(self).retiring,
                open == permits::free(old(self).semaphore),
                open <= permits::most(),
                taken <= want,
                permits::free(self.semaphore) + taken == open,
                taken > 0 ==> !self@.closed,
            ensures
                taken == (if self@.closed {
                    0
                } else {
                    ledger::min(want as nat, open)
                }),
            decreases want - taken,
        {
            // the semaphore hands out at most `u32::MAX` at once: take bigger amounts in chunks
            let available = permits::available(&self.semaphore);
            let rest: usize = want - taken;
            let wanted: usize = if available <= rest {
                available
            } else {
                rest
            };
            let n: u32 = if wanted <= u32::MAX as usize {
                wanted as u32
            } else {
                u32::MAX
            };
            if n == 0 {
                break;
            }
            match permits::take(&mut self.semaphore, n) {
                Ok(()) => {
                    taken = taken + n as usize;
                },
                Err(TryAcquireError::Closed) => {
                    break;
                },
                // there were enough
                Err(TryAcquireError::NoPermits) => {
                    assert(false);
                },
            }
        }
        taken
    }

    /// Put `n` permits (back) into circulation, first retiring any a shrink still owes.
    fn circulate(&mut self, n: usize)
        requires
            old(self).adds_up(n as nat),
        ensures
            final(self).adds_up(0),
            final(self)@ == old(self)@,
    {
        let retired: usize = if self.retiring <= n {
            self.retiring
        } else {
            n
        };
        self.retiring = self.retiring - retired;
        permits::put(&mut self.semaphore, n - retired);
    }

    /// Count `permits` that were taken out of the semaphore as held by a ticket.
    fn ticket(&mut self, permits: usize) -> (r: Ticket)
        requires
            old(self).adds_up(permits as nat),
            old(self).shrinks % 2 == 0,
            permits > 0 ==> old(self).retiring == 0,
        ensures
            final(self).wf(),
            final(self)@ == old(self)@.admitted(permits as nat),
            r@ == (TicketModel { bell: old(self)@.bell, permits: permits as nat }),
    {
        self.held = self.held + permits;
        Ticket { bell: self.bell.clone(), permits }
    }

    /// Ask for one more item to be let in, and get a ticket for it if there is room.
    ///
    /// Without room the answer is `None`: ask again when there may be. Fails with [`Closed`] if
    /// the `Gate` is closed.
    pub fn acquire(&mut self) -> (r: Result<Option<Ticket>, Closed>)
        requires
            old(self).wf(),
        ensures
            final(self).wf(),
            r is Err <==> old(self)@.closed,
            r is Ok ==> (r->Ok_0 is Some <==> old(self)@.free() > 0),
            match r {
                Ok(Some(ticket)) => {
                    &&& final(self)@ == old(self)@.admitted(1)
                    &&& ticket@ == (TicketModel { bell: old(self)@.bell, permits: 1 })
                },
                _ => final(self)@ == old(self)@,
            },
    {
        self.acquire_up_to(1)
    }

    /// Ask for a ticket for a batch of up to `max` items.
    ///
    /// It holds as many permits as are free right now, up to `max`. So nobody ever sits waiting
    /// for a full batch. Take a batch the size of the ticket, and if you end up with fewer items,
    /// give back the rest with [`release_n`](Ticket::release_n).
    ///
    /// Without a free permit the answer is `None`: ask again when there may be one. A `max` of 0
    /// counts as 1. Fails with [`Closed`] if the `Gate` is closed.
    pub fn acquire_up_to(&mut self, max: usize) -> (r: Result<Option<Ticket>, Closed>)
        requires
            old(self).wf(),
        ensures
            final(self).wf(),
            r is Err <==> old(self)@.closed,
            r is Ok ==> (r->Ok_0 is Some <==> old(self)@.free() > 0),
            match r {
                Ok(Some(ticket)) => {
                    let permits = ledger::min(ledger::max(max as nat, 1), old(self)@.free());
                    &&& final(self)@ == old(self)@.admitted(permits)
                    &&& ticket@ == (TicketModel { bell: old(self)@.bell, permits })
                    // at least one and no more than asked for, and fewer only up to the limit
                    &&& 1 <= permits && (permits <= max || max == 0 && permits == 1)
                    &&& old(self)@.held + permits <= old(self)@.limit
                    &&& permits < max ==> old(self)@.held + permits == old(self)@.limit
                },
                _ => final(self)@ == old(self)@,
            },
    {
        if self.is_closed() {
            return Err(Closed);
        }
        let want: usize = if max == 0 {
            1
        } else {
            max
        };
        Ok(self.try_acquire_up_to(want))
    }

    /// Like [`acquire_up_to`](Self::acquire_up_to), for those who don't wait.
    ///
    /// Returns `None` if no permit is free right now, the `Gate` is closed, or `max` is 0.
    pub fn try_acquire_up_to(&mut self, max: usize) -> (r: Option<Ticket>)
        requires
            old(self).wf(),
        ensures
            final(self).wf(),
            r is Some <==> old(self)@.available(max as nat) > 0,
            match r {
                Some(ticket) => {
                    let permits = old(self)@.available(max as nat);
                    &&& final(self)@ == old(self)@.admitted(permits)
                    &&& ticket@ == (TicketModel { bell: old(self)@.bell, permits })
                },
                None => final(self)@ == old(self)@,
            },
    {
        let permits = self.take_free(max);
        if permits == 0 {
            None
        } else {
            Some(self.ticket(permits))
        }
    }

    /// Ask for the turn to gather permits for an item of the given `weight`.
    ///
    /// Weighted items are let in one at a time, so while another has its turn the answer is
    /// `None`: ask again when that one is done. Fails with [`Closed`] if the `Gate` is closed. A
    /// `weight` of 0 counts as 1.
    pub fn start_weighted(&mut self, weight: usize) -> (r: Result<Option<Reservation>, Closed>)
        requires
            old(self).wf(),
        ensures
            final(self).wf(),
            r is Err <==> old(self)@.closed,
            r is Ok ==> (r->Ok_0 is Some <==> !old(self)@.turn),
            match r {
                Ok(Some(reservation)) => {
                    &&& final(self)@ == (Ledger { turn: true, ..old(self)@ })
                    &&& reservation@ == (ReservationModel {
                        bell: old(self)@.bell,
                        weight: ledger::max(weight as nat, 1),
                        permits: 0,
                        seen: old(self)@.shrinks,
                    })
                },
                _ => final(self)@ == old(self)@,
            },
    {
        if self.is_closed() {
            return Err(Closed);
        }
        if self.turn {
            return Ok(None);
        }
        self.turn = true;
        let weight: usize = if weight == 0 {
            1
        } else {
            weight
        };
        Ok(Some(Reservation { bell: self.bell.clone(), weight, permits: 0, seen: self.shrinks }))
    }

    /// Go on gathering permits for the weighted item whose turn it is, and get its ticket once
    /// it fits. See [Weighted items](Self#weighted-items).
    ///
    /// The item sets aside permits as they come free, so light items can't keep overtaking it.
    /// Permits set aside count as [`in_flight`](Self::in_flight), since nobody else can use them.
    /// If the limit has been lowered meanwhile, the item gives back everything it set aside and
    /// starts over, so it never gets in on permits the new limit doesn't allow.
    ///
    /// An item heavier than the limit gets a ticket for the whole limit instead, once nothing
    /// else is inside. While it doesn't fit the answer is `None`: ask again when it may. Fails
    /// with [`Closed`] if the `Gate` is closed. With a ticket or a failure the turn ends and the
    /// reservation is left with nothing.
    pub fn acquire_weighted(&mut self, reservation: &mut Reservation) -> (r: Result<
        Option<Ticket>,
        Closed,
    >)
        requires
            old(self).wf(),
            old(self)@.turn,
            old(reservation)@.bell == old(self)@.bell,
            old(reservation)@.permits <= old(self)@.held,
        ensures
            final(self).wf(),
            final(reservation)@.bell == old(reservation)@.bell,
            final(reservation)@.weight == old(reservation)@.weight,
            final(reservation)@.seen == old(self)@.shrinks,
            ({
                let (ledger, permits) = old(reservation)@.refreshed(old(self)@);
                let share = ledger.share(old(reservation)@.weight);
                if permits + ledger.available((share - permits) as nat) >= share {
                    let granted = ledger::max(permits, share);
                    &&& r is Ok && r->Ok_0 is Some
                    &&& r->Ok_0->0@ == (TicketModel { bell: ledger.bell, permits: granted })
                    &&& final(self)@ == (Ledger {
                        turn: false,
                        ..ledger.admitted((granted - permits) as nat)
                    })
                    &&& final(reservation)@.permits == 0
                } else if ledger.closed {
                    &&& r is Err
                    &&& final(self)@ == (Ledger { turn: false, ..ledger.put_back(permits) })
                    &&& final(reservation)@.permits == 0
                } else {
                    &&& r is Ok && r->Ok_0 is None
                    &&& final(self)@ == ledger.admitted(ledger.free())
                    &&& final(reservation)@.permits == permits + ledger.free()
                }
            }),
            // no permit gets lost, and an item that gets in takes its weight or the whole limit
            final(self)@.held + old(reservation)@.permits == old(self)@.held
                + final(reservation)@.permits + (if r is Ok && r->Ok_0 is Some {
                r->Ok_0->0@.permits
            } else {
                0
            }),
            r is Ok && r->Ok_0 is Some && old(reservation)@.sound(old(self)@) ==> {
                let (weight, limit) = (old(reservation)@.weight, old(self)@.limit);
                &&& final(self)@.held <= limit
                &&& 1 <= weight <= limit ==> r->Ok_0->0@.permits == weight
                &&& limit <= weight ==> r->Ok_0->0@.permits == limit && final(self)@.held == limit
            },
            r is Err ==> old(self)@.closed,
    {
        let ghost (ledger, permits) = old(reservation)@.refreshed(old(self)@);
        let ghost share = ledger.share(old(reservation)@.weight);
        let ghost mut gathered: nat = 0;
        loop
            invariant
                self.wf(),
                self@.turn,
                old(self).wf(),
                (ledger, permits) == old(reservation)@.refreshed(old(self)@),
                share == ledger.share(old(reservation)@.weight),
                reservation@.bell == old(reservation)@.bell,
                reservation@.weight == old(reservation)@.weight,
                old(reservation)@.bell == old(self)@.bell,
                old(reservation)@.permits <= old(self)@.held,
                self@.shrinks == old(self)@.shrinks,
                if reservation@.seen == self@.shrinks {
                    &&& reservation@.permits == permits + gathered
                    &&& self@ == ledger.admitted(gathered)
                    &&& gathered > 0 ==> permits < share && gathered == ledger.available(
                        (share - permits) as nat,
                    )
                } else {
                    &&& self@ == old(self)@
                    &&& reservation@ == old(reservation)@
                    &&& gathered == 0
                },
            decreases
                if reservation@.seen == self@.shrinks {
                    0int
                } else {
                    1
                },
                share - gathered,
        {
            let step = next_move(
                reservation.weight,
                reservation.permits,
                reservation.seen,
                self.limit,
                self.shrinks,
            );
            match step {
                Move::Restart => {
                    // what was gathered fit the old limit, not necessarily the new one: hand it
                    // all back, where it pays off the shrink first
                    let n = reservation.permits;
                    reservation.permits = 0;
                    reservation.seen = self.shrinks;
                    self.put_back(n);
                },
                Move::Hold => {
                    assert(false);
                    return Ok(None);
                },
                Move::Admit => {
                    let n = reservation.permits;
                    reservation.permits = 0;
                    self.turn = false;
                    return Ok(Some(Ticket { bell: self.bell.clone(), permits: n }));
                },
                Move::Take(want) => {
                    let n = self.take_free(want);
                    if n > 0 {
                        self.held = self.held + n;
                        reservation.permits = reservation.permits + n;
                        proof {
                            gathered = gathered + n as nat;
                        }
                    } else if self.is_closed() {
                        let n = reservation.permits;
                        reservation.permits = 0;
                        self.turn = false;
                        self.put_back(n);
                        return Err(Closed);
                    } else {
                        return Ok(None);
                    }
                },
            }
        }
    }

    /// Give up on a weighted item that waits for its permits: what it set aside goes back, and
    /// its turn ends.
    pub fn abandon(&mut self, reservation: Reservation)
        requires
            old(self).wf(),
            reservation@.bell == old(self)@.bell,
            reservation@.permits <= old(self)@.held,
        ensures
            final(self).wf(),
            final(self)@ == (Ledger { turn: false, ..old(self)@.put_back(reservation@.permits) }),
    {
        self.turn = false;
        self.put_back(reservation.permits);
    }

    /// Take back a ticket whose items never got in: its permits don't count as having left the
    /// pipeline. Returns whether that left the `Gate` [`drained`](Self::drained).
    pub fn take_back(&mut self, ticket: Ticket) -> (r: bool)
        requires
            old(self).wf(),
            ticket@.held_from(old(self)@),
        ensures
            final(self).wf(),
            final(self)@ == old(self)@.put_back(ticket@.permits),
            r == (ticket@.permits > 0 && final(self)@.drained()),
    {
        self.put_back(ticket.permits)
    }

    /// Like [`acquire_weighted`](Self::acquire_weighted), for those who don't wait.
    ///
    /// Returns `None` if the item doesn't fit right now, another weighted item has its turn, or
    /// the `Gate` is closed.
    pub fn try_acquire_weighted(&mut self, weight: usize) -> (r: Option<Ticket>)
        requires
            old(self).wf(),
        ensures
            final(self).wf(),
            ({
                let share = old(self)@.share(weight as nat);
                if !old(self)@.turn && old(self)@.available(share) == share {
                    &&& r is Some
                    &&& r->0@ == (TicketModel { bell: old(self)@.bell, permits: share })
                    &&& final(self)@ == old(self)@.admitted(share)
                } else {
                    &&& r is None
                    &&& final(self)@ == old(self)@
                }
            }),
    {
        if self.turn {
            return None;
        }
        // mid-shrink, free permits may be ones the shrink is about to retire
        if self.shrinks % 2 == 1 {
            return None;
        }
        let share = weighted_share(weight, self.limit);
        let n = self.take_free(share);
        let ticket = self.ticket(n);
        if n == share {
            Some(ticket)
        } else {
            // not all of it was free
            self.put_back(n);
            None
        }
    }

    /// Return `n` held permits without counting them as having left the pipeline. Returns whether
    /// that left the `Gate` [`drained`](Self::drained).
    fn put_back(&mut self, n: usize) -> (r: bool)
        requires
            old(self).wf(),
            n <= old(self)@.held,
        ensures
            final(self).wf(),
            final(self)@ == old(self)@.put_back(n as nat),
            r == (n > 0 && final(self)@.drained()),
    {
        if n == 0 {
            return false;
        }
        self.held = self.held - n;
        self.circulate(n);
        self.held == 0 && self.admitting == 0
    }

    /// Return `n` held permits, counting them as completed or released. Returns whether that
    /// left the `Gate` [`drained`](Self::drained).
    fn give_back(&mut self, n: usize, completed: bool) -> (r: bool)
        requires
            old(self).wf(),
            n <= old(self)@.held,
        ensures
            final(self).wf(),
            final(self)@ == old(self)@.given_back(n as nat, completed),
            r == (n > 0 && final(self)@.drained()),
    {
        if completed {
            self.completed = self.completed.wrapping_add(n as u64);
        } else {
            self.released = self.released.wrapping_add(n as u64);
        }
        self.put_back(n)
    }

    /// Resize the limit to `target`, capped at what a semaphore can hold. Held permits beyond it
    /// retire as they return. Returns whether the limit shrank, so that a weighted item waiting
    /// for permits has to be asked again.
    pub fn resize(&mut self, target: usize) -> (r: bool)
        requires
            old(self).wf(),
        ensures
            final(self).wf(),
            final(self)@ == old(self)@.resized(target as nat),
            r == (final(self)@.limit < old(self)@.limit),
    {
        let most = permits::max_permits();
        let target: usize = if target <= most {
            target
        } else {
            most
        };
        let current: usize = self.limit;
        let shrinking: bool = target < current;
        // the shrink count is odd while a shrink is underway and even once its limit and debt
        // are recorded
        if shrinking {
            self.shrinks = self.shrinks.wrapping_add(1);
        }
        self.limit = target;
        if target > current {
            // pays off pending retirements before adding permits
            self.circulate(target - current);
        } else if target < current {
            // record the whole debt first, then pay it with free permits; circulating the
            // forgotten ones pays what's still owed
            let shrink: usize = current - target;
            self.retiring = self.retiring + shrink;
            let forgotten = permits::forget(&mut self.semaphore, shrink);
            self.circulate(forgotten);
        }
        if shrinking {
            // done: even again
            self.shrinks = self.shrinks.wrapping_add(1);
        }
        shrinking
    }

    /// Count an acquire as in progress. It stays so until [`end_admission`](Self::end_admission),
    /// whether it got in or was given up.
    pub fn begin_admission(&mut self)
        requires
            old(self).wf(),
            old(self)@.admitting < usize::MAX,
        ensures
            final(self).wf(),
            final(self)@ == (Ledger { admitting: old(self)@.admitting + 1, ..old(self)@ }),
    {
        self.admitting = self.admitting + 1;
    }

    /// How many acquires are in progress.
    pub fn admitting(&self) -> (r: usize)
        ensures
            r == self@.admitting,
    {
        self.admitting
    }

    /// Count one acquire less as in progress. Returns whether that left the `Gate`
    /// [`drained`](Self::drained).
    pub fn end_admission(&mut self) -> (r: bool)
        requires
            old(self).wf(),
            old(self)@.admitting > 0,
        ensures
            final(self).wf(),
            final(self)@ == (Ledger { admitting: (old(self)@.admitting - 1) as nat, ..old(self)@ }),
            r == final(self)@.drained(),
    {
        self.admitting = self.admitting - 1;
        self.admitting == 0 && self.held == 0
    }

    /// Whether every ticket has been given back and no acquire is in progress.
    ///
    /// Use it for a clean shutdown: [`close`](Self::close) the `Gate`, then wait until it is
    /// drained.
    pub fn drained(&self) -> (r: bool)
        ensures
            r == self@.drained(),
    {
        self.admitting == 0 && self.held == 0
    }

    /// Stop letting items in.
    ///
    /// Anyone asking from now on gets [`Closed`]. Items already inside keep their tickets and
    /// finish normally. Closing can't be undone.
    pub fn close(&mut self)
        requires
            old(self).wf(),
        ensures
            final(self).wf(),
            final(self)@ == (Ledger { closed: true, ..old(self)@ }),
    {
        permits::close(&mut self.semaphore);
    }

    /// Its bell: what to wait for, and to wake those who wait with when permits have come back,
    /// the limit has changed or it has been closed.
    pub fn bell(&self) -> (r: &Bell)
        ensures
            r@ == self@.bell,
    {
        &self.bell
    }

    /// Permits to keep when they come back, because the limit has been lowered below what is held.
    pub fn retiring(&self) -> (r: usize)
        requires
            self.wf(),
        ensures
            r == self@.owed(),
    {
        self.retiring
    }

    /// The most items the `Gate` lets in at once.
    ///
    /// Right after the limit is lowered, more items than this can still be inside, since the
    /// gate waits for them to finish rather than taking their permits back.
    pub fn limit(&self) -> (r: usize)
        ensures
            r == self@.limit,
    {
        self.limit
    }

    /// Total permits returned by completing so far.
    pub fn completed(&self) -> (r: u64)
        ensures
            r == self@.completed,
    {
        self.completed
    }

    /// Total permits returned without completing so far.
    pub fn released(&self) -> (r: u64)
        ensures
            r == self@.released,
    {
        self.released
    }

    /// How many items are inside right now: permits handed out and not yet given back.
    ///
    /// This includes permits set aside by a [weighted](Self::acquire_weighted) item still
    /// waiting to get in, since nobody else can use them either.
    pub fn in_flight(&self) -> (r: usize)
        ensures
            r == self@.held,
    {
        self.held
    }

    /// Whether [`close`](Self::close) has been called.
    pub fn is_closed(&self) -> (r: bool)
        ensures
            r == self@.closed,
    {
        permits::is_closed(&self.semaphore)
    }
}

/// The permits that an item of the given weight takes at the given limit: at a limit of 0, one
/// that only comes once the limit grows.
fn weighted_share(weight: usize, limit: usize) -> (r: usize)
    ensures
        r == ledger::max(ledger::min(ledger::max(weight as nat, 1), limit as nat), 1),
{
    let weight: usize = if weight == 0 {
        1
    } else {
        weight
    };
    let capped: usize = if weight <= limit {
        weight
    } else {
        limit
    };
    if capped == 0 {
        1
    } else {
        capped
    }
}

/// What a weighted item does next.
pub enum Move {
    /// hand back everything gathered before a shrink, and start over
    Restart,
    /// wait for a shrink that is underway
    Hold,
    /// get in with what it has gathered
    Admit,
    /// gather up to so many more permits
    Take(usize),
}

/// What an item of the given weight does next that has set aside `permits` and knows of the
/// shrinks in `seen`, when it reads the given limit and shrink count.
///
/// A shrink makes the count odd before it lowers the limit, and even again once it has recorded
/// its debt. Until then permits that are free may be ones it is about to retire.
pub fn next_move(weight: usize, permits: usize, seen: u64, limit: usize, shrinks: u64) -> (r: Move)
    ensures
        ({
            let share = ledger::max(ledger::min(ledger::max(weight as nat, 1), limit as nat), 1);
            if shrinks != seen {
                r is Restart
            } else if shrinks % 2 == 1 {
                r is Hold
            } else if permits >= share {
                r is Admit
            } else {
                r == Move::Take((share - permits) as usize)
            }
        }),
{
    if shrinks != seen {
        return Move::Restart;
    }
    if shrinks % 2 == 1 {
        return Move::Hold;
    }
    let share = weighted_share(weight, limit);
    if permits >= share {
        Move::Admit
    } else {
        Move::Take(share - permits)
    }
}

/// Permission for some items to be inside the pipeline, from a [`Gate`].
///
/// Send the ticket along with its items through the pipeline. When they are done, hand it back
/// with [`complete`](Self::complete). If they failed or were never used, use
/// [`release`](Self::release) instead. Only completed items count as progress when a policy
/// judges how fast the pipeline is going.
///
/// A ticket is just a count of permits. It doesn't know which items it belongs to. When a stage
/// splits a batch in two or joins batches together, do the same with the tickets using
/// [`split`](Self::split) and [`merge`](Self::merge).
#[must_use]
pub struct Ticket {
    bell: Bell,
    permits: usize,
}

impl View for Ticket {
    type V = TicketModel;

    closed spec fn view(&self) -> TicketModel {
        TicketModel { bell: self.bell@, permits: self.permits as nat }
    }
}

impl Ticket {
    /// How many permits this ticket holds.
    pub fn len(&self) -> (r: usize)
        ensures
            r == self@.permits,
    {
        self.permits
    }

    /// Whether the permits come from the given gate.
    pub fn is_from(&self, gate: &Gate) -> (r: bool)
        ensures
            r == (self@.bell == gate@.bell),
    {
        self.bell.same(&gate.bell)
    }

    /// Whether both tickets come from the same gate.
    pub fn can_merge(&self, other: &Ticket) -> (r: bool)
        ensures
            r == (self@.bell == other@.bell),
    {
        self.bell.same(&other.bell)
    }

    /// Whether this ticket holds no permits.
    pub fn is_empty(&self) -> (r: bool)
        ensures
            r == (self@.permits == 0),
    {
        self.permits == 0
    }

    /// Move `n` permits into a new ticket, for example to give each item in a batch its own.
    pub fn split(&mut self, n: usize) -> (r: Ticket)
        requires
            n <= old(self)@.permits,
        ensures
            final(self)@ == old(self)@.without(n as nat),
            r@ == (TicketModel { permits: n as nat, ..old(self)@ }),
    {
        self.permits = self.permits - n;
        Ticket { bell: self.bell.clone(), permits: n }
    }

    /// Move all of `other`'s permits into this ticket, for example when batches are joined. Both
    /// have to come from the same gate.
    pub fn merge(&mut self, other: Ticket)
        requires
            old(self)@.bell == other@.bell,
            old(self)@.permits + other@.permits <= usize::MAX,
        ensures
            final(self)@ == (TicketModel {
                permits: old(self)@.permits + other@.permits,
                ..old(self)@
            }),
    {
        self.permits = self.permits + other.permits;
    }

    /// Hand back every permit, counting its items as done. Returns whether that left the `Gate`
    /// [`drained`](Gate::drained).
    pub fn complete(self, gate: &mut Gate) -> (r: bool)
        requires
            old(gate).wf(),
            self@.held_from(old(gate)@),
        ensures
            final(gate).wf(),
            final(gate)@ == old(gate)@.given_back(self@.permits, true),
            r == (self@.permits > 0 && final(gate)@.drained()),
    {
        gate.give_back(self.permits, true)
    }

    /// Hand back `n` permits, counting their items as done, and keep the rest. Returns whether
    /// that left the `Gate` [`drained`](Gate::drained).
    pub fn complete_n(&mut self, gate: &mut Gate, n: usize) -> (r: bool)
        requires
            old(gate).wf(),
            old(self)@.held_from(old(gate)@),
            n <= old(self)@.permits,
        ensures
            final(gate).wf(),
            final(self)@ == old(self)@.without(n as nat),
            final(gate)@ == old(gate)@.given_back(n as nat, true),
            r == (n > 0 && final(gate)@.drained()),
    {
        self.permits = self.permits - n;
        gate.give_back(n, true)
    }

    /// Hand back every permit without counting its items as done, for items that failed or
    /// were never used. Returns whether that left the `Gate` [`drained`](Gate::drained).
    pub fn release(self, gate: &mut Gate) -> (r: bool)
        requires
            old(gate).wf(),
            self@.held_from(old(gate)@),
        ensures
            final(gate).wf(),
            final(gate)@ == old(gate)@.given_back(self@.permits, false),
            r == (self@.permits > 0 && final(gate)@.drained()),
    {
        gate.give_back(self.permits, false)
    }

    /// Hand back `n` permits without counting their items as done, and keep the rest. Returns
    /// whether that left the `Gate` [`drained`](Gate::drained).
    pub fn release_n(&mut self, gate: &mut Gate, n: usize) -> (r: bool)
        requires
            old(gate).wf(),
            old(self)@.held_from(old(gate)@),
            n <= old(self)@.permits,
        ensures
            final(gate).wf(),
            final(self)@ == old(self)@.without(n as nat),
            final(gate)@ == old(gate)@.given_back(n as nat, false),
            r == (n > 0 && final(gate)@.drained()),
    {
        self.permits = self.permits - n;
        gate.give_back(n, false)
    }
}

/// Permits a weighted item has gathered so far. They count as held, so the policy sees them
/// and a shrink retires them when they come back.
#[must_use]
pub struct Reservation {
    bell: Bell,
    weight: usize,
    permits: usize,
    seen: u64,
}

impl View for Reservation {
    type V = ReservationModel;

    closed spec fn view(&self) -> ReservationModel {
        ReservationModel {
            bell: self.bell@,
            weight: self.weight as nat,
            permits: self.permits as nat,
            seen: self.seen,
        }
    }
}

} // verus!
