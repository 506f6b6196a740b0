//! What a gate lets in, and what comes back.

use starve_not::gate::{next_move, Move};
use starve_not::{Closed, Gate, Ticket};

fn take(gate: &mut Gate, max: usize) -> Ticket {
    gate.acquire_up_to(max).unwrap().unwrap()
}

#[test]
fn lets_in_up_to_the_limit() {
    let mut gate = Gate::new(2);
    let one = gate.acquire().unwrap().unwrap();
    let two = gate.acquire().unwrap().unwrap();
    assert_eq!((one.len(), two.len()), (1, 1));
    assert_eq!((gate.in_flight(), gate.limit()), (2, 2));
    assert!(gate.acquire().unwrap().is_none());
    assert!(!one.complete(&mut gate));
    assert!(gate.acquire().unwrap().is_some());
    assert_eq!((gate.completed(), gate.released()), (1, 0));
}

#[test]
fn batches_take_what_is_free() {
    let mut gate = Gate::new(5);
    let three = take(&mut gate, 3);
    let two = take(&mut gate, 3);
    assert_eq!((three.len(), two.len()), (3, 2));
    assert!(gate.acquire_up_to(3).unwrap().is_none());
    assert!(gate.try_acquire_up_to(3).is_none());
    two.release(&mut gate);
    assert!(gate.try_acquire_up_to(0).is_none());
    // 0 counts as 1 for those who wait
    assert_eq!(take(&mut gate, 0).len(), 1);
    assert_eq!(gate.try_acquire_up_to(10).unwrap().len(), 1);
    assert_eq!(gate.released(), 2);
}

#[test]
fn limit_is_capped_at_what_a_semaphore_holds() {
    let most = usize::MAX >> 3;
    let mut gate = Gate::new(usize::MAX);
    assert_eq!(gate.limit(), most);
    gate.resize(10);
    assert_eq!(gate.limit(), 10);
    gate.resize(usize::MAX);
    assert_eq!(gate.limit(), most);
    // more than a semaphore hands out at once
    let many = 3 * (u32::MAX as usize) + 5;
    gate.resize(many);
    let all = take(&mut gate, usize::MAX);
    assert_eq!(all.len(), many);
    assert!(all.release(&mut gate));
    assert_eq!(gate.in_flight(), 0);
}

#[test]
fn lowering_interrupts_nothing() {
    let mut gate = Gate::new(8);
    let mut ticket = take(&mut gate, 8);
    assert!(gate.resize(3));
    assert_eq!((gate.limit(), gate.in_flight(), ticket.len()), (3, 8, 8));
    // the next permits to come back are kept
    ticket.complete_n(&mut gate, 5);
    assert!(gate.try_acquire_up_to(8).is_none());
    ticket.complete_n(&mut gate, 1);
    assert_eq!(gate.try_acquire_up_to(8).unwrap().len(), 1);
    assert_eq!((gate.in_flight(), gate.completed()), (3, 6));
    assert!(!gate.resize(3));
    assert!(!gate.resize(4));
    assert_eq!(gate.try_acquire_up_to(8).unwrap().len(), 1);
}

#[test]
fn raising_pays_off_what_is_owed_first() {
    let mut gate = Gate::new(8);
    let ticket = take(&mut gate, 8);
    gate.resize(2);
    gate.resize(6);
    assert!(gate.try_acquire_up_to(1).is_none());
    gate.resize(9);
    assert_eq!(gate.try_acquire_up_to(9).unwrap().len(), 1);
    ticket.complete(&mut gate);
    assert_eq!(gate.try_acquire_up_to(9).unwrap().len(), 8);
}

#[test]
fn lowering_uses_free_permits_first() {
    let mut gate = Gate::new(10);
    let ticket = take(&mut gate, 4);
    gate.resize(5);
    assert_eq!(gate.try_acquire_up_to(10).unwrap().len(), 1);
    ticket.release(&mut gate);
    assert_eq!(gate.try_acquire_up_to(10).unwrap().len(), 4);
}

/// Whatever happens, what is counted as inside is what was handed out less what came back, it
/// stays within the highest limit, and free permits and those inside add up.
#[test]
fn never_loses_track() {
    let mut gate = Gate::new(6);
    let mut tickets: Vec<Ticket> = Vec::new();
    let mut seed = 0x9e37_79b9_7f4a_7c15u64;
    let mut highest = 6usize;
    for _ in 0..5000 {
        seed ^= seed << 13;
        seed ^= seed >> 7;
        seed ^= seed << 17;
        let n = (seed >> 20) as usize % 9;
        match seed % 7 {
            0 | 1 => {
                let before = gate.in_flight();
                if let Some(ticket) = gate.try_acquire_up_to(n) {
                    assert!(ticket.len() <= n);
                    assert!(before + ticket.len() <= gate.limit());
                    tickets.push(ticket);
                }
            }
            2 => {
                if let Some(ticket) = gate.try_acquire_weighted(n) {
                    assert!(gate.in_flight() <= gate.limit());
                    tickets.push(ticket);
                }
            }
            3 => {
                gate.resize(n);
                highest = highest.max(n);
            }
            4 => {
                if let Some(ticket) = tickets.pop() {
                    ticket.complete(&mut gate);
                }
            }
            5 => {
                if let Some(ticket) = tickets.last_mut() {
                    let part = n.min(ticket.len());
                    ticket.release_n(&mut gate, part);
                }
            }
            _ => {
                if let Some(mut ticket) = tickets.pop() {
                    let part = n.min(ticket.len());
                    let off = ticket.split(part);
                    tickets.push(off);
                    tickets.push(ticket);
                }
            }
        }
        let out: usize = tickets.iter().map(Ticket::len).sum();
        assert_eq!(gate.in_flight(), out);
        assert!(out <= highest);
    }
    for ticket in tickets {
        ticket.release(&mut gate);
    }
    assert!(gate.drained());
    gate.resize(7);
    assert_eq!(take(&mut gate, 100).len(), 7);
}

#[test]
fn closing_is_for_good() {
    let mut gate = Gate::new(3);
    let ticket = take(&mut gate, 1);
    assert!(!gate.is_closed());
    gate.close();
    assert!(gate.is_closed());
    assert_eq!(gate.acquire().err(), Some(Closed));
    assert_eq!(gate.acquire_up_to(2).err(), Some(Closed));
    assert!(gate.start_weighted(1).is_err());
    assert!(gate.try_acquire_up_to(1).is_none());
    assert!(gate.try_acquire_weighted(1).is_none());
    // what is inside finishes as ever
    assert!(!gate.drained());
    assert!(ticket.complete(&mut gate));
    assert!(gate.drained());
    assert_eq!(gate.completed(), 1);
    gate.resize(10);
    assert_eq!(gate.limit(), 10);
    assert!(gate.is_closed());
    assert_eq!(gate.acquire().err(), Some(Closed));
    assert_eq!(Closed.message(), "gate closed");
}

#[test]
fn drained_waits_for_those_on_the_way_in() {
    let mut gate = Gate::new(1);
    assert!(gate.drained());
    gate.begin_admission();
    gate.begin_admission();
    let ticket = take(&mut gate, 1);
    assert!(!gate.end_admission());
    assert!(!ticket.complete(&mut gate));
    assert!(!gate.drained());
    assert!(gate.end_admission());
    assert!(gate.drained());
}

#[test]
fn tickets_split_and_merge() {
    let mut gate = Gate::new(10);
    let mut ticket = take(&mut gate, 6);
    let mut part = ticket.split(2);
    assert!(ticket.can_merge(&part));
    assert_eq!((ticket.len(), part.len()), (4, 2));
    let empty = part.split(0);
    assert!(empty.is_empty());
    ticket.merge(part);
    ticket.merge(empty);
    assert_eq!(ticket.len(), 6);
    let all = ticket.split(6);
    assert!(ticket.is_empty());
    assert!(!ticket.complete(&mut gate));
    assert!(!all.is_empty());
    assert!(all.release(&mut gate));
    assert_eq!((gate.completed(), gate.released()), (0, 6));
}

/// Each ticket knows where it goes back to, and is merged only with others from there.
#[test]
fn tickets_know_their_own_gate() {
    let mut downloads = Gate::new(4);
    let mut pipeline = Gate::new(4);
    let mut ticket = take(&mut downloads, 3);
    let stranger = take(&mut pipeline, 2);
    let part = ticket.split(1);
    downloads.resize(1);
    pipeline.close();
    assert!(ticket.is_from(&downloads) && part.is_from(&downloads));
    assert!(!ticket.is_from(&pipeline) && !stranger.is_from(&downloads));
    assert!(ticket.can_merge(&part));
    assert!(!ticket.can_merge(&stranger) && !stranger.can_merge(&part));
    let bell = downloads.bell().clone();
    assert!(bell.same(downloads.bell()) && !bell.same(pipeline.bell()));
    assert!(!ticket.complete(&mut downloads));
    assert!(part.release(&mut downloads));
    assert!(stranger.complete(&mut pipeline));
}

#[test]
fn lowered_limit_owes_permits() {
    let mut gate = Gate::new(8);
    let mut ticket = take(&mut gate, 6);
    assert_eq!(gate.retiring(), 0);
    gate.resize(2);
    assert_eq!(gate.retiring(), 4);
    ticket.complete_n(&mut gate, 3);
    assert_eq!(gate.retiring(), 1);
    gate.resize(5);
    assert_eq!(gate.retiring(), 0);
}

#[test]
fn tickets_that_never_got_in_are_taken_back() {
    let mut gate = Gate::new(4);
    let ticket = take(&mut gate, 3);
    assert!(gate.take_back(ticket));
    assert_eq!((gate.in_flight(), gate.completed(), gate.released()), (0, 0, 0));
    assert_eq!(take(&mut gate, 9).len(), 4);
}

#[test]
fn weighted_items_take_their_weight() {
    let mut gate = Gate::new(10);
    let five = gate.try_acquire_weighted(5).unwrap();
    assert_eq!(five.len(), 5);
    assert!(gate.try_acquire_weighted(6).is_none());
    assert_eq!(gate.in_flight(), 5);
    assert_eq!(gate.try_acquire_weighted(0).unwrap().len(), 1);
    five.complete(&mut gate);
    assert_eq!(gate.completed(), 5);
    // heavier than the limit: only alone
    assert!(gate.try_acquire_weighted(99).is_none());
    let mut alone = Gate::new(10);
    assert_eq!(alone.try_acquire_weighted(99).unwrap().len(), 10);
}

#[test]
fn weighted_items_set_permits_aside() {
    let mut gate = Gate::new(10);
    let mut inside = take(&mut gate, 8);
    let mut item = gate.start_weighted(5).unwrap().unwrap();
    // one at a time
    assert!(gate.start_weighted(1).unwrap().is_none());
    assert!(gate.try_acquire_weighted(1).is_none());
    assert!(gate.acquire_weighted(&mut item).unwrap().is_none());
    assert_eq!(gate.in_flight(), 10);
    // light items can't overtake
    assert!(gate.try_acquire_up_to(1).is_none());
    inside.complete_n(&mut gate, 2);
    assert!(gate.acquire_weighted(&mut item).unwrap().is_none());
    assert!(gate.try_acquire_up_to(1).is_none());
    inside.complete_n(&mut gate, 2);
    let ticket = gate.acquire_weighted(&mut item).unwrap().unwrap();
    assert_eq!(ticket.len(), 5);
    assert_eq!((gate.in_flight(), gate.limit()), (9, 10));
    assert!(gate.start_weighted(1).unwrap().is_some());
}

#[test]
fn weighted_items_start_over_after_a_shrink() {
    let mut gate = Gate::new(10);
    let inside = take(&mut gate, 6);
    let mut item = gate.start_weighted(8).unwrap().unwrap();
    assert!(gate.acquire_weighted(&mut item).unwrap().is_none());
    assert_eq!(gate.in_flight(), 10);
    gate.resize(5);
    // what was set aside pays for the shrink
    assert!(gate.acquire_weighted(&mut item).unwrap().is_none());
    assert_eq!(gate.in_flight(), 6);
    inside.release(&mut gate);
    let ticket = gate.acquire_weighted(&mut item).unwrap().unwrap();
    assert_eq!(ticket.len(), 5);
    assert_eq!(gate.in_flight(), 5);
    // only what left the pipeline counts
    assert_eq!((gate.completed(), gate.released()), (0, 6));
}

#[test]
fn weighted_items_wait_for_a_limit() {
    let mut gate = Gate::new(0);
    assert!(gate.acquire().unwrap().is_none());
    let mut item = gate.start_weighted(3).unwrap().unwrap();
    assert!(gate.acquire_weighted(&mut item).unwrap().is_none());
    gate.resize(2);
    assert_eq!(gate.acquire_weighted(&mut item).unwrap().unwrap().len(), 2);
}

#[test]
fn weighted_items_notice_closing_and_giving_up() {
    let mut gate = Gate::new(4);
    let inside = take(&mut gate, 2);
    let mut item = gate.start_weighted(4).unwrap().unwrap();
    assert!(gate.acquire_weighted(&mut item).unwrap().is_none());
    gate.close();
    assert_eq!(gate.acquire_weighted(&mut item).err(), Some(Closed));
    assert_eq!(gate.in_flight(), 2);
    assert!(inside.complete(&mut gate));

    let mut gate = Gate::new(4);
    let inside = take(&mut gate, 2);
    let mut item = gate.start_weighted(4).unwrap().unwrap();
    assert!(gate.acquire_weighted(&mut item).unwrap().is_none());
    gate.abandon(item);
    assert_eq!((gate.in_flight(), gate.released()), (2, 0));
    assert!(gate.start_weighted(4).unwrap().is_some());
    assert_eq!(take(&mut gate, 9).len(), 2);
    assert!(!inside.release(&mut gate));
}

#[test]
fn moves_of_a_weighted_item() {
    assert!(matches!(next_move(5, 3, 2, 10, 4), Move::Restart));
    assert!(matches!(next_move(5, 0, 4, 10, 3), Move::Restart));
    // a shrink is underway
    assert!(matches!(next_move(5, 3, 3, 10, 3), Move::Hold));
    assert!(matches!(next_move(5, 5, 4, 10, 4), Move::Admit));
    assert!(matches!(next_move(5, 3, 4, 10, 4), Move::Take(2)));
    assert!(matches!(next_move(50, 3, 4, 10, 4), Move::Take(7)));
    assert!(matches!(next_move(0, 0, 0, 10, 0), Move::Take(1)));
    assert!(matches!(next_move(5, 0, 0, 0, 0), Move::Take(1)));
}
