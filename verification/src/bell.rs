//! The bell of a gate: what those who wait at it listen for, and what tells it from other gates.
//!
//! Each gate has a bell of its own, and its tickets carry it. A `Notify` changes behind shared
//! references, so what Verus takes for its value can't depend on what is inside: it stands for
//! nothing but which `Notify` it is. Two bells are the same exactly if they share one.

use std::sync::Arc;

use tokio::sync::Notify;
use vstd::prelude::*;

verus! {

/// tokio's way to wake whoever waits for something.
#[verifier::external_type_specification]
#[verifier::external_body]
pub struct ExNotify(tokio::sync::Notify);

/// `Notify::new`: one that nobody waits for yet. Nothing tells which one it is.
#[verifier::external_body]
fn notify_new() -> (r: Notify) {
    Notify::new()
}

/// `Arc::clone`: another pointer to the same allocation.
#[verifier::external_body]
fn arc_clone(notify: &Arc<Notify>) -> (r: Arc<Notify>)
    ensures
        *r == **notify,
{
    Arc::clone(notify)
}

/// `Arc::ptr_eq`: whether two pointers point to the same allocation, so to the same `Notify`.
#[verifier::external_body]
fn arc_ptr_eq(one: &Arc<Notify>, other: &Arc<Notify>) -> (r: bool)
    ensures
        r == (**one == **other),
{
    Arc::ptr_eq(one, other)
}

/// The bell of a gate.
#[derive(Debug)]
pub struct Bell {
    notify: Arc<Notify>,
}

impl View for Bell {
    type V = Notify;

    closed spec fn view(&self) -> Notify {
        *self.notify
    }
}

impl Clone for Bell {
    fn clone(&self) -> (r: Self)
        ensures
            r@ == self@,
    {
        Self { notify: arc_clone(&self.notify) }
    }
}

impl Bell {
    /// A bell of its own, so nothing is known of it but what is learned by asking whether it is
    /// the [`same`](Self::same) as another.
    pub fn new() -> (r: Self) {
        Self { notify: Arc::new(notify_new()) }
    }

    /// Whether both are the same bell.
    pub fn same(&self, other: &Bell) -> (r: bool)
        ensures
            r == (self@ == other@),
    {
        arc_ptr_eq(&self.notify, &other.notify)
    }

    /// What to wait for, and to wake those who wait with.
    pub fn notify(&self) -> (r: Arc<Notify>)
        ensures
            *r == self@,
    {
        arc_clone(&self.notify)
    }
}

} // verus!
