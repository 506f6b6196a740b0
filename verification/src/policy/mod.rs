//! Policies: the rules that decide the `Gate`'s limit.
//!
//! Three come with the crate: [`DrainBounded`], [`Aimd`] and [`Fixed`]. To write your own,
//! implement [`Policy`].

pub mod aimd;
pub mod drain_bounded;
pub mod drain_laws;
pub mod drain_meaning;
pub mod drain_model;
pub mod fixed;
pub mod window;

use smallvec::SmallVec;
use vstd::prelude::*;

pub use aimd::{Aimd, AimdBuilder, AimdModel, AimdSettings};
pub use drain_bounded::{DrainBounded, DrainBoundedBuilder};
pub use drain_model::{DrainModel, DrainSettings, RampModel};
pub use fixed::Fixed;
pub use window::{Tally, TallyModel, Window};

use crate::binary64::{Binary64, Value};
use crate::sample::{Observation, Sample};

verus! {

/// Decides what the `Gate`'s limit should be.
///
/// On every tick the [`Pacer`](crate::Pacer) calls [`decide`](Self::decide) with a [`Sample`]
/// of what just happened, and sets the `Gate`'s limit to the answer.
///
/// A policy should work only from the samples it gets: no clocks (use [`Sample::at`] for the
/// time) and no I/O. That way, feeding it the same samples always gives the same answers, which
/// makes policies easy to test.
pub trait Policy: Sized + Send + 'static {
    /// Whether the policy's state is in order, as it is when it was made and after each decision.
    open spec fn wf(&self) -> bool {
        true
    }

    /// Whether the policy starts with `limit`.
    open spec fn starts_with(&self, limit: nat) -> bool {
        true
    }

    /// Whether the policy can judge what was seen: its counters have room for it.
    open spec fn can_judge(&self, seen: Observation) -> bool {
        true
    }

    /// Whether `target` is an answer to what was seen that leaves the policy as `after`.
    open spec fn answers(&self, seen: Observation, after: &Self, target: nat) -> bool {
        true
    }

    /// The limit to start with, before any sample arrives.
    fn initial(&self) -> (r: usize)
        ensures
            self.starts_with(r as nat),
    ;

    /// Whether the policy's counters have room for a sample. A policy without counters always has.
    fn has_room(&self, sample: &Sample) -> (r: bool)
        requires
            self.wf(),
        ensures
            r == self.can_judge(sample@),
    ;

    /// The limit to use from now on, given the latest sample.
    ///
    /// The current limit is [`Sample::limit`]. Return it unchanged to keep it.
    fn decide(&mut self, sample: &Sample) -> (r: usize)
        requires
            old(self).wf(),
            old(self).can_judge(sample@),
        ensures
            final(self).wf(),
            old(self).answers(sample@, final(self), r as nat),
    ;

    /// Values explaining the latest decision, for logs and metrics. Empty by default.
    fn diagnostics(&self) -> (r: Diagnostics)
        requires
            self.wf(),
        default_ensures
            r@ == Seq::<(Seq<char>, Value)>::empty(),
    {
        Diagnostics::new()
    }
}

/// Named numbers a [`Policy`] reports about its latest decision, such as a throughput of 12.5.
#[verifier::external_body]
#[derive(Debug, PartialEq)]
pub struct Diagnostics {
    list: SmallVec<[(&'static str, Binary64); 6]>,
}

/// The names and numbers in a list.
pub uninterp spec fn entries(diagnostics: Diagnostics) -> Seq<(Seq<char>, Value)>;

impl View for Diagnostics {
    type V = Seq<(Seq<char>, Value)>;

    open spec fn view(&self) -> Seq<(Seq<char>, Value)> {
        entries(*self)
    }
}

/// `SmallVec::new`: a list with nothing in it.
#[verifier::external_body]
fn list_new() -> (r: Diagnostics)
    ensures
        entries(r) == Seq::<(Seq<char>, Value)>::empty(),
{
    Diagnostics { list: SmallVec::new() }
}

/// `SmallVec::push`: adds an item at the end. It fails only where memory does.
#[verifier::external_body]
fn list_push(diagnostics: &mut Diagnostics, name: &'static str, value: Binary64)
    ensures
        entries(*final(diagnostics)) == entries(*old(diagnostics)).push((name@, value@)),
{
    diagnostics.list.push((name, value))
}

/// `SmallVec::len`: how many items it holds.
#[verifier::external_body]
fn list_len(diagnostics: &Diagnostics) -> (r: usize)
    ensures
        r == entries(*diagnostics).len(),
{
    diagnostics.list.len()
}

/// Indexing a `SmallVec`: the item at the index. It panics if there is none.
#[verifier::external_body]
fn list_get(diagnostics: &Diagnostics, index: usize) -> (r: (&'static str, Binary64))
    requires
        index < entries(*diagnostics).len(),
    ensures
        r.0@ == entries(*diagnostics)[index as int].0,
        r.1@ == entries(*diagnostics)[index as int].1,
{
    diagnostics.list[index]
}

/// `SmallVec::clone`: a list of copies of the same items.
#[verifier::external_body]
fn list_clone(diagnostics: &Diagnostics) -> (r: Diagnostics)
    ensures
        entries(r) == entries(*diagnostics),
{
    Diagnostics { list: diagnostics.list.clone() }
}

impl Clone for Diagnostics {
    fn clone(&self) -> (r: Self)
        ensures
            r@ == self@,
    {
        list_clone(self)
    }
}

impl Default for Diagnostics {
    fn default() -> (r: Self)
        ensures
            r@ == Seq::<(Seq<char>, Value)>::empty(),
    {
        list_new()
    }
}

impl Diagnostics {
    /// No values.
    pub fn new() -> (r: Self)
        ensures
            r@ == Seq::<(Seq<char>, Value)>::empty(),
    {
        list_new()
    }

    /// Add a value.
    pub fn push(&mut self, name: &'static str, value: Binary64)
        ensures
            final(self)@ == old(self)@.push((name@, value@)),
    {
        list_push(self, name, value);
    }

    /// The values, in the order they were added.
    pub fn iter(&self) -> (r: Vec<(&'static str, Binary64)>)
        ensures
            r@.map_values(|entry: (&'static str, Binary64)| (entry.0@, entry.1@)) == self@,
    {
        let mut all: Vec<(&'static str, Binary64)> = Vec::new();
        let n = list_len(self);
        let mut i: usize = 0;
        while i < n
            invariant
                i <= n == self@.len(),
                all@.len() == i,
                forall|j: int|
                    0 <= j < i ==> (#[trigger] all@[j]).0@ == self@[j].0 && all@[j].1@ == self@[j].1,
            decreases n - i,
        {
            all.push(list_get(self, i));
            i = i + 1;
        }
        assert(all@.map_values(|entry: (&'static str, Binary64)| (entry.0@, entry.1@)) =~= self@);
        all
    }
}

/// 1 if something is so, else 0.
pub open spec fn flag(on: bool) -> Value {
    Value::of_nat(
        if on {
            1
        } else {
            0
        },
    )
}

/// 1 if something is so, else 0.
fn flag_value(on: bool) -> (r: Binary64)
    ensures
        r@ == flag(on),
{
    Binary64::from_u128(
        if on {
            1
        } else {
            0
        },
    )
}

} // verus!
