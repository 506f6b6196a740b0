//! A policy that never changes the limit.

use vstd::prelude::*;

use super::Policy;
use crate::sample::{Observation, Sample};

verus! {

/// Keeps the limit at one number.
///
/// Useful as a baseline when you want to know whether an adaptive policy actually helps. It also
/// lets you watch a pipeline's samples without the limit changing.
#[derive(Debug, Clone, Copy, PartialEq, Eq, Structural)]
pub struct Fixed {
    limit: usize,
}

impl Fixed {
    /// The limit it keeps.
    pub closed spec fn kept(self) -> nat {
        self.limit as nat
    }

    /// Create a policy that keeps the limit at `limit`, which has to be at least 1, since the
    /// gate would else let nothing in.
    pub fn new(limit: usize) -> (r: Self)
        requires
            limit > 0,
        ensures
            r.kept() == limit,
    {
        Self { limit }
    }

    /// The limit it keeps.
    pub fn limit(&self) -> (r: usize)
        ensures
            r == self.kept(),
    {
        self.limit
    }
}

impl Policy for Fixed {
    open spec fn starts_with(&self, limit: nat) -> bool {
        limit == self.kept()
    }

    open spec fn answers(&self, seen: Observation, after: &Self, target: nat) -> bool {
        target == self.kept() && *after == *self
    }

    fn initial(&self) -> usize {
        self.limit
    }

    fn has_room(&self, sample: &Sample) -> bool {
        true
    }

    fn decide(&mut self, sample: &Sample) -> usize {
        self.limit
    }
}

/// Whatever happens, the limit stays the one it started with.
pub proof fn fixed_never_changes(policy: Fixed, seen: Observation, after: Fixed, target: nat)
    requires
        policy.answers(seen, &after, target),
    ensures
        target == policy.kept(),
        policy.starts_with(target),
        after.kept() == policy.kept(),
{
}

} // verus!
