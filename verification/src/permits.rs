//! The semaphore that holds the `Gate`'s free permits.
//!
//! The `Gate` owns its semaphore and hands out no reference to it, so nobody waits on it and
//! nobody else changes it. What a call does then depends on the semaphore and the arguments
//! alone. The calls that change it take it by `&mut`, so that Verus sees the change.

use tokio::sync::{Semaphore, TryAcquireError};
use vstd::prelude::*;

verus! {

/// tokio's counting semaphore.
#[verifier::external_type_specification]
#[verifier::external_body]
pub struct ExSemaphore(tokio::sync::Semaphore);

/// Why a semaphore handed out nothing: it is closed, or it holds too few permits.
#[verifier::external_type_specification]
pub struct ExTryAcquireError(tokio::sync::TryAcquireError);

/// How many permits a semaphore holds.
pub uninterp spec fn free(semaphore: Semaphore) -> nat;

/// Whether a semaphore is closed.
pub uninterp spec fn closed(semaphore: Semaphore) -> bool;

/// The most permits that a semaphore can hold.
pub open spec fn most() -> nat {
    (usize::MAX / 8) as nat
}

/// `Semaphore::MAX_PERMITS`: the largest `usize` shifted right by three bits.
#[verifier::external_body]
pub(crate) fn max_permits() -> (r: usize)
    ensures
        r == most(),
{
    Semaphore::MAX_PERMITS
}

/// `Semaphore::new`: an open semaphore with the given permits. It panics if they are more than
/// a semaphore can hold.
#[verifier::external_body]
pub(crate) fn new(permits: usize) -> (r: Semaphore)
    requires
        permits <= most(),
    ensures
        free(r) == permits,
        !closed(r),
{
    Semaphore::new(permits)
}

/// `Semaphore::available_permits`: how many permits it holds, closed or not.
#[verifier::external_body]
pub(crate) fn available(semaphore: &Semaphore) -> (r: usize)
    ensures
        r == free(*semaphore),
{
    semaphore.available_permits()
}

/// `Semaphore::try_acquire_many` and, on success, `SemaphorePermit::forget`: takes `n` permits
/// out for good if the semaphore is open and holds them, and else says why not and takes none.
/// It panics if `n` is more than a semaphore can hold.
#[verifier::external_body]
pub(crate) fn take(semaphore: &mut Semaphore, n: u32) -> (r: Result<(), TryAcquireError>)
    requires
        n <= most(),
    ensures
        closed(*final(semaphore)) == closed(*old(semaphore)),
        closed(*old(semaphore)) ==> r is Err && r->Err_0 is Closed,
        !closed(*old(semaphore)) && free(*old(semaphore)) < n ==> r is Err
            && r->Err_0 is NoPermits,
        !closed(*old(semaphore)) && free(*old(semaphore)) >= n ==> r is Ok,
        free(*final(semaphore)) == (if r is Ok {
            (free(*old(semaphore)) - n) as nat
        } else {
            free(*old(semaphore))
        }),
{
    semaphore.try_acquire_many(n).map(|permit| permit.forget())
}

/// `Semaphore::forget_permits`: takes up to `n` permits out for good, closed or not, and returns
/// how many.
#[verifier::external_body]
pub(crate) fn forget(semaphore: &mut Semaphore, n: usize) -> (r: usize)
    ensures
        r == (if n <= free(*old(semaphore)) {
            n as nat
        } else {
            free(*old(semaphore))
        }),
        free(*final(semaphore)) == free(*old(semaphore)) - r,
        closed(*final(semaphore)) == closed(*old(semaphore)),
{
    semaphore.forget_permits(n)
}

/// `Semaphore::add_permits`: adds `n` permits, closed or not. With nobody waiting, all of them
/// stay in the semaphore. It panics if it would then hold more than a semaphore can.
#[verifier::external_body]
pub(crate) fn put(semaphore: &mut Semaphore, n: usize)
    requires
        free(*old(semaphore)) + n <= most(),
    ensures
        free(*final(semaphore)) == free(*old(semaphore)) + n,
        closed(*final(semaphore)) == closed(*old(semaphore)),
{
    semaphore.add_permits(n)
}

/// `Semaphore::close`: closes the semaphore, which keeps its permits.
#[verifier::external_body]
pub(crate) fn close(semaphore: &mut Semaphore)
    ensures
        closed(*final(semaphore)),
        free(*final(semaphore)) == free(*old(semaphore)),
{
    semaphore.close()
}

/// `Semaphore::is_closed`: whether it has been closed.
#[verifier::external_body]
pub(crate) fn is_closed(semaphore: &Semaphore) -> (r: bool)
    ensures
        r == closed(*semaphore),
{
    semaphore.is_closed()
}

} // verus!
