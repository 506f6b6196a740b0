//! Keep the slowest stage of a pipeline busy without letting work pile up.
//!
//! Picture a pipeline where items are downloaded, then processed on a GPU. The GPU is the
//! expensive part, the *bottleneck*, and the whole pipeline goes only as fast as it does. You
//! want two things:
//!
//! 1. **The GPU never waits for input.** Enough items must be on their way to cover the time
//!    downloads take, even when downloads suddenly get slower.
//! 2. **Not too much is on its way.** Every item admitted into the pipeline uses memory, and on
//!    shutdown you have to wait for all of them to finish. That wait should stay short.
//!
//! No single fixed number gets both right, because the right number depends on download speed,
//! GPU speed and batch size, and those change while the program runs. This library adjusts the
//! number for you.
//!
//! # How it fits together
//!
//! - A [`Gate`] sits at the start of the pipeline and lets items in. Each admitted item holds a
//!   *permit*, and the `Gate` has a *limit* on how many permits are out at once. The permits come
//!   as a [`Ticket`], which travels with the item until it is done. Items of very different
//!   cost can take more than one permit each (see [Weighted items](Gate#weighted-items)).
//! - An [`IdleProbe`] on the bottleneck measures how long it sits waiting for input.
//! - A [`Pacer`] looks at the `Gate` and the probes every couple of seconds, asks a [`Policy`]
//!   what the limit should be, and changes the `Gate`'s limit.
//!
//! Three policies come with the crate:
//!
//! - [`DrainBounded`] (the one to start with) raises the limit while the bottleneck waits for
//!   input, and lowers it when the work already admitted would take too long to finish.
//! - [`Aimd`] raises the limit slowly and cuts it when items fail or get slow. It needs no probe,
//!   so it suits pipelines without one clear bottleneck.
//! - [`Fixed`] never changes the limit. It is useful as a baseline when measuring the others.
//!
//! # Several gates
//!
//! One gate limits the whole pipeline, but a single stage can have its own limit too. Give each
//! gate its own pacer and policy. An item holds a ticket from each gate, and a ticket goes back only
//! to the one it came from: [`ledger::tickets_go_back_to_their_own_gate`]. Always take the tickets
//! in the same order, outer gate first.
//!
//! # What is proved
//!
//! Nothing here waits, sleeps or reads a clock: each call takes what has happened and says what
//! follows. So each call has a contract over a mathematical model: [`ledger::Ledger`] for the
//! gate, [`probe::IdleModel`] for the probe, [`sample::sampled`] for the pacer's samples, and
//! [`policy::DrainModel`] and [`policy::AimdModel`] for the policies. The laws that the models
//! obey are public proof functions beside them, and in [`policy::drain_laws`].
//!
//! Rates, ratios and seconds are [`Binary64`] numbers: IEEE 754 binary64 arithmetic on bits, each
//! operation proved to give the number nearest to the exact result.

pub mod bell;
pub mod binary64;
pub mod gate;
pub mod ledger;
pub mod nearly;
pub mod pacer;
pub mod permits;
pub mod policy;
pub mod probe;
pub mod rounding;
pub mod sample;
pub mod time;

pub use bell::Bell;
pub use binary64::Binary64;
pub use gate::{Closed, Gate, Reservation, Ticket};
pub use pacer::{Decision, Pacer, PacerBuilder};
pub use policy::{Aimd, Diagnostics, DrainBounded, Fixed, Policy};
pub use probe::IdleProbe;
pub use sample::{IdleTimes, Sample};
pub use time::{Duration, Instant};
