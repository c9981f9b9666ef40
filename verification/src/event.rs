//! The two notification kinds the tick and cancel operations produce.
//!
//! The core only decides *when* to notify and for *which* timer; delivering a
//! notification to observers, keyed by the owning entity and the timer's tag,
//! is the host's job. These types carry the kind of the notification; hosts
//! pair them with the (entity, tag) identity their dispatch mechanism uses.

use vstd::prelude::*;

verus! {

/// A timer reached its duration on the most recent tick.
///
/// [`tick_entity_timers`](crate::tick_entity_timers) returns the tags to
/// deliver this notification for, in iteration order.
#[derive(Clone, Copy, Debug, PartialEq, Eq, Structural)]
pub struct OnTimerFinished;

/// An active timer was removed by an explicit cancel.
///
/// [`Timers::cancel`](crate::Timers::cancel) reports whether to deliver this
/// notification; a cancel of an absent tag delivers nothing. A timer that
/// finishes is never reported as cancelled, nor the other way round.
#[derive(Clone, Copy, Debug, PartialEq, Eq, Structural)]
pub struct OnTimerCancelled;

} // verus!
