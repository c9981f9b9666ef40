//! Named countdown timers for entities.
//!
//! An entity can carry any number of independently tagged timers in a
//! [`Timers`] collection. Once per frame the host advances every timer by the
//! frame's shared delta with [`tick_entity_timers`], which reports which tags
//! just finished (so the host can notify observers with an
//! [`OnTimerFinished`] event) and sweeps spent one-shot timers out of the
//! collection. External operations — start, reset, pause, unpause, cancel —
//! mutate the collection between ticks; a successful cancel is reported so the
//! host can send an [`OnTimerCancelled`] event.

pub mod event;
pub mod index_map;
pub mod laws;
pub mod tick;
pub mod timer;
pub mod timers;

pub use event::{OnTimerCancelled, OnTimerFinished};
pub use timer::{Timer, TimerMode};
pub use timers::{tick_entity_timers, TagId, Timers};
