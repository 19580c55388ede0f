//! Concurrently-owned containers and the behaviors that acquire them.
//!
//! A container (a *cown*) holds a value that may only be touched while it is
//! acquired. A behavior names the containers it needs; it runs once it stands
//! at the head of the wait queue of every one of them, and it releases them
//! all when its body returns. Acquisition goes by place in the queues alone:
//! no behavior holds one container while it waits for another, so behaviors
//! cannot deadlock, and those that share a container run in the order of
//! their submission.
//!
//! The parts, from the bottom up:
//!
//! - [`layout`]: sizes and alignments of the storage behind a container;
//! - [`sys`]: raw references to containers;
//! - [`store`]: the table of containers, with their strong counts;
//! - [`protocol`]: the wait queues and the states of the behaviors;
//! - [`when`]: guards, bodies, jobs, and the submission of behaviors;
//! - [`cown`]: the counted handle to a container;
//! - [`scheduler`]: sessions, the worker pool, and the drain;
//! - [`log`]: an append-only record for diagnostics.
//!
//! The scheduler is an explicit value. A session borrows it mutably from
//! opening to close, a drain with several workers is driven from outside
//! through [`Scheduler::dispatch`] and [`Scheduler::finish`], and
//! [`Scheduler::run`] drains with one worker on the calling thread.

pub mod cown;
pub mod layout;
pub mod log;
pub mod protocol;
pub mod scheduler;
pub mod store;
pub mod sys;
pub mod when;

pub use cown::CownPtr;
pub use scheduler::with as with_scheduler;
pub use scheduler::{with_leak_detector, Scheduler};
pub use when::{when2, AcquiredCown};
