//! The scheduler: one session at a time, in which containers are created and
//! behaviors submitted, and a drain that runs every behavior to completion.
//!
//! [`model`] states the scheduler over sequences, [`laws`] proves what holds
//! of every state it can reach, [`machine`] is the scheduler as it runs, and
//! [`session`] wraps a whole session around a function.

pub mod laws;
pub mod machine;
pub mod model;
pub mod session;

pub use self::machine::Scheduler;
pub use self::model::{SchedulerView, Session};
pub use self::session::{open_session, with, with_inner, with_leak_detector};
