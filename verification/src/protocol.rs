//! The acquisition protocol: one first-in-first-out wait queue per container,
//! and the rule that a behavior is ready exactly when it heads every queue it
//! stands in.
//!
//! [`model`] states the protocol over sequences, [`laws`] proves what holds
//! of every state it can reach, and [`queues`] is the protocol as it runs.

pub mod laws;
pub mod model;
pub mod queues;

pub use self::model::{BehaviorState, ProtocolView, SubmitError};
pub use self::queues::{check_all_below, check_distinct, Protocol};
