//! A signal relay engine: watches a process for the arrival of a specific
//! signal and, once it is observed, relays a (possibly different) signal to
//! the processes at a configurable depth below it in its descendant tree.
//!
//! The OS capabilities the engine consumes — listing a process's direct
//! children, tracing a process to observe signal deliveries, sending a
//! signal — are narrow bindings in [`os`]; everything the engine decides on
//! top of them is verified.

pub mod errors;
pub mod listener;
pub mod os;
pub mod process;
pub mod propagate;
pub mod traits;
pub mod types;
