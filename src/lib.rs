//! A relay that pairs two peer roles on a named channel and forwards binary
//! messages between them.
//!
//! The crate holds the logic of the relay: the channel registry, the
//! single-slot topics that carry messages from one role to the other, the
//! per-connection session state machine, the one-shot HTTP injection path,
//! and the batch in which usage records wait for submission. Transport,
//! timers and metrics are driven by the caller.

pub mod accounting;
pub mod channel;
pub mod delivery;
pub mod identity;
pub mod registry;
pub mod session;
pub mod stats;
mod store;
pub mod topic;
