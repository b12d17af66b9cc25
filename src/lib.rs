//! A replicated-log consensus core: log store, elections, replication and the
//! commit/apply pipeline, written as verified state transitions. The runtime around a
//! node (timers, storage medium, transport) hands it events and performs the actions it
//! returns.

pub mod election;
pub mod events;
pub mod log;
pub mod node;
pub mod replication;
pub mod safety;
pub mod storage;
pub mod transport;
