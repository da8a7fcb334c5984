//! Coordination plane of a distributed stream-processing engine.
//!
//! A user submits a `Dataflow` (a DAG of stream operators); the coordinator
//! validates it, assigns each operator to a live worker, persists the placed
//! dataflow, and plans its deployment and termination across the cluster.
//! Worker liveness is tracked through a heartbeat protocol.

pub mod types;
pub mod validate;
pub mod codec;
pub mod storage;
pub mod cluster;
pub mod gateway;
pub mod coordinator;
pub mod sink;
