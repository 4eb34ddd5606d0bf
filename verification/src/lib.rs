//! Reliable request/reply fabric: a broker routes client requests to a pool
//! of interchangeable workers, tracks worker liveness through heartbeats, and
//! a worker agent reconnects with exponential backoff when the broker goes
//! quiet.
//!
//! The transport (socket creation, multipart send/receive, readiness polling)
//! is an external collaborator; this crate holds the state machines that
//! decide what to send and when: the wire protocol frames, the worker
//! registry, the broker step functions, and the worker agent step function.

pub mod protocol;
pub mod registry;
pub mod broker;
pub mod worker;
