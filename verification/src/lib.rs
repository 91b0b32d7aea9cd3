//! Nodes for a simulated cluster, with what they do proved.
//!
//! The heart of the crate is a gossip broadcast engine. Every node keeps a
//! grow-only set of the values it has seen, buffers for each neighbour the
//! values that neighbour has not yet confirmed, and periodically sends each
//! neighbour its whole buffer. A neighbour answers with the values it
//! received, and only that answer empties the buffer. `node` holds the
//! engine, `scheduler` the timing of the flushes, `laws` what holds of one
//! node, and `convergence` the proof that a connected cluster ends up with
//! every value at every node.
//!
//! Beside it stand simpler ways to broadcast (`relay`, `flood`) and a few
//! small services: `echo`, `unique_id`, `counter` and `kafka`.
//!
//! Nothing here reads or writes: a node is handed envelopes and hands back
//! what is to be sent.

pub mod common;
pub mod convergence;
pub mod counter;
pub mod echo;
pub mod envelope;
pub mod flood;
pub mod json;
pub mod kafka;
pub mod laws;
pub mod message_set;
pub mod names;
pub mod node;
pub mod outbox;
pub mod protocol;
pub mod relay;
pub mod scheduler;
pub mod topology;
pub mod unique_id;
