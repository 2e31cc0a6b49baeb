//! A single-node participant in a best-effort broadcast service.
//!
//! Each node records values submitted by clients, disseminates them to its
//! peers along a deterministic binary fan-out tree, deduplicates repeated
//! deliveries, and answers read queries with the full accumulated set.
//! Acknowledgment tracking with timeout-driven retry and an anti-entropy
//! tick compensate for gossip lost on an unreliable transport.
//!
//! This crate holds the verified core: the dedup store, the fan-out tree
//! builder, the acknowledgment tracker, and the dispatch step function.
//! Transport I/O, JSON framing, and thread plumbing live outside it and
//! exchange plain envelope values with the core.

pub mod envelope;
pub mod fanout;
pub mod init;
pub mod node;
pub mod store;
pub mod tracker;
