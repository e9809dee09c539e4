//! Peer discovery and direct-link checking over a local network.
//!
//! Two links on one network find each other by broadcasting an announcement
//! that carries a shared pairing code, then check that they can reach each
//! other directly with a probe and its answer. This crate holds the
//! protocol's texts and the decisions of each task; sockets and timers are
//! the caller's.

pub mod cli;
pub mod decimal;
pub mod discovery;
pub mod engine;
pub mod errors;
pub mod ipv4;
pub mod prompts;
pub mod protocol;
pub mod text;
