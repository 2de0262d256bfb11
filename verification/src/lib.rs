//! Phase-synchronised pipeline workers.
//!
//! A fixed cohort of nodes runs the same ordered pipeline of phases in
//! lockstep: no node starts the next phase before every node of the cohort
//! has finished the current one and said so. This crate holds the rules of
//! that protocol: which phase moves are legal, when a node may pass a
//! boundary, and how announcements travel on the wire.

pub mod phase;
pub mod sync;
pub mod worker;
pub mod frame;
pub mod message;
pub mod rendezvous;
pub mod cohort;
pub mod barrier;
pub mod executor;
pub mod driver;
pub mod push_worker;
