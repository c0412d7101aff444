//! The decisions of a Git hosting daemon, free of input and output.
//!
//! [`git`] holds what can be done with repositories, [`grpc`] the calls that
//! clients make, and [`server`] what the daemon listens on. None of them touches
//! the disk, a process or the network: each operation is a function of the
//! replies that the machine has given so far, as [`host`] explains. [`laws`] holds
//! what follows for the whole.

pub mod git;
pub mod grpc;
pub mod host;
pub mod laws;
pub mod server;
pub mod text;

pub use git::StorageConfig;
