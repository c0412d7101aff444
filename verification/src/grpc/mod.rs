//! The daemon's remote procedure calls.

pub mod convert;
pub mod messages;
pub mod pack;
pub mod pump;
pub mod service;

pub use service::GitServiceImpl;
