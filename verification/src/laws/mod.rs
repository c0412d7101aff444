//! What holds of the operations, beyond what each of them says of itself.

pub mod answers;
pub mod calls;
pub mod contents;
pub mod diff;
pub mod disk;
pub mod failures;
pub mod history;
pub mod hook;
pub mod host;
pub mod hunks;
pub mod install;
pub mod listing;
pub mod merging;
pub mod operations;
pub mod progress;
pub mod pump;
pub mod pushed;
pub mod refs;
pub mod repository;
pub mod scope;
pub mod shown;
pub mod told;
pub mod words;
