//! Verified core of an archive-extraction helper built around an external
//! 7-Zip-style decoder: archive classification, the disguised-file reveal
//! transform, the ranked password vault, the trial state machine, and the
//! post-extraction cleanup planning.

pub mod archive;
pub mod cleanup;
pub mod cli;
pub mod disguise;
pub mod engine;
pub mod errors;
pub mod listing;
pub mod notify;
pub mod pathing;
pub mod sevenz;
pub mod text;
pub mod vault;
