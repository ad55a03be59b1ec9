//! Core of an incremental build orchestrator: a keyed, memoizing,
//! versioned computation graph together with its build-graph
//! collaborators — a cell-aware file-ops layer, a file-change tracker
//! that batches filesystem events into invalidation sets, a dynamic
//! action registry, a configuration-constructor calculation, command
//! planning for `clean` and `audit providers`, and process control.

pub mod analysis;
pub mod audit;
pub mod bytes;
pub mod cfg_constructor;
pub mod clean;
pub mod config;
pub mod daemon;
pub mod dynamic;
pub mod fileops;
pub mod fs;
pub mod icg;
pub mod paths;
pub mod process;
pub mod tracker;
