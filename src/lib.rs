//! Bulk update of the git checkouts that sit directly under one directory.
//!
//! The library holds the decisions of a run: the shared work context that a
//! one-shot scanner fills and a pool of workers drains, the state machine each
//! worker follows, the repository predicate and the lines that report each
//! attempt. The `run` module proves that a whole run, however the turns of
//! the scanner and the workers interleave, asks for the update of each
//! repository exactly once. Running threads, listing directories and
//! launching `git` are left to the caller.

pub mod queue;
pub mod repo;
pub mod report;
pub mod run;
pub mod worker;
