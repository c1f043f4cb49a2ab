//! Frecency-ranked shell command tracking and alias-name suggestion.
//!
//! The crate keeps a store of command entries ranked by a score that blends
//! recency and frequency of use, ingests raw command lines as sequences of
//! word prefixes, and proposes short, conflict-free alias names for a command
//! string through a pipeline of independent heuristic generators.

pub mod aliases;
pub mod cli;
pub mod clock;
pub mod entry;
pub mod heuristics;
pub mod ingest;
pub mod mangle;
pub mod queries;
pub mod score;
pub mod shellinit;
pub mod snapshot;
pub mod store;
pub mod suggest;
pub mod text;
pub mod wide;
