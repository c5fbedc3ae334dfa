//! Finds disused `node_modules` directories, sizes and ages them, and keeps
//! the state of a cleaning session.
//!
//! The library does not touch the disk. A caller walks a directory tree and
//! hands over what the walk has seen, one [`walk::WalkEntry`] for each entry;
//! [`scanner::Scanner`] finds the cache directories among the entries, and
//! [`cleaner::StorageCleaner`] keeps the scan result, the directories shown
//! of it, and the marks of the operator. The caller deletes what is marked
//! and tells the session which deletions have succeeded. Times are seconds
//! since the epoch, and every function that needs the time takes it as an
//! argument.
//!
//! What holds of every scan and of every session is proved in [`laws`].

pub mod cleaner;
pub mod config;
pub mod laws;
pub mod path;
pub mod project;
pub mod ranking;
pub mod scanner;
pub mod selection;
pub mod seq_facts;
pub mod walk;
