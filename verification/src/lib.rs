//! A verified core for a concurrent remote-directory traversal tool.
//!
//! The library models the engine of a recursive file lister for a remote,
//! POSIX-like storage volume: a task queue of directories pending expansion
//! with an in-flight counter for quiescence detection, entry classification
//! (file, directory, other), path construction, and the traversal driver
//! whose contract states that the files it reports are exactly the regular
//! files reachable from the root, each exactly once.  Connection handling,
//! argument parsing and the actual remote client live outside the library.

pub mod engine;
pub mod entries;
pub mod paths;
pub mod queue;
pub mod volume;
