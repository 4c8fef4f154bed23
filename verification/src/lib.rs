//! The logic of `woven`, a project-scoped package manager for Python.
//!
//! A project declares its dependencies in a manifest. They are resolved into
//! a graph against the package index, the graph is written down as a
//! lockfile that names every artifact of every package, and the project's
//! environment is brought in line with the lockfile: what is missing is
//! installed from the cache or the index, what does not belong is pruned.
//!
//! Nothing in this crate reads the network or writes a file, and its one look
//! at the disk is `Cache::contains`. It decides; the program around it does
//! what was decided and reports back.

pub mod dependencies;
pub mod engine;
