//! Resolving, locking and synchronising.

pub mod cache;
pub mod config;
pub mod json;
pub mod lock;
pub mod marker;
pub mod project;
pub mod python;
pub mod resolver;
pub mod selection;
pub mod strmap;
pub mod sync;
pub mod text;
pub mod uninstall;
