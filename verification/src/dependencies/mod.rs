//! What packages bring along: their metadata in the index and their scripts.

pub mod package;
pub mod scripts;
