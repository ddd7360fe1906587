//! Verified core of a dotfile linker.
//!
//! Given a declarative mapping from files in a source directory to target
//! locations, the library decides — per (source, destination) pair — whether
//! the filesystem already satisfies the desired symlink, whether it is safe
//! to create one, or whether a conflict exists. The decision and mutation
//! logic is verified against a filesystem model; the surrounding program
//! performs the real filesystem calls and feeds their observations back in.

pub mod context;
pub mod expand;
pub mod filesystem;
pub mod link;
pub mod parse;
pub mod preset;
pub mod report;

pub use context::Context;
pub use filesystem::{FileSystem, FsEntry};
