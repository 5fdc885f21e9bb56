//! A virtual filesystem overlay: symbolic routes over named partitions,
//! in-memory snapshots of files and directories, and a time-ordered change log.

pub mod error;
pub mod route;
pub mod item;
pub mod reader;
pub mod change;
pub mod clock;
pub mod gateway;
pub mod vfs;
