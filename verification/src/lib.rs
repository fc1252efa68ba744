//! A note organizer built around vaults: independently rooted
//! directory trees holding folders and notes, with a global registry
//! of vaults and per-vault metadata (current folder, note aliases).
//!
//! The library decides and records everything — path resolution and
//! bounds checks, create/rename/move/delete of items and vaults, and
//! keeping registry and metadata consistent — against an in-memory
//! model of the filesystem. Every mutation it performs on the model is
//! logged as an action for an outer shell to replay on the real disk.

pub mod app;
pub mod config;
pub mod data;
pub mod enums;
pub mod fs_model;
pub mod item_store;
pub mod output;
pub mod paths;
pub mod vault;
pub mod vaults;
