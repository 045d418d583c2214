//! Catalog and policy checks for game-asset directory trees.
//!
//! The library holds the decisions of a scanner: how files are classified,
//! how an incremental cache decides what to parse again, how duplicate
//! candidates are grouped, and which rule violations each asset produces.
//! File system access and format decoding are performed by the caller.

mod text;
pub mod analysis;
pub mod asset;
pub mod rules;
pub mod duplicate;
pub mod scan;
pub mod cache;
mod pathname;
pub mod unreal;
pub mod undo;
pub mod tags;
pub mod godot;
pub mod unity;
pub mod project;
