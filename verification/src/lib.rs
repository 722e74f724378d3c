//! A content-addressed artifact store: frozen archives of a workspace, kept in
//! boxes, with pinned input dependencies between them.
//!
//! The library decides; it never touches the disk. Every value that stands for
//! something on disk is a snapshot handed in by the caller, and every change to
//! the disk is handed back as a list of actions to carry out in order.

pub mod archive;
pub mod bead;
pub mod box_store;
pub mod effect;
pub mod error;
pub mod input;
pub mod meta;
pub mod paths;
pub mod plan;
pub mod securehash;
pub mod table;
pub mod text;
pub mod timestamp;
pub mod workspace;
