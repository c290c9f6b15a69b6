//! Workspace-to-screen layout reconciliation for a tiling window manager.
//!
//! The library keeps the authoritative record of which windows belong to
//! which workspace and which workspace is shown on which screen, and turns
//! that record into an ordered list of display commands.

pub mod geometry;
pub mod layout;
pub mod workspaces;
pub mod window_manager;
