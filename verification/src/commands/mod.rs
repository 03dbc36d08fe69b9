//! The commands: the only ways in which the tree changes.

pub mod sort_workspaces;
pub mod activate_workspace;
pub mod deactivate_workspace;
pub mod move_workspace_to_monitor;
pub mod add_monitor;
pub mod container;
