//! The model of a tiling window manager: a tree of monitors, workspaces and
//! windows, the commands that change it, and the effects and events that the
//! commands leave behind for the platform layer.

pub mod rect;
pub mod seq_util;
pub mod sorting;
pub mod model;
pub mod model_lemmas;
pub mod error;
pub mod tree;
pub mod config;
pub mod pending_sync;
pub mod events;
pub mod wm_state;
pub mod queries;
pub mod commands;
pub mod embedded;
pub mod process_manager;
pub mod effects;
pub mod invariants;
pub mod history;
pub mod laws;

pub use commands::activate_workspace::activate_workspace;
pub use commands::add_monitor::{add_monitor, NativeMonitor};
pub use commands::container::{
    attach_container, create_window, detach_container, move_container_within_tree, NativeWindow,
};
pub use commands::deactivate_workspace::deactivate_workspace;
pub use commands::move_workspace_to_monitor::{
    move_workspace_to_monitor, move_workspace_to_monitor_impl,
};
pub use commands::sort_workspaces::sort_workspaces;
pub use config::{UserConfig, WorkspaceConfig};
pub use embedded::{
    available_builtins, extract_builtin, needs_extraction, BuiltinError, BuiltinProgram,
    EmbeddedBinaries, ExtractionPlan,
};
pub use error::WmError;
pub use events::{MonitorDto, WmEvent, WorkspaceDto};
pub use model::{ContainerKind, MonitorData, WindowData, WindowState, ROOT};
pub use pending_sync::PendingSync;
pub use process_manager::{
    child_pids, start_builtin, stop_all_builtins, stop_builtin, ChildStatus, ProcessEntry,
    ProcessManager, StartAction, StopAction, TrackedProcess,
};
pub use rect::Rect;
pub use wm_state::WmState;
