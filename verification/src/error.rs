//! The ways in which a command on the tree can fail.

use vstd::prelude::*;

verus! {

/// Why a command did not run. A command that fails leaves the state as it
/// found it.
#[derive(Clone, Copy, Debug, PartialEq, Eq, Structural)]
pub enum WmError {
    /// No monitor stands at the given index.
    MonitorNotFound,
    /// The workspace is not attached to a monitor.
    NoMonitor,
    /// The identity does not name a live workspace, or no inactive
    /// workspace configuration has the given name.
    WorkspaceNotFound,
    /// The identity does not name a live container.
    ContainerNotFound,
    /// The attachment would break the shape of the tree.
    InvalidAttach,
}

} // verus!
