//! The notifications that the commands emit. Each carries a snapshot of the
//! container it is about, taken when the event was emitted.

use vstd::prelude::*;
use crate::model::TreeView;
use crate::rect::Rect;
use crate::tree::name_view;

verus! {

/// A snapshot of a monitor.
#[derive(Clone, Copy, Debug)]
pub struct MonitorDto {
    pub id: usize,
    pub handle: isize,
    pub working_area: Rect,
}

/// A snapshot of a workspace.
#[derive(Debug)]
pub struct WorkspaceDto {
    pub id: usize,
    pub name: Option<String>,
    /// The monitor that the workspace was attached to.
    pub monitor: Option<usize>,
    pub is_displayed: bool,
    pub keep_alive: bool,
    pub child_count: usize,
}

/// The view of a workspace snapshot.
pub struct WorkspaceDtoView {
    pub id: usize,
    pub name: Option<Seq<char>>,
    pub monitor: Option<usize>,
    pub is_displayed: bool,
    pub keep_alive: bool,
    pub child_count: nat,
}

impl View for WorkspaceDto {
    type V = WorkspaceDtoView;

    open spec fn view(&self) -> WorkspaceDtoView {
        WorkspaceDtoView {
            id: self.id,
            name: name_view(self.name),
            monitor: self.monitor,
            is_displayed: self.is_displayed,
            keep_alive: self.keep_alive,
            child_count: self.child_count as nat,
        }
    }
}

/// A notification of a change of the tree.
#[derive(Debug)]
pub enum WmEvent {
    MonitorAdded { added_monitor: MonitorDto },
    WorkspaceActivated { activated_workspace: WorkspaceDto },
    WorkspaceDeactivated { deactivated_workspace: WorkspaceDto },
    WorkspaceUpdated { updated_workspace: WorkspaceDto },
}

/// The view of a notification.
pub enum EventView {
    MonitorAdded(MonitorDto),
    WorkspaceActivated(WorkspaceDtoView),
    WorkspaceDeactivated(WorkspaceDtoView),
    WorkspaceUpdated(WorkspaceDtoView),
}

impl View for WmEvent {
    type V = EventView;

    open spec fn view(&self) -> EventView {
        match self {
            WmEvent::MonitorAdded { added_monitor } => EventView::MonitorAdded(*added_monitor),
            WmEvent::WorkspaceActivated { activated_workspace } => EventView::WorkspaceActivated(
                activated_workspace@,
            ),
            WmEvent::WorkspaceDeactivated { deactivated_workspace } => EventView::WorkspaceDeactivated(
                deactivated_workspace@,
            ),
            WmEvent::WorkspaceUpdated { updated_workspace } => EventView::WorkspaceUpdated(
                updated_workspace@,
            ),
        }
    }
}

impl TreeView {
    /// Whether the monitor that `w` is attached to shows `w`.
    pub open spec fn is_displayed(self, w: usize) -> bool {
        match self.parent(w) {
            Some(m) => self.displayed(m) == Some(w),
            None => false,
        }
    }

    /// The snapshot of the monitor `id`.
    pub open spec fn monitor_dto(self, id: usize) -> MonitorDto {
        MonitorDto {
            id,
            handle: self.monitor(id).handle,
            working_area: self.monitor(id).working_area,
        }
    }

    /// The snapshot of the workspace `id`.
    pub open spec fn workspace_dto(self, id: usize) -> WorkspaceDtoView {
        WorkspaceDtoView {
            id,
            name: self.workspace(id).name,
            monitor: self.parent(id),
            is_displayed: self.is_displayed(id),
            keep_alive: self.workspace(id).keep_alive,
            child_count: self.children(id).len(),
        }
    }
}

} // verus!
