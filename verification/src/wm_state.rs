//! The state that every command works on: the container tree, the queue of
//! pending effects, and the events emitted so far.

use vstd::prelude::*;
use crate::events::{EventView, MonitorDto, WmEvent, WorkspaceDto};
use crate::model::{ContainerKind, TreeView};
use crate::pending_sync::{PendingSync, PendingSyncView};
use crate::tree::Tree;

verus! {

/// The view of the state.
pub struct WmStateView {
    pub tree: TreeView,
    pub pending: PendingSyncView,
    /// The events, oldest first.
    pub events: Seq<EventView>,
}

impl WmStateView {
    /// The state before anything has happened.
    pub open spec fn initial() -> WmStateView {
        WmStateView {
            tree: TreeView::initial(),
            pending: PendingSyncView::empty(),
            events: Seq::empty(),
        }
    }

    /// The tree is well-formed and no container is queued twice.
    pub open spec fn wf(self) -> bool {
        self.tree.wf() && self.pending.wf()
    }

    pub open spec fn with_tree(self, tree: TreeView) -> WmStateView {
        WmStateView { tree, ..self }
    }

    /// The state with one more event.
    pub open spec fn emit(self, event: EventView) -> WmStateView {
        WmStateView { events: self.events.push(event), ..self }
    }

    /// The state with a redraw of `id` queued.
    pub open spec fn queue_redraw(self, id: usize) -> WmStateView {
        WmStateView { pending: self.pending.queue_redraw(id), ..self }
    }

    /// The state with a cursor jump queued.
    pub open spec fn queue_cursor_jump(self) -> WmStateView {
        WmStateView { pending: self.pending.queue_cursor_jump(), ..self }
    }
}

/// The state of the window manager.
#[derive(Debug)]
pub struct WmState {
    pub(crate) tree: Tree,
    pub(crate) pending_sync: PendingSync,
    pub(crate) events: Vec<WmEvent>,
}

impl WmState {
    pub open(crate) spec fn view(&self) -> WmStateView {
        WmStateView {
            tree: self.tree@,
            pending: self.pending_sync@,
            events: Seq::new(self.events.len() as nat, |i: int| self.events[i]@),
        }
    }

    /// The state before anything has happened: a tree with the root only,
    /// nothing queued, no event.
    pub fn new() -> (r: WmState)
        ensures
            r@ == WmStateView::initial(),
            r@.wf(),
    {
        let r = WmState { tree: Tree::new(), pending_sync: PendingSync::new(), events: Vec::new() };
        assert(r@.events =~= Seq::<EventView>::empty());
        r
    }

    /// Appends an event to the stream.
    pub fn emit_event(&mut self, event: WmEvent)
        ensures
            final(self)@ == old(self)@.emit(event@),
    {
        self.events.push(event);
        assert(self@.events =~= old(self)@.events.push(event@));
    }

    /// The events emitted so far, oldest first.
    pub fn events(&self) -> (r: &Vec<WmEvent>)
        ensures
            r@.len() == self@.events.len(),
            forall|i: int| 0 <= i < r@.len() ==> r@[i]@ == self@.events[i],
    {
        &self.events
    }

    /// The queue of pending effects.
    pub fn pending_sync(&self) -> (r: &PendingSync)
        ensures
            r@ == self@.pending,
    {
        &self.pending_sync
    }

    /// A snapshot of the monitor `id`.
    pub fn monitor_dto(&self, id: usize) -> (r: MonitorDto)
        requires
            id < self@.tree.nodes.len(),
            self@.tree.kind(id) == ContainerKind::Monitor,
        ensures
            r == self@.tree.monitor_dto(id),
    {
        let data = self.tree.monitor_data(id);
        MonitorDto { id, handle: data.handle, working_area: data.working_area }
    }

    /// A snapshot of the workspace `id`.
    pub fn workspace_dto(&self, id: usize) -> (r: WorkspaceDto)
        requires
            self@.tree.wf(),
            id < self@.tree.nodes.len(),
            self@.tree.kind(id) == ContainerKind::Workspace,
        ensures
            r@ == self@.tree.workspace_dto(id),
    {
        let data = self.tree.workspace_data(id);
        let name = match &data.name {
            Some(n) => Some(n.clone()),
            None => None,
        };
        let monitor = self.tree.parent(id);
        let is_displayed = match monitor {
            Some(m) => {
                proof {
                    self@.tree.lemma_parent_differs(id);
                }
                match self.tree.displayed(m) {
                    Some(d) => d == id,
                    None => false,
                }
            },
            None => false,
        };
        WorkspaceDto {
            id,
            name,
            monitor,
            is_displayed,
            keep_alive: data.keep_alive,
            child_count: self.tree.child_count(id),
        }
    }
}

} // verus!
