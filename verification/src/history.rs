//! What a command leaves of the events and of the queue: it only adds to
//! them. An event that was emitted is never changed, and a queued effect
//! keeps its place.

use vstd::prelude::*;
use crate::commands::activate_workspace::{activation_plan, workspace_to_activate};
use crate::commands::add_monitor::NativeMonitor;
use crate::config::ConfigView;
use crate::model::WorkspaceView;
use crate::wm_state::WmStateView;

verus! {

impl WmStateView {
    /// `next` holds the events of `self` as its first events, the queued
    /// redraws of `self` as its first redraws, and a cursor jump where
    /// `self` holds one.
    pub open spec fn extended_by(self, next: WmStateView) -> bool {
        &&& self.events.is_prefix_of(next.events)
        &&& self.pending.redraw.is_prefix_of(next.pending.redraw)
        &&& self.pending.cursor_jump ==> next.pending.cursor_jump
    }

    /// Extension composes.
    pub proof fn lemma_extended_trans(self, mid: WmStateView, next: WmStateView)
        requires
            self.extended_by(mid),
            mid.extended_by(next),
        ensures
            self.extended_by(next),
    {
    }

    /// An activation only adds to the events and to the queue.
    pub proof fn lemma_activate_extends(self, workspace: WorkspaceView, m: usize, config: ConfigView)
        ensures
            self.extended_by(self.activate(workspace, m, config)),
            self.activate(workspace, m, config).events.len() == self.events.len() + 1,
    {
    }

    /// Putting a monitor in order only adds to the events and to the
    /// queue.
    pub proof fn lemma_settle_extends(self, m: usize, config: ConfigView)
        ensures
            self.extended_by(self.settle_monitor(m, config)),
    {
        if self.tree.children(m).len() == 0 {
            if let Some(workspace) = workspace_to_activate(self.tree, config, None, Some(m)) {
                self.lemma_activate_extends(workspace, m, config);
            }
        }
    }

    /// Tearing a workspace down only adds to the events and to the queue.
    pub proof fn lemma_deactivate_extends(self, w: usize, config: ConfigView)
        ensures
            self.extended_by(self.deactivate(w, config)),
    {
        let announced = self.emit(
            crate::events::EventView::WorkspaceDeactivated(self.tree.workspace_dto(w)),
        );
        let torn = announced.with_tree(self.tree.destroy_workspace(w));
        if let Some(m) = self.tree.parent(w) {
            torn.lemma_settle_extends(m, config);
            self.lemma_extended_trans(torn, torn.settle_monitor(m, config));
        }
    }

    /// A move only adds to the events and to the queue, and its last event
    /// is the update of the moved workspace.
    pub proof fn lemma_move_extends(self, w: usize, target: usize, config: ConfigView)
        ensures
            self.extended_by(self.move_workspace(w, target, config)),
            self.move_workspace(w, target, config).events.len() > self.events.len(),
            self.move_workspace(w, target, config).events.last()
                is WorkspaceUpdated,
            self.move_workspace(w, target, config).pending.cursor_jump,
    {
        let origin = self.tree.parent(w)->0;
        let landed = self.land_workspace(w, target);
        assert(self.extended_by(landed));
        landed.lemma_settle_extends(origin, config);
        let settled = landed.settle_monitor(origin, config);
        self.lemma_extended_trans(landed, settled);
        let stale = settled.tree.first_stale_from(target, 0);
        let cleaned = if stale < settled.tree.children(target).len() {
            settled.deactivate(settled.tree.children(target)[stale], config)
        } else {
            settled
        };
        if stale < settled.tree.children(target).len() {
            settled.lemma_deactivate_extends(settled.tree.children(target)[stale], config);
        }
        self.lemma_extended_trans(settled, cleaned);
    }

    /// What a move does, or refuses to do, only adds to the events and to
    /// the queue.
    pub proof fn lemma_move_plan_extends(self, w: usize, target: usize, config: ConfigView)
        ensures
            self.move_workspace_plan(w, target, config) matches Ok(next) ==> self.extended_by(next),
    {
        self.lemma_move_extends(w, target, config);
    }

    /// The reconciliation of configuration entries with a new monitor only
    /// adds to the events and to the queue.
    pub proof fn lemma_bind_prefix_extends(self, m: usize, index: int, config: ConfigView, i: nat)
        ensures
            self.extended_by(self.bind_prefix(m, index, config, i)),
        decreases i,
    {
        if i > 0 {
            let before = self.bind_prefix(m, index, config, (i - 1) as nat);
            self.lemma_bind_prefix_extends(m, index, config, (i - 1) as nat);
            let entry = config.workspaces[i - 1];
            let next = before.bind_step(entry, m, index, config);
            before.lemma_move_plan_extends(before.tree.workspace_named(entry.name), m, config);
            if let Ok((workspace, monitor)) = activation_plan(
                before.tree,
                config,
                Some(entry.name),
                Some(m),
            ) {
                before.lemma_activate_extends(workspace, monitor, config);
            }
            self.lemma_extended_trans(before, next);
        }
    }

    /// Adding a monitor only adds to the events and to the queue, and the
    /// first event it adds is the announcement of the monitor.
    pub proof fn lemma_add_monitor_extends(self, native: NativeMonitor, config: ConfigView)
        ensures
            self.extended_by(self.add_monitor(native, config)),
            self.add_monitor(native, config).events.len() > self.events.len(),
            self.add_monitor(native, config).events[self.events.len() as int] is MonitorAdded,
    {
        let m = self.tree.nodes.len() as usize;
        let index = self.tree.monitors().len() as int;
        let attached = self.with_tree(
            self.tree.push_node(crate::model::PayloadView::Monitor(native.monitor())).link(
                m,
                crate::model::ROOT,
                index,
            ),
        );
        let announced = attached.emit(
            crate::events::EventView::MonitorAdded(attached.tree.monitor_dto(m)),
        );
        assert(self.extended_by(announced));
        announced.lemma_bind_prefix_extends(m, index, config, config.workspaces.len());
        let bound = announced.bind_prefix(m, index, config, config.workspaces.len());
        self.lemma_extended_trans(announced, bound);
        if bound.tree.children(m).len() == 0 {
            if let Some(workspace) = workspace_to_activate(bound.tree, config, None, Some(m)) {
                bound.lemma_activate_extends(workspace, m, config);
            }
        }
        self.lemma_extended_trans(bound, self.add_monitor(native, config));
        assert(announced.events[self.events.len() as int] is MonitorAdded);
    }
}

} // verus!
