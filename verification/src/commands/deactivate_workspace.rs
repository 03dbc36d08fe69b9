//! Tears a workspace down.

use vstd::prelude::*;
use crate::commands::activate_workspace::{
    activate_workspace, lemma_activated_name_is_free, workspace_to_activate,
};
use crate::config::{ConfigView, UserConfig};
use crate::error::WmError;
use crate::events::{EventView, WmEvent};
use crate::model::{ContainerKind, TreeView};
use crate::wm_state::{WmState, WmStateView};

verus! {

impl WmStateView {
    /// The state after the monitor `m`, which a workspace has just left, has
    /// been put in order: a monitor without workspaces gets a new one, as an
    /// activation without a name makes it; a monitor that shows nothing
    /// shows its first workspace; and a redraw of the workspace it shows is
    /// queued.
    pub open spec fn settle_monitor(self, m: usize, config: ConfigView) -> WmStateView {
        if self.tree.children(m).len() == 0 {
            match workspace_to_activate(self.tree, config, None, Some(m)) {
                Some(workspace) => self.activate(workspace, m, config),
                None => self,
            }
        } else {
            let shown = match self.tree.displayed(m) {
                Some(d) => d,
                None => self.tree.children(m)[0],
            };
            self.with_tree(self.tree.set_displayed(m, Some(shown))).queue_redraw(shown)
        }
    }

    /// The state after the workspace `w` has been torn down: an event
    /// carries its last snapshot, it is destroyed with its windows, and the
    /// monitor it stood on is put in order.
    pub open spec fn deactivate(self, w: usize, config: ConfigView) -> WmStateView {
        let announced = self.emit(EventView::WorkspaceDeactivated(self.tree.workspace_dto(w)));
        let torn = announced.with_tree(self.tree.destroy_workspace(w));
        match self.tree.parent(w) {
            Some(m) => torn.settle_monitor(m, config),
            None => torn,
        }
    }
}

impl TreeView {
    /// What the destruction of a workspace leaves of the monitor it stood
    /// on, and of every container outside the workspace.
    pub proof fn lemma_destroy_workspace_frame(self, w: usize)
        requires
            self.wf(),
            self.is_workspace(w),
        ensures
            forall|j: usize|
                j < self.nodes.len() && j != w && self.parent(j) != Some(w) && self.parent(w)
                    != Some(j) ==> #[trigger] self.destroy_workspace(w).nodes[j as int]
                    == self.nodes[j as int],
            self.parent(w) matches Some(m) ==> {
                &&& self.is_monitor(m)
                &&& self.destroy_workspace(w).nodes[m as int] == self.detach(w).nodes[m as int]
                &&& self.destroy_workspace(w).is_monitor(m)
            },
    {
        assert(self.node_wf(w));
        if let Some(m) = self.parent(w) {
            self.lemma_parent_differs(w);
            assert(self.node_wf(m));
        }
    }
}

impl WmStateView {
    /// Putting a live monitor in order keeps the state well-formed, is an
    /// evolution of the tree, and leaves the monitor with a workspace that
    /// it shows.
    pub proof fn lemma_settle_monitor(self, m: usize, config: ConfigView)
        requires
            self.wf(),
            self.tree.is_monitor(m),
            self.tree.children(m).len() == 0 ==> self.tree.has_room(),
        ensures
            self.settle_monitor(m, config).wf(),
            self.tree.evolves_to(self.settle_monitor(m, config).tree),
            self.tree.nodes.len() <= self.settle_monitor(m, config).tree.nodes.len()
                <= self.tree.nodes.len() + 1,
    {
        if self.tree.children(m).len() == 0 {
            lemma_activated_name_is_free(self.tree, config, None, Some(m));
            let workspace = workspace_to_activate(self.tree, config, None, Some(m))->0;
            self.lemma_activate(workspace, m, config);
        } else {
            assert(self.tree.node_wf(m));
            let shown = match self.tree.displayed(m) {
                Some(d) => d,
                None => self.tree.children(m)[0],
            };
            assert(self.tree.children(m).contains(self.tree.children(m)[0]));
            self.tree.lemma_set_displayed_wf(m, Some(shown));
            self.tree.lemma_set_displayed_evolves(m, Some(shown));
            self.pending.lemma_queue_redraw_wf(shown);
        }
    }

    /// Tearing a live workspace down keeps the state well-formed and is an
    /// evolution of the tree.
    pub proof fn lemma_deactivate(self, w: usize, config: ConfigView)
        requires
            self.wf(),
            self.tree.is_workspace(w),
            self.tree.has_room_to_replace(w),
        ensures
            self.deactivate(w, config).wf(),
            self.tree.evolves_to(self.deactivate(w, config).tree),
            self.tree.nodes.len() <= self.deactivate(w, config).tree.nodes.len()
                <= self.tree.nodes.len() + 1,
    {
        self.tree.lemma_destroy_workspace_wf(w);
        self.tree.lemma_destroy_workspace_evolves(w);
        self.tree.lemma_destroy_workspace_frame(w);
        let announced = self.emit(EventView::WorkspaceDeactivated(self.tree.workspace_dto(w)));
        let torn = announced.with_tree(self.tree.destroy_workspace(w));
        if let Some(m) = self.tree.parent(w) {
            self.tree.lemma_parent_differs(w);
            assert(self.tree.node_wf(m));
            crate::seq_util::lemma_without(self.tree.children(m), w);
            assert(torn.tree.children(m) == crate::seq_util::without(self.tree.children(m), w));
            torn.lemma_settle_monitor(m, config);
            self.tree.lemma_evolves_trans(torn.tree, torn.settle_monitor(m, config).tree);
        }
    }
}

/// Puts the monitor `m` in order after a workspace has left it, as
/// `settle_monitor` says.
pub fn settle_monitor(m: usize, state: &mut WmState, config: &UserConfig)
    requires
        old(state)@.wf(),
        old(state)@.tree.is_monitor(m),
    ensures
        final(state)@ == old(state)@.settle_monitor(m, config@),
        final(state)@.wf(),
        old(state)@.tree.evolves_to(final(state)@.tree),
        old(state)@.extended_by(final(state)@),
        old(state)@.tree.children(m).len() == 0 ==> old(state)@.tree.has_room(),
        final(state)@.tree.monitor_settled(m),
        forall|q: usize|
            old(state)@.tree.monitor_settled(q) ==> #[trigger] final(state)@.tree.monitor_settled(q),
        old(state)@.tree.settled() ==> final(state)@.tree.settled(),
        old(state)@.tree.tidy() ==> final(state)@.tree.tidy(),
{
    proof {
        old(state)@.lemma_settle_extends(m, config@);
        old(state)@.tree.lemma_evolves_refl();
        assert(old(state)@.tree.node_wf(m));
        if old(state)@.tree.children(m).len() > 0 {
            let shown = match old(state)@.tree.displayed(m) {
                Some(d) => d,
                None => old(state)@.tree.children(m)[0],
            };
            old(state)@.tree.lemma_set_displayed_evolves(m, Some(shown));
        }
    }
    if state.tree.child_count(m) == 0 {
        let made = activate_workspace(None, Some(m), state, config);
        assert(made is Ok);
        proof {
            crate::laws::law_settle_monitor(old(state)@, m, config@);
        }
    } else {
        proof {
            crate::laws::law_settle_monitor(old(state)@, m, config@);
        }
        let shown = match state.tree.displayed(m) {
            Some(d) => d,
            None => state.tree.children(m)[0],
        };
        proof {
            assert(state@.tree.node_wf(m));
            assert(state@.tree.children(m)[0] == state@.tree.children(m)[0]);
        }
        state.tree.set_displayed(m, Some(shown));
        state.pending_sync.queue_container_to_redraw(shown);
    }
}

/// Destroys the workspace `workspace` with its windows, emits a
/// `WorkspaceDeactivated` event with its last snapshot, and puts the monitor
/// it stood on in order, so that the monitor is not left without a workspace
/// or without one that it shows. Fails, and changes nothing, where
/// `workspace` is not a live workspace.
pub fn deactivate_workspace(workspace: usize, state: &mut WmState, config: &UserConfig) -> (r:
    Result<(), WmError>)
    requires
        old(state)@.wf(),
    ensures
        final(state)@.wf(),
        match r {
            Ok(()) => old(state)@.tree.is_workspace(workspace) && final(state)@ == old(state)@.deactivate(workspace, config@),
            Err(e) => e == WmError::WorkspaceNotFound && !old(state)@.tree.is_workspace(workspace)
                && final(state)@ == old(state)@,
        },
        old(state)@.tree.evolves_to(final(state)@.tree),
        old(state)@.extended_by(final(state)@),
        forall|q: usize|
            old(state)@.tree.monitor_settled(q) ==> #[trigger] final(state)@.tree.monitor_settled(q),
        old(state)@.tree.settled() ==> final(state)@.tree.settled(),
        old(state)@.tree.tidy() ==> final(state)@.tree.tidy(),
{
    proof {
        old(state)@.tree.lemma_evolves_refl();
        old(state)@.lemma_deactivate_extends(workspace, config@);
    }
    if !state.tree.is_alive(workspace) {
        return Err(WmError::WorkspaceNotFound);
    }
    match state.tree.kind(workspace) {
        ContainerKind::Workspace => {},
        _ => {
            return Err(WmError::WorkspaceNotFound);
        },
    }
    let snapshot = state.workspace_dto(workspace);
    let monitor = state.tree.parent(workspace);
    proof {
        state@.tree.lemma_destroy_workspace_frame(workspace);
    }
    state.emit_event(WmEvent::WorkspaceDeactivated { deactivated_workspace: snapshot });
    state.tree.destroy_workspace(workspace);
    proof {
        old(state)@.tree.lemma_destroy_workspace_evolves(workspace);
    }
    if let Some(m) = monitor {
        let ghost torn = state@.tree;
        proof {
            let tree = old(state)@.tree;
            tree.lemma_parent_differs(workspace);
            assert(tree.node_wf(m));
            crate::seq_util::lemma_without(tree.children(m), workspace);
            assert(torn.children(m) == crate::seq_util::without(tree.children(m), workspace));
        }
        settle_monitor(m, state, config);
        proof {
            old(state)@.tree.lemma_evolves_trans(torn, state@.tree);
        }
    }
    proof {
        crate::laws::law_deactivate_workspace(old(state)@, workspace, config@);
    }
    Ok(())
}

} // verus!
