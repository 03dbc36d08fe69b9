//! Moves a workspace from the monitor it stands on to another.

use vstd::prelude::*;
use crate::commands::deactivate_workspace::{deactivate_workspace, settle_monitor};
use crate::commands::sort_workspaces::sort_workspaces;
use crate::config::{ConfigView, UserConfig};
use crate::error::WmError;
use crate::events::{EventView, WmEvent};
use crate::model::{
    ContainerKind, NodeView, PayloadView, TreeView, WindowData, WindowState, ROOT,
};
use crate::rect::Rect;
use crate::tree::Tree;
use crate::wm_state::{WmState, WmStateView};

verus! {

impl WindowData {
    /// The window after its workspace has changed monitor: a floating
    /// window is centered in `area`, with its size kept, and waits for its
    /// rescaling; any other window is as it was.
    pub open spec fn recentered(self, area: Rect) -> WindowData {
        if self.state == WindowState::Floating {
            WindowData {
                floating_placement: self.floating_placement.centered_in(area),
                has_pending_dpi_adjustment: true,
                ..self
            }
        } else {
            self
        }
    }
}

impl TreeView {
    /// The tree with every window of the workspace `w` recentered in
    /// `area`.
    pub open spec fn recentered(self, w: usize, area: Rect) -> TreeView {
        TreeView {
            nodes: Seq::new(
                self.nodes.len(),
                |i: int|
                    {
                        let n = self.nodes[i];
                        match n.payload {
                            PayloadView::Window(d) => if n.parent == Some(w) {
                                NodeView { payload: PayloadView::Window(d.recentered(area)), ..n }
                            } else {
                                n
                            },
                            _ => n,
                        }
                    },
            ),
        }
    }

    /// Whether the workspace `w` is one that goes by itself: it is not kept
    /// alive, holds no window, and the monitor it stands on does not show
    /// it.
    pub open spec fn is_stale(self, w: usize) -> bool {
        !self.workspace(w).keep_alive && self.children(w).len() == 0 && !self.is_displayed(w)
    }

    /// The position of the first stale workspace of the monitor `m` at or
    /// after position `i`, or the number of its workspaces where there is
    /// none.
    pub open spec fn first_stale_from(self, m: usize, i: int) -> int
        decreases self.children(m).len() - i,
    {
        if i < 0 || i >= self.children(m).len() {
            self.children(m).len() as int
        } else if self.is_stale(self.children(m)[i]) {
            i
        } else {
            self.first_stale_from(m, i + 1)
        }
    }

    /// `first_stale_from` returns the least position at or after `i` of a
    /// stale workspace.
    pub proof fn lemma_first_stale(self, m: usize, i: int)
        requires
            0 <= i <= self.children(m).len(),
        ensures
            i <= self.first_stale_from(m, i) <= self.children(m).len(),
            self.first_stale_from(m, i) < self.children(m).len() ==> self.is_stale(
                self.children(m)[self.first_stale_from(m, i)],
            ),
            forall|k: int|
                i <= k < self.first_stale_from(m, i) ==> !self.is_stale(
                    #[trigger] self.children(m)[k],
                ),
        decreases self.children(m).len() - i,
    {
        if i < self.children(m).len() && !self.is_stale(self.children(m)[i]) {
            self.lemma_first_stale(m, i + 1);
        }
    }

    /// Recentering the windows of a workspace keeps the tree well-formed
    /// and is an evolution.
    pub proof fn lemma_recentered(self, w: usize, area: Rect)
        requires
            self.wf(),
            area.fits_screen(),
        ensures
            self.recentered(w, area).wf(),
            self.evolves_to(self.recentered(w, area)),
            self.recentered(w, area).nodes.len() == self.nodes.len(),
    {
        let t = self.recentered(w, area);
        assert forall|j: usize| j < t.nodes.len() implies #[trigger] t.node_wf(j) by {
            assert(self.node_wf(j));
            let n = t.nodes[j as int];
            assert forall|k: int| 0 <= k < n.children.len() implies t.child_ok(
                j,
                #[trigger] n.children[k],
            ) by {
                let c = n.children[k];
                assert(self.children(j).contains(c));
                self.lemma_member(j, c);
            }
            if let Some(q) = n.parent {
                self.lemma_parent_differs(j);
            }
        }
        assert(t.names_unique()) by {
            assert forall|a: usize, b: usize, name: Seq<char>|
                #[trigger] t.has_name(a, name) && #[trigger] t.has_name(b, name) implies a
                == b by {
                assert(self.has_name(a, name));
                assert(self.has_name(b, name));
            }
        }
    }
}

impl WmStateView {
    /// The state in which the workspace `w` has landed on the monitor
    /// `target`: `w` is the last workspace of `target`, and is shown there
    /// where it was shown on its old monitor or `target` showed nothing; its
    /// floating windows are centered in the working area of `target` and
    /// wait for rescaling; a cursor jump and redraws of `w` and of what
    /// `target` shows are queued.
    pub open spec fn land_workspace(self, w: usize, target: usize) -> WmStateView {
        let origin = self.tree.parent(w)->0;
        let was_shown = self.tree.displayed(origin) == Some(w);
        let moved = self.tree.attach(w, target, self.tree.children(target).len() as int);
        let shown = if was_shown || moved.displayed(target) is None {
            moved.set_displayed(target, Some(w))
        } else {
            moved
        };
        let recentered = shown.recentered(w, shown.monitor(target).working_area);
        self.with_tree(recentered).queue_cursor_jump().queue_redraw(w).queue_redraw(
            recentered.displayed(target)->0,
        )
    }

    /// The state after the workspace `w` has been moved from the monitor it
    /// stands on to the monitor `target`.
    ///
    /// In order: `w` lands on `target`, as `land_workspace` says; the old
    /// monitor is put in order; the first stale workspace of `target` is
    /// torn down; the workspaces of `target` are sorted; a
    /// `WorkspaceUpdated` event carries the snapshot of `w`.
    pub open spec fn move_workspace(self, w: usize, target: usize, config: ConfigView)
        -> WmStateView {
        let origin = self.tree.parent(w)->0;
        let settled = self.land_workspace(w, target).settle_monitor(origin, config);
        let stale = settled.tree.first_stale_from(target, 0);
        let cleaned = if stale < settled.tree.children(target).len() {
            settled.deactivate(settled.tree.children(target)[stale], config)
        } else {
            settled
        };
        let sorted = cleaned.with_tree(cleaned.tree.sort_workspaces(target, config));
        sorted.emit(EventView::WorkspaceUpdated(sorted.tree.workspace_dto(w)))
    }

    /// What a move of `w` to the monitor `target` does: the error with
    /// which it refuses, or the state it leaves.
    pub open spec fn move_workspace_plan(self, w: usize, target: usize, config: ConfigView)
        -> Result<WmStateView, WmError> {
        if !self.tree.is_workspace(w) {
            Err(WmError::WorkspaceNotFound)
        } else if !self.tree.is_monitor(target) {
            Err(WmError::MonitorNotFound)
        } else if self.tree.parent(w) is None {
            Err(WmError::NoMonitor)
        } else if self.tree.parent(w) == Some(target) {
            Ok(self)
        } else {
            Ok(self.move_workspace(w, target, config))
        }
    }
}

/// Recenters the windows of the workspace `w` in `area`.
fn recenter_windows(tree: &mut Tree, w: usize, area: Rect)
    requires
        old(tree)@.wf(),
        old(tree)@.is_workspace(w),
        area.fits_screen(),
    ensures
        final(tree)@ == old(tree)@.recentered(w, area),
        final(tree)@.wf(),
{
    let ghost t = tree@;
    let ghost kids = t.children(w);
    let ghost goal = t.recentered(w, area);
    let n = tree.child_count(w);
    let total = tree.len();
    let mut i: usize = 0;
    proof {
        t.lemma_recentered(w, area);
    }
    while i < n
        invariant
            t.wf(),
            t.nodes.len() == total,
            t.is_workspace(w),
            area.fits_screen(),
            goal == t.recentered(w, area),
            kids == t.children(w),
            n == kids.len(),
            i <= n,
            tree@.wf(),
            tree@.nodes.len() == t.nodes.len(),
            forall|k: int| 0 <= k < i ==> tree@.nodes[kids[k] as int] == goal.nodes[kids[k] as int],
            forall|k: int| i <= k < n ==> tree@.nodes[kids[k] as int] == t.nodes[kids[k] as int],
            forall|j: int|
                0 <= j < t.nodes.len() && t.nodes[j].parent != Some(w) ==> tree@.nodes[j]
                    == t.nodes[j],
        decreases n - i,
    {
        proof {
            t.lemma_child(w, i as int);
            assert(t.node_wf(w));
            assert(t.node_wf(kids[i as int]));
            assert(tree@.nodes[w as int] == t.nodes[w as int]);
        }
        let c = tree.children(w)[i];
        let data = tree.window_data(c);
        let ghost before = tree@;
        match data.state {
            WindowState::Floating => {
                let placed = data.floating_placement.translate_to_center(&area);
                let changed = WindowData {
                    handle: data.handle,
                    state: data.state,
                    floating_placement: placed,
                    has_pending_dpi_adjustment: true,
                };
                tree.set_window(c, changed);
            },
            _ => {},
        }
        proof {
            assert(tree@.nodes[c as int] == goal.nodes[c as int]);
            assert forall|k: int| 0 <= k < i + 1 implies tree@.nodes[kids[k] as int]
                == goal.nodes[kids[k] as int] by {
                if k < i {
                    assert(kids[k] != kids[i as int]);
                }
            }
            assert forall|k: int| i + 1 <= k < n implies tree@.nodes[kids[k] as int]
                == t.nodes[kids[k] as int] by {
                assert(kids[k] != kids[i as int]);
            }
        }
        i += 1;
    }
    proof {
        assert forall|j: int| 0 <= j < goal.nodes.len() implies tree@.nodes[j] == goal.nodes[j] by {
            if t.nodes[j].parent == Some(w) {
                assert(t.node_wf(j as usize));
                let k = choose|k: int| 0 <= k < kids.len() && kids[k] == j as usize;
                assert(tree@.nodes[kids[k] as int] == goal.nodes[kids[k] as int]);
            }
        }
        assert(tree@.nodes =~= goal.nodes);
    }
}

/// The position of the first stale workspace of the monitor `m`, or the
/// number of its workspaces where there is none.
fn first_stale(tree: &Tree, m: usize) -> (r: usize)
    requires
        tree@.wf(),
        tree@.is_monitor(m),
    ensures
        r == tree@.first_stale_from(m, 0),
        r <= tree@.children(m).len(),
{
    let n = tree.child_count(m);
    let shown = tree.displayed(m);
    let mut i: usize = 0;
    while i < n
        invariant
            tree@.wf(),
            tree@.is_monitor(m),
            n == tree@.children(m).len(),
            shown == tree@.displayed(m),
            i <= n,
            tree@.first_stale_from(m, 0) == tree@.first_stale_from(m, i as int),
        decreases n - i,
    {
        let c = tree.children(m)[i];
        proof {
            tree@.lemma_child(m, i as int);
        }
        let is_shown = match shown {
            Some(d) => d == c,
            None => false,
        };
        if !is_shown && tree.child_count(c) == 0 && !tree.workspace_data(c).keep_alive {
            return i;
        }
        i += 1;
    }
    i
}

/// Moves the workspace `workspace` to the monitor `target_monitor`, as
/// `move_workspace` says.
///
/// Fails with `WorkspaceNotFound` where `workspace` is not a live
/// workspace, with `MonitorNotFound` where `target_monitor` is not a live
/// monitor, and with `NoMonitor` where the workspace stands on no monitor;
/// a move that fails changes nothing. A workspace that stands on
/// `target_monitor` already is left where it is.
pub fn move_workspace_to_monitor_impl(
    workspace: usize,
    target_monitor: usize,
    state: &mut WmState,
    config: &UserConfig,
) -> (r: Result<(), WmError>)
    requires
        old(state)@.wf(),
    ensures
        final(state)@.wf(),
        match r {
            Ok(()) => old(state)@.move_workspace_plan(workspace, target_monitor, config@) == Ok::<
                WmStateView,
                WmError,
            >(final(state)@),
            Err(e) => old(state)@.move_workspace_plan(workspace, target_monitor, config@) == Err::<
                WmStateView,
                WmError,
            >(e) && final(state)@ == old(state)@,
        },
        old(state)@.tree.evolves_to(final(state)@.tree),
        old(state)@.extended_by(final(state)@),
        forall|q: usize|
            old(state)@.tree.monitor_settled(q) ==> #[trigger] final(state)@.tree.monitor_settled(q),
        r is Ok && old(state)@.tree.parent(workspace) != Some(target_monitor)
            ==> final(state)@.tree.monitor_settled(target_monitor),
        old(state)@.tree.settled() ==> final(state)@.tree.settled(),
        old(state)@.tree.tidy() ==> final(state)@.tree.tidy(),
{
    proof {
        old(state)@.tree.lemma_evolves_refl();
        old(state)@.lemma_move_plan_extends(workspace, target_monitor, config@);
    }
    if !state.tree.is_alive(workspace) {
        return Err(WmError::WorkspaceNotFound);
    }
    match state.tree.kind(workspace) {
        ContainerKind::Workspace => {},
        _ => {
            return Err(WmError::WorkspaceNotFound);
        },
    }
    if !state.tree.is_alive(target_monitor) {
        return Err(WmError::MonitorNotFound);
    }
    match state.tree.kind(target_monitor) {
        ContainerKind::Monitor => {},
        _ => {
            return Err(WmError::MonitorNotFound);
        },
    }
    let origin = match state.tree.parent(workspace) {
        Some(origin) => origin,
        None => {
            return Err(WmError::NoMonitor);
        },
    };
    if origin == target_monitor {
        return Ok(());
    }
    let ghost s0 = state@;
    proof {
        s0.tree.lemma_parent_differs(workspace);
        assert(s0.tree.node_wf(origin));
        assert(s0.tree.node_wf(target_monitor));
        assert(s0.tree.node_wf(workspace));
        crate::seq_util::lemma_without(s0.tree.children(origin), workspace);
    }
    let was_shown = match state.tree.displayed(origin) {
        Some(d) => d == workspace,
        None => false,
    };
    let end = state.tree.child_count(target_monitor);
    proof {
        assert(s0.tree.detach(workspace).nodes[target_monitor as int]
            == s0.tree.nodes[target_monitor as int]);
        assert(s0.tree.can_attach(workspace, target_monitor, end as int));
        s0.tree.lemma_attach_evolves(workspace, target_monitor, end as int);
        crate::seq_util::lemma_insert_contains(
            s0.tree.detach(workspace).children(target_monitor),
            end as int,
            workspace,
        );
    }
    let attached = state.tree.attach(workspace, target_monitor, end);
    assert(attached is Ok);
    let ghost moved = state@.tree;
    proof {
        assert(s0.tree.same_frame(moved, target_monitor));
        assert(s0.tree.same_frame(moved, origin));
        assert(s0.tree.same_frame(moved, workspace));
        assert(moved.children(target_monitor).contains(workspace));
        moved.lemma_set_displayed_evolves(target_monitor, Some(workspace));
        moved.lemma_evolves_refl();
    }
    if was_shown || state.tree.displayed(target_monitor).is_none() {
        state.tree.set_displayed(target_monitor, Some(workspace));
    }
    let ghost shown = state@.tree;
    proof {
        s0.tree.lemma_evolves_trans(moved, shown);
        assert(s0.tree.same_frame(shown, target_monitor));
        assert(s0.tree.same_frame(shown, origin));
        assert(s0.tree.same_frame(shown, workspace));
        assert(shown.node_wf(target_monitor));
        assert(shown.node_wf(workspace));
    }
    let area = state.tree.monitor_data(target_monitor).working_area;
    proof {
        shown.lemma_recentered(workspace, area);
    }
    recenter_windows(&mut state.tree, workspace, area);
    let ghost recentered = state@.tree;
    proof {
        s0.tree.lemma_evolves_trans(shown, recentered);
        assert(s0.tree.same_frame(recentered, target_monitor));
        assert(s0.tree.same_frame(recentered, origin));
        assert(recentered.nodes[target_monitor as int] == shown.nodes[target_monitor as int]);
    }
    state.pending_sync.queue_cursor_jump();
    state.pending_sync.queue_container_to_redraw(workspace);
    let on_target = match state.tree.displayed(target_monitor) {
        Some(d) => d,
        None => workspace,
    };
    state.pending_sync.queue_container_to_redraw(on_target);
    proof {
        assert(state@ == s0.land_workspace(workspace, target_monitor));
        s0.lemma_land_effect(workspace, target_monitor);
    }
    settle_monitor(origin, state, config);
    proof {
        assert(s0.tree.has_room_to_replace(workspace));
        crate::laws::law_move_workspace(s0, workspace, target_monitor, config@);
    }
    let ghost settled = state@.tree;
    proof {
        s0.tree.lemma_evolves_trans(recentered, settled);
        s0.tree.lemma_evolves_monitor(settled, target_monitor);
    }
    let stale = first_stale(&state.tree, target_monitor);
    if stale < state.tree.child_count(target_monitor) {
        let goes = state.tree.children(target_monitor)[stale];
        proof {
            settled.lemma_child(target_monitor, stale as int);
            assert(settled.node_wf(target_monitor));
        }
        let torn = deactivate_workspace(goes, state, config);
        assert(torn is Ok);
    }
    let ghost cleaned = state@.tree;
    proof {
        s0.tree.lemma_evolves_trans(settled, cleaned);
        s0.tree.lemma_evolves_monitor(cleaned, target_monitor);
    }
    let sorted = sort_workspaces(target_monitor, state, config);
    assert(sorted is Ok);
    proof {
        s0.tree.lemma_evolves_trans(cleaned, state@.tree);
        s0.tree.lemma_evolves_monitor(state@.tree, workspace);
    }
    let snapshot = state.workspace_dto(workspace);
    state.emit_event(WmEvent::WorkspaceUpdated { updated_workspace: snapshot });
    Ok(())
}

/// Moves the workspace `workspace` to the monitor at position
/// `monitor_index` among the attached monitors.
///
/// Fails with `MonitorNotFound` where no monitor stands at that position,
/// and otherwise as `move_workspace_to_monitor_impl` does for that monitor.
pub fn move_workspace_to_monitor(
    workspace: usize,
    monitor_index: usize,
    state: &mut WmState,
    config: &UserConfig,
) -> (r: Result<(), WmError>)
    requires
        old(state)@.wf(),
    ensures
        final(state)@.wf(),
        match r {
            Ok(()) => monitor_index < old(state)@.tree.monitors().len() && old(state)@.move_workspace_plan(
                workspace,
                old(state)@.tree.monitors()[monitor_index as int],
                config@,
            ) == Ok::<WmStateView, WmError>(final(state)@),
            Err(e) => final(state)@ == old(state)@ && if monitor_index < old(state)@.tree.monitors().len() {
                old(state)@.move_workspace_plan(
                    workspace,
                    old(state)@.tree.monitors()[monitor_index as int],
                    config@,
                ) == Err::<WmStateView, WmError>(e)
            } else {
                e == WmError::MonitorNotFound
            },
        },
        old(state)@.tree.evolves_to(final(state)@.tree),
        old(state)@.extended_by(final(state)@),
        forall|q: usize|
            old(state)@.tree.monitor_settled(q) ==> #[trigger] final(state)@.tree.monitor_settled(q),
        old(state)@.tree.settled() ==> final(state)@.tree.settled(),
        old(state)@.tree.tidy() ==> final(state)@.tree.tidy(),
{
    if monitor_index >= state.tree.child_count(ROOT) {
        proof {
            old(state)@.tree.lemma_evolves_refl();
        }
        return Err(WmError::MonitorNotFound);
    }
    let target = state.tree.children(ROOT)[monitor_index];
    move_workspace_to_monitor_impl(workspace, target, state, config)
}

} // verus!
