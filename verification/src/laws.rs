//! What holds of the commands whatever the state they start from.

use vstd::prelude::*;
use crate::commands::activate_workspace::{
    activation_plan, lemma_activated_name_is_free, workspace_to_activate,
};
use crate::commands::add_monitor::NativeMonitor;
use crate::config::{ConfigFilter, ConfigView};
use crate::model::{PayloadView, TreeView, ROOT};
use crate::sorting::{
    lemma_sort_idempotent, lemma_sort_permutes, lemma_sort_sorted, lemma_sort_stable, sorted_by,
    stable_by,
};
use crate::wm_state::WmStateView;

verus! {

/// Sorting the workspaces of a monitor a second time changes nothing: the
/// tree, the queue and the events are what the first sorting left.
pub proof fn law_sort_workspaces_idempotent(state: WmStateView, monitor: usize, config: ConfigView)
    requires
        state.wf(),
        state.tree.is_monitor(monitor),
    ensures
        ({
            let once = state.with_tree(state.tree.sort_workspaces(monitor, config));
            once.with_tree(once.tree.sort_workspaces(monitor, config)) == once
        }),
{
    let tree = state.tree;
    let once = tree.sort_workspaces(monitor, config);
    let twice = once.sort_workspaces(monitor, config);
    let key = tree.rank_key(config);
    assert(once.rank_key(config) =~= key) by {
        assert forall|id: usize| #[trigger] once.rank_key(config)(id) == key(id) by {
            if id < tree.nodes.len() {
                assert(once.nodes[id as int].payload == tree.nodes[id as int].payload);
            }
        }
    }
    lemma_sort_idempotent(tree.children(monitor), key);
    assert(twice.nodes =~= once.nodes);
}

/// Sorting leaves the workspaces of the monitor in the order of their
/// places in the configuration, leaves the same workspaces, and keeps those
/// with the same place in the order they had.
pub proof fn law_sort_workspaces_orders(tree: TreeView, monitor: usize, config: ConfigView)
    requires
        tree.wf(),
        tree.is_monitor(monitor),
    ensures
        sorted_by(tree.sort_workspaces(monitor, config).children(monitor), tree.rank_key(config)),
        tree.sort_workspaces(monitor, config).children(monitor).len() == tree.children(
            monitor,
        ).len(),
        forall|w: usize|
            tree.sort_workspaces(monitor, config).children(monitor).contains(w)
                <==> tree.children(monitor).contains(w),
        stable_by(
            tree.children(monitor),
            tree.sort_workspaces(monitor, config).children(monitor),
            tree.rank_key(config),
        ),
{
    assert(tree.node_wf(monitor));
    lemma_sort_sorted(tree.children(monitor), tree.rank_key(config));
    lemma_sort_permutes(tree.children(monitor), tree.rank_key(config));
    lemma_sort_stable(tree.children(monitor), tree.rank_key(config));
}

impl ConfigView {
    /// Entries with the same name agree on whether the workspace is kept
    /// alive.
    pub open spec fn keep_alive_consistent(self) -> bool {
        forall|i: int, j: int|
            0 <= i < self.workspaces.len() && 0 <= j < self.workspaces.len()
                && self.workspaces[i].name == self.workspaces[j].name
                ==> self.workspaces[i].keep_alive == self.workspaces[j].keep_alive
    }
}

/// An activation keeps the state well-formed, and leaves every monitor
/// with a workspace that it shows, if every monitor had one. It leaves no
/// stale workspace, if there was none and the new workspace is kept alive
/// or its monitor showed nothing.
pub proof fn law_activate_workspace(
    state: WmStateView,
    config: ConfigView,
    name: Option<Seq<char>>,
    target: Option<usize>,
)
    requires
        state.wf(),
        state.tree.nodes.len() < usize::MAX,
    ensures
        activation_plan(state.tree, config, name, target) matches Ok((workspace, m)) ==> {
            let next = state.activate(workspace, m, config);
            &&& next.wf()
            &&& next.tree.monitor_settled(m)
            &&& forall|q: usize|
                state.tree.monitor_settled(q) ==> #[trigger] next.tree.monitor_settled(q)
            &&& state.tree.settled() ==> next.tree.settled()
            &&& state.tree.tidy() && (workspace.keep_alive || state.tree.displayed(m) is None)
                ==> next.tree.tidy()
        },
{
    if let Ok((workspace, m)) = activation_plan(state.tree, config, name, target) {
        lemma_activated_name_is_free(state.tree, config, name, target);
        lemma_plan_target_is_monitor(state.tree, config, name, target);
        state.lemma_activate(workspace, m, config);
        state.lemma_activate_effect(workspace, m, config);
        let next = state.activate(workspace, m, config);
        state.tree.lemma_gained_keeps(next.tree, m, state.tree.nodes.len() as usize);
        if state.tree.settled() {
            assert forall|q: usize| #[trigger] next.tree.monitor_settled(q) by {
                assert(state.tree.monitor_settled(q));
            }
        }
    }
}

/// The monitor that an activation goes to is a live monitor.
pub proof fn lemma_plan_target_is_monitor(
    tree: TreeView,
    config: ConfigView,
    name: Option<Seq<char>>,
    target: Option<usize>,
)
    requires
        tree.wf(),
    ensures
        activation_plan(tree, config, name, target) matches Ok((workspace, m)) ==> tree.is_monitor(
            m,
        ),
{
    if let Ok((workspace, m)) = activation_plan(tree, config, name, target) {
        if target is None {
            let b = workspace.bind_to_monitor->0;
            tree.lemma_child(ROOT, b as int);
            assert(tree.node_wf(ROOT));
        }
    }
}

/// Tearing a workspace down keeps the state well-formed, leaves every
/// monitor with a workspace that it shows, if every monitor had one, and
/// leaves no stale workspace, if there was none.
pub proof fn law_deactivate_workspace(state: WmStateView, workspace: usize, config: ConfigView)
    requires
        state.wf(),
        state.tree.is_workspace(workspace),
        state.tree.has_room_to_replace(workspace),
    ensures
        state.deactivate(workspace, config).wf(),
        forall|q: usize|
            state.tree.monitor_settled(q) ==> #[trigger] state.deactivate(
                workspace,
                config,
            ).tree.monitor_settled(q),
        state.tree.settled() ==> state.deactivate(workspace, config).tree.settled(),
        state.tree.tidy() ==> state.deactivate(workspace, config).tree.tidy(),
{
    let next = state.deactivate(workspace, config);
    state.lemma_deactivate(workspace, config);
    if let Some(m) = state.tree.parent(workspace) {
        state.lemma_deactivate_effect(workspace, config);
        state.tree.lemma_lost_keeps(next.tree, workspace, m);
    } else {
        state.tree.lemma_destroyed_detached_keeps(workspace);
    }
    if state.tree.settled() {
        assert forall|q: usize| #[trigger] next.tree.monitor_settled(q) by {
            assert(state.tree.monitor_settled(q));
        }
    }
}

/// A move keeps the state well-formed, leaves every monitor with a
/// workspace that it shows, if every monitor had one, and leaves no stale
/// workspace, if there was none.
pub proof fn law_move_workspace(state: WmStateView, workspace: usize, target: usize, config: ConfigView)
    requires
        state.wf(),
        state.tree.has_room_to_replace(workspace),
    ensures
        state.move_workspace_plan(workspace, target, config) matches Ok(next) ==> {
            &&& next.wf()
            &&& state.tree.evolves_to(next.tree)
            &&& state.tree.nodes.len() <= next.tree.nodes.len() <= state.tree.nodes.len() + 1
            &&& forall|q: usize|
                state.tree.monitor_settled(q) ==> #[trigger] next.tree.monitor_settled(q)
            &&& state.tree.parent(workspace) != Some(target) ==> next.tree.monitor_settled(target)
            &&& state.tree.parent(workspace) == Some(target) ==> next == state
            &&& state.tree.settled() ==> next.tree.settled()
            &&& state.tree.tidy() ==> next.tree.tidy()
        },
{
    if let Ok(next) = state.move_workspace_plan(workspace, target, config) {
        if state.tree.parent(workspace) == Some(target) {
            state.tree.lemma_evolves_refl();
            state.tree.lemma_levels(workspace);
            assert(state.tree.node_wf(target));
        } else {
            state.lemma_move_effect(workspace, target, config);
            state.tree.lemma_moved_keeps(next.tree, workspace, target);
        }
        if state.tree.settled() {
            assert forall|q: usize| #[trigger] next.tree.monitor_settled(q) by {
                assert(state.tree.monitor_settled(q));
            }
        }
    }
}

/// Putting a monitor in order keeps the state well-formed, leaves the
/// monitor with a workspace that it shows, every other monitor with one if
/// it had one, and no stale workspace, if there was none.
pub proof fn law_settle_monitor(state: WmStateView, monitor: usize, config: ConfigView)
    requires
        state.wf(),
        state.tree.is_monitor(monitor),
        state.tree.children(monitor).len() == 0 ==> state.tree.has_room(),
    ensures
        state.settle_monitor(monitor, config).wf(),
        state.settle_monitor(monitor, config).tree.monitor_settled(monitor),
        forall|q: usize|
            state.tree.monitor_settled(q) ==> #[trigger] state.settle_monitor(
                monitor,
                config,
            ).tree.monitor_settled(q),
        state.tree.tidy() ==> state.settle_monitor(monitor, config).tree.tidy(),
{
    state.lemma_settle_monitor(monitor, config);
    state.lemma_settle_effect(monitor, config);
    state.tree.lemma_settled_monitor_keeps(
        state.settle_monitor(monitor, config).tree,
        monitor,
    );
}

/// Sorting the workspaces of a monitor keeps the state well-formed, leaves
/// every monitor with a workspace that it shows, if every monitor had one,
/// and leaves no stale workspace, if there was none.
pub proof fn law_sort_workspaces(state: WmStateView, monitor: usize, config: ConfigView)
    requires
        state.wf(),
        state.tree.is_monitor(monitor),
    ensures
        state.with_tree(state.tree.sort_workspaces(monitor, config)).wf(),
        forall|q: usize|
            state.tree.monitor_settled(q) ==> #[trigger] state.tree.sort_workspaces(
                monitor,
                config,
            ).monitor_settled(q),
        state.tree.settled() ==> state.tree.sort_workspaces(monitor, config).settled(),
        state.tree.tidy() ==> state.tree.sort_workspaces(monitor, config).tidy(),
{
    let next = state.tree.sort_workspaces(monitor, config);
    state.tree.lemma_sort_workspaces_wf(monitor, config);
    state.tree.lemma_sort_keeps(monitor, config);
    if state.tree.settled() {
        assert forall|q: usize| #[trigger] next.monitor_settled(q) by {
            assert(state.tree.monitor_settled(q));
        }
    }
}

impl TreeView {
    /// The monitor `m` shows a workspace if it has one.
    pub open spec fn monitor_orderly(self, m: usize) -> bool {
        self.children(m).len() >= 1 ==> self.displayed(m) is Some
    }
}

/// An activation by the name of a configuration entry that is kept alive
/// makes a workspace that is kept alive, where the entries of one name
/// agree.
pub proof fn lemma_named_activation_keeps_alive(
    tree: TreeView,
    config: ConfigView,
    k: int,
    target: Option<usize>,
)
    requires
        0 <= k < config.workspaces.len(),
        config.workspaces[k].keep_alive,
        config.keep_alive_consistent(),
    ensures
        activation_plan(tree, config, Some(config.workspaces[k].name), target) matches Ok(
            (workspace, m),
        ) ==> workspace.keep_alive,
{
    let name = config.workspaces[k].name;
    if let Ok((workspace, m)) = activation_plan(tree, config, Some(name), target) {
        let filter = ConfigFilter::Named(name);
        config.lemma_first_eligible(0, filter, tree);
        let first = config.first_eligible(filter, tree);
        assert(workspace == config.workspaces[first].workspace());
        assert(config.eligible(first, filter, tree));
        assert(config.workspaces[first].name == config.workspaces[k].name);
    }
}

/// What the attachment of a new monitor to the root keeps: every other
/// monitor and every workspace is as it was.
pub proof fn lemma_monitor_attached(tree: TreeView, native: NativeMonitor)
    requires
        tree.wf(),
        tree.has_room(),
        native.working_area.fits_screen(),
    ensures
        ({
            let m = tree.nodes.len() as usize;
            let next = tree.push_node(PayloadView::Monitor(native.monitor())).link(
                m,
                ROOT,
                tree.monitors().len() as int,
            );
            &&& next.wf()
            &&& next.is_monitor(m)
            &&& next.children(m).len() == 0
            &&& forall|q: usize| q != m && tree.monitor_settled(q) ==> #[trigger] next.monitor_settled(q)
            &&& tree.tidy() ==> next.tidy()
        }),
{
    let m = tree.nodes.len() as usize;
    let index = tree.monitors().len() as int;
    let payload = PayloadView::Monitor(native.monitor());
    let pushed = tree.push_node(payload);
    tree.lemma_push_wf(payload);
    assert(tree.node_wf(ROOT));
    assert(pushed.nodes[ROOT as int] == tree.nodes[ROOT as int]);
    pushed.lemma_link_wf(m, ROOT, index);
    let linked = pushed.link(m, ROOT, index);
    assert forall|q: usize| q != m && tree.monitor_settled(q) implies #[trigger]
        linked.monitor_settled(q) by {
        if linked.is_monitor(q) {
            assert(linked.nodes[q as int] == tree.nodes[q as int]);
        }
    }
    if tree.tidy() {
        assert forall|y: usize| #[trigger] linked.workspace_tidy(y) by {
            if linked.is_workspace(y) && linked.parent(y) is Some {
                assert(linked.nodes[y as int] == tree.nodes[y as int]);
                assert(tree.workspace_tidy(y));
                tree.lemma_levels(y);
                let p = tree.parent(y)->0;
                assert(linked.nodes[p as int] == tree.nodes[p as int]);
            }
        }
    }
}

/// What the reconciliation of one configuration entry with a new monitor
/// keeps.
pub proof fn lemma_bind_step(state: WmStateView, k: int, m: usize, index: int, config: ConfigView)
    requires
        state.wf(),
        state.tree.is_monitor(m),
        state.tree.nodes.len() + 1 < usize::MAX,
        0 <= k < config.workspaces.len(),
    ensures
        ({
            let next = state.bind_step(config.workspaces[k], m, index, config);
            &&& next.wf()
            &&& state.tree.evolves_to(next.tree)
            &&& state.tree.nodes.len() <= next.tree.nodes.len() <= state.tree.nodes.len() + 1
            &&& forall|q: usize|
                state.tree.monitor_settled(q) ==> #[trigger] next.tree.monitor_settled(q)
            &&& state.tree.monitor_orderly(m) ==> next.tree.monitor_orderly(m)
            &&& state.tree.tidy() && config.keep_alive_consistent() ==> next.tree.tidy()
        }),
{
    let entry = config.workspaces[k];
    let next = state.bind_step(entry, m, index, config);
    state.tree.lemma_evolves_refl();
    if entry.bind_to_monitor matches Some(b) && b as int == index {
        if state.tree.name_taken(entry.name) {
            let w = state.tree.workspace_named(entry.name);
            law_move_workspace(state, w, m, config);
            if state.move_workspace_plan(w, m, config) is Ok {
                state.tree.lemma_evolves_monitor(next.tree, m);
            }
        } else if entry.keep_alive {
            let plan = activation_plan(state.tree, config, Some(entry.name), Some(m));
            if let Ok((workspace, monitor)) = plan {
                assert(monitor == m);
                lemma_activated_name_is_free(state.tree, config, Some(entry.name), Some(m));
                law_activate_workspace(state, config, Some(entry.name), Some(m));
                state.lemma_activate(workspace, m, config);
                state.lemma_activate_effect(workspace, m, config);
                state.tree.lemma_gained_keeps(next.tree, m, state.tree.nodes.len() as usize);
                state.tree.lemma_evolves_monitor(next.tree, m);
                if config.keep_alive_consistent() {
                    lemma_named_activation_keeps_alive(state.tree, config, k, Some(m));
                }
            }
        }
    }
}

/// What the reconciliation of the first `i` configuration entries with a
/// new monitor keeps.
pub proof fn lemma_bind_prefix(state: WmStateView, m: usize, index: int, config: ConfigView, i: nat)
    requires
        state.wf(),
        state.tree.is_monitor(m),
        state.tree.nodes.len() + i < usize::MAX,
        i <= config.workspaces.len(),
    ensures
        ({
            let next = state.bind_prefix(m, index, config, i);
            &&& next.wf()
            &&& state.tree.evolves_to(next.tree)
            &&& next.tree.is_monitor(m)
            &&& state.tree.nodes.len() <= next.tree.nodes.len() <= state.tree.nodes.len() + i
            &&& forall|q: usize|
                state.tree.monitor_settled(q) ==> #[trigger] next.tree.monitor_settled(q)
            &&& state.tree.monitor_orderly(m) ==> next.tree.monitor_orderly(m)
            &&& state.tree.tidy() && config.keep_alive_consistent() ==> next.tree.tidy()
        }),
    decreases i,
{
    if i == 0 {
        state.tree.lemma_evolves_refl();
    } else {
        let before = state.bind_prefix(m, index, config, (i - 1) as nat);
        lemma_bind_prefix(state, m, index, config, (i - 1) as nat);
        lemma_bind_step(before, i - 1, m, index, config);
        let next = before.bind_step(config.workspaces[i - 1], m, index, config);
        state.tree.lemma_evolves_trans(before.tree, next.tree);
        state.tree.lemma_evolves_monitor(next.tree, m);
        assert forall|q: usize| state.tree.monitor_settled(q) implies #[trigger]
            next.tree.monitor_settled(q) by {
            assert(before.tree.monitor_settled(q));
        }
    }
}

/// Adding a monitor keeps the state well-formed, and leaves every monitor,
/// the new one too, with a workspace that it shows, if every monitor had
/// one. It leaves no stale workspace, if there was none and the
/// configuration entries of one name agree on `keep_alive`.
pub proof fn law_add_monitor(state: WmStateView, native: NativeMonitor, config: ConfigView)
    requires
        state.wf(),
        native.working_area.fits_screen(),
        state.tree.nodes.len() + config.workspaces.len() + 2 < usize::MAX,
    ensures
        state.add_monitor(native, config).wf(),
        state.add_monitor(native, config).tree.monitor_settled(state.tree.nodes.len() as usize),
        state.add_monitor(native, config).tree.is_monitor(state.tree.nodes.len() as usize),
        state.tree.settled() ==> state.add_monitor(native, config).tree.settled(),
        state.tree.tidy() && config.keep_alive_consistent() ==> state.add_monitor(
            native,
            config,
        ).tree.tidy(),
{
    let m = state.tree.nodes.len() as usize;
    let index = state.tree.monitors().len() as int;
    lemma_monitor_attached(state.tree, native);
    let linked = state.tree.push_node(PayloadView::Monitor(native.monitor())).link(m, ROOT, index);
    let attached = state.with_tree(linked);
    let announced = attached.emit(crate::events::EventView::MonitorAdded(linked.monitor_dto(m)));
    assert(announced.tree == linked);
    let n = config.workspaces.len();
    lemma_bind_prefix(announced, m, index, config, n);
    let bound = announced.bind_prefix(m, index, config, n);
    let last = state.add_monitor(native, config);
    if bound.tree.children(m).len() == 0 {
        lemma_activated_name_is_free(bound.tree, config, None, Some(m));
        let workspace = workspace_to_activate(bound.tree, config, None, Some(m))->0;
        bound.lemma_activate(workspace, m, config);
        bound.lemma_activate_effect(workspace, m, config);
        assert(bound.tree.node_wf(m));
        bound.tree.lemma_gained_keeps(last.tree, m, bound.tree.nodes.len() as usize);
        bound.tree.lemma_evolves_monitor(last.tree, m);
    }
    announced.tree.lemma_evolves_monitor(bound.tree, m);
    if state.tree.settled() {
        assert forall|q: usize| #[trigger] last.tree.monitor_settled(q) by {
            if q != m {
                assert(state.tree.monitor_settled(q));
                assert(linked.monitor_settled(q));
                assert(bound.tree.monitor_settled(q));
            }
        }
    }
}

/// The state before anything has happened has no monitor and no workspace:
/// it is settled and tidy.
pub proof fn law_initial_state()
    ensures
        WmStateView::initial().wf(),
        WmStateView::initial().tree.settled(),
        WmStateView::initial().tree.tidy(),
{
    TreeView::lemma_initial_wf();
    let tree = WmStateView::initial().tree;
    assert forall|q: usize| #[trigger] tree.monitor_settled(q) by {
        if q < tree.nodes.len() {
            assert(q == 0);
        }
    }
    assert forall|y: usize| #[trigger] tree.workspace_tidy(y) by {
        if y < tree.nodes.len() {
            assert(y == 0);
        }
    }
}

/// In a settled tree every monitor that is attached to the root has at
/// least one workspace, and shows one of its workspaces.
pub proof fn law_attached_monitors_are_populated(tree: TreeView, i: int)
    requires
        tree.wf(),
        tree.settled(),
        0 <= i < tree.monitors().len(),
    ensures
        tree.is_monitor(tree.monitors()[i]),
        tree.children(tree.monitors()[i]).len() >= 1,
        tree.displayed(tree.monitors()[i]) is Some,
        tree.children(tree.monitors()[i]).contains(tree.displayed(tree.monitors()[i])->0),
{
    let m = tree.monitors()[i];
    tree.lemma_child(ROOT, i);
    assert(tree.node_wf(ROOT));
    assert(tree.monitor_settled(m));
    tree.lemma_shown_is_held(m);
}

/// In a tidy tree a live workspace on a monitor that is not kept alive and
/// holds no window is shown by its monitor: none waits for its destruction.
pub proof fn law_no_workspace_lingers(tree: TreeView, workspace: usize)
    requires
        tree.wf(),
        tree.tidy(),
        tree.is_workspace(workspace),
        tree.parent(workspace) is Some,
        !tree.workspace(workspace).keep_alive,
        tree.children(workspace).len() == 0,
    ensures
        tree.is_displayed(workspace),
        tree.displayed(tree.parent(workspace)->0) == Some(workspace),
{
    assert(tree.workspace_tidy(workspace));
}

/// Moving a workspace from the monitor `a` to the monitor `b` and back
/// restores the workspaces of `a`: every workspace that stood on `a`
/// stands there again, and nothing else does but, where the moved workspace
/// was the only one, the workspace that took its place in between.
pub proof fn law_move_round_trip(state: WmStateView, w: usize, a: usize, b: usize, config: ConfigView)
    requires
        state.wf(),
        state.tree.settled(),
        state.tree.tidy(),
        state.tree.is_workspace(w),
        state.tree.parent(w) == Some(a),
        state.tree.is_monitor(b),
        a != b,
        state.tree.nodes.len() + 3 < usize::MAX,
    ensures
        ({
            let there = state.move_workspace(w, b, config);
            let back = there.move_workspace(w, a, config);
            let fresh = state.tree.nodes.len() as usize;
            &&& there.tree.is_workspace(w)
            &&& there.tree.parent(w) == Some(b)
            &&& there.move_workspace_plan(w, a, config) == Ok::<WmStateView, crate::error::WmError>(
                back,
            )
            &&& back.wf()
            &&& back.tree.parent(w) == Some(a)
            &&& forall|y: usize|
                state.tree.children(a).contains(y) ==> #[trigger] back.tree.children(a).contains(y)
            &&& forall|y: usize|
                #[trigger] back.tree.children(a).contains(y) ==> state.tree.children(a).contains(y)
                    || (y == fresh && state.tree.children(a).len() == 1)
        }),
{
    let s = state.tree;
    let there = state.move_workspace(w, b, config);
    let s1 = there.tree;
    let fresh = s.nodes.len() as usize;
    s.lemma_levels(w);
    assert(s.monitor_settled(a));
    assert(s.monitor_settled(b));
    assert(s.workspace_tidy(w));
    s.lemma_shown_is_held(b);
    s.lemma_member(b, s.displayed(b)->0);
    state.lemma_move_effect(w, b, config);
    s.lemma_moved_keeps(s1, w, b);
    // The workspace arrives and stays.
    assert(s.on_target_after_landing(w, b, w));
    assert(!s.stale_after_landing(w, b, w));
    assert(s1.children(b).contains(w));
    assert(s.same_frame(s1, w));
    assert(s.same_frame(s1, a));
    // The way back.
    there.lemma_move_effect(w, a, config);
    let back = there.move_workspace(w, a, config);
    let s2 = back.tree;
    assert(s1.monitor_settled(a));
    assert(s1.on_target_after_landing(w, a, w));
    assert(!s1.stale_after_landing(w, a, w));
    assert(s2.children(a).contains(w));
    assert forall|y: usize| s.children(a).contains(y) implies #[trigger] s2.children(a).contains(
        y,
    ) by {
        if y != w {
            s.lemma_member(a, y);
            if s.children(a).len() == 1 {
                let i = choose|i: int| 0 <= i < s.children(a).len() && s.children(a)[i] == w;
                let j = choose|j: int| 0 <= j < s.children(a).len() && s.children(a)[j] == y;
                assert(i == j);
            }
            assert(s1.children(a).contains(y));
            assert(s1.nodes[y as int] == s.nodes[y as int]);
            assert(s1.on_target_after_landing(w, a, y));
            assert(s.workspace_tidy(y));
            if s1.stale_after_landing(w, a, y) {
                assert(s.is_displayed(y));
                assert(s.displayed(a) == Some(y));
                assert(s1.displayed(a) == Some(y));
                assert(false);
            }
        }
    }
    assert forall|y: usize| #[trigger] s2.children(a).contains(y) implies s.children(a).contains(
        y,
    ) || (y == fresh && s.children(a).len() == 1) by {
        assert(s1.on_target_after_landing(w, a, y));
    }
}

} // verus!
