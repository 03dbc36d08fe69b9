//! What each command changes of the tree, and what it leaves alone.

use vstd::prelude::*;
use crate::commands::activate_workspace::{lemma_activated_name_is_free, workspace_to_activate};
use crate::config::ConfigView;
use crate::model::{NodeView, PayloadView, TreeView, WorkspaceView};
use crate::seq_util::{lemma_insert_no_dup, lemma_without, without};
use crate::sorting::{lemma_sort_permutes, sort_by_key};
use crate::wm_state::WmStateView;

verus! {

impl TreeView {
    /// `next` is `self` with one more workspace, `id`, on the monitor `m`:
    /// every other container is as it was, `m` holds the workspaces it held
    /// and `id`, and shows what it showed, or `id` where it showed nothing.
    pub open spec fn gained_workspace(self, next: TreeView, m: usize, id: usize) -> bool {
        &&& next.nodes.len() == self.nodes.len() + 1
        &&& id == self.nodes.len()
        &&& forall|j: usize|
            j < self.nodes.len() && j != m ==> #[trigger] next.nodes[j as int]
                == self.nodes[j as int]
        &&& forall|y: usize|
            #[trigger] next.children(m).contains(y) <==> (self.children(m).contains(y) || y == id)
        &&& next.children(m).len() == self.children(m).len() + 1
        &&& next.displayed(m) == (if self.displayed(m) is None {
            Some(id)
        } else {
            self.displayed(m)
        })
        &&& next.is_monitor(m)
        &&& next.is_workspace(id)
        &&& next.parent(id) == Some(m)
        &&& next.children(id).len() == 0
    }

    /// `next` is `self` with the monitor `m` put in order: every other
    /// container is as it was, unless `m` had no workspace and gained one;
    /// `m` holds the workspaces it held, and shows what it showed, or its
    /// first workspace where it showed nothing.
    pub open spec fn settled_monitor(self, next: TreeView, m: usize) -> bool {
        if self.children(m).len() == 0 {
            self.gained_workspace(next, m, self.nodes.len() as usize)
        } else {
            &&& next.nodes.len() == self.nodes.len()
            &&& forall|j: usize|
                j < self.nodes.len() && j != m ==> #[trigger] next.nodes[j as int]
                    == self.nodes[j as int]
            &&& next.children(m) == self.children(m)
            &&& next.displayed(m) == (if self.displayed(m) is None {
                Some(self.children(m)[0])
            } else {
                self.displayed(m)
            })
            &&& next.is_monitor(m)
        }
    }
}

impl TreeView {
    /// `next` is `self` without the workspace `w` of the monitor `m`: the
    /// workspace is destroyed with its windows; every container but these
    /// and `m` is as it was; `m` holds the other workspaces it held, or a
    /// new one where it held `w` only, and shows what it showed, or another
    /// of its workspaces where it showed `w`.
    pub open spec fn lost_workspace(self, next: TreeView, w: usize, m: usize) -> bool {
        &&& !next.alive(w)
        &&& next.is_monitor(m)
        &&& forall|j: usize|
            j < self.nodes.len() && j != w && j != m && self.parent(j) != Some(w)
                ==> #[trigger] next.nodes[j as int] == self.nodes[j as int]
        &&& next.displayed(m) is Some
        &&& (self.displayed(m) is Some && self.displayed(m) != Some(w)) ==> next.displayed(m)
            == self.displayed(m)
        &&& if self.children(m).len() == 1 {
            &&& next.nodes.len() == self.nodes.len() + 1
            &&& forall|y: usize| #[trigger] next.children(m).contains(y) <==> y == self.nodes.len()
            &&& next.displayed(m) == Some(self.nodes.len() as usize)
            &&& next.is_workspace(self.nodes.len() as usize)
            &&& next.children(self.nodes.len() as usize).len() == 0
        } else {
            &&& next.nodes.len() == self.nodes.len()
            &&& forall|y: usize|
                #[trigger] next.children(m).contains(y) <==> (self.children(m).contains(y) && y
                    != w)
        }
    }
}

impl TreeView {
    /// The workspace that the monitor `target` shows once `w` has landed on
    /// it: `w`, where its old monitor showed it or `target` showed nothing;
    /// else what `target` showed.
    pub open spec fn shown_after_landing(self, w: usize, target: usize) -> usize {
        let origin = self.parent(w)->0;
        if self.displayed(origin) == Some(w) || self.displayed(target) is None {
            w
        } else {
            self.displayed(target)->0
        }
    }

    /// Whether `y` is stale on `target` once `w` has landed there.
    pub open spec fn stale_after_landing(self, w: usize, target: usize, y: usize) -> bool {
        !self.workspace(y).keep_alive && self.children(y).len() == 0 && y
            != self.shown_after_landing(w, target)
    }

    /// Whether `y` stands on `target` once `w` has landed there.
    pub open spec fn on_target_after_landing(self, w: usize, target: usize, y: usize) -> bool {
        self.children(target).contains(y) || y == w
    }

    /// `next` is `self` with the workspace `w` landed on the monitor
    /// `target`, before its old monitor is put in order.
    pub open spec fn landed(self, next: TreeView, w: usize, target: usize) -> bool {
        let origin = self.parent(w)->0;
        &&& next.wf()
        &&& next.nodes.len() == self.nodes.len()
        &&& forall|j: usize|
            j < self.nodes.len() && j != origin && j != target && j != w && self.parent(j)
                != Some(w) ==> #[trigger] next.nodes[j as int] == self.nodes[j as int]
        &&& next.is_monitor(origin)
        &&& next.is_monitor(target)
        &&& next.children(origin) == without(self.children(origin), w)
        &&& next.displayed(origin) == (if self.displayed(origin) == Some(w) {
            None
        } else {
            self.displayed(origin)
        })
        &&& next.children(target) == self.children(target).push(w)
        &&& next.displayed(target) == Some(self.shown_after_landing(w, target))
        &&& next.nodes[w as int] == (NodeView { parent: Some(target), ..self.nodes[w as int] })
    }

    /// `next` is `self` with the workspace `w` moved to the monitor
    /// `target`.
    ///
    /// The old monitor holds the other workspaces it held, or a new one
    /// where it held `w` only, and shows one of them: what it showed, where
    /// that was not `w`. The target shows what `shown_after_landing` names.
    /// It holds nothing but what it held and `w`; of these at most one is
    /// gone, and only one that was stale after the landing; and a stale one
    /// that is still there was not the only one. The containers that still
    /// stand on the target, and all those outside the two monitors and `w`,
    /// are as they were.
    pub open spec fn moved_workspace(self, next: TreeView, w: usize, target: usize) -> bool {
        let origin = self.parent(w)->0;
        let fresh = self.nodes.len() as usize;
        &&& next.is_monitor(origin)
        &&& next.is_monitor(target)
        &&& next.displayed(origin) is Some
        &&& (self.displayed(origin) is Some && self.displayed(origin) != Some(w))
            ==> next.displayed(origin) == self.displayed(origin)
        &&& if self.children(origin).len() == 1 {
            &&& next.nodes.len() == self.nodes.len() + 1
            &&& forall|y: usize| #[trigger] next.children(origin).contains(y) <==> y == fresh
            &&& next.displayed(origin) == Some(fresh)
            &&& next.is_workspace(fresh)
            &&& next.children(fresh).len() == 0
        } else {
            &&& next.nodes.len() == self.nodes.len()
            &&& forall|y: usize|
                #[trigger] next.children(origin).contains(y) <==> (self.children(
                    origin,
                ).contains(y) && y != w)
        }
        &&& next.displayed(target) == Some(self.shown_after_landing(w, target))
        &&& forall|y: usize|
            #[trigger] next.children(target).contains(y) ==> self.on_target_after_landing(
                w,
                target,
                y,
            )
        &&& forall|y: usize|
            self.on_target_after_landing(w, target, y) && !self.stale_after_landing(w, target, y)
                ==> #[trigger] next.children(target).contains(y)
        &&& forall|y: usize, z: usize|
            self.on_target_after_landing(w, target, y) && self.on_target_after_landing(
                w,
                target,
                z,
            ) && !#[trigger] next.children(target).contains(y) && !#[trigger] next.children(
                target,
            ).contains(z) ==> y == z
        &&& forall|y: usize|
            #[trigger] next.children(target).contains(y) && self.stale_after_landing(w, target, y)
                ==> exists|z: usize|
                z != y && self.on_target_after_landing(w, target, z)
                    && self.stale_after_landing(w, target, z)
        &&& forall|y: usize|
            self.on_target_after_landing(w, target, y) && !#[trigger] next.children(
                target,
            ).contains(y) ==> !next.alive(y)
        &&& forall|j: usize|
            j < self.nodes.len() && j != origin && j != target && j != w && self.parent(j)
                != Some(w) && (self.parent(j) == Some(target) ==> next.children(target).contains(
                j,
            )) ==> #[trigger] next.nodes[j as int] == self.nodes[j as int]
        &&& next.children(target).contains(w) ==> {
            &&& next.nodes[w as int].alive
            &&& next.parent(w) == Some(target)
            &&& next.children(w) == self.children(w)
            &&& next.workspace(w) == self.workspace(w)
        }
    }
}

impl WmStateView {
    /// What the landing of a workspace on another monitor changes.
    pub proof fn lemma_land_effect(self, w: usize, target: usize)
        requires
            self.wf(),
            self.tree.is_workspace(w),
            self.tree.is_monitor(target),
            self.tree.parent(w) is Some,
            self.tree.parent(w) != Some(target),
        ensures
            self.land_workspace(w, target).wf(),
            self.tree.landed(self.land_workspace(w, target).tree, w, target),
            self.tree.evolves_to(self.land_workspace(w, target).tree),
    {
        let tree = self.tree;
        let origin = tree.parent(w)->0;
        let end = tree.children(target).len() as int;
        tree.lemma_parent_differs(w);
        assert(tree.node_wf(origin));
        assert(tree.node_wf(target));
        assert(tree.node_wf(w));
        lemma_without(tree.children(origin), w);
        assert(tree.detach(w).nodes[target as int] == tree.nodes[target as int]);
        assert(tree.can_attach(w, target, end));
        tree.lemma_attach_wf(w, target, end);
        tree.lemma_attach_evolves(w, target, end);
        let moved = tree.attach(w, target, end);
        assert(moved == tree.detach(w).link(w, target, end));
        crate::seq_util::lemma_insert_at_end(tree.children(target), w);
        crate::seq_util::lemma_insert_contains(tree.children(target), end, w);
        assert(moved.children(target) == tree.children(target).push(w));
        let was_shown = tree.displayed(origin) == Some(w);
        let shown = if was_shown || moved.displayed(target) is None {
            moved.set_displayed(target, Some(w))
        } else {
            moved
        };
        moved.lemma_set_displayed_wf(target, Some(w));
        moved.lemma_set_displayed_evolves(target, Some(w));
        moved.lemma_evolves_refl();
        tree.lemma_evolves_trans(moved, shown);
        assert(shown.node_wf(target));
        let area = shown.monitor(target).working_area;
        shown.lemma_recentered(w, area);
        let recentered = shown.recentered(w, area);
        tree.lemma_evolves_trans(shown, recentered);
        assert(recentered.nodes[target as int] == shown.nodes[target as int]);
        assert(recentered.nodes[origin as int] == shown.nodes[origin as int]);
        assert(recentered.nodes[w as int] == shown.nodes[w as int]);
        assert forall|j: usize|
            j < tree.nodes.len() && j != origin && j != target && j != w && tree.parent(j)
                != Some(w) implies #[trigger] recentered.nodes[j as int]
            == tree.nodes[j as int] by {
            assert(shown.nodes[j as int] == tree.nodes[j as int]);
        }
        let queued = self.with_tree(recentered).queue_cursor_jump();
        queued.pending.lemma_queue_redraw_wf(w);
        queued.queue_redraw(w).pending.lemma_queue_redraw_wf(recentered.displayed(target)->0);
    }
}

impl WmStateView {
    /// What an activation changes.
    pub proof fn lemma_activate_effect(self, workspace: WorkspaceView, m: usize, config: ConfigView)
        requires
            self.wf(),
            self.tree.is_monitor(m),
            self.tree.nodes.len() < usize::MAX,
            workspace.name is Some ==> !self.tree.name_taken(workspace.name->0),
        ensures
            self.tree.gained_workspace(
                self.activate(workspace, m, config).tree,
                m,
                self.tree.nodes.len() as usize,
            ),
            self.activate(workspace, m, config).tree.workspace(self.tree.nodes.len() as usize)
                == workspace,
    {
        let tree = self.tree;
        let id = tree.nodes.len() as usize;
        let end = tree.children(m).len() as int;
        let payload = PayloadView::Workspace(workspace);
        let pushed = tree.push_node(payload);
        tree.lemma_push_wf(payload);
        assert(pushed.nodes[m as int] == tree.nodes[m as int]);
        let linked = pushed.link(id, m, end);
        pushed.lemma_link_wf(id, m, end);
        assert(tree.node_wf(m));
        assert(!tree.children(m).contains(id)) by {
            if tree.children(m).contains(id) {
                tree.lemma_member(m, id);
            }
        }
        lemma_insert_no_dup(tree.children(m), end, id);
        let placed = if tree.displayed(m) is None {
            linked.set_displayed(m, Some(id))
        } else {
            linked
        };
        linked.lemma_set_displayed_wf(m, Some(id));
        assert(placed.children(m) == tree.children(m).insert(end, id));
        assert(placed.node_wf(m));
        lemma_sort_permutes(placed.children(m), placed.rank_key(config));
        let sorted = placed.sort_workspaces(m, config);
        assert(self.activate(workspace, m, config).tree == sorted);
        assert(sorted.children(m) == sort_by_key(placed.children(m), placed.rank_key(config)));
        assert forall|y: usize| #[trigger]
            sorted.children(m).contains(y) <==> (tree.children(m).contains(y) || y == id) by {}
    }

    /// What putting a monitor in order changes.
    pub proof fn lemma_settle_effect(self, m: usize, config: ConfigView)
        requires
            self.wf(),
            self.tree.is_monitor(m),
            self.tree.children(m).len() == 0 ==> self.tree.has_room(),
        ensures
            self.tree.settled_monitor(self.settle_monitor(m, config).tree, m),
    {
        if self.tree.children(m).len() == 0 {
            lemma_activated_name_is_free(self.tree, config, None, Some(m));
            let workspace = workspace_to_activate(self.tree, config, None, Some(m))->0;
            self.lemma_activate_effect(workspace, m, config);
        }
    }

    /// What tearing a workspace down changes, where the workspace stands on
    /// a monitor.
    pub proof fn lemma_deactivate_effect(self, w: usize, config: ConfigView)
        requires
            self.wf(),
            self.tree.is_workspace(w),
            self.tree.parent(w) is Some,
            self.tree.has_room_to_replace(w),
        ensures
            self.tree.lost_workspace(
                self.deactivate(w, config).tree,
                w,
                self.tree.parent(w)->0,
            ),
    {
        let tree = self.tree;
        let m = tree.parent(w)->0;
        tree.lemma_parent_differs(w);
        assert(tree.node_wf(m));
        assert(tree.node_wf(w));
        lemma_without(tree.children(m), w);
        tree.lemma_destroy_workspace_wf(w);
        tree.lemma_destroy_workspace_frame(w);
        tree.lemma_detach_wf(w);
        let torn_tree = tree.destroy_workspace(w);
        let announced = self.emit(
            crate::events::EventView::WorkspaceDeactivated(tree.workspace_dto(w)),
        );
        let torn = announced.with_tree(torn_tree);
        assert(torn_tree.nodes[m as int] == tree.detach(w).nodes[m as int]);
        assert(torn_tree.children(m) == without(tree.children(m), w));
        torn.lemma_settle_effect(m, config);
        let next = torn.settle_monitor(m, config).tree;
        assert(self.deactivate(w, config).tree == next);
        assert forall|j: usize|
            j < tree.nodes.len() && j != w && j != m && tree.parent(j) != Some(
                w,
            ) implies #[trigger] next.nodes[j as int] == tree.nodes[j as int] by {
            assert(torn_tree.nodes[j as int] == tree.nodes[j as int]);
        }
        if tree.children(m).len() > 1 {
            let k = tree.children(m).index_of(w);
            let other = if k == 0 { 1int } else { 0int };
            assert(tree.children(m)[other] != w);
            assert(tree.children(m).contains(tree.children(m)[other]));
            assert(torn_tree.children(m).contains(tree.children(m)[other]));
        }
        if torn_tree.children(m).len() > 0 {
            assert(torn_tree.children(m).contains(torn_tree.children(m)[0]));
        }
    }
}

impl TreeView {
    /// `next` is `self` with the workspace `w` landed on the monitor
    /// `target` and its old monitor put in order, before the target is
    /// cleaned.
    pub open spec fn ready_for_cleanup(self, next: TreeView, w: usize, target: usize) -> bool {
        let origin = self.parent(w)->0;
        let fresh = self.nodes.len() as usize;
        &&& next.wf()
        &&& next.is_monitor(origin)
        &&& next.is_monitor(target)
        &&& next.displayed(origin) is Some
        &&& (self.displayed(origin) is Some && self.displayed(origin) != Some(w))
            ==> next.displayed(origin) == self.displayed(origin)
        &&& if self.children(origin).len() == 1 {
            &&& next.nodes.len() == self.nodes.len() + 1
            &&& forall|y: usize| #[trigger] next.children(origin).contains(y) <==> y == fresh
            &&& next.displayed(origin) == Some(fresh)
            &&& next.is_workspace(fresh)
            &&& next.parent(fresh) == Some(origin)
            &&& next.children(fresh).len() == 0
        } else {
            &&& next.nodes.len() == self.nodes.len()
            &&& forall|y: usize|
                #[trigger] next.children(origin).contains(y) <==> (self.children(
                    origin,
                ).contains(y) && y != w)
        }
        &&& next.children(target) == self.children(target).push(w)
        &&& next.displayed(target) == Some(self.shown_after_landing(w, target))
        &&& forall|j: usize|
            j < self.nodes.len() && j != origin && j != target && j != w && self.parent(j)
                != Some(w) ==> #[trigger] next.nodes[j as int] == self.nodes[j as int]
        &&& next.nodes[w as int] == (NodeView { parent: Some(target), ..self.nodes[w as int] })
    }

    /// Landing and putting the old monitor in order make the tree ready
    /// for the cleaning of the target.
    pub proof fn lemma_ready_for_cleanup(self, landed: TreeView, next: TreeView, w: usize, target: usize)
        requires
            self.wf(),
            self.is_workspace(w),
            self.is_monitor(target),
            self.parent(w) is Some,
            self.parent(w) != Some(target),
            self.landed(landed, w, target),
            landed.settled_monitor(next, self.parent(w)->0),
            next.wf(),
        ensures
            self.ready_for_cleanup(next, w, target),
    {
        let origin = self.parent(w)->0;
        self.lemma_parent_differs(w);
        assert(self.node_wf(origin));
        lemma_without(self.children(origin), w);
        assert(landed.node_wf(origin));
        assert(next.nodes[target as int] == landed.nodes[target as int]);
        assert(next.nodes[w as int] == landed.nodes[w as int]);
        assert forall|j: usize|
            j < self.nodes.len() && j != origin && j != target && j != w && self.parent(j)
                != Some(w) implies #[trigger] next.nodes[j as int] == self.nodes[j as int] by {
            assert(landed.nodes[j as int] == self.nodes[j as int]);
            assert(next.nodes[j as int] == landed.nodes[j as int]);
        }
        if self.children(origin).len() == 1 {
            assert(landed.children(origin).len() == 0);
        } else {
            assert(landed.children(origin).len() > 0);
            assert(landed.children(origin).contains(landed.children(origin)[0]));
            if self.displayed(origin) is Some && self.displayed(origin) != Some(w) {
                assert(landed.displayed(origin) == self.displayed(origin));
            }
        }
    }

    /// Which workspaces stand on the target before it is cleaned, and
    /// which of them are stale.
    pub proof fn lemma_stale_on_target(self, next: TreeView, w: usize, target: usize)
        requires
            self.wf(),
            self.is_workspace(w),
            self.is_monitor(target),
            self.parent(w) is Some,
            self.parent(w) != Some(target),
            self.ready_for_cleanup(next, w, target),
        ensures
            forall|y: usize|
                #[trigger] next.children(target).contains(y) <==> self.on_target_after_landing(
                    w,
                    target,
                    y,
                ),
            forall|y: usize|
                #[trigger] next.children(target).contains(y) ==> (next.is_stale(y)
                    <==> self.stale_after_landing(w, target, y)),
    {
        let origin = self.parent(w)->0;
        let kids = next.children(target);
        self.lemma_parent_differs(w);
        assert(kids[kids.len() - 1] == w);
        assert forall|y: usize| #[trigger]
            kids.contains(y) <==> self.on_target_after_landing(w, target, y) by {
            if kids.contains(y) {
                let i = choose|i: int| 0 <= i < kids.len() && kids[i] == y;
                if i < kids.len() - 1 {
                    assert(self.children(target)[i] == y);
                }
            }
            if self.children(target).contains(y) {
                let i = choose|i: int|
                    0 <= i < self.children(target).len() && self.children(target)[i] == y;
                assert(kids[i] == y);
            }
        }
        assert forall|y: usize| #[trigger] kids.contains(y) implies (next.is_stale(y)
            <==> self.stale_after_landing(w, target, y)) by {
            next.lemma_member(target, y);
            if y != w {
                assert(self.children(target).contains(y));
                self.lemma_member(target, y);
                assert(next.nodes[y as int] == self.nodes[y as int]);
            }
        }
    }

    /// Cleaning the target, after landing and putting the old monitor in
    /// order, completes the move but for the order of the target's
    /// workspaces.
    pub proof fn lemma_cleaned(self, ready: TreeView, next: TreeView, w: usize, target: usize)
        requires
            self.wf(),
            self.is_workspace(w),
            self.is_monitor(target),
            self.parent(w) is Some,
            self.parent(w) != Some(target),
            self.ready_for_cleanup(ready, w, target),
            self.has_room_to_replace(w),
            next.wf(),
            ({
                let stale = ready.first_stale_from(target, 0);
                if stale < ready.children(target).len() {
                    ready.lost_workspace(next, ready.children(target)[stale], target)
                } else {
                    next == ready
                }
            }),
        ensures
            self.moved_workspace(next, w, target),
    {
        let origin = self.parent(w)->0;
        let fresh = self.nodes.len() as usize;
        let shown = self.shown_after_landing(w, target);
        let kids = ready.children(target);
        let stale = ready.first_stale_from(target, 0);
        self.lemma_parent_differs(w);
        self.lemma_stale_on_target(ready, w, target);
        ready.lemma_first_stale(target, 0);
        assert(ready.node_wf(target));
        assert(kids.contains(shown));
        if stale < kids.len() {
            let c = kids[stale];
            assert(kids.contains(c));
            ready.lemma_member(target, c);
            assert(kids.len() != 1) by {
                if kids.len() == 1 {
                    let i = choose|i: int| 0 <= i < kids.len() && kids[i] == shown;
                    assert(kids[i] == kids[stale]);
                }
            }
            assert forall|j: usize| j < ready.nodes.len() implies ready.parent(j) != Some(c) by {
                if ready.parent(j) == Some(c) {
                    ready.lemma_parent_differs(j);
                }
            }
            assert(next.nodes[origin as int] == ready.nodes[origin as int]);
            if self.children(origin).len() == 1 {
                assert(next.nodes[fresh as int] == ready.nodes[fresh as int]);
            }
            if c != w {
                assert(next.nodes[w as int] == ready.nodes[w as int]);
            }
        }
        assert(next.children(origin) == ready.children(origin));
        assert forall|y: usize| #[trigger]
            next.children(origin).contains(y) <==> ready.children(origin).contains(y) by {}
        assert forall|y: usize| #[trigger]
            next.children(target).contains(y) <==> (kids.contains(y) && !(stale < kids.len()
                && y == kids[stale])) by {
            assert(kids.contains(y) <==> ready.children(target).contains(y));
        }
        assert forall|y: usize| #[trigger]
            next.children(target).contains(y) && self.stale_after_landing(
                w,
                target,
                y,
            ) implies exists|z: usize|
            z != y && self.on_target_after_landing(w, target, z) && self.stale_after_landing(
                w,
                target,
                z,
            ) by {
            assert(kids.contains(y));
            let i = choose|i: int| 0 <= i < kids.len() && kids[i] == y;
            assert(ready.is_stale(kids[i]));
            assert(stale <= i);
            let z = kids[stale];
            assert(kids.contains(z));
            assert(z != y);
        }
        assert forall|j: usize|
            j < self.nodes.len() && j != origin && j != target && j != w && self.parent(j)
                != Some(w) && (self.parent(j) == Some(target) ==> next.children(target).contains(
                j,
            )) implies #[trigger] next.nodes[j as int] == self.nodes[j as int] by {
            assert(ready.nodes[j as int] == self.nodes[j as int]);
            if stale < kids.len() && j == kids[stale] {
                assert(kids.contains(j));
                assert(self.children(target).contains(j));
                self.lemma_member(target, j);
            }
        }
    }

    /// Sorting the workspaces of the target does not change what a move
    /// has done.
    pub proof fn lemma_sort_keeps_moved(self, cleaned: TreeView, w: usize, target: usize, config: ConfigView)
        requires
            self.is_monitor(target),
            self.parent(w) is Some,
            self.parent(w) != Some(target),
            self.parent(w)->0 < self.nodes.len(),
            w < self.nodes.len(),
            self.has_room_to_replace(w),
            cleaned.wf(),
            self.moved_workspace(cleaned, w, target),
        ensures
            self.moved_workspace(cleaned.sort_workspaces(target, config), w, target),
    {
        let origin = self.parent(w)->0;
        let next = cleaned.sort_workspaces(target, config);
        assert(cleaned.node_wf(target));
        lemma_sort_permutes(cleaned.children(target), cleaned.rank_key(config));
        assert(next.children(target) == sort_by_key(
            cleaned.children(target),
            cleaned.rank_key(config),
        ));
        assert forall|y: usize| #[trigger]
            next.children(target).contains(y) <==> cleaned.children(target).contains(y) by {}
        assert(next.nodes[origin as int] == cleaned.nodes[origin as int]);
        assert(next.children(origin) == cleaned.children(origin));
        assert forall|y: usize| #[trigger]
            next.children(origin).contains(y) <==> cleaned.children(origin).contains(y) by {}
        assert(next.nodes[w as int] == cleaned.nodes[w as int]);
        assert forall|j: usize| j != target && j < cleaned.nodes.len() implies next.nodes[j as int]
            == cleaned.nodes[j as int] by {}
    }
}

impl WmStateView {
    /// A move keeps the state well-formed, is an evolution of the tree, and
    /// changes what `moved_workspace` says.
    pub proof fn lemma_move_effect(self, w: usize, target: usize, config: ConfigView)
        requires
            self.wf(),
            self.tree.is_workspace(w),
            self.tree.is_monitor(target),
            self.tree.parent(w) is Some,
            self.tree.parent(w) != Some(target),
            self.tree.has_room_to_replace(w),
        ensures
            self.move_workspace(w, target, config).wf(),
            self.tree.evolves_to(self.move_workspace(w, target, config).tree),
            self.tree.moved_workspace(self.move_workspace(w, target, config).tree, w, target),
    {
        let a = self.tree;
        let origin = a.parent(w)->0;
        a.lemma_parent_differs(w);
        assert(a.node_wf(origin));
        lemma_without(a.children(origin), w);
        self.lemma_land_effect(w, target);
        let s3 = self.land_workspace(w, target);
        s3.lemma_settle_monitor(origin, config);
        s3.lemma_settle_effect(origin, config);
        let s4 = s3.settle_monitor(origin, config);
        a.lemma_evolves_trans(s3.tree, s4.tree);
        a.lemma_ready_for_cleanup(s3.tree, s4.tree, w, target);
        let kids = s4.tree.children(target);
        let stale = s4.tree.first_stale_from(target, 0);
        s4.tree.lemma_first_stale(target, 0);
        let s5 = if stale < kids.len() {
            s4.deactivate(kids[stale], config)
        } else {
            s4
        };
        if stale < kids.len() {
            assert(kids.contains(kids[stale]));
            s4.tree.lemma_member(target, kids[stale]);
            assert(s4.tree.node_wf(kids[stale]));
            assert(kids.len() != 1) by {
                let shown = a.shown_after_landing(w, target);
                assert(s4.tree.node_wf(target));
                assert(kids.contains(shown));
                a.lemma_stale_on_target(s4.tree, w, target);
                if kids.len() == 1 {
                    let i = choose|i: int| 0 <= i < kids.len() && kids[i] == shown;
                    assert(kids[i] == kids[stale]);
                }
            }
            s4.lemma_deactivate(kids[stale], config);
            s4.lemma_deactivate_effect(kids[stale], config);
        } else {
            s4.tree.lemma_evolves_refl();
        }
        a.lemma_evolves_trans(s4.tree, s5.tree);
        a.lemma_cleaned(s4.tree, s5.tree, w, target);
        assert(a.same_frame(s5.tree, target));
        s5.tree.lemma_sort_workspaces_wf(target, config);
        s5.tree.lemma_sort_workspaces_evolves(target, config);
        a.lemma_evolves_trans(s5.tree, s5.tree.sort_workspaces(target, config));
        a.lemma_sort_keeps_moved(s5.tree, w, target, config);
        assert(self.move_workspace(w, target, config).tree == s5.tree.sort_workspaces(
            target,
            config,
        ));
    }
}

} // verus!
