//! What the commands keep of a tree: every monitor has a workspace and
//! shows one, and no workspace lingers that should have gone.

use vstd::prelude::*;
use crate::config::ConfigView;
use crate::model::TreeView;
use crate::sorting::{lemma_sort_permutes, sort_by_key};

verus! {

impl TreeView {
    /// A live monitor has a workspace and shows one.
    pub open spec fn monitor_settled(self, q: usize) -> bool {
        self.is_monitor(q) ==> self.children(q).len() >= 1 && self.displayed(q) is Some
    }

    /// Every live monitor has a workspace and shows one.
    pub open spec fn settled(self) -> bool {
        forall|q: usize| #[trigger] self.monitor_settled(q)
    }

    /// Every live monitor but `m` has a workspace and shows one.
    pub open spec fn settled_except(self, m: usize) -> bool {
        forall|q: usize| q != m ==> #[trigger] self.monitor_settled(q)
    }

    /// A live workspace that stands on a monitor is kept alive, or holds a
    /// window, or is shown.
    pub open spec fn workspace_tidy(self, y: usize) -> bool {
        self.is_workspace(y) && self.parent(y) is Some ==> !self.is_stale(y)
    }

    /// No live workspace on a monitor is stale.
    pub open spec fn tidy(self) -> bool {
        forall|y: usize| #[trigger] self.workspace_tidy(y)
    }

    /// A monitor that shows a workspace has one.
    pub proof fn lemma_shown_is_held(self, m: usize)
        requires
            self.wf(),
            m < self.nodes.len(),
            self.displayed(m) is Some,
        ensures
            self.children(m).len() >= 1,
            self.children(m).contains(self.displayed(m)->0),
    {
        assert(self.node_wf(m));
    }

    /// A live monitor is a child of nothing but the root, and a live
    /// workspace of nothing but a monitor.
    pub proof fn lemma_levels(self, id: usize)
        requires
            self.wf(),
            id < self.nodes.len(),
        ensures
            self.parent(id) matches Some(p) ==> {
                &&& self.kind(id) == crate::model::ContainerKind::Monitor ==> self.kind(p)
                    == crate::model::ContainerKind::Root
                &&& self.kind(id) == crate::model::ContainerKind::Workspace ==> self.is_monitor(p)
                &&& self.kind(id) == crate::model::ContainerKind::Window ==> self.is_workspace(p)
                &&& self.children(p).contains(id)
                &&& self.alive(id)
            },
    {
        if self.parent(id) is Some {
            self.lemma_parent_differs(id);
        }
    }

    /// A tree with one more workspace on `m` keeps what was settled, and
    /// keeps itself tidy where the workspace is kept alive or is shown.
    pub proof fn lemma_gained_keeps(self, next: TreeView, m: usize, id: usize)
        requires
            self.wf(),
            next.wf(),
            self.is_monitor(m),
            self.gained_workspace(next, m, id),
        ensures
            next.monitor_settled(m),
            forall|q: usize| q != m && self.monitor_settled(q) ==> #[trigger] next.monitor_settled(q),
            self.tidy() && (self.displayed(m) is None || next.workspace(id).keep_alive)
                ==> next.tidy(),
    {
        assert(next.children(m).contains(id));
        assert forall|q: usize| q != m && self.monitor_settled(q) implies #[trigger]
            next.monitor_settled(q) by {
            if next.is_monitor(q) {
                assert(next.nodes[q as int] == self.nodes[q as int]);
            }
        }
        if self.tidy() && (self.displayed(m) is None || next.workspace(id).keep_alive) {
            assert forall|y: usize| #[trigger] next.workspace_tidy(y) by {
                if next.is_workspace(y) && next.parent(y) is Some && y != id {
                    assert(next.nodes[y as int] == self.nodes[y as int]);
                    assert(self.workspace_tidy(y));
                    let p = self.parent(y)->0;
                    self.lemma_levels(y);
                    if p != m {
                        assert(next.nodes[p as int] == self.nodes[p as int]);
                    }
                }
            }
        }
    }

    /// A tree with the monitor `m` put in order keeps what was settled,
    /// and keeps itself tidy.
    pub proof fn lemma_settled_monitor_keeps(self, next: TreeView, m: usize)
        requires
            self.wf(),
            next.wf(),
            self.is_monitor(m),
            self.settled_monitor(next, m),
        ensures
            next.monitor_settled(m),
            forall|q: usize| q != m && self.monitor_settled(q) ==> #[trigger] next.monitor_settled(q),
            self.tidy() ==> next.tidy(),
    {
        if self.children(m).len() == 0 {
            assert(self.node_wf(m));
            self.lemma_gained_keeps(next, m, self.nodes.len() as usize);
        } else {
            assert forall|q: usize| q != m && self.monitor_settled(q) implies #[trigger]
                next.monitor_settled(q) by {
                if next.is_monitor(q) {
                    assert(next.nodes[q as int] == self.nodes[q as int]);
                }
            }
            if self.tidy() {
                assert forall|y: usize| #[trigger] next.workspace_tidy(y) by {
                    if next.is_workspace(y) && next.parent(y) is Some {
                        assert(next.nodes[y as int] == self.nodes[y as int]);
                        assert(self.workspace_tidy(y));
                        let p = self.parent(y)->0;
                        self.lemma_levels(y);
                        if p != m {
                            assert(next.nodes[p as int] == self.nodes[p as int]);
                        }
                    }
                }
            }
        }
    }

    /// A tree that has lost the workspace `w` of the monitor `m` keeps
    /// what was settled, and keeps itself tidy.
    pub proof fn lemma_lost_keeps(self, next: TreeView, w: usize, m: usize)
        requires
            self.wf(),
            next.wf(),
            self.evolves_to(next),
            self.is_workspace(w),
            self.parent(w) == Some(m),
            self.lost_workspace(next, w, m),
        ensures
            next.monitor_settled(m),
            forall|q: usize| q != m && self.monitor_settled(q) ==> #[trigger] next.monitor_settled(q),
            self.tidy() ==> next.tidy(),
    {
        let fresh = self.nodes.len() as usize;
        self.lemma_levels(w);
        next.lemma_shown_is_held(m);
        assert forall|q: usize| q != m && self.monitor_settled(q) implies #[trigger]
            next.monitor_settled(q) by {
            if next.is_monitor(q) {
                if q < self.nodes.len() {
                    assert(self.same_frame(next, q));
                    self.lemma_levels(q);
                    assert(next.nodes[q as int] == self.nodes[q as int]);
                }
            }
        }
        if self.tidy() {
            assert forall|y: usize| #[trigger] next.workspace_tidy(y) by {
                if next.is_workspace(y) && next.parent(y) is Some {
                    if y < self.nodes.len() {
                        assert(self.same_frame(next, y));
                        assert(y != w);
                        self.lemma_levels(y);
                        assert(next.nodes[y as int] == self.nodes[y as int]);
                        assert(self.workspace_tidy(y));
                        let p = self.parent(y)->0;
                        if p != m {
                            self.lemma_levels(p);
                            assert(next.nodes[p as int] == self.nodes[p as int]);
                        }
                    } else {
                        next.lemma_levels(y);
                        let p = next.parent(y)->0;
                        if p != m {
                            if p < self.nodes.len() {
                                assert(self.same_frame(next, p));
                                self.lemma_levels(p);
                                assert(next.nodes[p as int] == self.nodes[p as int]);
                                assert(self.children(p).contains(y));
                                self.lemma_member(p, y);
                            }
                        }
                    }
                }
            }
        }
    }

    /// A tree in which a detached workspace has been destroyed keeps what
    /// was settled, and keeps itself tidy.
    pub proof fn lemma_destroyed_detached_keeps(self, w: usize)
        requires
            self.wf(),
            self.is_workspace(w),
            self.parent(w) is None,
        ensures
            forall|q: usize|
                self.monitor_settled(q) ==> #[trigger] self.destroy_workspace(w).monitor_settled(q),
            self.tidy() ==> self.destroy_workspace(w).tidy(),
    {
        let next = self.destroy_workspace(w);
        self.lemma_destroy_workspace_wf(w);
        self.lemma_destroy_workspace_frame(w);
        assert forall|q: usize| self.monitor_settled(q) implies #[trigger] next.monitor_settled(
            q,
        ) by {
            if next.is_monitor(q) {
                self.lemma_levels(q);
                assert(next.nodes[q as int] == self.nodes[q as int]);
            }
        }
        if self.tidy() {
            assert forall|y: usize| #[trigger] next.workspace_tidy(y) by {
                if next.is_workspace(y) && next.parent(y) is Some {
                    self.lemma_levels(y);
                    assert(next.nodes[y as int] == self.nodes[y as int]);
                    assert(self.workspace_tidy(y));
                    let p = self.parent(y)->0;
                    self.lemma_levels(p);
                    assert(next.nodes[p as int] == self.nodes[p as int]);
                }
            }
        }
    }

    /// A tree with the workspaces of a monitor sorted keeps what was
    /// settled, and keeps itself tidy.
    pub proof fn lemma_sort_keeps(self, m: usize, config: ConfigView)
        requires
            self.wf(),
            self.is_monitor(m),
        ensures
            forall|q: usize|
                self.monitor_settled(q) ==> #[trigger] self.sort_workspaces(
                    m,
                    config,
                ).monitor_settled(q),
            self.tidy() ==> self.sort_workspaces(m, config).tidy(),
    {
        let next = self.sort_workspaces(m, config);
        assert(self.node_wf(m));
        lemma_sort_permutes(self.children(m), self.rank_key(config));
        assert(next.children(m) == sort_by_key(self.children(m), self.rank_key(config)));
        assert forall|q: usize| self.monitor_settled(q) implies #[trigger] next.monitor_settled(
            q,
        ) by {
            if next.is_monitor(q) && q != m {
                assert(next.nodes[q as int] == self.nodes[q as int]);
            }
        }
        if self.tidy() {
            assert forall|y: usize| #[trigger] next.workspace_tidy(y) by {
                if next.is_workspace(y) && next.parent(y) is Some {
                    assert(y != m);
                    assert(next.nodes[y as int] == self.nodes[y as int]);
                    assert(self.workspace_tidy(y));
                    let p = self.parent(y)->0;
                    self.lemma_levels(y);
                    assert(next.nodes[p as int].payload == self.nodes[p as int].payload);
                    assert(next.is_displayed(y) == self.is_displayed(y));
                }
            }
        }
    }

    /// A tree in which a workspace has been moved keeps what was settled,
    /// leaves both monitors settled, and keeps itself tidy.
    pub proof fn lemma_moved_keeps(self, next: TreeView, w: usize, target: usize)
        requires
            self.wf(),
            next.wf(),
            self.evolves_to(next),
            self.is_workspace(w),
            self.is_monitor(target),
            self.parent(w) is Some,
            self.parent(w) != Some(target),
            self.has_room_to_replace(w),
            self.moved_workspace(next, w, target),
        ensures
            next.monitor_settled(self.parent(w)->0),
            next.monitor_settled(target),
            forall|q: usize| self.monitor_settled(q) ==> #[trigger] next.monitor_settled(q),
            self.tidy() ==> next.tidy(),
    {
        let origin = self.parent(w)->0;
        let fresh = self.nodes.len() as usize;
        let shown = self.shown_after_landing(w, target);
        self.lemma_levels(w);
        next.lemma_shown_is_held(origin);
        next.lemma_shown_is_held(target);
        assert forall|q: usize| self.monitor_settled(q) implies #[trigger] next.monitor_settled(
            q,
        ) by {
            if next.is_monitor(q) && q != origin && q != target {
                if q < self.nodes.len() {
                    assert(self.same_frame(next, q));
                    self.lemma_levels(q);
                    assert(next.nodes[q as int] == self.nodes[q as int]);
                }
            }
        }
        if self.tidy() {
            assert forall|y: usize| #[trigger] next.workspace_tidy(y) by {
                if next.is_workspace(y) && next.parent(y) is Some && next.is_stale(y) {
                    self.lemma_moved_tidy_at(next, w, target, y);
                }
            }
        }
    }

    /// In a tree in which a workspace has been moved, a live workspace on a
    /// monitor is not stale, where none was before.
    pub proof fn lemma_moved_tidy_at(self, next: TreeView, w: usize, target: usize, y: usize)
        requires
            self.wf(),
            next.wf(),
            self.evolves_to(next),
            self.is_workspace(w),
            self.is_monitor(target),
            self.parent(w) is Some,
            self.parent(w) != Some(target),
            self.has_room_to_replace(w),
            self.moved_workspace(next, w, target),
            self.tidy(),
            next.is_workspace(y),
            next.parent(y) is Some,
        ensures
            !next.is_stale(y),
    {
        let origin = self.parent(w)->0;
        let fresh = self.nodes.len() as usize;
        let shown = self.shown_after_landing(w, target);
        let p = next.parent(y)->0;
        self.lemma_levels(w);
        next.lemma_levels(y);
        assert(self.workspace_tidy(w));
        if next.is_stale(y) {
            if p == target {
                assert(next.children(target).contains(y));
                assert(self.on_target_after_landing(w, target, y));
                if y != w {
                    self.lemma_member(target, y);
                    assert(next.nodes[y as int] == self.nodes[y as int]);
                }
                assert(self.stale_after_landing(w, target, y));
                let z = choose|z: usize|
                    z != y && self.on_target_after_landing(w, target, z)
                        && self.stale_after_landing(w, target, z);
                self.lemma_only_shown_is_stale_after_landing(w, target, y);
                self.lemma_only_shown_is_stale_after_landing(w, target, z);
                assert(false);
            } else if p == origin {
                assert(next.children(origin).contains(y));
                if self.children(origin).len() != 1 {
                    assert(self.children(origin).contains(y) && y != w);
                    self.lemma_member(origin, y);
                    assert(next.nodes[y as int] == self.nodes[y as int]);
                    assert(self.workspace_tidy(y));
                }
                assert(false);
            } else {
                if y < self.nodes.len() {
                    assert(self.same_frame(next, y));
                    self.lemma_levels(y);
                    if y == w {
                        assert(!next.children(target).contains(w));
                    }
                    if self.parent(y) == Some(target) {
                        self.lemma_levels(y);
                        assert(self.on_target_after_landing(w, target, y));
                    }
                    assert(next.nodes[y as int] == self.nodes[y as int]);
                    assert(self.workspace_tidy(y));
                    self.lemma_levels(p);
                    assert(next.nodes[p as int] == self.nodes[p as int]);
                } else {
                    if p < self.nodes.len() {
                        assert(self.same_frame(next, p));
                        self.lemma_levels(p);
                        assert(next.nodes[p as int] == self.nodes[p as int]);
                        assert(self.children(p).contains(y));
                        self.lemma_member(p, y);
                    }
                }
                assert(false);
            }
        }
    }

    /// In a tidy tree, the only workspace that can be stale on the target
    /// after a landing is the one that the target showed before.
    pub proof fn lemma_only_shown_is_stale_after_landing(self, w: usize, target: usize, z: usize)
        requires
            self.wf(),
            self.tidy(),
            self.is_workspace(w),
            self.is_monitor(target),
            self.parent(w) is Some,
            self.parent(w) != Some(target),
            self.on_target_after_landing(w, target, z),
            self.stale_after_landing(w, target, z),
        ensures
            self.displayed(target) == Some(z),
            z != w,
    {
        assert(self.workspace_tidy(z));
        assert(self.workspace_tidy(w));
        self.lemma_levels(w);
        if z != w {
            self.lemma_member(target, z);
        }
    }
}

} // verus!
