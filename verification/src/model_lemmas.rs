//! The operations of the tree model keep the tree well-formed.

use vstd::prelude::*;
use crate::model::{may_hold, ContainerKind, PayloadView, TreeView, WindowData, ROOT};
use crate::seq_util::{lemma_insert_contains, lemma_insert_no_dup, lemma_without};

verus! {

impl TreeView {
    /// The tree that holds only the root is well-formed.
    pub proof fn lemma_initial_wf()
        ensures
            TreeView::initial().wf(),
    {
        let t = TreeView::initial();
        assert forall|j: usize| j < t.nodes.len() implies #[trigger] t.node_wf(j) by {
            assert(j == 0);
        }
    }

    /// A container is never its own parent, nor the parent of its parent.
    pub proof fn lemma_parent_differs(self, id: usize)
        requires
            self.wf(),
            id < self.nodes.len(),
            self.parent(id) is Some,
        ensures
            self.parent(id)->0 != id,
            self.parent(id)->0 < self.nodes.len(),
            self.alive(self.parent(id)->0),
            self.alive(id),
            self.children(self.parent(id)->0).contains(id),
            may_hold(self.kind(self.parent(id)->0), self.kind(id)),
            self.parent(self.parent(id)->0) != Some(id),
    {
        let p = self.parent(id)->0;
        assert(self.node_wf(id));
        assert(self.node_wf(p));
    }

    /// The children of a container are alive and point back to it.
    pub proof fn lemma_child(self, id: usize, k: int)
        requires
            self.wf(),
            id < self.nodes.len(),
            0 <= k < self.children(id).len(),
        ensures
            self.alive(self.children(id)[k]),
            self.alive(id),
            self.parent(self.children(id)[k]) == Some(id),
            may_hold(self.kind(id), self.kind(self.children(id)[k])),
            self.children(id)[k] != id,
            self.children(id)[k] != ROOT,
    {
        let c = self.children(id)[k];
        assert(self.node_wf(id));
        assert(self.child_ok(id, c));
        assert(self.node_wf(c));
    }

    /// A container that is among the children of another is alive and points
    /// back to it.
    pub proof fn lemma_member(self, id: usize, c: usize)
        requires
            self.wf(),
            id < self.nodes.len(),
            self.children(id).contains(c),
        ensures
            self.alive(c),
            self.alive(id),
            self.parent(c) == Some(id),
            may_hold(self.kind(id), self.kind(c)),
            c != id,
            c != ROOT,
    {
        let k = choose|k: int| 0 <= k < self.children(id).len() && self.children(id)[k] == c;
        self.lemma_child(id, k);
    }

    /// Detaching keeps the tree well-formed.
    pub proof fn lemma_detach_wf(self, id: usize)
        requires
            self.wf(),
            id < self.nodes.len(),
        ensures
            self.detach(id).wf(),
            self.detach(id).nodes.len() == self.nodes.len(),
            self.detach(id).parent(id) is None,
    {
        let t = self.detach(id);
        assert(self.node_wf(id));
        if let Some(p) = self.parent(id) {
            self.lemma_parent_differs(id);
            assert(self.node_wf(p));
            lemma_without(self.children(p), id);
            assert forall|j: usize| j < t.nodes.len() implies #[trigger] t.node_wf(j) by {
                assert(self.node_wf(j));
                let n = t.nodes[j as int];
                assert forall|k: int| 0 <= k < n.children.len() implies t.child_ok(
                    j,
                    #[trigger] n.children[k],
                ) by {
                    let c = n.children[k];
                    assert(n.children.contains(c));
                    assert(self.children(j).contains(c));
                    self.lemma_member(j, c);
                }
                if let Some(q) = n.parent {
                    self.lemma_parent_differs(j);
                }
            }
            assert(t.names_unique()) by {
                assert forall|a: usize, b: usize, name: Seq<char>|
                    #[trigger] t.has_name(a, name) && #[trigger] t.has_name(b, name) implies a
                    == b by {
                    assert(self.has_name(a, name));
                    assert(self.has_name(b, name));
                }
            }
        }
    }

    /// Linking a detached container under a parent of the fitting kind keeps
    /// the tree well-formed.
    pub proof fn lemma_link_wf(self, child: usize, parent: usize, index: int)
        requires
            self.wf(),
            self.alive(child),
            self.alive(parent),
            self.parent(child) is None,
            may_hold(self.kind(parent), self.kind(child)),
            0 <= index <= self.children(parent).len(),
        ensures
            self.link(child, parent, index).wf(),
            self.link(child, parent, index).nodes.len() == self.nodes.len(),
    {
        let t = self.link(child, parent, index);
        assert(self.node_wf(child));
        assert(self.node_wf(parent));
        assert(!self.children(parent).contains(child)) by {
            if self.children(parent).contains(child) {
                self.lemma_member(parent, child);
            }
        }
        lemma_insert_no_dup(self.children(parent), index, child);
        assert forall|j: usize| j < t.nodes.len() implies #[trigger] t.node_wf(j) by {
            assert(self.node_wf(j));
            let n = t.nodes[j as int];
            assert forall|k: int| 0 <= k < n.children.len() implies t.child_ok(
                j,
                #[trigger] n.children[k],
            ) by {
                let c = n.children[k];
                assert(n.children.contains(c));
                if c != child {
                    assert(self.children(j).contains(c));
                    self.lemma_member(j, c);
                } else if j != parent {
                    assert(self.children(j).contains(c));
                    self.lemma_member(j, c);
                }
            }
            if let Some(q) = n.parent {
                if j != child {
                    self.lemma_parent_differs(j);
                }
            }
        }
        assert(t.names_unique()) by {
            assert forall|a: usize, b: usize, name: Seq<char>|
                #[trigger] t.has_name(a, name) && #[trigger] t.has_name(b, name) implies a
                == b by {
                assert(self.has_name(a, name));
                assert(self.has_name(b, name));
            }
        }
    }

    /// Naming a child, or nothing, as what a monitor shows keeps the tree
    /// well-formed.
    pub proof fn lemma_set_displayed_wf(self, m: usize, d: Option<usize>)
        requires
            self.wf(),
            m < self.nodes.len(),
            d is Some ==> self.children(m).contains(d->0),
        ensures
            self.set_displayed(m, d).wf(),
            self.set_displayed(m, d).nodes.len() == self.nodes.len(),
    {
        let t = self.set_displayed(m, d);
        assert forall|j: usize| j < t.nodes.len() implies #[trigger] t.node_wf(j) by {
            assert(self.node_wf(j));
            let n = t.nodes[j as int];
            assert forall|k: int| 0 <= k < n.children.len() implies t.child_ok(
                j,
                #[trigger] n.children[k],
            ) by {
                let c = n.children[k];
                assert(self.children(j).contains(c));
                self.lemma_member(j, c);
            }
            if let Some(q) = n.parent {
                self.lemma_parent_differs(j);
            }
        }
        assert(t.names_unique()) by {
            assert forall|a: usize, b: usize, name: Seq<char>|
                #[trigger] t.has_name(a, name) && #[trigger] t.has_name(b, name) implies a
                == b by {
                assert(self.has_name(a, name));
                assert(self.has_name(b, name));
            }
        }
    }

    /// Replacing the data of a window keeps the tree well-formed.
    pub proof fn lemma_set_window_wf(self, id: usize, w: WindowData)
        requires
            self.wf(),
            id < self.nodes.len(),
            self.kind(id) == ContainerKind::Window,
            w.floating_placement.has_bounded_size(),
        ensures
            self.set_payload(id, PayloadView::Window(w)).wf(),
            self.set_payload(id, PayloadView::Window(w)).nodes.len() == self.nodes.len(),
    {
        let t = self.set_payload(id, PayloadView::Window(w));
        assert forall|j: usize| j < t.nodes.len() implies #[trigger] t.node_wf(j) by {
            assert(self.node_wf(j));
            let n = t.nodes[j as int];
            assert forall|k: int| 0 <= k < n.children.len() implies t.child_ok(
                j,
                #[trigger] n.children[k],
            ) by {
                let c = n.children[k];
                assert(self.children(j).contains(c));
                self.lemma_member(j, c);
            }
            if let Some(q) = n.parent {
                self.lemma_parent_differs(j);
            }
        }
        assert(t.names_unique()) by {
            assert forall|a: usize, b: usize, name: Seq<char>|
                #[trigger] t.has_name(a, name) && #[trigger] t.has_name(b, name) implies a
                == b by {
                assert(self.has_name(a, name));
                assert(self.has_name(b, name));
            }
        }
    }

    /// Putting the children of a container in another order keeps the tree
    /// well-formed.
    pub proof fn lemma_set_children_wf(self, id: usize, children: Seq<usize>)
        requires
            self.wf(),
            id < self.nodes.len(),
            children.no_duplicates(),
            forall|y: usize| children.contains(y) <==> self.children(id).contains(y),
        ensures
            self.set_children(id, children).wf(),
            self.set_children(id, children).nodes.len() == self.nodes.len(),
    {
        let t = self.set_children(id, children);
        assert forall|j: usize| j < t.nodes.len() implies #[trigger] t.node_wf(j) by {
            assert(self.node_wf(j));
            let n = t.nodes[j as int];
            assert forall|k: int| 0 <= k < n.children.len() implies t.child_ok(
                j,
                #[trigger] n.children[k],
            ) by {
                let c = n.children[k];
                assert(n.children.contains(c));
                assert(self.children(j).contains(c));
                self.lemma_member(j, c);
            }
            if let Some(q) = n.parent {
                self.lemma_parent_differs(j);
                assert(self.children(q).contains(j));
                assert(t.children(q).contains(j));
            }
            if let Some(d) = n.payload.displayed() {
                assert(self.children(j).contains(d));
                assert(t.children(j).contains(d));
            }
            if n.children.len() > 0 {
                assert(n.children.contains(n.children[0]));
            }
        }
        assert(t.names_unique()) by {
            assert forall|a: usize, b: usize, name: Seq<char>|
                #[trigger] t.has_name(a, name) && #[trigger] t.has_name(b, name) implies a
                == b by {
                assert(self.has_name(a, name));
                assert(self.has_name(b, name));
            }
        }
    }

    /// Adding a detached container keeps the tree well-formed, where its
    /// payload is valid, shows nothing, and brings no name that is taken.
    pub proof fn lemma_push_wf(self, payload: PayloadView)
        requires
            self.wf(),
            self.nodes.len() < usize::MAX,
            !(payload is Root),
            payload.valid(),
            payload.displayed() is None,
            payload matches PayloadView::Workspace(w) ==> (w.name is Some ==> !self.name_taken(
                w.name->0,
            )),
        ensures
            self.push_node(payload).wf(),
            self.push_node(payload).nodes.len() == self.nodes.len() + 1,
    {
        let t = self.push_node(payload);
        let fresh = self.nodes.len() as usize;
        assert forall|j: usize| j < t.nodes.len() implies #[trigger] t.node_wf(j) by {
            if j != fresh {
                assert(self.node_wf(j));
                let n = t.nodes[j as int];
                assert forall|k: int| 0 <= k < n.children.len() implies t.child_ok(
                    j,
                    #[trigger] n.children[k],
                ) by {
                    let c = n.children[k];
                    assert(self.children(j).contains(c));
                    self.lemma_member(j, c);
                }
                if let Some(q) = n.parent {
                    self.lemma_parent_differs(j);
                }
            }
        }
        assert(t.names_unique()) by {
            assert forall|a: usize, b: usize, name: Seq<char>|
                #[trigger] t.has_name(a, name) && #[trigger] t.has_name(b, name) implies a
                == b by {
                if a != fresh {
                    assert(self.has_name(a, name));
                }
                if b != fresh {
                    assert(self.has_name(b, name));
                }
            }
        }
    }

    /// Moving a container to a parent of the fitting kind keeps the tree
    /// well-formed.
    pub proof fn lemma_attach_wf(self, child: usize, parent: usize, index: int)
        requires
            self.wf(),
            self.can_attach(child, parent, index),
        ensures
            self.attach(child, parent, index).wf(),
            self.attach(child, parent, index).nodes.len() == self.nodes.len(),
    {
        self.lemma_detach_wf(child);
        let t1 = self.detach(child);
        if self.parent(child) is Some {
            self.lemma_parent_differs(child);
        }
        t1.lemma_link_wf(child, parent, index);
        let t2 = t1.link(child, parent, index);
        lemma_insert_contains(t1.children(parent), index, child);
        t2.lemma_set_displayed_wf(parent, Some(child));
    }

    /// Destroying a workspace with its windows keeps the tree well-formed.
    pub proof fn lemma_destroy_workspace_wf(self, w: usize)
        requires
            self.wf(),
            self.is_workspace(w),
        ensures
            self.destroy_workspace(w).wf(),
            self.destroy_workspace(w).nodes.len() == self.nodes.len(),
            !self.destroy_workspace(w).alive(w),
    {
        self.lemma_detach_wf(w);
        let t = self.detach(w);
        let r = self.destroy_workspace(w);
        assert(t.node_wf(w));
        assert(self.node_wf(w));
        if self.parent(w) is Some {
            self.lemma_parent_differs(w);
        }
        assert(t.nodes[w as int].payload == self.nodes[w as int].payload);
        assert(t.kind(w) == ContainerKind::Workspace);
        assert(t.parent(w) is None);
        assert(t.node_wf(ROOT));
        assert forall|j: usize| j < r.nodes.len() implies #[trigger] r.node_wf(j) by {
            assert(t.node_wf(j));
            let n = r.nodes[j as int];
            if j == w || t.nodes[j as int].parent == Some(w) {
                if j != w {
                    t.lemma_parent_differs(j);
                }
            } else {
                assert forall|k: int| 0 <= k < n.children.len() implies r.child_ok(
                    j,
                    #[trigger] n.children[k],
                ) by {
                    let c = n.children[k];
                    assert(t.children(j).contains(c));
                    t.lemma_member(j, c);
                }
                if let Some(q) = n.parent {
                    t.lemma_parent_differs(j);
                    if t.parent(q) == Some(w) {
                        t.lemma_parent_differs(q);
                    }
                }
            }
        }
        assert(r.names_unique()) by {
            assert forall|a: usize, b: usize, name: Seq<char>|
                #[trigger] r.has_name(a, name) && #[trigger] r.has_name(b, name) implies a
                == b by {
                assert(t.has_name(a, name));
                assert(t.has_name(b, name));
            }
        }
    }

    /// A tree evolves to itself.
    pub proof fn lemma_evolves_refl(self)
        ensures
            self.evolves_to(self),
    {
    }

    /// Evolution composes.
    pub proof fn lemma_evolves_trans(self, mid: TreeView, next: TreeView)
        requires
            self.evolves_to(mid),
            mid.evolves_to(next),
        ensures
            self.evolves_to(next),
    {
        assert forall|id: usize| id < self.nodes.len() implies #[trigger] self.same_frame(
            next,
            id,
        ) by {
            assert(self.same_frame(mid, id));
            assert(mid.same_frame(next, id));
        }
    }

    /// What evolution keeps of a monitor and of the list of monitors.
    pub proof fn lemma_evolves_monitor(self, next: TreeView, m: usize)
        requires
            self.wf(),
            self.evolves_to(next),
        ensures
            next.monitors() == self.monitors(),
            next.monitor_index(m) == self.monitor_index(m),
            self.is_monitor(m) ==> next.is_monitor(m) && next.monitor(m).working_area
                == self.monitor(m).working_area,
            m < self.nodes.len() ==> next.kind(m) == self.kind(m),
    {
        assert(self.same_frame(next, ROOT));
        assert(self.node_wf(ROOT));
        if m < self.nodes.len() {
            assert(self.same_frame(next, m));
        }
    }

    /// Detaching a workspace or a window is an evolution.
    pub proof fn lemma_detach_evolves(self, id: usize)
        requires
            self.wf(),
            id < self.nodes.len(),
            self.kind(id) == ContainerKind::Workspace || self.kind(id) == ContainerKind::Window,
        ensures
            self.evolves_to(self.detach(id)),
    {
        if self.parent(id) is Some {
            self.lemma_parent_differs(id);
        }
    }

    /// Linking a workspace or a window is an evolution.
    pub proof fn lemma_link_evolves(self, child: usize, parent: usize, index: int)
        requires
            child < self.nodes.len(),
            parent < self.nodes.len(),
            self.kind(child) == ContainerKind::Workspace || self.kind(child)
                == ContainerKind::Window,
            may_hold(self.kind(parent), self.kind(child)),
        ensures
            self.evolves_to(self.link(child, parent, index)),
    {
    }

    /// Changing what a monitor shows is an evolution.
    pub proof fn lemma_set_displayed_evolves(self, m: usize, d: Option<usize>)
        requires
            m < self.nodes.len(),
        ensures
            self.evolves_to(self.set_displayed(m, d)),
    {
    }

    /// Moving a workspace or a window is an evolution.
    pub proof fn lemma_attach_evolves(self, child: usize, parent: usize, index: int)
        requires
            self.wf(),
            self.can_attach(child, parent, index),
            self.kind(child) == ContainerKind::Workspace || self.kind(child)
                == ContainerKind::Window,
        ensures
            self.evolves_to(self.attach(child, parent, index)),
    {
        self.lemma_detach_evolves(child);
        let t1 = self.detach(child);
        assert(self.same_frame(t1, child));
        assert(self.same_frame(t1, parent));
        t1.lemma_link_evolves(child, parent, index);
        let t2 = t1.link(child, parent, index);
        t2.lemma_set_displayed_evolves(parent, Some(child));
        self.lemma_evolves_trans(t1, t2);
        self.lemma_evolves_trans(t2, t2.set_displayed(parent, Some(child)));
    }

    /// Reordering the children of a monitor or a workspace is an evolution.
    pub proof fn lemma_set_children_evolves(self, id: usize, children: Seq<usize>)
        requires
            id < self.nodes.len(),
            self.kind(id) != ContainerKind::Root,
        ensures
            self.evolves_to(self.set_children(id, children)),
    {
    }

    /// Adding a container is an evolution.
    pub proof fn lemma_push_evolves(self, payload: PayloadView)
        ensures
            self.evolves_to(self.push_node(payload)),
    {
    }

    /// Destroying a workspace is an evolution.
    pub proof fn lemma_destroy_workspace_evolves(self, w: usize)
        requires
            self.wf(),
            self.is_workspace(w),
        ensures
            self.evolves_to(self.destroy_workspace(w)),
    {
        self.lemma_detach_evolves(w);
        self.lemma_detach_wf(w);
        let t = self.detach(w);
        let r = self.destroy_workspace(w);
        assert(self.same_frame(t, w));
        assert forall|id: usize| id < t.nodes.len() implies #[trigger] t.same_frame(r, id) by {
            if t.parent(id) == Some(w) {
                t.lemma_parent_differs(id);
            }
        }
        self.lemma_evolves_trans(t, r);
    }
}

} // verus!
