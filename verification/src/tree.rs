//! The container tree: an arena of nodes, with the primitive operations that
//! the commands are built from.

use vstd::prelude::*;
use crate::error::WmError;
use crate::model::{
    may_hold, ContainerKind, MonitorData, NodeView, PayloadView, TreeView, WindowData,
    WorkspaceView, ROOT,
};
use crate::seq_util::lemma_index_of_unique;

verus! {

/// The view of an optional name.
pub open spec fn name_view(name: Option<String>) -> Option<Seq<char>> {
    match name {
        Some(s) => Some(s@),
        None => None,
    }
}

/// What a workspace node holds besides its place in the tree.
#[derive(Debug)]
pub struct WorkspaceData {
    pub name: Option<String>,
    pub keep_alive: bool,
    pub bind_to_monitor: Option<u32>,
}

impl View for WorkspaceData {
    type V = WorkspaceView;

    open spec fn view(&self) -> WorkspaceView {
        WorkspaceView {
            name: name_view(self.name),
            keep_alive: self.keep_alive,
            bind_to_monitor: self.bind_to_monitor,
        }
    }
}

/// The data of a node, by kind.
#[derive(Debug)]
pub enum Payload {
    Root,
    Monitor(MonitorData),
    Workspace(WorkspaceData),
    Window(WindowData),
}

impl View for Payload {
    type V = PayloadView;

    open spec fn view(&self) -> PayloadView {
        match self {
            Payload::Root => PayloadView::Root,
            Payload::Monitor(m) => PayloadView::Monitor(*m),
            Payload::Workspace(w) => PayloadView::Workspace(w@),
            Payload::Window(w) => PayloadView::Window(*w),
        }
    }
}

/// One slot of the arena.
#[derive(Debug)]
pub struct Node {
    pub(crate) alive: bool,
    pub(crate) parent: Option<usize>,
    pub(crate) children: Vec<usize>,
    pub(crate) payload: Payload,
}

impl View for Node {
    type V = NodeView;

    closed spec fn view(&self) -> NodeView {
        NodeView {
            alive: self.alive,
            parent: self.parent,
            children: self.children@,
            payload: self.payload@,
        }
    }
}

/// The container tree.
#[derive(Debug)]
pub struct Tree {
    pub(crate) nodes: Vec<Node>,
}

impl View for Tree {
    type V = TreeView;

    closed spec fn view(&self) -> TreeView {
        TreeView { nodes: Seq::new(self.nodes.len() as nat, |i: int| self.nodes[i]@) }
    }
}

/// The first position of `x` in `v`, or the length of `v` where `x` is not in
/// it.
fn position_of(v: &Vec<usize>, x: usize) -> (k: usize)
    ensures
        k <= v.len(),
        k < v.len() ==> v[k as int] == x,
        forall|j: int| 0 <= j < k ==> v[j] != x,
        k == v.len() <==> !v@.contains(x),
{
    let mut k: usize = 0;
    while k < v.len()
        invariant
            k <= v.len(),
            forall|j: int| 0 <= j < k ==> v[j] != x,
        decreases v.len() - k,
    {
        if v[k] == x {
            return k;
        }
        k += 1;
    }
    k
}

/// Whether a container of kind `parent` may have a child of kind `child`.
pub fn kinds_fit(parent: ContainerKind, child: ContainerKind) -> (r: bool)
    ensures
        r == may_hold(parent, child),
{
    match (parent, child) {
        (ContainerKind::Root, ContainerKind::Monitor) => true,
        (ContainerKind::Monitor, ContainerKind::Workspace) => true,
        (ContainerKind::Workspace, ContainerKind::Window) => true,
        _ => false,
    }
}

impl Tree {
    /// A tree that holds the root and nothing else.
    pub fn new() -> (r: Tree)
        ensures
            r@ == TreeView::initial(),
            r@.wf(),
    {
        let mut nodes: Vec<Node> = Vec::new();
        nodes.push(Node { alive: true, parent: None, children: Vec::new(), payload: Payload::Root });
        let r = Tree { nodes };
        proof {
            assert(r@.nodes =~= TreeView::initial().nodes);
            TreeView::lemma_initial_wf();
        }
        r
    }

    /// The number of containers ever made, the destroyed ones included.
    pub fn len(&self) -> (r: usize)
        ensures
            r == self@.nodes.len(),
    {
        self.nodes.len()
    }

    /// Whether `id` names a container that has not been destroyed.
    pub fn is_alive(&self, id: usize) -> (r: bool)
        ensures
            r == self@.alive(id),
    {
        id < self.nodes.len() && self.nodes[id].alive
    }

    /// The kind of the container `id`.
    pub fn kind(&self, id: usize) -> (r: ContainerKind)
        requires
            id < self@.nodes.len(),
        ensures
            r == self@.kind(id),
    {
        match &self.nodes[id].payload {
            Payload::Root => ContainerKind::Root,
            Payload::Monitor(_) => ContainerKind::Monitor,
            Payload::Workspace(_) => ContainerKind::Workspace,
            Payload::Window(_) => ContainerKind::Window,
        }
    }

    /// The parent of the container `id`.
    pub fn parent(&self, id: usize) -> (r: Option<usize>)
        requires
            id < self@.nodes.len(),
        ensures
            r == self@.parent(id),
    {
        self.nodes[id].parent
    }

    /// The children of the container `id`, in tiling order.
    pub fn children(&self, id: usize) -> (r: &Vec<usize>)
        requires
            id < self@.nodes.len(),
        ensures
            r@ == self@.children(id),
    {
        &self.nodes[id].children
    }

    /// The number of children of the container `id`.
    pub fn child_count(&self, id: usize) -> (r: usize)
        requires
            id < self@.nodes.len(),
        ensures
            r == self@.children(id).len(),
    {
        self.nodes[id].children.len()
    }

    /// The workspace that the container `id` shows: `None` where it is not a
    /// monitor or shows nothing.
    pub fn displayed(&self, id: usize) -> (r: Option<usize>)
        requires
            id < self@.nodes.len(),
        ensures
            r == self@.displayed(id),
    {
        match &self.nodes[id].payload {
            Payload::Monitor(m) => m.displayed,
            _ => None,
        }
    }

    /// Takes `id` out of its parent's children.
    pub fn detach(&mut self, id: usize)
        requires
            old(self)@.wf(),
            id < old(self)@.nodes.len(),
        ensures
            final(self)@ == old(self)@.detach(id),
            final(self)@.wf(),
    {
        proof {
            old(self)@.lemma_detach_wf(id);
        }
        let parent = self.nodes[id].parent;
        if let Some(p) = parent {
            proof {
                old(self)@.lemma_parent_differs(id);
            }
            let k = position_of(&self.nodes[p].children, id);
            proof {
                assert(old(self)@.node_wf(p));
                lemma_index_of_unique(old(self)@.children(p), id, k as int);
            }
            self.nodes[p].children.remove(k);
            let shown = self.displayed(p);
            if let Some(d) = shown {
                if d == id {
                    if let Payload::Monitor(m) = &self.nodes[p].payload {
                        let cleared = MonitorData {
                            handle: m.handle,
                            working_area: m.working_area,
                            displayed: None,
                        };
                        self.nodes[p].payload = Payload::Monitor(cleared);
                    }
                }
            }
            self.nodes[id].parent = None;
        }
        proof {
            assert(self@.nodes =~= old(self)@.detach(id).nodes);
        }
    }

    /// The data of the monitor `id`.
    pub fn monitor_data(&self, id: usize) -> (r: MonitorData)
        requires
            id < self@.nodes.len(),
            self@.kind(id) == ContainerKind::Monitor,
        ensures
            r == self@.monitor(id),
    {
        match &self.nodes[id].payload {
            Payload::Monitor(m) => *m,
            _ => unreached(),
        }
    }

    /// The data of the window `id`.
    pub fn window_data(&self, id: usize) -> (r: WindowData)
        requires
            id < self@.nodes.len(),
            self@.kind(id) == ContainerKind::Window,
        ensures
            r == self@.window(id),
    {
        match &self.nodes[id].payload {
            Payload::Window(w) => *w,
            _ => unreached(),
        }
    }

    /// The data of the workspace `id`.
    pub fn workspace_data(&self, id: usize) -> (r: &WorkspaceData)
        requires
            id < self@.nodes.len(),
            self@.kind(id) == ContainerKind::Workspace,
        ensures
            r@ == self@.workspace(id),
    {
        match &self.nodes[id].payload {
            Payload::Workspace(w) => w,
            _ => unreached(),
        }
    }

    /// The live workspace with the name `name`, if there is one.
    pub fn find_workspace_by_name(&self, name: &String) -> (r: Option<usize>)
        ensures
            match r {
                Some(id) => self@.has_name(id, name@),
                None => !self@.name_taken(name@),
            },
    {
        let mut i: usize = 0;
        while i < self.nodes.len()
            invariant
                i <= self.nodes.len(),
                forall|j: usize| j < i ==> !self@.has_name(j, name@),
            decreases self.nodes.len() - i,
        {
            if self.nodes[i].alive {
                if let Payload::Workspace(w) = &self.nodes[i].payload {
                    if let Some(n) = &w.name {
                        if *n == *name {
                            return Some(i);
                        }
                    }
                }
            }
            i += 1;
        }
        proof {
            assert forall|id: usize| !self@.has_name(id, name@) by {
                if id < self.nodes.len() {
                    assert(!self@.has_name(id, name@));
                }
            }
        }
        None
    }

    /// Adds a container, alive and detached, and returns its identity.
    pub fn push_node(&mut self, payload: Payload) -> (id: usize)
        requires
            old(self)@.wf(),
            !(payload is Root),
            payload@.valid(),
            payload@.displayed() is None,
            payload matches Payload::Workspace(w) ==> (w.name is Some ==> !old(self)@.name_taken(
                w.name->0@,
            )),
        ensures
            id == old(self)@.nodes.len(),
            old(self)@.nodes.len() < usize::MAX,
            final(self)@ == old(self)@.push_node(payload@),
            final(self)@.wf(),
    {
        let id = self.nodes.len();
        self.nodes.push(Node { alive: true, parent: None, children: Vec::new(), payload });
        proof {
            assert(self@.nodes =~= old(self)@.push_node(payload@).nodes);
            old(self)@.lemma_push_wf(payload@);
        }
        id
    }

    /// Makes `d` the workspace that the monitor `m` shows.
    pub fn set_displayed(&mut self, m: usize, d: Option<usize>)
        requires
            old(self)@.wf(),
            m < old(self)@.nodes.len(),
            d is Some ==> old(self)@.children(m).contains(d->0),
        ensures
            final(self)@ == old(self)@.set_displayed(m, d),
            final(self)@.wf(),
    {
        proof {
            old(self)@.lemma_set_displayed_wf(m, d);
        }
        if let Payload::Monitor(data) = &self.nodes[m].payload {
            let changed = MonitorData {
                handle: data.handle,
                working_area: data.working_area,
                displayed: d,
            };
            self.nodes[m].payload = Payload::Monitor(changed);
        }
        proof {
            assert(self@.nodes =~= old(self)@.set_displayed(m, d).nodes);
        }
    }

    /// Replaces the data of the window `id`.
    pub fn set_window(&mut self, id: usize, data: WindowData)
        requires
            old(self)@.wf(),
            id < old(self)@.nodes.len(),
            old(self)@.kind(id) == ContainerKind::Window,
            data.floating_placement.has_bounded_size(),
        ensures
            final(self)@ == old(self)@.set_payload(id, PayloadView::Window(data)),
            final(self)@.wf(),
    {
        proof {
            old(self)@.lemma_set_window_wf(id, data);
        }
        self.nodes[id].payload = Payload::Window(data);
        proof {
            assert(self@.nodes =~= old(self)@.set_payload(id, PayloadView::Window(data)).nodes);
        }
    }

    /// Puts the children of `id` in the order of `children`, which holds the
    /// same containers.
    pub fn set_children(&mut self, id: usize, children: Vec<usize>)
        requires
            old(self)@.wf(),
            id < old(self)@.nodes.len(),
            children@.no_duplicates(),
            forall|y: usize| children@.contains(y) <==> old(self)@.children(id).contains(y),
        ensures
            final(self)@ == old(self)@.set_children(id, children@),
            final(self)@.wf(),
    {
        proof {
            old(self)@.lemma_set_children_wf(id, children@);
        }
        self.nodes[id].children = children;
        proof {
            assert(self@.nodes =~= old(self)@.set_children(id, children@).nodes);
        }
    }

    /// Moves `child` from wherever it is to position `index` among the
    /// children of `parent`.
    pub fn attach(&mut self, child: usize, parent: usize, index: usize) -> (r: Result<(), WmError>)
        requires
            old(self)@.wf(),
        ensures
            final(self)@.wf(),
            match r {
                Ok(()) => old(self)@.can_attach(child, parent, index as int) && final(self)@ == old(self)@.attach(child, parent, index as int),
                Err(e) => e == WmError::InvalidAttach && !old(self)@.can_attach(
                    child,
                    parent,
                    index as int,
                ) && final(self)@ == old(self)@,
            },
    {
        if !self.is_alive(child) || !self.is_alive(parent) {
            return Err(WmError::InvalidAttach);
        }
        if !kinds_fit(self.kind(parent), self.kind(child)) {
            return Err(WmError::InvalidAttach);
        }
        let same = match self.nodes[child].parent {
            Some(p) => p == parent,
            None => false,
        };
        let was_shown = same && match self.displayed(parent) {
            Some(d) => d == child,
            None => false,
        };
        proof {
            assert(old(self)@.node_wf(parent));
            assert(old(self)@.node_wf(child));
            if old(self)@.parent(child) is Some {
                old(self)@.lemma_parent_differs(child);
                assert(old(self)@.node_wf(old(self)@.parent(child)->0));
                crate::seq_util::lemma_without(
                    old(self)@.children(old(self)@.parent(child)->0),
                    child,
                );
            }
        }
        let limit = if same {
            self.nodes[parent].children.len() - 1
        } else {
            self.nodes[parent].children.len()
        };
        assert(limit == old(self)@.detach(child).children(parent).len());
        if index > limit {
            return Err(WmError::InvalidAttach);
        }
        proof {
            old(self)@.lemma_attach_wf(child, parent, index as int);
        }
        self.detach(child);
        self.nodes[parent].children.insert(index, child);
        self.nodes[child].parent = Some(parent);
        proof {
            assert(self@.nodes =~= old(self)@.detach(child).link(child, parent, index as int).nodes);
        }
        if was_shown {
            proof {
                old(self)@.detach(child).lemma_link_wf(child, parent, index as int);
                crate::seq_util::lemma_insert_contains(
                    old(self)@.detach(child).children(parent),
                    index as int,
                    child,
                );
            }
            self.set_displayed(parent, Some(child));
        }
        Ok(())
    }

    /// Detaches the workspace `w` and destroys it together with its windows.
    pub fn destroy_workspace(&mut self, w: usize)
        requires
            old(self)@.wf(),
            old(self)@.is_workspace(w),
        ensures
            final(self)@ == old(self)@.destroy_workspace(w),
            final(self)@.wf(),
    {
        proof {
            old(self)@.lemma_destroy_workspace_wf(w);
            old(self)@.lemma_detach_wf(w);
        }
        self.detach(w);
        let ghost t = self@;
        let ghost kids = t.children(w);
        let n = self.nodes[w].children.len();
        let mut i: usize = 0;
        while i < n
            invariant
                t.wf(),
                (w as int) < t.nodes.len(),
                t.parent(w) is None,
                kids == t.children(w),
                n == kids.len(),
                i <= n,
                self@.nodes.len() == t.nodes.len(),
                forall|k: int| 0 <= k < i ==> self@.nodes[kids[k] as int] == t.nodes[kids[k] as int].destroyed(),
                forall|k: int| i <= k < n ==> self@.nodes[kids[k] as int] == t.nodes[kids[k] as int],
                forall|j: int|
                    0 <= j < t.nodes.len() && t.nodes[j].parent != Some(w) ==> self@.nodes[j]
                        == t.nodes[j],
            decreases n - i,
        {
            assert(self@.nodes[w as int] == t.nodes[w as int]);
            let c = self.nodes[w].children[i];
            proof {
                t.lemma_child(w, i as int);
                assert(t.node_wf(w));
            }
            self.nodes[c].alive = false;
            self.nodes[c].parent = None;
            self.nodes[c].children = Vec::new();
            proof {
                assert(self@.nodes[c as int] == t.nodes[c as int].destroyed());
                assert forall|k: int| 0 <= k < i + 1 implies self@.nodes[kids[k] as int]
                    == t.nodes[kids[k] as int].destroyed() by {
                    if k < i {
                        assert(kids[k] != kids[i as int]);
                    }
                }
                assert forall|k: int| i + 1 <= k < n implies self@.nodes[kids[k] as int]
                    == t.nodes[kids[k] as int] by {
                    assert(kids[k] != kids[i as int]);
                }
            }
            i += 1;
        }
        assert(self@.nodes[w as int] == t.nodes[w as int]);
        self.nodes[w].alive = false;
        self.nodes[w].children = Vec::new();
        proof {
            let r = old(self)@.destroy_workspace(w);
            assert forall|j: int| 0 <= j < r.nodes.len() implies self@.nodes[j] == r.nodes[j] by {
                if j != w && t.nodes[j].parent == Some(w) {
                    assert(t.node_wf(j as usize));
                    let k = choose|k: int| 0 <= k < kids.len() && kids[k] == j as usize;
                    assert(self@.nodes[kids[k] as int] == t.nodes[kids[k] as int].destroyed());
                }
            }
            assert(self@.nodes =~= r.nodes);
        }
    }

    /// The position of the monitor `m` among the monitors attached to the
    /// root: `None` where it is not among them.
    pub fn monitor_index(&self, m: usize) -> (r: Option<usize>)
        requires
            self@.wf(),
        ensures
            r == self@.monitor_index(m),
    {
        let k = position_of(&self.nodes[ROOT].children, m);
        if k < self.nodes[ROOT].children.len() {
            proof {
                assert(self@.node_wf(ROOT));
                lemma_index_of_unique(self@.monitors(), m, k as int);
            }
            Some(k)
        } else {
            None
        }
    }
}

} // verus!
