//! The mathematical model of the container tree: an arena of nodes that name
//! each other by their position in it, with the operations on it as functions
//! from tree to tree.

use vstd::prelude::*;
use crate::rect::Rect;
use crate::seq_util::without;

verus! {

/// The identity of a container: its position in the arena. It is given once
/// and never reused.
pub type ContainerId = usize;

/// The identity of the root container.
pub const ROOT: usize = 0;

/// The four kinds of container, from the top of the tree downwards.
#[derive(Clone, Copy, Debug, PartialEq, Eq, Structural)]
pub enum ContainerKind {
    Root,
    Monitor,
    Workspace,
    Window,
}

/// How a window takes part in the layout.
#[derive(Clone, Copy, Debug, PartialEq, Eq, Structural)]
pub enum WindowState {
    Tiling,
    Floating,
    Fullscreen,
    Minimized,
}

/// What a monitor node holds besides its place in the tree.
#[derive(Clone, Copy, Debug)]
pub struct MonitorData {
    /// The platform's handle of the display.
    pub handle: isize,
    /// The bounds of the display without the space the system reserves.
    pub working_area: Rect,
    /// The workspace that is visible on this monitor, if any.
    pub displayed: Option<usize>,
}

/// What a window node holds besides its place in the tree.
#[derive(Clone, Copy, Debug)]
pub struct WindowData {
    /// The platform's handle of the window.
    pub handle: isize,
    pub state: WindowState,
    /// Where the window lies while it floats, in screen coordinates.
    pub floating_placement: Rect,
    /// Set when the window changed monitor and has not been rescaled yet.
    pub has_pending_dpi_adjustment: bool,
}

/// What a workspace node holds besides its place in the tree.
pub struct WorkspaceView {
    /// The name, which no other live workspace has; `None` for a workspace
    /// that no configuration entry stands behind.
    pub name: Option<Seq<char>>,
    pub keep_alive: bool,
    pub bind_to_monitor: Option<u32>,
}

/// The data of a node, by kind.
pub enum PayloadView {
    Root,
    Monitor(MonitorData),
    Workspace(WorkspaceView),
    Window(WindowData),
}

/// One slot of the arena.
pub struct NodeView {
    /// False once the container has been destroyed.
    pub alive: bool,
    pub parent: Option<usize>,
    /// The children, in tiling order.
    pub children: Seq<usize>,
    pub payload: PayloadView,
}

/// The arena: the node with identity `id` stands at position `id`.
pub struct TreeView {
    pub nodes: Seq<NodeView>,
}

/// The kind of parent that a container of the given kind is attached to.
pub open spec fn parent_kind_of(kind: ContainerKind) -> Option<ContainerKind> {
    match kind {
        ContainerKind::Root => None,
        ContainerKind::Monitor => Some(ContainerKind::Root),
        ContainerKind::Workspace => Some(ContainerKind::Monitor),
        ContainerKind::Window => Some(ContainerKind::Workspace),
    }
}

/// Whether a container of kind `parent` may have a child of kind `child`.
pub open spec fn may_hold(parent: ContainerKind, child: ContainerKind) -> bool {
    parent_kind_of(child) == Some(parent)
}

impl PayloadView {
    pub open spec fn kind(self) -> ContainerKind {
        match self {
            PayloadView::Root => ContainerKind::Root,
            PayloadView::Monitor(_) => ContainerKind::Monitor,
            PayloadView::Workspace(_) => ContainerKind::Workspace,
            PayloadView::Window(_) => ContainerKind::Window,
        }
    }

    /// The displayed workspace that a monitor's payload records.
    pub open spec fn displayed(self) -> Option<usize> {
        match self {
            PayloadView::Monitor(m) => m.displayed,
            _ => None,
        }
    }

    /// The payload with the displayed workspace replaced, where it is a
    /// monitor's.
    pub open spec fn with_displayed(self, d: Option<usize>) -> PayloadView {
        match self {
            PayloadView::Monitor(m) => PayloadView::Monitor(MonitorData { displayed: d, ..m }),
            _ => self,
        }
    }

    /// The payload without `id` as displayed workspace.
    pub open spec fn forget_displayed(self, id: usize) -> PayloadView {
        if self.displayed() == Some(id) {
            self.with_displayed(None)
        } else {
            self
        }
    }

    /// What a payload must satisfy on its own.
    pub open spec fn valid(self) -> bool {
        match self {
            PayloadView::Monitor(m) => m.working_area.fits_screen(),
            PayloadView::Window(w) => w.floating_placement.has_bounded_size(),
            _ => true,
        }
    }
}

impl NodeView {
    /// A freshly made container: alive, detached and childless.
    pub open spec fn fresh(payload: PayloadView) -> NodeView {
        NodeView { alive: true, parent: None, children: Seq::empty(), payload }
    }

    /// The node after its destruction.
    pub open spec fn destroyed(self) -> NodeView {
        NodeView { alive: false, parent: None, children: Seq::empty(), payload: self.payload }
    }
}

impl TreeView {
    /// The tree that holds the root and nothing else.
    pub open spec fn initial() -> TreeView {
        TreeView { nodes: seq![NodeView::fresh(PayloadView::Root)] }
    }

    /// Whether `id` names a container that has not been destroyed.
    pub open spec fn alive(self, id: usize) -> bool {
        id < self.nodes.len() && self.nodes[id as int].alive
    }

    pub open spec fn kind(self, id: usize) -> ContainerKind {
        self.nodes[id as int].payload.kind()
    }

    pub open spec fn parent(self, id: usize) -> Option<usize> {
        self.nodes[id as int].parent
    }

    pub open spec fn children(self, id: usize) -> Seq<usize> {
        self.nodes[id as int].children
    }

    pub open spec fn is_monitor(self, id: usize) -> bool {
        self.alive(id) && self.kind(id) == ContainerKind::Monitor
    }

    pub open spec fn is_workspace(self, id: usize) -> bool {
        self.alive(id) && self.kind(id) == ContainerKind::Workspace
    }

    pub open spec fn is_window(self, id: usize) -> bool {
        self.alive(id) && self.kind(id) == ContainerKind::Window
    }

    /// The monitors that are attached to the root, in order of attachment.
    pub open spec fn monitors(self) -> Seq<usize> {
        self.children(ROOT)
    }

    /// The position of `m` among the monitors attached to the root.
    pub open spec fn monitor_index(self, m: usize) -> Option<usize> {
        if self.monitors().contains(m) {
            Some(self.monitors().index_of(m) as usize)
        } else {
            None
        }
    }

    /// The workspace that monitor `m` shows.
    pub open spec fn displayed(self, m: usize) -> Option<usize> {
        self.nodes[m as int].payload.displayed()
    }

    /// The data of a workspace node; that of a workspace without a name
    /// where `id` names no workspace.
    pub open spec fn workspace(self, id: usize) -> WorkspaceView {
        if id < self.nodes.len() {
            match self.nodes[id as int].payload {
                PayloadView::Workspace(w) => w,
                _ => WorkspaceView { name: None, keep_alive: false, bind_to_monitor: None },
            }
        } else {
            WorkspaceView { name: None, keep_alive: false, bind_to_monitor: None }
        }
    }

    /// The data of a window node.
    pub open spec fn window(self, id: usize) -> WindowData {
        match self.nodes[id as int].payload {
            PayloadView::Window(w) => w,
            _ => arbitrary(),
        }
    }

    /// The data of a monitor node.
    pub open spec fn monitor(self, id: usize) -> MonitorData {
        match self.nodes[id as int].payload {
            PayloadView::Monitor(m) => m,
            _ => arbitrary(),
        }
    }

    /// Whether `id` is a live workspace with the name `name`.
    pub open spec fn has_name(self, id: usize, name: Seq<char>) -> bool {
        self.is_workspace(id) && self.workspace(id).name == Some(name)
    }

    /// Whether some live workspace has the name `name`.
    pub open spec fn name_taken(self, name: Seq<char>) -> bool {
        exists|id: usize| self.has_name(id, name)
    }

    /// Whether `c` is a proper child of `id`: alive, and pointing back.
    pub open spec fn child_ok(self, id: usize, c: usize) -> bool {
        c < self.nodes.len() && self.nodes[c as int].alive && self.nodes[c as int].parent == Some(
            id,
        )
    }

    /// The well-formedness of one slot.
    pub open spec fn node_wf(self, id: usize) -> bool {
        let n = self.nodes[id as int];
        &&& (n.payload is Root <==> id == ROOT)
        &&& n.payload.valid()
        &&& n.children.no_duplicates()
        &&& forall|k: int| 0 <= k < n.children.len() ==> self.child_ok(id, #[trigger] n.children[k])
        &&& match n.parent {
            Some(p) => p < self.nodes.len() && self.nodes[p as int].children.contains(id)
                && may_hold(self.kind(p), self.kind(id)),
            None => true,
        }
        &&& (!n.alive ==> n.parent is None && n.children.len() == 0)
        &&& match n.payload.displayed() {
            Some(d) => n.children.contains(d),
            None => true,
        }
    }

    /// No two live workspaces have the same name.
    pub open spec fn names_unique(self) -> bool {
        forall|a: usize, b: usize, name: Seq<char>|
            #[trigger] self.has_name(a, name) && #[trigger] self.has_name(b, name) ==> a == b
    }

    /// The well-formedness of the tree: the root stands at position 0, parent
    /// and child links agree, every child is of the kind that its parent may
    /// hold, destroyed containers are linked to nothing, and names are unique.
    pub open spec fn wf(self) -> bool {
        &&& self.nodes.len() >= 1
        &&& self.nodes[0].alive
        &&& forall|id: usize| id < self.nodes.len() ==> #[trigger] self.node_wf(id)
        &&& self.names_unique()
    }

    /// The tree with the node at `id` replaced.
    pub open spec fn with_node(self, id: usize, n: NodeView) -> TreeView {
        TreeView { nodes: self.nodes.update(id as int, n) }
    }

    /// The tree with `d` as the displayed workspace of monitor `m`.
    pub open spec fn set_displayed(self, m: usize, d: Option<usize>) -> TreeView {
        let n = self.nodes[m as int];
        self.with_node(m, NodeView { payload: n.payload.with_displayed(d), ..n })
    }

    /// The tree with the payload of `id` replaced.
    pub open spec fn set_payload(self, id: usize, payload: PayloadView) -> TreeView {
        let n = self.nodes[id as int];
        self.with_node(id, NodeView { payload, ..n })
    }

    /// The tree with the children of `id` put in another order.
    pub open spec fn set_children(self, id: usize, children: Seq<usize>) -> TreeView {
        let n = self.nodes[id as int];
        self.with_node(id, NodeView { children, ..n })
    }

    /// The tree with one more container, which is alive and detached. Its
    /// identity is the length of the arena before.
    pub open spec fn push_node(self, payload: PayloadView) -> TreeView {
        TreeView { nodes: self.nodes.push(NodeView::fresh(payload)) }
    }

    /// The tree with `id` taken out of its parent's children. A monitor that
    /// showed `id` shows nothing afterwards.
    pub open spec fn detach(self, id: usize) -> TreeView {
        match self.nodes[id as int].parent {
            None => self,
            Some(p) => {
                let pn = self.nodes[p as int];
                let cn = self.nodes[id as int];
                self.with_node(
                    p,
                    NodeView {
                        children: without(pn.children, id),
                        payload: pn.payload.forget_displayed(id),
                        ..pn
                    },
                ).with_node(id, NodeView { parent: None, ..cn })
            },
        }
    }

    /// The tree with the detached container `child` put among the children of
    /// `parent` at position `index`.
    pub open spec fn link(self, child: usize, parent: usize, index: int) -> TreeView {
        let pn = self.nodes[parent as int];
        let cn = self.nodes[child as int];
        self.with_node(parent, NodeView { children: pn.children.insert(index, child), ..pn })
            .with_node(child, NodeView { parent: Some(parent), ..cn })
    }

    /// Whether `child` can become the child of `parent` at position `index`:
    /// both are alive, the kinds fit, and the position exists once `child` has
    /// left its present place.
    pub open spec fn can_attach(self, child: usize, parent: usize, index: int) -> bool {
        &&& self.alive(child)
        &&& self.alive(parent)
        &&& may_hold(self.kind(parent), self.kind(child))
        &&& 0 <= index <= self.detach(child).children(parent).len()
    }

    /// The tree with `child` moved from wherever it is to position `index`
    /// among the children of `parent`. A workspace that its monitor shows is
    /// still shown when it only changes its position on that monitor.
    pub open spec fn attach(self, child: usize, parent: usize, index: int) -> TreeView {
        let moved = self.detach(child).link(child, parent, index);
        if self.parent(child) == Some(parent) && self.displayed(parent) == Some(child) {
            moved.set_displayed(parent, Some(child))
        } else {
            moved
        }
    }

    /// The tree with the workspace `w` detached and destroyed together with
    /// its windows.
    pub open spec fn destroy_workspace(self, w: usize) -> TreeView {
        let t = self.detach(w);
        TreeView {
            nodes: Seq::new(
                t.nodes.len(),
                |i: int|
                    if i == w || t.nodes[i].parent == Some(w) {
                        t.nodes[i].destroyed()
                    } else {
                        t.nodes[i]
                    },
            ),
        }
    }

    /// The arena can take one more container.
    pub open spec fn has_room(self) -> bool {
        self.nodes.len() < usize::MAX
    }

    /// The arena can take the workspace that is made when the workspace
    /// `w` leaves a monitor on which it is the only one.
    pub open spec fn has_room_to_replace(self, w: usize) -> bool {
        self.parent(w) matches Some(m) ==> (self.children(m).len() == 1 ==> self.has_room())
    }

    /// What no command on workspaces and windows changes of the container
    /// `id`: its kind; for a monitor also that it is alive, where it is
    /// attached, its handle and its working area; for the root everything.
    pub open spec fn same_frame(self, next: TreeView, id: usize) -> bool {
        &&& next.kind(id) == self.kind(id)
        &&& self.kind(id) == ContainerKind::Monitor ==> {
            &&& next.nodes[id as int].alive == self.nodes[id as int].alive
            &&& next.parent(id) == self.parent(id)
            &&& next.monitor(id).handle == self.monitor(id).handle
            &&& next.monitor(id).working_area == self.monitor(id).working_area
        }
        &&& self.kind(id) == ContainerKind::Root ==> next.nodes[id as int] == self.nodes[id as int]
    }

    /// `next` comes from `self` by changes to workspaces and windows only:
    /// no container is lost from the arena, and the root and the monitors
    /// are as `same_frame` says.
    pub open spec fn evolves_to(self, next: TreeView) -> bool {
        &&& self.nodes.len() <= next.nodes.len()
        &&& forall|id: usize| id < self.nodes.len() ==> #[trigger] self.same_frame(next, id)
    }
}

} // verus!
