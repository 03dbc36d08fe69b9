//! What can be asked of the state without changing it.

use vstd::prelude::*;
use crate::events::{MonitorDto, WorkspaceDto};
use crate::model::{ContainerKind, PayloadView, TreeView, WindowData, WindowState, ROOT};
use crate::rect::Rect;
use crate::wm_state::WmState;

verus! {

impl TreeView {
    /// The workspaces of the monitor `m`, in their order; nothing where `m`
    /// is not a live monitor.
    pub open spec fn workspaces(self, m: usize) -> Seq<usize> {
        if self.is_monitor(m) {
            self.children(m)
        } else {
            Seq::empty()
        }
    }

    /// The chain of parents of `id`, nearest first, as far as `fuel` steps
    /// lead.
    pub open spec fn ancestors_upto(self, id: usize, fuel: nat) -> Seq<usize>
        decreases fuel,
    {
        if fuel == 0 {
            Seq::empty()
        } else {
            match self.parent(id) {
                None => Seq::empty(),
                Some(p) => seq![p] + self.ancestors_upto(p, (fuel - 1) as nat),
            }
        }
    }

    /// The ancestors of `id`, nearest first. No container has more than
    /// three.
    pub open spec fn ancestors(self, id: usize) -> Seq<usize> {
        if self.alive(id) {
            self.ancestors_upto(id, 3)
        } else {
            Seq::empty()
        }
    }

    /// The containers `ids` and what lies below them down to `depth`
    /// levels, each container before its children and before the
    /// containers that follow it in `ids`.
    pub open spec fn descendants_of(self, ids: Seq<usize>, depth: nat) -> Seq<usize>
        decreases depth, ids.len(),
    {
        if depth == 0 || ids.len() == 0 {
            Seq::empty()
        } else {
            self.descendants_of(ids.drop_last(), depth) + seq![ids.last()] + self.descendants_of(
                self.children(ids.last()),
                (depth - 1) as nat,
            )
        }
    }

    /// What lies below `id`, depth first.
    pub open spec fn descendants(self, id: usize) -> Seq<usize> {
        if self.alive(id) {
            self.descendants_of(self.children(id), 3)
        } else {
            Seq::empty()
        }
    }

    /// The smallest rectangle that covers the working areas of the monitors
    /// `ms`; `None` where there is no monitor.
    pub open spec fn bounding(self, ms: Seq<usize>) -> Option<Rect>
        decreases ms.len(),
    {
        if ms.len() == 0 {
            None
        } else {
            let area = self.monitor(ms.last()).working_area;
            match self.bounding(ms.drop_last()) {
                None => Some(area),
                Some(b) => Some(b.spec_union(area)),
            }
        }
    }

    /// The rectangle of the container `id`: for the root what covers all
    /// monitors; for a monitor its working area; for a workspace that of
    /// its monitor; for a floating window its placement, for any other
    /// window the rectangle of its workspace. `None` for a container that is
    /// destroyed or has no monitor to take the rectangle from.
    pub open spec fn to_rect(self, id: usize) -> Option<Rect> {
        if !self.alive(id) {
            None
        } else {
            match self.nodes[id as int].payload {
                PayloadView::Root => self.bounding(self.children(id)),
                PayloadView::Monitor(m) => Some(m.working_area),
                PayloadView::Workspace(_) => self.rect_of_parent_monitor(id),
                PayloadView::Window(w) => if w.state == WindowState::Floating {
                    Some(w.floating_placement)
                } else {
                    match self.parent(id) {
                        Some(workspace) => self.rect_of_parent_monitor(workspace),
                        None => None,
                    }
                },
            }
        }
    }

    /// The working area of the monitor that the workspace `w` stands on.
    pub open spec fn rect_of_parent_monitor(self, w: usize) -> Option<Rect> {
        match self.parent(w) {
            Some(m) => Some(self.monitor(m).working_area),
            None => None,
        }
    }

    /// The last ancestor of a live container has no parent: the chain is
    /// complete, and at most three long.
    pub proof fn lemma_ancestors_complete(self, id: usize)
        requires
            self.wf(),
            self.alive(id),
        ensures
            self.ancestors(id).len() <= 3,
            self.ancestors(id).len() == 0 ==> self.parent(id) is None,
            self.ancestors(id).len() > 0 ==> self.parent(self.ancestors(id).last()) is None,
    {
        reveal_with_fuel(TreeView::ancestors_upto, 4);
        if let Some(near) = self.parent(id) {
            self.lemma_parent_differs(id);
            if let Some(mid) = self.parent(near) {
                self.lemma_parent_differs(near);
                if let Some(far) = self.parent(mid) {
                    self.lemma_parent_differs(mid);
                    if self.parent(far) is Some {
                        self.lemma_parent_differs(far);
                    }
                    assert(self.ancestors(id) =~= seq![near, mid, far]);
                } else {
                    assert(self.ancestors(id) =~= seq![near, mid]);
                }
            } else {
                assert(self.ancestors(id) =~= seq![near]);
            }
        }
    }

    /// What is listed for `ids` holds each of them, and what is listed
    /// below each of them one level less deep.
    pub proof fn lemma_descendants_cover(self, ids: Seq<usize>, depth: nat, k: int)
        requires
            depth >= 1,
            0 <= k < ids.len(),
        ensures
            self.descendants_of(ids, depth).contains(ids[k]),
            forall|x: usize|
                self.descendants_of(self.children(ids[k]), (depth - 1) as nat).contains(x)
                    ==> self.descendants_of(ids, depth).contains(x),
        decreases ids.len(),
    {
        let front = self.descendants_of(ids.drop_last(), depth);
        let below = self.descendants_of(self.children(ids.last()), (depth - 1) as nat);
        let all = self.descendants_of(ids, depth);
        assert(all == front + seq![ids.last()] + below);
        if k == ids.len() - 1 {
            assert(all[front.len() as int] == ids[k]);
            assert forall|x: usize| below.contains(x) implies all.contains(x) by {
                let i = choose|i: int| 0 <= i < below.len() && below[i] == x;
                assert(all[front.len() + 1 + i] == x);
            }
        } else {
            self.lemma_descendants_cover(ids.drop_last(), depth, k);
            assert(ids.drop_last()[k] == ids[k]);
            assert forall|x: usize| front.contains(x) implies all.contains(x) by {
                let i = choose|i: int| 0 <= i < front.len() && front[i] == x;
                assert(all[i] == x);
            }
        }
    }

    /// Every container that has `id` among its ancestors is among the
    /// descendants of `id`.
    pub proof fn lemma_descendants_complete(self, id: usize, c: usize)
        requires
            self.wf(),
            self.alive(id),
            self.alive(c),
            self.ancestors(c).contains(id),
        ensures
            self.descendants(id).contains(c),
    {
        reveal_with_fuel(TreeView::ancestors_upto, 4);
        self.lemma_ancestors_complete(c);
        let chain = self.ancestors(c);
        let at = choose|i: int| 0 <= i < chain.len() && chain[i] == id;
        let near = self.parent(c)->0;
        self.lemma_parent_differs(c);
        let k = choose|k: int| 0 <= k < self.children(near).len() && self.children(near)[k] == c;
        if at == 0 {
            assert(chain[0] == near);
            self.lemma_descendants_cover(self.children(id), 3, k);
        } else {
            let mid = self.parent(near)->0;
            self.lemma_parent_differs(near);
            let j = choose|j: int|
                0 <= j < self.children(mid).len() && self.children(mid)[j] == near;
            assert(chain[1] == mid);
            if at == 1 {
                self.lemma_descendants_cover(self.children(near), 2, k);
                self.lemma_descendants_cover(self.children(id), 3, j);
            } else {
                let far = self.parent(mid)->0;
                self.lemma_parent_differs(mid);
                let i = choose|i: int|
                    0 <= i < self.children(far).len() && self.children(far)[i] == mid;
                assert(chain[2] == far);
                self.lemma_descendants_cover(self.children(near), 1, k);
                self.lemma_descendants_cover(self.children(mid), 2, j);
                self.lemma_descendants_cover(self.children(id), 3, i);
            }
        }
    }
}

/// A copy of a list of identities.
fn copy_ids(v: &Vec<usize>) -> (r: Vec<usize>)
    ensures
        r@ == v@,
{
    let mut out: Vec<usize> = Vec::new();
    let mut i: usize = 0;
    while i < v.len()
        invariant
            i <= v.len(),
            out@ == v@.take(i as int),
        decreases v.len() - i,
    {
        out.push(v[i]);
        assert(v@.take(i as int + 1) =~= v@.take(i as int).push(v@[i as int]));
        i += 1;
    }
    assert(v@.take(v.len() as int) =~= v@);
    out
}

impl WmState {
    /// Whether `id` names a container that has not been destroyed.
    pub fn is_alive(&self, id: usize) -> (r: bool)
        ensures
            r == self@.tree.alive(id),
    {
        self.tree.is_alive(id)
    }

    /// The kind of the container `id`; `None` where it is not alive.
    pub fn kind(&self, id: usize) -> (r: Option<ContainerKind>)
        ensures
            r == if self@.tree.alive(id) {
                Some(self@.tree.kind(id))
            } else {
                None
            },
    {
        if self.tree.is_alive(id) {
            Some(self.tree.kind(id))
        } else {
            None
        }
    }

    /// The parent of the container `id`; `None` where it has none or is not
    /// alive.
    pub fn parent(&self, id: usize) -> (r: Option<usize>)
        requires
            self@.wf(),
        ensures
            r == if self@.tree.alive(id) {
                self@.tree.parent(id)
            } else {
                None
            },
    {
        if self.tree.is_alive(id) {
            self.tree.parent(id)
        } else {
            None
        }
    }

    /// The children of the container `id`, in their order; nothing where it
    /// is not alive.
    pub fn children(&self, id: usize) -> (r: Vec<usize>)
        ensures
            r@ == if self@.tree.alive(id) {
                self@.tree.children(id)
            } else {
                Seq::empty()
            },
    {
        if self.tree.is_alive(id) {
            copy_ids(self.tree.children(id))
        } else {
            Vec::new()
        }
    }

    /// The monitors attached to the root, in the order of their attachment.
    pub fn monitors(&self) -> (r: Vec<usize>)
        requires
            self@.wf(),
        ensures
            r@ == self@.tree.monitors(),
    {
        copy_ids(self.tree.children(ROOT))
    }

    /// The workspaces of `monitor`, in their order; nothing where it is not
    /// a live monitor.
    pub fn workspaces(&self, monitor: usize) -> (r: Vec<usize>)
        ensures
            r@ == self@.tree.workspaces(monitor),
    {
        if self.tree.is_alive(monitor) {
            match self.tree.kind(monitor) {
                ContainerKind::Monitor => copy_ids(self.tree.children(monitor)),
                _ => Vec::new(),
            }
        } else {
            Vec::new()
        }
    }

    /// The workspace that `monitor` shows; `None` where it shows none or is
    /// not a live monitor.
    pub fn displayed_workspace(&self, monitor: usize) -> (r: Option<usize>)
        ensures
            r == if self@.tree.is_monitor(monitor) {
                self@.tree.displayed(monitor)
            } else {
                None
            },
    {
        if self.tree.is_alive(monitor) {
            self.tree.displayed(monitor)
        } else {
            None
        }
    }

    /// Whether the live workspace `workspace` is shown by the monitor it
    /// stands on.
    pub fn is_displayed(&self, workspace: usize) -> (r: bool)
        requires
            self@.wf(),
        ensures
            r == (self@.tree.is_workspace(workspace) && self@.tree.is_displayed(workspace)),
    {
        if !self.tree.is_alive(workspace) {
            return false;
        }
        match self.tree.kind(workspace) {
            ContainerKind::Workspace => {},
            _ => {
                return false;
            },
        }
        match self.tree.parent(workspace) {
            Some(m) => {
                proof {
                    self@.tree.lemma_parent_differs(workspace);
                }
                match self.tree.displayed(m) {
                    Some(d) => d == workspace,
                    None => false,
                }
            },
            None => false,
        }
    }

    /// The position of `monitor` among the attached monitors.
    pub fn monitor_index(&self, monitor: usize) -> (r: Option<usize>)
        requires
            self@.wf(),
        ensures
            r == self@.tree.monitor_index(monitor),
    {
        self.tree.monitor_index(monitor)
    }

    /// The live workspace with the name `name`.
    pub fn workspace_by_name(&self, name: &str) -> (r: Option<usize>)
        ensures
            match r {
                Some(id) => self@.tree.has_name(id, name@),
                None => !self@.tree.name_taken(name@),
            },
    {
        let owned: String = name.to_owned();
        self.tree.find_workspace_by_name(&owned)
    }

    /// A snapshot of the live workspace `id`.
    pub fn workspace(&self, id: usize) -> (r: Option<WorkspaceDto>)
        requires
            self@.wf(),
        ensures
            match r {
                Some(dto) => self@.tree.is_workspace(id) && dto@ == self@.tree.workspace_dto(id),
                None => !self@.tree.is_workspace(id),
            },
    {
        if !self.tree.is_alive(id) {
            return None;
        }
        match self.tree.kind(id) {
            ContainerKind::Workspace => Some(self.workspace_dto(id)),
            _ => None,
        }
    }

    /// A snapshot of the live monitor `id`.
    pub fn monitor(&self, id: usize) -> (r: Option<MonitorDto>)
        ensures
            r == if self@.tree.is_monitor(id) {
                Some(self@.tree.monitor_dto(id))
            } else {
                None
            },
    {
        if !self.tree.is_alive(id) {
            return None;
        }
        match self.tree.kind(id) {
            ContainerKind::Monitor => Some(self.monitor_dto(id)),
            _ => None,
        }
    }

    /// The data of the live window `id`.
    pub fn window(&self, id: usize) -> (r: Option<WindowData>)
        ensures
            r == if self@.tree.is_window(id) {
                Some(self@.tree.window(id))
            } else {
                None
            },
    {
        if !self.tree.is_alive(id) {
            return None;
        }
        match self.tree.kind(id) {
            ContainerKind::Window => Some(self.tree.window_data(id)),
            _ => None,
        }
    }

    /// The ancestors of the container `id`, nearest first.
    pub fn ancestors(&self, id: usize) -> (r: Vec<usize>)
        requires
            self@.wf(),
        ensures
            r@ == self@.tree.ancestors(id),
    {
        let mut out: Vec<usize> = Vec::new();
        if !self.tree.is_alive(id) {
            return out;
        }
        let mut cur: usize = id;
        let mut fuel: usize = 3;
        while fuel > 0
            invariant
                self@.wf(),
                fuel <= 3,
                cur < self@.tree.nodes.len(),
                self@.tree.ancestors_upto(id, 3) == out@ + self@.tree.ancestors_upto(
                    cur,
                    fuel as nat,
                ),
            decreases fuel,
        {
            match self.tree.parent(cur) {
                None => {
                    fuel = 0;
                },
                Some(p) => {
                    proof {
                        self@.tree.lemma_parent_differs(cur);
                        assert(out@.push(p) + self@.tree.ancestors_upto(p, (fuel - 1) as nat)
                            =~= out@ + (seq![p] + self@.tree.ancestors_upto(
                            p,
                            (fuel - 1) as nat,
                        )));
                    }
                    out.push(p);
                    cur = p;
                    fuel = fuel - 1;
                },
            }
        }
        assert(out@ + Seq::<usize>::empty() =~= out@);
        out
    }

    /// Adds to `out` what lies below `id`, down to `depth` levels.
    fn collect_descendants(&self, id: usize, depth: usize, out: &mut Vec<usize>)
        requires
            self@.wf(),
            id < self@.tree.nodes.len(),
        ensures
            final(out)@ == old(out)@ + self@.tree.descendants_of(
                self@.tree.children(id),
                depth as nat,
            ),
        decreases depth,
    {
        let ghost kids = self@.tree.children(id);
        let ghost start = out@;
        if depth == 0 {
            assert(out@ + Seq::<usize>::empty() =~= out@);
            return ;
        }
        let n = self.tree.child_count(id);
        let mut i: usize = 0;
        assert(start + self@.tree.descendants_of(kids.take(0), depth as nat) =~= start);
        while i < n
            invariant
                self@.wf(),
                id < self@.tree.nodes.len(),
                depth > 0,
                kids == self@.tree.children(id),
                n == kids.len(),
                i <= n,
                out@ == start + self@.tree.descendants_of(kids.take(i as int), depth as nat),
            decreases n - i,
        {
            let c = self.tree.children(id)[i];
            proof {
                self@.tree.lemma_child(id, i as int);
                assert(kids.take(i as int + 1).drop_last() =~= kids.take(i as int));
                assert(kids.take(i as int + 1).last() == c);
            }
            let ghost before = out@;
            out.push(c);
            self.collect_descendants(c, depth - 1, out);
            proof {
                let below = self@.tree.descendants_of(
                    self@.tree.children(c),
                    (depth - 1) as nat,
                );
                let done = self@.tree.descendants_of(kids.take(i as int), depth as nat);
                assert(before.push(c) + below =~= start + (done + seq![c] + below));
            }
            i += 1;
        }
        assert(kids.take(n as int) =~= kids);
    }

    /// What lies below the container `id`, depth first: each container
    /// before its children. A snapshot, which a later change of the tree
    /// does not touch.
    pub fn descendants(&self, id: usize) -> (r: Vec<usize>)
        requires
            self@.wf(),
        ensures
            r@ == self@.tree.descendants(id),
    {
        let mut out: Vec<usize> = Vec::new();
        if self.tree.is_alive(id) {
            self.collect_descendants(id, 3, &mut out);
            assert(Seq::<usize>::empty() + self@.tree.descendants(id) =~= self@.tree.descendants(
                id,
            ));
        }
        out
    }

    /// The working area of the monitor that the workspace `w` stands on.
    fn rect_of_parent_monitor(&self, w: usize) -> (r: Option<Rect>)
        requires
            self@.wf(),
            self@.tree.is_workspace(w),
        ensures
            r == self@.tree.rect_of_parent_monitor(w),
    {
        match self.tree.parent(w) {
            Some(m) => {
                proof {
                    self@.tree.lemma_parent_differs(w);
                }
                Some(self.tree.monitor_data(m).working_area)
            },
            None => None,
        }
    }

    /// The rectangle of the container `id`, as `to_rect` of the tree says.
    pub fn to_rect(&self, id: usize) -> (r: Option<Rect>)
        requires
            self@.wf(),
        ensures
            r == self@.tree.to_rect(id),
    {
        if !self.tree.is_alive(id) {
            return None;
        }
        match self.tree.kind(id) {
            ContainerKind::Root => {
                let ghost ms = self@.tree.children(id);
                let n = self.tree.child_count(id);
                let mut found: Option<Rect> = None;
                let mut i: usize = 0;
                while i < n
                    invariant
                        self@.wf(),
                        id < self@.tree.nodes.len(),
                        self@.tree.kind(id) == ContainerKind::Root,
                        ms == self@.tree.children(id),
                        n == ms.len(),
                        i <= n,
                        found == self@.tree.bounding(ms.take(i as int)),
                    decreases n - i,
                {
                    let m = self.tree.children(id)[i];
                    proof {
                        self@.tree.lemma_child(id, i as int);
                        assert(ms.take(i as int + 1).drop_last() =~= ms.take(i as int));
                    }
                    let area = self.tree.monitor_data(m).working_area;
                    found = match found {
                        None => Some(area),
                        Some(b) => Some(b.union(&area)),
                    };
                    i += 1;
                }
                assert(ms.take(n as int) =~= ms);
                found
            },
            ContainerKind::Monitor => Some(self.tree.monitor_data(id).working_area),
            ContainerKind::Workspace => self.rect_of_parent_monitor(id),
            ContainerKind::Window => {
                let data = self.tree.window_data(id);
                match data.state {
                    WindowState::Floating => Some(data.floating_placement),
                    _ => match self.tree.parent(id) {
                        Some(workspace) => {
                            proof {
                                self@.tree.lemma_parent_differs(id);
                            }
                            self.rect_of_parent_monitor(workspace)
                        },
                        None => None,
                    },
                }
            },
        }
    }
}

} // verus!
