//! Puts the workspaces of a monitor in the configured order.

use vstd::prelude::*;
use crate::config::{ConfigView, UserConfig};
use crate::error::WmError;
use crate::model::{ContainerKind, TreeView};
use crate::sorting::{lemma_insert_position, lemma_sort_permutes, sort_by_key};
use crate::wm_state::WmState;

verus! {

impl TreeView {
    /// The key by which the workspaces of a monitor are ordered: the place
    /// of the workspace's name in the configuration.
    pub open spec fn rank_key(self, config: ConfigView) -> spec_fn(usize) -> int {
        |id: usize| config.rank(self.workspace(id).name)
    }

    /// The tree with the workspaces of the monitor `m` in the order of
    /// their places in the configuration. Workspaces with the same place,
    /// which are those without a configuration entry, keep their order.
    pub open spec fn sort_workspaces(self, m: usize, config: ConfigView) -> TreeView {
        self.set_children(m, sort_by_key(self.children(m), self.rank_key(config)))
    }

    /// Sorting the workspaces of a monitor keeps the tree well-formed.
    pub proof fn lemma_sort_workspaces_wf(self, m: usize, config: ConfigView)
        requires
            self.wf(),
            m < self.nodes.len(),
        ensures
            self.sort_workspaces(m, config).wf(),
            self.sort_workspaces(m, config).nodes.len() == self.nodes.len(),
    {
        assert(self.node_wf(m));
        lemma_sort_permutes(self.children(m), self.rank_key(config));
        self.lemma_set_children_wf(m, sort_by_key(self.children(m), self.rank_key(config)));
    }

    /// Sorting the workspaces of a monitor is an evolution.
    pub proof fn lemma_sort_workspaces_evolves(self, m: usize, config: ConfigView)
        requires
            self.is_monitor(m),
        ensures
            self.evolves_to(self.sort_workspaces(m, config)),
    {
        self.lemma_set_children_evolves(
            m,
            sort_by_key(self.children(m), self.rank_key(config)),
        );
    }
}

/// Puts the workspaces of `monitor` in the order of their configuration
/// entries; workspaces without an entry come last, in the order they had.
/// Fails, and changes nothing, where `monitor` is not a live monitor. Queues
/// no effect and emits no event.
pub fn sort_workspaces(monitor: usize, state: &mut WmState, config: &UserConfig) -> (r: Result<
    (),
    WmError,
>)
    requires
        old(state)@.wf(),
    ensures
        final(state)@.wf(),
        match r {
            Ok(()) => old(state)@.tree.is_monitor(monitor) && final(state)@ == old(state)@.with_tree(old(state)@.tree.sort_workspaces(monitor, config@)),
            Err(e) => e == WmError::MonitorNotFound && !old(state)@.tree.is_monitor(monitor)
                && final(state)@ == old(state)@,
        },
        old(state)@.tree.evolves_to(final(state)@.tree),
        old(state)@.extended_by(final(state)@),
        forall|q: usize|
            old(state)@.tree.monitor_settled(q) ==> #[trigger] final(state)@.tree.monitor_settled(q),
        old(state)@.tree.settled() ==> final(state)@.tree.settled(),
        old(state)@.tree.tidy() ==> final(state)@.tree.tidy(),
{
    proof {
        old(state)@.tree.lemma_evolves_refl();
        if old(state)@.tree.is_monitor(monitor) {
            crate::laws::law_sort_workspaces(old(state)@, monitor, config@);
        }
    }
    if !state.tree.is_alive(monitor) {
        return Err(WmError::MonitorNotFound);
    }
    match state.tree.kind(monitor) {
        ContainerKind::Monitor => {},
        _ => {
            return Err(WmError::MonitorNotFound);
        },
    }
    let ghost tree = state@.tree;
    let ghost key = tree.rank_key(config@);
    let ghost kids = tree.children(monitor);
    let n = state.tree.child_count(monitor);
    let mut out: Vec<usize> = Vec::new();
    let mut out_keys: Vec<usize> = Vec::new();
    let mut i: usize = 0;
    while i < n
        invariant
            state@.tree == tree,
            tree.wf(),
            tree.is_monitor(monitor),
            key == tree.rank_key(config@),
            kids == tree.children(monitor),
            n == kids.len(),
            i <= n,
            out@ == sort_by_key(kids.take(i as int), key),
            out_keys.len() == out.len(),
            forall|k: int| 0 <= k < out.len() ==> out_keys[k] as int == key(out[k]),
        decreases n - i,
    {
        let x = state.tree.children(monitor)[i];
        proof {
            tree.lemma_child(monitor, i as int);
        }
        let kx = config.rank_of(&state.tree.workspace_data(x).name);
        assert(kx as int == key(x));
        let mut j = out.len();
        while j > 0 && out_keys[j - 1] > kx
            invariant
                j <= out.len(),
                out_keys.len() == out.len(),
                forall|k: int| 0 <= k < out.len() ==> out_keys[k] as int == key(out[k]),
                forall|k: int| j <= k < out.len() ==> key(out[k]) > kx as int,
            decreases j,
        {
            j -= 1;
        }
        proof {
            lemma_insert_position(out@, x, key, j as int);
            assert(kids.take(i as int + 1).drop_last() =~= kids.take(i as int));
            assert(kids.take(i as int + 1).last() == x);
        }
        out.insert(j, x);
        out_keys.insert(j, kx);
        i += 1;
    }
    proof {
        assert(kids.take(n as int) =~= kids);
        assert(tree.node_wf(monitor));
        lemma_sort_permutes(kids, key);
        tree.lemma_sort_workspaces_wf(monitor, config@);
        tree.lemma_sort_workspaces_evolves(monitor, config@);
    }
    state.tree.set_children(monitor, out);
    Ok(())
}

} // verus!
