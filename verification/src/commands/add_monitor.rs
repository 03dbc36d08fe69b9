//! Takes a display that the platform reports into the tree.

use vstd::prelude::*;
use crate::commands::activate_workspace::{
    activate_workspace, activation_plan, lemma_activated_name_is_free, workspace_to_activate,
};
use crate::commands::move_workspace_to_monitor::move_workspace_to_monitor_impl;
use crate::config::{ConfigView, UserConfig, WorkspaceConfigView};
use crate::error::WmError;
use crate::events::{EventView, WmEvent};
use crate::model::{MonitorData, PayloadView, TreeView, ROOT};
use crate::rect::Rect;
use crate::tree::Payload;
use crate::wm_state::{WmState, WmStateView};

verus! {

/// A display as the platform reports it.
#[derive(Clone, Copy, Debug)]
pub struct NativeMonitor {
    /// The platform's handle of the display.
    pub handle: isize,
    /// The bounds of the display without the space the system reserves.
    pub working_area: Rect,
}

impl NativeMonitor {
    /// The data of the monitor node made from the display.
    pub open spec fn monitor(self) -> MonitorData {
        MonitorData { handle: self.handle, working_area: self.working_area, displayed: None }
    }
}

impl TreeView {
    /// The live workspace with the name `name`.
    pub open spec fn workspace_named(self, name: Seq<char>) -> usize {
        choose|id: usize| self.has_name(id, name)
    }

    /// In a well-formed tree a name picks one workspace.
    pub proof fn lemma_workspace_named(self, id: usize, name: Seq<char>)
        requires
            self.wf(),
            self.has_name(id, name),
        ensures
            self.name_taken(name),
            self.workspace_named(name) == id,
    {
        let other = self.workspace_named(name);
        assert(self.has_name(other, name));
    }
}

impl WmStateView {
    /// The state after one configuration entry has been reconciled with
    /// the new monitor `m`, which stands at position `index`.
    ///
    /// An entry that is bound to another monitor, or to none, changes
    /// nothing. For an entry bound to `index`: a live workspace with its
    /// name is moved to `m`, unless it stands on no monitor; where there is
    /// no such workspace and the entry is kept alive, the workspace is made
    /// on `m`.
    pub open spec fn bind_step(
        self,
        entry: WorkspaceConfigView,
        m: usize,
        index: int,
        config: ConfigView,
    ) -> WmStateView {
        if entry.bind_to_monitor matches Some(b) && b as int == index {
            if self.tree.name_taken(entry.name) {
                match self.move_workspace_plan(self.tree.workspace_named(entry.name), m, config) {
                    Ok(next) => next,
                    Err(_) => self,
                }
            } else if entry.keep_alive {
                match activation_plan(self.tree, config, Some(entry.name), Some(m)) {
                    Ok((workspace, monitor)) => self.activate(workspace, monitor, config),
                    Err(_) => self,
                }
            } else {
                self
            }
        } else {
            self
        }
    }

    /// The state after the first `i` configuration entries have been
    /// reconciled with the new monitor, in their order.
    pub open spec fn bind_prefix(self, m: usize, index: int, config: ConfigView, i: nat)
        -> WmStateView
        decreases i,
    {
        if i == 0 {
            self
        } else {
            self.bind_prefix(m, index, config, (i - 1) as nat).bind_step(
                config.workspaces[i - 1],
                m,
                index,
                config,
            )
        }
    }

    /// The state after the display `native` has been added.
    ///
    /// A monitor node with the display's working area becomes the last
    /// child of the root, and a `MonitorAdded` event carries its snapshot.
    /// Then every configuration entry is reconciled with it, as `bind_step`
    /// says. A monitor that has no workspace after that gets one, as an
    /// activation without a name makes it.
    pub open spec fn add_monitor(self, native: NativeMonitor, config: ConfigView) -> WmStateView {
        let m = self.tree.nodes.len() as usize;
        let index = self.tree.monitors().len() as int;
        let attached = self.with_tree(
            self.tree.push_node(PayloadView::Monitor(native.monitor())).link(m, ROOT, index),
        );
        let announced = attached.emit(EventView::MonitorAdded(attached.tree.monitor_dto(m)));
        let bound = announced.bind_prefix(m, index, config, config.workspaces.len());
        if bound.tree.children(m).len() == 0 {
            match workspace_to_activate(bound.tree, config, None, Some(m)) {
                Some(workspace) => bound.activate(workspace, m, config),
                None => bound,
            }
        } else {
            bound
        }
    }
}

/// Adds the display `native_monitor` to the tree, as `add_monitor` of the
/// state's view says: the monitor is attached and announced, the workspaces
/// that the configuration binds to its index are moved to it or made on it,
/// and it is not left without a workspace. Always succeeds.
pub fn add_monitor(native_monitor: NativeMonitor, state: &mut WmState, config: &UserConfig) -> (r:
    Result<(), WmError>)
    requires
        old(state)@.wf(),
        native_monitor.working_area.fits_screen(),
    ensures
        r is Ok,
        final(state)@ == old(state)@.add_monitor(native_monitor, config@),
        final(state)@.wf(),
        final(state)@.tree.is_monitor(old(state)@.tree.nodes.len() as usize),
        final(state)@.tree.monitor_settled(old(state)@.tree.nodes.len() as usize),
        old(state)@.extended_by(final(state)@),
        old(state)@.tree.settled() ==> final(state)@.tree.settled(),
        old(state)@.tree.tidy() && config@.keep_alive_consistent() ==> final(state)@.tree.tidy(),
{
    let ghost s0 = state@;
    proof {
        s0.lemma_add_monitor_extends(native_monitor, config@);
    }
    let index = state.tree.child_count(ROOT);
    let data = MonitorData {
        handle: native_monitor.handle,
        working_area: native_monitor.working_area,
        displayed: None,
    };
    let m = state.tree.push_node(Payload::Monitor(data));
    proof {
        let pushed = s0.tree.push_node(PayloadView::Monitor(data));
        assert(s0.tree.node_wf(ROOT));
        assert(pushed.nodes[ROOT as int] == s0.tree.nodes[ROOT as int]);
        assert(pushed.detach(m) == pushed);
        assert(pushed.can_attach(m, ROOT, index as int));
    }
    let attached = state.tree.attach(m, ROOT, index);
    assert(attached is Ok);
    let snapshot = state.monitor_dto(m);
    state.emit_event(WmEvent::MonitorAdded { added_monitor: snapshot });
    let ghost announced = state@;
    proof {
        crate::laws::lemma_monitor_attached(s0.tree, native_monitor);
        assert(announced.tree.monitor_orderly(m));
        announced.tree.lemma_evolves_refl();
        crate::seq_util::lemma_insert_contains(s0.tree.monitors(), index as int, m);
        assert(announced.tree.node_wf(ROOT));
        crate::seq_util::lemma_index_of_unique(announced.tree.monitors(), m, index as int);
    }
    let n = config.workspaces.len();
    let mut i: usize = 0;
    while i < n
        invariant
            n == config.workspaces.len(),
            i <= n,
            announced.wf(),
            announced.tree.is_monitor(m),
            announced.tree.evolves_to(state@.tree),
            state@.wf(),
            state@ == announced.bind_prefix(m, index as int, config@, i as nat),
            forall|q: usize|
                announced.tree.monitor_settled(q) ==> #[trigger] state@.tree.monitor_settled(q),
            state@.tree.monitor_orderly(m),
            announced.tree.tidy() && config@.keep_alive_consistent() ==> state@.tree.tidy(),
        decreases n - i,
    {
        let ghost before = state@;
        proof {
            announced.tree.lemma_evolves_monitor(before.tree, m);
        }
        let entry = &config.workspaces[i];
        let bound = match entry.bind_to_monitor {
            Some(b) => b as usize == index,
            None => false,
        };
        if bound {
            match state.tree.find_workspace_by_name(&entry.name) {
                Some(w) => {
                    proof {
                        before.tree.lemma_workspace_named(w, entry.name@);
                    }
                    let moved = move_workspace_to_monitor_impl(w, m, state, config);
                },
                None => {
                    if entry.keep_alive {
                        proof {
                            assert(config@.workspaces[i as int] == entry@);
                            if config@.keep_alive_consistent() {
                                crate::laws::lemma_named_activation_keeps_alive(
                                    before.tree,
                                    config@,
                                    i as int,
                                    Some(m),
                                );
                            }
                        }
                        let made = activate_workspace(
                            Some(entry.name.as_str()),
                            Some(m),
                            state,
                            config,
                        );
                    }
                },
            }
        }
        proof {
            announced.tree.lemma_evolves_trans(before.tree, state@.tree);
            announced.tree.lemma_evolves_monitor(state@.tree, m);
            assert(config@.workspaces[i as int] == entry@);
            assert forall|q: usize| announced.tree.monitor_settled(q) implies #[trigger]
                state@.tree.monitor_settled(q) by {
                assert(before.tree.monitor_settled(q));
            }
        }
        i += 1;
    }
    proof {
        announced.tree.lemma_evolves_monitor(state@.tree, m);
    }
    let ghost bound = state@.tree;
    if state.tree.child_count(m) == 0 {
        proof {
            assert(bound.node_wf(m));
        }
        let made = activate_workspace(None, Some(m), state, config);
        assert(made is Ok);
        proof {
            announced.tree.lemma_evolves_trans(bound, state@.tree);
            announced.tree.lemma_evolves_monitor(state@.tree, m);
        }
    }
    proof {
        if s0.tree.settled() {
            assert forall|q: usize| #[trigger] state@.tree.monitor_settled(q) by {
                if q != m {
                    assert(s0.tree.monitor_settled(q));
                    assert(announced.tree.monitor_settled(q));
                    assert(bound.monitor_settled(q));
                }
            }
        }
    }
    Ok(())
}

} // verus!
