//! Brings a workspace into being on a monitor.

use vstd::prelude::*;
use crate::commands::sort_workspaces::sort_workspaces;
use crate::config::{ConfigFilter, ConfigView, UserConfig, WorkspaceConfig, WorkspaceConfigView};
use crate::error::WmError;
use crate::events::{EventView, WmEvent};
use crate::model::{ContainerKind, NodeView, PayloadView, TreeView, WorkspaceView, ROOT};
use crate::tree::{Payload, WorkspaceData};
use crate::wm_state::{WmState, WmStateView};

verus! {

/// The view of an optional name given as a string slice.
pub open spec fn str_name_view(name: Option<&str>) -> Option<Seq<char>> {
    match name {
        Some(s) => Some(s@),
        None => None,
    }
}

impl WorkspaceConfigView {
    /// The workspace that the configuration entry describes.
    pub open spec fn workspace(self) -> WorkspaceView {
        WorkspaceView {
            name: Some(self.name),
            keep_alive: self.keep_alive,
            bind_to_monitor: self.bind_to_monitor,
        }
    }
}

/// The workspace that no configuration entry stands behind: it has no name,
/// is bound to no monitor, and goes when it is empty and not shown.
pub open spec fn default_workspace() -> WorkspaceView {
    WorkspaceView { name: None, keep_alive: false, bind_to_monitor: None }
}

/// Which workspace an activation makes.
///
/// With a name: the one of the first configuration entry with that name,
/// where no live workspace has the name. Without a name: the one of the
/// first inactive entry that is bound to the target monitor's index; else
/// the one of the first inactive entry; else the default workspace.
pub open spec fn workspace_to_activate(
    tree: TreeView,
    config: ConfigView,
    name: Option<Seq<char>>,
    target: Option<usize>,
) -> Option<WorkspaceView> {
    let n = config.workspaces.len() as int;
    match name {
        Some(wanted) => {
            let i = config.first_eligible(ConfigFilter::Named(wanted), tree);
            if i < n {
                Some(config.workspaces[i].workspace())
            } else {
                None
            }
        },
        None => {
            let bound = match target {
                Some(m) => match tree.monitor_index(m) {
                    Some(index) => config.first_eligible(ConfigFilter::BoundTo(index as int), tree),
                    None => n,
                },
                None => n,
            };
            let any = config.first_eligible(ConfigFilter::Any, tree);
            if bound < n {
                Some(config.workspaces[bound].workspace())
            } else if any < n {
                Some(config.workspaces[any].workspace())
            } else {
                Some(default_workspace())
            }
        },
    }
}

/// On which monitor an activation puts the workspace: the given one, or
/// else the attached monitor whose index the workspace is bound to.
pub open spec fn activation_target(tree: TreeView, workspace: WorkspaceView, target: Option<usize>)
    -> Option<usize> {
    match target {
        Some(m) => if tree.is_monitor(m) {
            Some(m)
        } else {
            None
        },
        None => match workspace.bind_to_monitor {
            Some(b) => if (b as int) < tree.monitors().len() {
                Some(tree.monitors()[b as int])
            } else {
                None
            },
            None => None,
        },
    }
}

/// What an activation decides before it changes anything: the workspace
/// and its monitor, or the error.
pub open spec fn activation_plan(
    tree: TreeView,
    config: ConfigView,
    name: Option<Seq<char>>,
    target: Option<usize>,
) -> Result<(WorkspaceView, usize), WmError> {
    if target is Some && !tree.is_monitor(target->0) {
        Err(WmError::MonitorNotFound)
    } else {
        match workspace_to_activate(tree, config, name, target) {
            None => Err(WmError::WorkspaceNotFound),
            Some(workspace) => match activation_target(tree, workspace, target) {
                None => Err(WmError::MonitorNotFound),
                Some(m) => Ok((workspace, m)),
            },
        }
    }
}

impl WmStateView {
    /// The state after `workspace` has been made on the monitor `m`: it is
    /// the last container of the arena, stands among the workspaces of `m`
    /// in the configured order, and is shown, with a redraw queued, where
    /// `m` showed nothing. A `WorkspaceActivated` event carries its snapshot.
    pub open spec fn activate(self, workspace: WorkspaceView, m: usize, config: ConfigView)
        -> WmStateView {
        let id = self.tree.nodes.len() as usize;
        let linked = self.tree.push_node(PayloadView::Workspace(workspace)).link(
            id,
            m,
            self.tree.children(m).len() as int,
        );
        let placed = if self.tree.displayed(m) is None {
            self.with_tree(linked.set_displayed(m, Some(id))).queue_redraw(id)
        } else {
            self.with_tree(linked)
        };
        let sorted = placed.with_tree(placed.tree.sort_workspaces(m, config));
        sorted.emit(EventView::WorkspaceActivated(sorted.tree.workspace_dto(id)))
    }
}

impl WmStateView {
    /// An activation on a live monitor, of a workspace whose name is free,
    /// keeps the state well-formed and is an evolution of the tree.
    pub proof fn lemma_activate(self, workspace: WorkspaceView, m: usize, config: ConfigView)
        requires
            self.wf(),
            self.tree.is_monitor(m),
            self.tree.nodes.len() < usize::MAX,
            workspace.name is Some ==> !self.tree.name_taken(workspace.name->0),
        ensures
            self.activate(workspace, m, config).wf(),
            self.tree.evolves_to(self.activate(workspace, m, config).tree),
            self.activate(workspace, m, config).tree.nodes.len() == self.tree.nodes.len() + 1,
            self.activate(workspace, m, config).tree.is_workspace(self.tree.nodes.len() as usize),
    {
        let id = self.tree.nodes.len() as usize;
        let end = self.tree.children(m).len() as int;
        let payload = PayloadView::Workspace(workspace);
        let pushed = self.tree.push_node(payload);
        self.tree.lemma_push_wf(payload);
        self.tree.lemma_push_evolves(payload);
        assert(pushed.nodes[m as int] == self.tree.nodes[m as int]);
        let linked = pushed.link(id, m, end);
        pushed.lemma_link_wf(id, m, end);
        pushed.lemma_link_evolves(id, m, end);
        self.tree.lemma_evolves_trans(pushed, linked);
        crate::seq_util::lemma_insert_contains(self.tree.children(m), end, id);
        let placed = if self.tree.displayed(m) is None {
            linked.set_displayed(m, Some(id))
        } else {
            linked
        };
        linked.lemma_set_displayed_wf(m, Some(id));
        linked.lemma_set_displayed_evolves(m, Some(id));
        linked.lemma_evolves_refl();
        self.tree.lemma_evolves_trans(linked, placed);
        self.pending.lemma_queue_redraw_wf(id);
        placed.lemma_sort_workspaces_wf(m, config);
        placed.lemma_sort_workspaces_evolves(m, config);
        self.tree.lemma_evolves_trans(placed, placed.sort_workspaces(m, config));
    }
}

/// Copies a configuration entry into the data of a workspace.
fn workspace_from_config(entry: &WorkspaceConfig) -> (r: WorkspaceData)
    ensures
        r@ == entry@.workspace(),
{
    WorkspaceData {
        name: Some(entry.name.clone()),
        keep_alive: entry.keep_alive,
        bind_to_monitor: entry.bind_to_monitor,
    }
}

/// Decides which workspace to make, as `workspace_to_activate` says.
fn select_workspace(
    workspace_name: Option<&str>,
    target_monitor: Option<usize>,
    state: &WmState,
    config: &UserConfig,
) -> (r: Option<WorkspaceData>)
    requires
        state@.wf(),
    ensures
        match r {
            Some(w) => workspace_to_activate(
                state@.tree,
                config@,
                str_name_view(workspace_name),
                target_monitor,
            ) == Some(w@),
            None => workspace_to_activate(
                state@.tree,
                config@,
                str_name_view(workspace_name),
                target_monitor,
            ) is None,
        },
{
    let n = config.workspaces.len();
    match workspace_name {
        Some(wanted) => {
            let owned: String = wanted.to_owned();
            let i = config.first_inactive(&state.tree, Some(&owned), None);
            if i < n {
                Some(workspace_from_config(&config.workspaces[i]))
            } else {
                None
            }
        },
        None => {
            let bound = match target_monitor {
                Some(m) => match state.tree.monitor_index(m) {
                    Some(index) => config.first_inactive(&state.tree, None, Some(index)),
                    None => n,
                },
                None => n,
            };
            if bound < n {
                return Some(workspace_from_config(&config.workspaces[bound]));
            }
            let any = config.first_inactive(&state.tree, None, None);
            if any < n {
                Some(workspace_from_config(&config.workspaces[any]))
            } else {
                Some(WorkspaceData { name: None, keep_alive: false, bind_to_monitor: None })
            }
        },
    }
}

/// Makes a workspace and attaches it to a monitor.
///
/// `workspace_name` picks the configuration entry; without it the first
/// inactive entry bound to the target monitor is taken, else the first
/// inactive entry, else a workspace without a name is made, so that an
/// activation without a name on a live monitor always succeeds.
/// `target_monitor` picks the monitor; without it the workspace goes to the
/// monitor it is bound to. The new workspace is shown where its monitor
/// showed nothing. Returns the identity of the new workspace. An activation
/// that fails changes nothing.
pub fn activate_workspace(
    workspace_name: Option<&str>,
    target_monitor: Option<usize>,
    state: &mut WmState,
    config: &UserConfig,
) -> (r: Result<usize, WmError>)
    requires
        old(state)@.wf(),
    ensures
        final(state)@.wf(),
        match r {
            Ok(id) => activation_plan(
                old(state)@.tree,
                config@,
                str_name_view(workspace_name),
                target_monitor,
            ) matches Ok((workspace, m)) && id == old(state)@.tree.nodes.len() && final(state)@
                == old(state)@.activate(workspace, m, config@),
            Err(e) => activation_plan(
                old(state)@.tree,
                config@,
                str_name_view(workspace_name),
                target_monitor,
            ) == Err::<(WorkspaceView, usize), WmError>(e) && final(state)@ == old(state)@,
        },
        old(state)@.tree.evolves_to(final(state)@.tree),
        old(state)@.extended_by(final(state)@),
        r is Ok ==> old(state)@.tree.has_room(),
        forall|q: usize|
            old(state)@.tree.monitor_settled(q) ==> #[trigger] final(state)@.tree.monitor_settled(q),
        old(state)@.tree.settled() ==> final(state)@.tree.settled(),
        activation_plan(
            old(state)@.tree,
            config@,
            str_name_view(workspace_name),
            target_monitor,
        ) matches Ok((workspace, m)) ==> final(state)@.tree.monitor_settled(m),
        old(state)@.tree.tidy() && (activation_plan(
            old(state)@.tree,
            config@,
            str_name_view(workspace_name),
            target_monitor,
        ) matches Ok((workspace, m)) ==> (workspace.keep_alive || old(state)@.tree.displayed(m)
            is None)) ==> final(state)@.tree.tidy(),
{
    proof {
        old(state)@.tree.lemma_evolves_refl();
    }
    if let Some(m) = target_monitor {
        if !state.tree.is_alive(m) {
            return Err(WmError::MonitorNotFound);
        }
        match state.tree.kind(m) {
            ContainerKind::Monitor => {},
            _ => {
                return Err(WmError::MonitorNotFound);
            },
        }
    }
    let selected = select_workspace(workspace_name, target_monitor, state, config);
    let workspace = match selected {
        Some(w) => w,
        None => {
            return Err(WmError::WorkspaceNotFound);
        },
    };
    let monitor = match target_monitor {
        Some(m) => m,
        None => match workspace.bind_to_monitor {
            Some(b) => {
                if (b as usize) < state.tree.child_count(ROOT) {
                    let m = state.tree.children(ROOT)[b as usize];
                    proof {
                        state@.tree.lemma_child(ROOT, b as int);
                        assert(state@.tree.node_wf(ROOT));
                    }
                    m
                } else {
                    return Err(WmError::MonitorNotFound);
                }
            },
            None => {
                return Err(WmError::MonitorNotFound);
            },
        },
    };
    let ghost before = state@;
    let ghost made = workspace@;
    assert(before.tree.is_monitor(monitor));
    proof {
        lemma_activated_name_is_free(before.tree, config@, str_name_view(workspace_name), target_monitor);
    }
    let shows_nothing = state.tree.displayed(monitor).is_none();
    let end = state.tree.child_count(monitor);
    let id = state.tree.push_node(Payload::Workspace(workspace));
    proof {
        let pushed = before.tree.push_node(PayloadView::Workspace(made));
        assert(pushed.nodes[monitor as int] == before.tree.nodes[monitor as int]);
        assert(pushed.nodes[id as int] == NodeView::fresh(PayloadView::Workspace(made)));
        assert(pushed.detach(id) == pushed);
        assert(pushed.can_attach(id, monitor, end as int));
    }
    let attached = state.tree.attach(id, monitor, end);
    assert(attached is Ok);
    assert(state@.tree == before.tree.push_node(PayloadView::Workspace(made)).link(
        id,
        monitor,
        end as int,
    ));
    if shows_nothing {
        proof {
            crate::seq_util::lemma_insert_contains(before.tree.children(monitor), end as int, id);
        }
        state.tree.set_displayed(monitor, Some(id));
        state.pending_sync.queue_container_to_redraw(id);
    }
    let sorted = sort_workspaces(monitor, state, config);
    assert(sorted is Ok);
    let snapshot = state.workspace_dto(id);
    state.emit_event(WmEvent::WorkspaceActivated { activated_workspace: snapshot });
    proof {
        before.lemma_activate(made, monitor, config@);
        before.lemma_activate_extends(made, monitor, config@);
        crate::laws::law_activate_workspace(
            before,
            config@,
            str_name_view(workspace_name),
            target_monitor,
        );
    }
    Ok(id)
}

/// The workspace that an activation makes has a name that no live workspace
/// has, or none.
pub proof fn lemma_activated_name_is_free(
    tree: TreeView,
    config: ConfigView,
    name: Option<Seq<char>>,
    target: Option<usize>,
)
    ensures
        workspace_to_activate(tree, config, name, target) matches Some(w) ==> (w.name is Some
            ==> !tree.name_taken(w.name->0)),
{
    let n = config.workspaces.len() as int;
    match name {
        Some(wanted) => {
            config.lemma_first_eligible(0, ConfigFilter::Named(wanted), tree);
        },
        None => {
            config.lemma_first_eligible(0, ConfigFilter::Any, tree);
            if let Some(m) = target {
                if let Some(index) = tree.monitor_index(m) {
                    config.lemma_first_eligible(0, ConfigFilter::BoundTo(index as int), tree);
                }
            }
        },
    }
}

} // verus!
