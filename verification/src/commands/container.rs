//! The commands that work on any container: creating a window, attaching,
//! detaching and moving.

use vstd::prelude::*;
use crate::error::WmError;
use crate::model::{PayloadView, TreeView, WindowData, WindowState};
use crate::pending_sync::{PendingSync, PendingSyncView};
use crate::rect::Rect;
use crate::tree::Payload;
use crate::wm_state::{WmState, WmStateView};

verus! {

/// A window as the platform reports it.
#[derive(Clone, Copy, Debug)]
pub struct NativeWindow {
    /// The platform's handle of the window.
    pub handle: isize,
    pub state: WindowState,
    /// Where the window lies while it floats, in screen coordinates.
    pub floating_placement: Rect,
}

impl NativeWindow {
    /// The data of the window node made from the window.
    pub open spec fn window(self) -> WindowData {
        WindowData {
            handle: self.handle,
            state: self.state,
            floating_placement: self.floating_placement,
            has_pending_dpi_adjustment: false,
        }
    }
}

impl TreeView {
    /// The position that an attachment without a position takes: behind
    /// the children that `parent` has once `child` has left its place.
    pub open spec fn end_of(self, child: usize, parent: usize) -> int {
        self.detach(child).children(parent).len() as int
    }
}

/// Makes a window node, alive and detached, and returns its identity.
pub fn create_window(native_window: NativeWindow, state: &mut WmState) -> (id: usize)
    requires
        old(state)@.wf(),
        native_window.floating_placement.has_bounded_size(),
    ensures
        id == old(state)@.tree.nodes.len(),
        final(state)@ == old(state)@.with_tree(
            old(state)@.tree.push_node(PayloadView::Window(native_window.window())),
        ),
        final(state)@.wf(),
{
    let data = WindowData {
        handle: native_window.handle,
        state: native_window.state,
        floating_placement: native_window.floating_placement,
        has_pending_dpi_adjustment: false,
    };
    state.tree.push_node(Payload::Window(data))
}

/// Takes `child` out of its present place, if it has one, and puts it among
/// the children of `parent`: at position `index`, or at the end where none
/// is given.
///
/// Fails with `InvalidAttach`, and changes nothing, where one of the two is
/// not alive, where `parent` may not hold a container of the kind of
/// `child` (which rules out every cycle), or where the position does not
/// exist.
pub fn attach_container(child: usize, parent: usize, index: Option<usize>, state: &mut WmState)
    -> (r: Result<(), WmError>)
    requires
        old(state)@.wf(),
    ensures
        final(state)@.wf(),
        ({
            let tree = old(state)@.tree;
            let at = match index {
                Some(i) => i as int,
                None => tree.end_of(child, parent),
            };
            match r {
                Ok(()) => tree.can_attach(child, parent, at) && final(state)@ == old(state)@.with_tree(tree.attach(child, parent, at)),
                Err(e) => e == WmError::InvalidAttach && !tree.can_attach(child, parent, at)
                    && final(state)@ == old(state)@,
            }
        }),
{
    let at = match index {
        Some(i) => i,
        None => {
            if !state.tree.is_alive(child) || !state.tree.is_alive(parent) {
                return Err(WmError::InvalidAttach);
            }
            let same = match state.tree.parent(child) {
                Some(p) => p == parent,
                None => false,
            };
            proof {
                let tree = state@.tree;
                assert(tree.node_wf(parent));
                assert(tree.node_wf(child));
                if tree.parent(child) is Some {
                    tree.lemma_parent_differs(child);
                    assert(tree.node_wf(tree.parent(child)->0));
                    crate::seq_util::lemma_without(
                        tree.children(tree.parent(child)->0),
                        child,
                    );
                }
            }
            if same {
                state.tree.child_count(parent) - 1
            } else {
                state.tree.child_count(parent)
            }
        },
    };
    state.tree.attach(child, parent, at)
}

/// Moves `container` to position `target_index` among the children of
/// `target_parent`, as `attach_container` does, and keeps what the
/// container itself holds: its children, and for a window its placement and
/// whether it waits for rescaling.
pub fn move_container_within_tree(
    container: usize,
    target_parent: usize,
    target_index: usize,
    state: &mut WmState,
) -> (r: Result<(), WmError>)
    requires
        old(state)@.wf(),
    ensures
        final(state)@.wf(),
        match r {
            Ok(()) => old(state)@.tree.can_attach(container, target_parent, target_index as int)
                && final(state)@ == old(state)@.with_tree(
                old(state)@.tree.attach(container, target_parent, target_index as int),
            ),
            Err(e) => e == WmError::InvalidAttach && !old(state)@.tree.can_attach(
                container,
                target_parent,
                target_index as int,
            ) && final(state)@ == old(state)@,
        },
        r is Ok ==> final(state)@.tree.nodes[container as int].payload == old(state)@.tree.nodes[container as int].payload && final(state)@.tree.children(container) == old(state)@.tree.children(container),
{
    proof {
        let tree = old(state)@.tree;
        if tree.can_attach(container, target_parent, target_index as int) {
            if tree.parent(container) is Some {
                tree.lemma_parent_differs(container);
            }
        }
    }
    state.tree.attach(container, target_parent, target_index)
}

/// Takes `child` out of its parent's children; a monitor that showed it
/// shows nothing afterwards. Fails with `ContainerNotFound`, and changes
/// nothing, where `child` is not alive.
pub fn detach_container(child: usize, state: &mut WmState) -> (r: Result<(), WmError>)
    requires
        old(state)@.wf(),
    ensures
        final(state)@.wf(),
        match r {
            Ok(()) => old(state)@.tree.alive(child) && final(state)@ == old(state)@.with_tree(
                old(state)@.tree.detach(child),
            ),
            Err(e) => e == WmError::ContainerNotFound && !old(state)@.tree.alive(child) && final(state)@ == old(state)@,
        },
{
    if !state.tree.is_alive(child) {
        return Err(WmError::ContainerNotFound);
    }
    state.tree.detach(child);
    Ok(())
}

impl WmState {
    /// Ends a command: hands out the effects that are to be applied, and
    /// leaves the queue empty. After a command that succeeded these are the
    /// queued effects; after one that failed there are none, and what was
    /// queued is dropped.
    pub fn finish_command(&mut self, succeeded: bool) -> (r: PendingSync)
        ensures
            r@ == if succeeded {
                old(self)@.pending
            } else {
                PendingSyncView::empty()
            },
            final(self)@ == (WmStateView { pending: PendingSyncView::empty(), ..old(self)@ }),
    {
        let queued = self.pending_sync.drain();
        if succeeded {
            queued
        } else {
            PendingSync::new()
        }
    }
}

} // verus!
