//! The effects that a command leaves for the platform layer: which
//! containers to redraw, in the order in which they were first named, and
//! whether to move the cursor to the focused container.

use vstd::prelude::*;

verus! {

/// The view of the queue.
pub struct PendingSyncView {
    /// The containers to redraw, each once, in the order of first queuing.
    pub redraw: Seq<usize>,
    /// Whether a cursor jump is queued.
    pub cursor_jump: bool,
}

impl PendingSyncView {
    /// The queue that holds nothing.
    pub open spec fn empty() -> PendingSyncView {
        PendingSyncView { redraw: Seq::empty(), cursor_jump: false }
    }

    /// The queue after a request to redraw `id`: `id` is added at the end
    /// unless it is queued already.
    pub open spec fn queue_redraw(self, id: usize) -> PendingSyncView {
        if self.redraw.contains(id) {
            self
        } else {
            PendingSyncView { redraw: self.redraw.push(id), ..self }
        }
    }

    /// The queue after a request to move the cursor.
    pub open spec fn queue_cursor_jump(self) -> PendingSyncView {
        PendingSyncView { cursor_jump: true, ..self }
    }

    /// No container is queued twice.
    pub open spec fn wf(self) -> bool {
        self.redraw.no_duplicates()
    }

    /// Queuing keeps the queue free of repetitions.
    pub proof fn lemma_queue_redraw_wf(self, id: usize)
        requires
            self.wf(),
        ensures
            self.queue_redraw(id).wf(),
            self.queue_redraw(id).redraw.contains(id),
    {
        if !self.redraw.contains(id) {
            crate::seq_util::lemma_insert_no_dup(self.redraw, self.redraw.len() as int, id);
            crate::seq_util::lemma_insert_at_end(self.redraw, id);
        }
    }

    /// Queuing a container a second time changes nothing.
    pub proof fn lemma_queue_redraw_idempotent(self, id: usize)
        ensures
            self.queue_redraw(id).queue_redraw(id) == self.queue_redraw(id),
            self.queue_cursor_jump().queue_cursor_jump() == self.queue_cursor_jump(),
    {
        if !self.redraw.contains(id) {
            assert(self.redraw.push(id)[self.redraw.len() as int] == id);
        }
    }

    /// Queuing keeps what is queued, in its order, and puts a new container
    /// behind all the others.
    pub proof fn lemma_queue_redraw_keeps_order(self, id: usize)
        ensures
            self.redraw.is_prefix_of(self.queue_redraw(id).redraw),
            !self.redraw.contains(id) ==> self.queue_redraw(id).redraw.last() == id,
    {
    }
}

/// The queue of pending effects.
#[derive(Debug)]
pub struct PendingSync {
    containers_to_redraw: Vec<usize>,
    cursor_jump: bool,
}

impl View for PendingSync {
    type V = PendingSyncView;

    closed spec fn view(&self) -> PendingSyncView {
        PendingSyncView { redraw: self.containers_to_redraw@, cursor_jump: self.cursor_jump }
    }
}

impl PendingSync {
    /// A queue that holds nothing.
    pub fn new() -> (r: PendingSync)
        ensures
            r@ == PendingSyncView::empty(),
            r@.wf(),
    {
        PendingSync { containers_to_redraw: Vec::new(), cursor_jump: false }
    }

    /// Asks for the cursor to be moved to the focused container.
    pub fn queue_cursor_jump(&mut self)
        ensures
            final(self)@ == old(self)@.queue_cursor_jump(),
    {
        self.cursor_jump = true;
    }

    /// Asks for the container `id` to be redrawn. A container that is queued
    /// already keeps its place.
    pub fn queue_container_to_redraw(&mut self, id: usize)
        ensures
            final(self)@ == old(self)@.queue_redraw(id),
            old(self)@.wf() ==> final(self)@.wf(),
    {
        proof {
            if old(self)@.wf() {
                old(self)@.lemma_queue_redraw_wf(id);
            }
        }
        let n = self.containers_to_redraw.len();
        let mut i: usize = 0;
        while i < n
            invariant
                n == self.containers_to_redraw.len(),
                i <= n,
                forall|j: int| 0 <= j < i ==> self.containers_to_redraw[j] != id,
            decreases n - i,
        {
            if self.containers_to_redraw[i] == id {
                return ;
            }
            i += 1;
        }
        self.containers_to_redraw.push(id);
    }

    /// The containers to redraw, in the order of first queuing.
    pub fn containers_to_redraw(&self) -> (r: &Vec<usize>)
        ensures
            r@ == self@.redraw,
    {
        &self.containers_to_redraw
    }

    /// Whether a cursor jump is queued.
    pub fn has_cursor_jump(&self) -> (r: bool)
        ensures
            r == self@.cursor_jump,
    {
        self.cursor_jump
    }

    /// Whether nothing is queued.
    pub fn is_empty(&self) -> (r: bool)
        ensures
            r == (self@.redraw.len() == 0 && !self@.cursor_jump),
    {
        self.containers_to_redraw.len() == 0 && !self.cursor_jump
    }

    /// Hands out what is queued and leaves the queue empty.
    pub fn drain(&mut self) -> (r: PendingSync)
        ensures
            r@ == old(self)@,
            final(self)@ == PendingSyncView::empty(),
    {
        let mut taken: Vec<usize> = Vec::new();
        std::mem::swap(&mut taken, &mut self.containers_to_redraw);
        let jump = self.cursor_jump;
        self.cursor_jump = false;
        PendingSync { containers_to_redraw: taken, cursor_jump: jump }
    }

    /// Drops what is queued.
    pub fn clear(&mut self)
        ensures
            final(self)@ == PendingSyncView::empty(),
    {
        self.containers_to_redraw = Vec::new();
        self.cursor_jump = false;
    }
}

} // verus!
