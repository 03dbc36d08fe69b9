//! The registry of running helper programs, and the decisions on starting
//! and stopping them. The registry holds process ids; whoever owns the
//! processes spawns, probes and terminates them and reports back.

use vstd::prelude::*;
use crate::embedded::{lowercase_of, BuiltinError, BuiltinProgram, EmbeddedBinaries};

verus! {

/// What a probe of a child process found.
#[derive(Debug, Clone, Copy, PartialEq, Eq, Structural)]
pub enum ChildStatus {
    /// The process has not exited.
    Running,
    /// The process has exited.
    Exited,
    /// The probe failed.
    Unknown,
}

/// A helper program that the registry holds as running.
#[derive(Debug, Clone, Copy)]
pub struct TrackedProcess {
    pub program: BuiltinProgram,
    pub pid: u32,
}

/// What is to be done for a request to start a program.
#[derive(Debug, Clone, Copy, PartialEq, Eq, Structural)]
pub enum StartAction {
    /// The program runs already: nothing is to be done.
    AlreadyRunning,
    /// The executable is to be put on disk and spawned, and the process id
    /// reported with `record_started`.
    Spawn,
}

/// What is to be done for a request to stop a program.
#[derive(Debug, Clone, Copy, PartialEq, Eq, Structural)]
pub enum StopAction {
    /// The program does not run: nothing is to be done.
    NotRunning,
    /// The process with this id, and its descendants, are to be terminated.
    Terminate(u32),
}

/// One line of a snapshot of the system's processes.
#[derive(Debug, Clone, Copy)]
pub struct ProcessEntry {
    pub pid: u32,
    pub parent_pid: u32,
}

/// The ids of the processes of `entries` whose parent is `pid`, in the
/// order of the snapshot.
pub open spec fn children_of(entries: Seq<ProcessEntry>, pid: u32) -> Seq<u32>
    decreases entries.len(),
{
    if entries.len() == 0 {
        Seq::empty()
    } else if entries.last().parent_pid == pid {
        children_of(entries.drop_last(), pid).push(entries.last().pid)
    } else {
        children_of(entries.drop_last(), pid)
    }
}

/// The ids of the processes of the snapshot whose parent is `pid`, in the
/// order of the snapshot.
pub fn child_pids(snapshot: &Vec<ProcessEntry>, pid: u32) -> (r: Vec<u32>)
    ensures
        r@ == children_of(snapshot@, pid),
{
    let mut found: Vec<u32> = Vec::new();
    let n = snapshot.len();
    let mut i: usize = 0;
    while i < n
        invariant
            n == snapshot.len(),
            i <= n,
            found@ == children_of(snapshot@.take(i as int), pid),
        decreases n - i,
    {
        proof {
            assert(snapshot@.take(i as int + 1).drop_last() =~= snapshot@.take(i as int));
        }
        if snapshot[i].parent_pid == pid {
            found.push(snapshot[i].pid);
        }
        i += 1;
    }
    proof {
        assert(snapshot@.take(n as int) =~= snapshot@);
    }
    found
}

/// The registry of running helper programs: at most one process for each
/// program.
#[derive(Debug)]
pub struct ProcessManager {
    processes: Vec<TrackedProcess>,
}

/// Whether `i` is a position of `entries` that holds `program`.
pub open spec fn holds_at(entries: Seq<TrackedProcess>, program: BuiltinProgram, i: int) -> bool {
    0 <= i < entries.len() && entries[i].program == program
}

/// The map from program to process id that a list without repeated
/// programs stands for.
pub open spec fn as_map(entries: Seq<TrackedProcess>) -> Map<BuiltinProgram, u32> {
    Map::new(
        |p: BuiltinProgram| exists|i: int| holds_at(entries, p, i),
        |p: BuiltinProgram| entries[choose|i: int| holds_at(entries, p, i)].pid,
    )
}

/// No program stands twice in `entries`.
pub open spec fn distinct_programs(entries: Seq<TrackedProcess>) -> bool {
    forall|i: int, j: int|
        0 <= i < entries.len() && 0 <= j < entries.len() && i != j ==> entries[i].program
            != entries[j].program
}

/// What a request to start `program` leads to, given the registry
/// `running` and what a probe of the program's process found.
pub open spec fn start_outcome(
    running: Map<BuiltinProgram, u32>,
    program: BuiltinProgram,
    status: ChildStatus,
    embedded: &EmbeddedBinaries,
) -> Result<StartAction, BuiltinError> {
    if running.dom().contains(program) && status == ChildStatus::Running {
        Ok(StartAction::AlreadyRunning)
    } else if program.spec_binary_data(embedded).len() == 0 {
        Err(BuiltinError::NotAvailable)
    } else {
        Ok(StartAction::Spawn)
    }
}

/// The registry after a probe of the process of `program`: the program
/// stays where it runs, and leaves otherwise.
pub open spec fn after_probe(
    running: Map<BuiltinProgram, u32>,
    program: BuiltinProgram,
    status: ChildStatus,
) -> Map<BuiltinProgram, u32> {
    if running.dom().contains(program) && status == ChildStatus::Running {
        running
    } else {
        running.remove(program)
    }
}

/// What a request to stop `program` leads to.
pub open spec fn stop_outcome(running: Map<BuiltinProgram, u32>, program: BuiltinProgram)
    -> StopAction {
    if running.dom().contains(program) {
        StopAction::Terminate(running[program])
    } else {
        StopAction::NotRunning
    }
}

/// Stopping a program that does not run changes nothing, and so does
/// starting one that runs: a second stop after a stop finds nothing to
/// terminate.
pub proof fn lemma_start_and_stop_are_idempotent(
    running: Map<BuiltinProgram, u32>,
    program: BuiltinProgram,
    embedded: &EmbeddedBinaries,
)
    ensures
        stop_outcome(running.remove(program), program) == StopAction::NotRunning,
        running.remove(program).remove(program) == running.remove(program),
        !running.dom().contains(program) ==> running.remove(program) == running,
        running.dom().contains(program) ==> start_outcome(
            running,
            program,
            ChildStatus::Running,
            embedded,
        ) == Ok::<StartAction, BuiltinError>(StartAction::AlreadyRunning) && after_probe(
            running,
            program,
            ChildStatus::Running,
        ) == running,
{
    assert(running.remove(program).remove(program) =~= running.remove(program));
    if !running.dom().contains(program) {
        assert(running.remove(program) =~= running);
    }
}

impl ProcessManager {
    /// No program is held twice.
    pub closed spec fn wf(&self) -> bool {
        distinct_programs(self.processes@)
    }

    /// The running programs with their process ids.
    pub closed spec fn view(&self) -> Map<BuiltinProgram, u32> {
        as_map(self.processes@)
    }

    /// A registry that holds nothing.
    pub fn new() -> (r: ProcessManager)
        ensures
            r.wf(),
            r@ == Map::<BuiltinProgram, u32>::empty(),
    {
        let r = ProcessManager { processes: Vec::new() };
        assert(r@ =~= Map::<BuiltinProgram, u32>::empty());
        r
    }

    /// The position of `program` in the list, or its length.
    fn find(&self, program: BuiltinProgram) -> (k: usize)
        requires
            self.wf(),
        ensures
            k <= self.processes.len(),
            k < self.processes.len() ==> self.processes[k as int].program == program
                && self@.dom().contains(program) && self@[program]
                == self.processes[k as int].pid,
            k == self.processes.len() ==> !self@.dom().contains(program),
    {
        let n = self.processes.len();
        let mut k: usize = 0;
        while k < n
            invariant
                self.wf(),
                n == self.processes.len(),
                k <= n,
                forall|j: int| 0 <= j < k ==> self.processes[j].program != program,
            decreases n - k,
        {
            if self.processes[k].program == program {
                proof {
                    assert(holds_at(self.processes@, program, k as int));
                    let c = choose|i: int| holds_at(self.processes@, program, i);
                    assert(c == k);
                }
                return k;
            }
            k += 1;
        }
        proof {
            assert forall|i: int| !holds_at(self.processes@, program, i) by {}
        }
        k
    }

    /// The process id under which `program` is held as running.
    pub fn pid_of(&self, program: BuiltinProgram) -> (r: Option<u32>)
        requires
            self.wf(),
        ensures
            r == if self@.dom().contains(program) {
                Some(self@[program])
            } else {
                None
            },
    {
        let k = self.find(program);
        if k < self.processes.len() {
            Some(self.processes[k].pid)
        } else {
            None
        }
    }

    /// Takes `program` out of the registry and returns its process id.
    fn forget(&mut self, program: BuiltinProgram) -> (r: Option<u32>)
        requires
            old(self).wf(),
        ensures
            final(self).wf(),
            final(self)@ == old(self)@.remove(program),
            r == if old(self)@.dom().contains(program) {
                Some(old(self)@[program])
            } else {
                None
            },
    {
        let k = self.find(program);
        if k < self.processes.len() {
            let ghost before = self.processes@;
            let gone = self.processes.remove(k);
            proof {
                let after = self.processes@;
                assert forall|i: int, j: int|
                    0 <= i < after.len() && 0 <= j < after.len() && i != j implies after[i].program
                    != after[j].program by {
                    let ii = if i < k { i } else { i + 1 };
                    let jj = if j < k { j } else { j + 1 };
                    assert(after[i] == before[ii] && after[j] == before[jj]);
                }
                assert forall|p: BuiltinProgram|
                    as_map(after).dom().contains(p) <==> as_map(before).remove(
                        program,
                    ).dom().contains(p) by {
                    if as_map(after).dom().contains(p) {
                        let i = choose|i: int| holds_at(after, p, i);
                        let ii = if i < k { i } else { i + 1 };
                        assert(holds_at(before, p, ii));
                    }
                    if as_map(before).remove(program).dom().contains(p) {
                        let i = choose|i: int| holds_at(before, p, i);
                        let ii = if i < k { i } else { i - 1 };
                        assert(holds_at(after, p, ii));
                    }
                }
                assert forall|p: BuiltinProgram| as_map(after).dom().contains(p) implies as_map(
                    after,
                )[p] == as_map(before).remove(program)[p] by {
                    let i = choose|i: int| holds_at(after, p, i);
                    let ii = if i < k { i } else { i + 1 };
                    assert(holds_at(before, p, ii));
                    let c = choose|c: int| holds_at(before, p, c);
                    assert(c == ii);
                }
                assert(as_map(after) =~= as_map(before).remove(program));
            }
            Some(gone.pid)
        } else {
            assert(self@ =~= old(self)@.remove(program));
            None
        }
    }

    /// Whether `program` runs, given what a probe of its process found. A
    /// program whose process has exited, or could not be probed, leaves the
    /// registry. For a program that the registry does not hold, `status` is
    /// not looked at.
    pub fn is_running(&mut self, program: BuiltinProgram, status: ChildStatus) -> (r: bool)
        requires
            old(self).wf(),
        ensures
            final(self).wf(),
            r == (old(self)@.dom().contains(program) && status == ChildStatus::Running),
            final(self)@ == after_probe(old(self)@, program, status),
    {
        let held = self.pid_of(program);
        match held {
            None => {
                assert(self@ =~= old(self)@.remove(program));
                false
            },
            Some(_) => match status {
                ChildStatus::Running => true,
                _ => {
                    self.forget(program);
                    false
                },
            },
        }
    }

    /// Decides what a request to start `program` leads to: nothing, where
    /// it runs already; else the error `NotAvailable`, where its executable
    /// was not embedded; else a spawn. `status` is what a probe of the
    /// process found that the registry holds for the program.
    pub fn start(
        &mut self,
        program: BuiltinProgram,
        status: ChildStatus,
        embedded: &EmbeddedBinaries,
    ) -> (r: Result<StartAction, BuiltinError>)
        requires
            old(self).wf(),
        ensures
            final(self).wf(),
            r == start_outcome(old(self)@, program, status, embedded),
            final(self)@ == after_probe(old(self)@, program, status),
    {
        if self.is_running(program, status) {
            return Ok(StartAction::AlreadyRunning);
        }
        if !program.is_available(embedded) {
            return Err(BuiltinError::NotAvailable);
        }
        Ok(StartAction::Spawn)
    }

    /// Records that `program` was spawned with the process id `pid`.
    pub fn record_started(&mut self, program: BuiltinProgram, pid: u32)
        requires
            old(self).wf(),
        ensures
            final(self).wf(),
            final(self)@ == old(self)@.insert(program, pid),
    {
        self.forget(program);
        let ghost before = self.processes@;
        assert(!as_map(before).dom().contains(program));
        assert forall|i: int| 0 <= i < before.len() implies before[i].program != program by {
            if before[i].program == program {
                assert(holds_at(before, program, i));
            }
        }
        self.processes.push(TrackedProcess { program, pid });
        proof {
            let after = self.processes@;
            let last = before.len() as int;
            assert(after[last].program == program);
            assert forall|p: BuiltinProgram|
                as_map(after).dom().contains(p) <==> as_map(before).insert(
                    program,
                    pid,
                ).dom().contains(p) by {
                if as_map(after).dom().contains(p) {
                    let i = choose|i: int| holds_at(after, p, i);
                    if i < last {
                        assert(holds_at(before, p, i));
                    }
                }
                if as_map(before).dom().contains(p) {
                    let i = choose|i: int| holds_at(before, p, i);
                    assert(holds_at(after, p, i));
                }
                if p == program {
                    assert(holds_at(after, p, last));
                }
            }
            assert forall|p: BuiltinProgram| as_map(after).dom().contains(p) implies as_map(
                after,
            )[p] == as_map(before).insert(program, pid)[p] by {
                let i = choose|i: int| holds_at(after, p, i);
                if p == program {
                    assert(i == last);
                } else {
                    assert(holds_at(before, p, i));
                    let c = choose|c: int| holds_at(before, p, c);
                    assert(c == i);
                }
            }
            assert(as_map(after) =~= as_map(before).insert(program, pid));
            assert(old(self)@.remove(program).insert(program, pid) =~= old(self)@.insert(
                program,
                pid,
            ));
        }
    }

    /// Decides what a request to stop `program` leads to, and takes the
    /// program out of the registry.
    pub fn stop(&mut self, program: BuiltinProgram) -> (r: StopAction)
        requires
            old(self).wf(),
        ensures
            final(self).wf(),
            r == stop_outcome(old(self)@, program),
            final(self)@ == old(self)@.remove(program),
    {
        match self.forget(program) {
            Some(pid) => StopAction::Terminate(pid),
            None => StopAction::NotRunning,
        }
    }

    /// Empties the registry and returns what it held: the processes to
    /// terminate, each program once.
    pub fn stop_all(&mut self) -> (r: Vec<TrackedProcess>)
        requires
            old(self).wf(),
        ensures
            final(self).wf(),
            final(self)@ == Map::<BuiltinProgram, u32>::empty(),
            as_map(r@) == old(self)@,
            distinct_programs(r@),
    {
        let mut taken: Vec<TrackedProcess> = Vec::new();
        std::mem::swap(&mut taken, &mut self.processes);
        assert(self@ =~= Map::<BuiltinProgram, u32>::empty());
        taken
    }
}

/// Decides what a request to start the program with the name `name` leads
/// to. Fails with `UnknownProgram` where the name, in lowercase, is not that
/// of a helper program, and leaves the registry as it is; otherwise as
/// `ProcessManager::start` does.
pub fn start_builtin(
    name: &str,
    manager: &mut ProcessManager,
    status: ChildStatus,
    embedded: &EmbeddedBinaries,
) -> (r: Result<StartAction, BuiltinError>)
    requires
        old(manager).wf(),
    ensures
        final(manager).wf(),
        match BuiltinProgram::named(lowercase_of(name@)) {
            None => r == Err::<StartAction, BuiltinError>(BuiltinError::UnknownProgram)
                && final(manager)@ == old(manager)@,
            Some(program) => r == start_outcome(old(manager)@, program, status, embedded)
                && final(manager)@ == after_probe(old(manager)@, program, status),
        },
{
    match BuiltinProgram::from_str(name) {
        None => Err(BuiltinError::UnknownProgram),
        Some(program) => manager.start(program, status, embedded),
    }
}

/// Decides what a request to stop the program with the name `name` leads
/// to. Fails with `UnknownProgram` where the name, in lowercase, is not that
/// of a helper program, and leaves the registry as it is; otherwise as
/// `ProcessManager::stop` does.
pub fn stop_builtin(name: &str, manager: &mut ProcessManager) -> (r: Result<
    StopAction,
    BuiltinError,
>)
    requires
        old(manager).wf(),
    ensures
        final(manager).wf(),
        match BuiltinProgram::named(lowercase_of(name@)) {
            None => r == Err::<StopAction, BuiltinError>(BuiltinError::UnknownProgram)
                && final(manager)@ == old(manager)@,
            Some(program) => r == Ok::<StopAction, BuiltinError>(
                stop_outcome(old(manager)@, program),
            ) && final(manager)@ == old(manager)@.remove(program),
        },
{
    match BuiltinProgram::from_str(name) {
        None => Err(BuiltinError::UnknownProgram),
        Some(program) => Ok(manager.stop(program)),
    }
}

/// Empties the registry and returns the processes to terminate.
pub fn stop_all_builtins(manager: &mut ProcessManager) -> (r: Vec<TrackedProcess>)
    requires
        old(manager).wf(),
    ensures
        final(manager).wf(),
        final(manager)@ == Map::<BuiltinProgram, u32>::empty(),
        as_map(r@) == old(manager)@,
        distinct_programs(r@),
{
    manager.stop_all()
}

} // verus!
