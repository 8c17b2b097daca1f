//! The bridge: the topmost process of a native run. It holds a channel
//! pair to every live worker, turns each worker event into one output
//! event, folds exit statuses into the run's single exit status, and is
//! done when the last worker is gone.

use vstd::prelude::*;
use crate::events::{poe_view, OutputEventModel, ProcessOutputEvent};
use crate::pid::Pid;
use crate::runtime::nodup_pids;
use crate::status::{spec_combine, ExitStatus};

verus! {

/// One line of the run's output: an event, attributed to the worker whose
/// monitor reported it.
#[derive(Clone, Debug)]
pub enum DeployOutputEvent {
    /// The first pid's process spawned the second.
    Spawn(Pid, Pid),
    /// The process wrote these bytes to this standard stream.
    Output(Pid, i32, Vec<u8>),
    /// The process exited with this status.
    Exit(Pid, ExitStatus),
}

/// The bridge's state: the live workers and the running exit aggregate.
pub struct Bridge {
    /// Workers with a live channel pair, each at most once.
    pub workers: Vec<Pid>,
    /// The fold of every exited worker's status: success only while all
    /// succeeded, else the first non-success.
    pub agg: ExitStatus,
}

impl Bridge {
    /// No worker is tracked twice.
    pub open spec fn wf(self) -> bool {
        nodup_pids(self.workers@)
    }

    /// A bridge over one initial worker, with a clean aggregate.
    pub fn new(first: Pid) -> (r: Bridge)
        ensures
            r.wf(),
            r.workers@ == seq![first],
            r.agg == ExitStatus::Success,
    {
        let mut workers: Vec<Pid> = Vec::new();
        workers.push(first);
        proof {
            assert(workers@ =~= seq![first]);
        }
        Bridge { workers, agg: ExitStatus::Success }
    }

    /// Is this pid a live worker?
    pub fn knows(&self, p: &Pid) -> (r: bool)
        ensures
            r == self.workers@.contains(*p),
    {
        crate::runtime::pids_contain(&self.workers, p)
    }

    /// Fold one event from the worker `from` into the state, and name the
    /// output event to emit: a spawn registers the new worker — the
    /// returned pid asks for a channel pair toward it — an exit folds the
    /// status into the aggregate and forgets the worker, and output
    /// passes through.
    pub fn step(&mut self, from: Pid, ev: ProcessOutputEvent) -> (r: (DeployOutputEvent, Option<
        Pid,
    >))
        requires
            old(self).wf(),
        ensures
            final(self).wf(),
            match poe_view(ev) {
                OutputEventModel::Spawn(new) => {
                    &&& r.0 matches DeployOutputEvent::Spawn(a, b) && a == from && b == new
                    &&& final(self).agg == old(self).agg
                    &&& if old(self).workers@.contains(new) {
                        r.1 is None && final(self).workers@ == old(self).workers@
                    } else {
                        r.1 == Some(new) && final(self).workers@ == old(self).workers@.push(new)
                    }
                },
                OutputEventModel::Output(fd, bytes) => {
                    &&& r.0 matches DeployOutputEvent::Output(a, f, b) && a == from && f as int
                        == fd && b@ == bytes
                    &&& r.1 is None
                    &&& final(self).workers@ == old(self).workers@
                    &&& final(self).agg == old(self).agg
                },
                OutputEventModel::Exit(status) => {
                    &&& r.0 matches DeployOutputEvent::Exit(a, s) && a == from && s == status
                    &&& r.1 is None
                    &&& final(self).agg == spec_combine(old(self).agg, status)
                    &&& forall|q: Pid| final(self).workers@.contains(q) <==> (old(
                        self,
                    ).workers@.contains(q) && q != from)
                },
            },
    {
        match ev {
            ProcessOutputEvent::Spawn(new) => {
                if crate::runtime::pids_contain(&self.workers, &new) {
                    (DeployOutputEvent::Spawn(from, new), None)
                } else {
                    self.workers.push(new);
                    proof {
                        let n = self.workers@.len() - 1;
                        assert forall|i: int, j: int|
                            0 <= i < j < self.workers@.len() implies self.workers@[i]
                            != self.workers@[j] by {
                            if j == n {
                                assert(old(self).workers@.contains(old(self).workers@[i]));
                            }
                        }
                    }
                    (DeployOutputEvent::Spawn(from, new), Some(new))
                }
            },
            ProcessOutputEvent::Output(fd, bytes) => {
                (DeployOutputEvent::Output(from, fd, bytes), None)
            },
            ProcessOutputEvent::Exit(status) => {
                crate::runtime::pids_remove(&mut self.workers, &from);
                self.agg = self.agg.combine(status);
                (DeployOutputEvent::Exit(from, status), None)
            },
        }
    }

    /// Is the run over — no live worker left?
    pub fn done(&self) -> (r: bool)
        ensures
            r == (self.workers@.len() == 0),
    {
        self.workers.len() == 0
    }

    /// The exit code the bridge process leaves with: the aggregate's.
    pub fn exit_code(&self) -> (r: i32)
        ensures
            self.agg is Success ==> r == 0,
            forall|c: u8| self.agg == ExitStatus::Code(c) ==> r == c as int,
            forall|s: u8| self.agg == ExitStatus::Signaled(s) ==> r == 128 + s as int,
    {
        self.agg.exit_code()
    }
}

/// A run in which any worker exits non-successfully ends with that worker's
/// status in the aggregate, never success: the final exit code of a run
/// with a crashed or killed child is nonzero.
pub proof fn lemma_failure_is_never_forgotten(agg: ExitStatus, status: ExitStatus)
    requires
        !(status is Success),
    ensures
        !(spec_combine(agg, status) is Success),
{
}

} // verus!
