//! Per-process runtime state: set once by bootstrap, read-only thereafter,
//! plus the registry of live channel endpoints that enforces the
//! at-most-one-endpoint-per-peer-and-direction rule.

use vstd::prelude::*;
use crate::pid::Pid;
use crate::resources::{Cpu, Mem, Resources};

verus! {

/// No pid occurs twice.
pub open spec fn nodup_pids(s: Seq<Pid>) -> bool {
    forall|i: int, j: int| 0 <= i < j < s.len() ==> s[i] != s[j]
}

/// What bootstrap establishes for one process.
pub struct ProcessState {
    /// This process's own identity.
    pub pid: Pid,
    /// The bridge process aggregating this run's output.
    pub bridge: Pid,
    /// The resource limits this process was spawned with.
    pub resources: Resources,
    /// Whether a fabric scheduler places processes, rather than fork/exec.
    pub deployed: bool,
    /// Peers toward which a live `Sender` exists.
    pub senders: Vec<Pid>,
    /// Peers toward which a live `Receiver` exists.
    pub receivers: Vec<Pid>,
}

/// The per-process runtime. Before bootstrap it holds nothing; bootstrap
/// fills it exactly once.
pub struct Runtime {
    /// Whether bootstrap has completed.
    pub inited: bool,
    /// The state bootstrap established; meaningful only once `inited`.
    pub st: ProcessState,
}

impl Runtime {
    /// Has bootstrap completed?
    pub open spec fn initialized(self) -> bool {
        self.inited
    }

    /// Each endpoint registry names a peer at most once.
    pub open spec fn wf(self) -> bool {
        nodup_pids(self.st.senders@) && nodup_pids(self.st.receivers@)
    }

    /// Two runtimes carry the same observable state.
    pub open spec fn same_state(self, other: Runtime) -> bool {
        &&& self.inited == other.inited
        &&& self.st.pid == other.st.pid
        &&& self.st.bridge == other.st.bridge
        &&& self.st.resources == other.st.resources
        &&& self.st.deployed == other.st.deployed
        &&& self.st.senders@ == other.st.senders@
        &&& self.st.receivers@ == other.st.receivers@
    }

    /// The runtime of a process that has not bootstrapped.
    pub fn new_uninit() -> (r: Runtime)
        ensures
            !r.initialized(),
            r.wf(),
    {
        Runtime {
            inited: false,
            st: ProcessState {
                pid: Pid { ip: 0, port: 0 },
                bridge: Pid { ip: 0, port: 0 },
                resources: Resources { mem: Mem(0), cpu: Cpu(0) },
                deployed: false,
                senders: Vec::new(),
                receivers: Vec::new(),
            },
        }
    }

    /// Install the state bootstrap determined. Rejected when bootstrap
    /// already ran: the runtime is write-once.
    pub fn bootstrap(&mut self, pid: Pid, bridge: Pid, resources: Resources, deployed: bool) -> (r:
        bool)
        requires
            old(self).wf(),
        ensures
            final(self).wf(),
            r == !old(self).initialized(),
            !old(self).initialized() ==> {
                &&& final(self).initialized()
                &&& final(self).st.pid == pid
                &&& final(self).st.bridge == bridge
                &&& final(self).st.resources == resources
                &&& final(self).st.deployed == deployed
                &&& final(self).st.senders@ == Seq::<Pid>::empty()
                &&& final(self).st.receivers@ == Seq::<Pid>::empty()
            },
            old(self).initialized() ==> final(self).same_state(*old(self)),
    {
        if self.inited {
            return false;
        }
        self.inited = true;
        self.st = ProcessState {
            pid,
            bridge,
            resources,
            deployed,
            senders: Vec::new(),
            receivers: Vec::new(),
        };
        true
    }

    /// This process's pid; nothing before bootstrap, so a call ahead of
    /// `init` is rejected rather than answered.
    pub fn pid(&self) -> (r: Option<Pid>)
        ensures
            self.initialized() ==> r == Some(self.st.pid),
            !self.initialized() ==> r is None,
    {
        if self.inited {
            Some(self.st.pid)
        } else {
            None
        }
    }

    /// The resource limits of this process; nothing before bootstrap.
    pub fn resources(&self) -> (r: Option<Resources>)
        ensures
            self.initialized() ==> r == Some(self.st.resources),
            !self.initialized() ==> r is None,
    {
        if self.inited {
            Some(self.st.resources)
        } else {
            None
        }
    }

    /// The bridge's pid; nothing before bootstrap.
    pub fn bridge(&self) -> (r: Option<Pid>)
        ensures
            self.initialized() ==> r == Some(self.st.bridge),
            !self.initialized() ==> r is None,
    {
        if self.inited {
            Some(self.st.bridge)
        } else {
            None
        }
    }

    /// Whether this run is placed by a fabric scheduler; nothing before
    /// bootstrap.
    pub fn deployed(&self) -> (r: Option<bool>)
        ensures
            self.initialized() ==> r == Some(self.st.deployed),
            !self.initialized() ==> r is None,
    {
        if self.inited {
            Some(self.st.deployed)
        } else {
            None
        }
    }
}

/// Does the vector name this pid?
pub fn pids_contain(v: &Vec<Pid>, p: &Pid) -> (r: bool)
    ensures
        r == v@.contains(*p),
{
    let mut i: usize = 0;
    while i < v.len()
        invariant
            i <= v@.len(),
            forall|k: int| 0 <= k < i ==> v@[k] != *p,
        decreases v@.len() - i,
    {
        if v[i].ip == p.ip && v[i].port == p.port {
            return true;
        }
        i = i + 1;
    }
    false
}

/// Remove the one occurrence of p, if any.
pub fn pids_remove(v: &mut Vec<Pid>, p: &Pid)
    requires
        nodup_pids(old(v)@),
    ensures
        nodup_pids(final(v)@),
        forall|q: Pid| final(v)@.contains(q) <==> (old(v)@.contains(q) && q != *p),
{
    let mut i: usize = 0;
    while i < v.len()
        invariant
            i <= v@.len(),
            v@ == old(v)@,
            nodup_pids(v@),
            forall|k: int| 0 <= k < i ==> v@[k] != *p,
        decreases v@.len() - i,
    {
        if v[i].ip == p.ip && v[i].port == p.port {
            let ghost pre = v@;
            let _ = v.remove(i);
            proof {
                assert(v@ =~= pre.subrange(0, i as int) + pre.subrange(
                    i + 1,
                    pre.len() as int,
                ));
                assert forall|q: Pid| v@.contains(q) implies (pre.contains(q) && q != *p) by {
                    let k = choose|k: int| 0 <= k < v@.len() && v@[k] == q;
                    if k < i {
                        assert(pre[k] == q);
                    } else {
                        assert(pre[k + 1] == q);
                    }
                }
                assert forall|q: Pid| pre.contains(q) && q != *p implies v@.contains(q) by {
                    let k = choose|k: int| 0 <= k < pre.len() && pre[k] == q;
                    if k < i {
                        assert(v@[k] == q);
                    } else if k > i {
                        assert(v@[k - 1] == q);
                    }
                }
                assert forall|a: int, b: int| 0 <= a < b < v@.len() implies v@[a] != v@[b] by {
                    if b < i {
                    } else if a < i {
                        assert(v@[b] == pre[b + 1]);
                    } else {
                        assert(v@[a] == pre[a + 1] && v@[b] == pre[b + 1]);
                    }
                }
            }
            return ;
        }
        i = i + 1;
    }
    proof {
        assert forall|q: Pid| v@.contains(q) implies (old(v)@.contains(q) && q != *p) by {}
    }
}

} // verus!
