//! Bootstrap: the decisions `init` takes, exactly once, first thing in a
//! process's life. Reading the environment, binding sockets, moving file
//! descriptors and forking happen outside; here the settings those steps
//! hand in are turned into the process's role and plan, and the argument
//! blob of a spawned process is read back.
//!
//! The well-known descriptor numbers are the contract between a parent
//! and the child it spawns: any change breaks every running fabric.

use vstd::prelude::*;
use crate::pid::Pid;
use crate::resources::Resources;
use crate::spawn::{dec_spawn_arg, spawn_arg_dec, SpawnArg};

verus! {

/// The listener a spawned process inherits.
pub const LISTENER_FD: i32 = 3;

/// The argument blob a spawned process inherits, before exec.
pub const ARG_FD: i32 = 4;

/// The scheduler connection in deployed mode; a placeholder otherwise.
pub const SCHEDULER_FD: i32 = 4;

/// The pipe toward this process's monitor.
pub const MONITOR_FD: i32 = 5;

/// How the bridge renders events.
#[derive(Clone, Copy, PartialEq, Eq, Structural, Hash, Debug)]
pub enum Format {
    /// One readable line per event.
    Human,
    /// One machine-readable object per line.
    Json,
}

/// What the environment told this process.
#[derive(Clone, Copy, PartialEq, Eq, Structural, Hash, Debug)]
pub struct EnvSettings {
    /// Print the runtime version and leave.
    pub version: bool,
    /// Report the declared resources on the well-known descriptor and
    /// leave, running no user code.
    pub recce: bool,
    /// How the bridge renders events.
    pub format: Format,
    /// A fabric scheduler places processes.
    pub deployed: bool,
    /// The resources the parent granted; absent in the first process of a
    /// native run.
    pub resources: Option<Resources>,
}

/// The role a process takes up at bootstrap.
#[derive(Clone, Copy, PartialEq, Eq, Structural, Hash, Debug)]
pub enum RolePlan {
    /// The first process of a native run: bind a listener, fork the
    /// bridge, then carry on as the top worker.
    NativeTop,
    /// A natively spawned process: its spawn argument and pid wait on the
    /// inherited argument descriptor.
    NativeSub,
    /// A scheduler-placed process: its spawn argument, the scheduler's
    /// address and its pid wait on the inherited argument descriptor.
    Deployed,
}

/// Everything `init` decides before any descriptor moves.
#[derive(Clone, Copy, PartialEq, Eq, Structural, Hash, Debug)]
pub enum InitPlan {
    /// Print the version and exit cleanly, running no user code.
    PrintVersion,
    /// Write these resources to the well-known probe descriptor and exit
    /// cleanly, running no user code: how a scheduler asks a binary what
    /// it needs without running it.
    Recce(Resources),
    /// Take up a role.
    Boot(RolePlan),
}

/// Decide what this process is, from its environment and the resources
/// its `init` call declares. The version and probe branches run no user
/// code; otherwise the mode and the presence of granted resources decide
/// the role. A request for both the version and the probe at once is a
/// caller error and excluded.
pub fn init(env: &EnvSettings, declared: &Resources) -> (r: InitPlan)
    requires
        !(env.version && env.recce),
    ensures
        env.version ==> r == InitPlan::PrintVersion,
        !env.version && env.recce ==> r == InitPlan::Recce(*declared),
        !env.version && !env.recce ==> r == InitPlan::Boot(
            if env.deployed {
                RolePlan::Deployed
            } else if env.resources is None {
                RolePlan::NativeTop
            } else {
                RolePlan::NativeSub
            },
        ),
{
    if env.version {
        InitPlan::PrintVersion
    } else if env.recce {
        InitPlan::Recce(*declared)
    } else if env.deployed {
        InitPlan::Boot(RolePlan::Deployed)
    } else if env.resources.is_none() {
        InitPlan::Boot(RolePlan::NativeTop)
    } else {
        InitPlan::Boot(RolePlan::NativeSub)
    }
}

/// Which descriptors the child closes between fork and exec: everything
/// from three up except the new process's listener and its argument blob,
/// stopping short of the range a debugging harness reserves at the top.
/// The two kept descriptors then move to their well-known numbers.
pub fn should_close_fd(fd: i32, listener: i32, arg: i32, reserved_from: Option<i32>) -> (r: bool)
    ensures
        r == (fd >= 3 && fd != listener && fd != arg && (match reserved_from {
            Some(start) => fd < start,
            None => true,
        })),
{
    fd >= 3 && fd != listener && fd != arg && (match reserved_from {
        Some(start) => fd < start,
        None => true,
    })
}

/// Where the child's two kept descriptors move before exec: the listener
/// to its well-known number, then the argument blob to its own; a
/// descriptor already in place does not move.
pub fn fd_moves(listener: i32, arg: i32) -> (r: Vec<(i32, i32)>)
    ensures
        r@ == (if listener != LISTENER_FD {
            seq![(listener, LISTENER_FD)]
        } else {
            Seq::<(i32, i32)>::empty()
        }) + (if arg != ARG_FD {
            seq![(arg, ARG_FD)]
        } else {
            Seq::<(i32, i32)>::empty()
        }),
{
    let mut r: Vec<(i32, i32)> = Vec::new();
    if listener != LISTENER_FD {
        r.push((listener, LISTENER_FD));
    }
    if arg != ARG_FD {
        r.push((arg, ARG_FD));
    }
    proof {
        assert(r@ =~= (if listener != LISTENER_FD {
            seq![(listener, LISTENER_FD)]
        } else {
            Seq::<(i32, i32)>::empty()
        }) + (if arg != ARG_FD {
            seq![(arg, ARG_FD)]
        } else {
            Seq::<(i32, i32)>::empty()
        }));
    }
    r
}

/// One variable of a child's environment: key, the joining sign, value.
pub open spec fn env_join(k: Seq<u8>, v: Seq<u8>) -> Seq<u8> {
    k + seq![61u8] + v
}

/// The environment handed to a spawned child: the parent's variables with
/// every binding of the resource key dropped, and one fresh binding of
/// that key to the granted resources, last.
pub open spec fn spec_child_env(
    vars: Seq<(Seq<u8>, Seq<u8>)>,
    key: Seq<u8>,
    val: Seq<u8>,
) -> Seq<Seq<u8>>
    decreases vars.len(),
{
    if vars.len() == 0 {
        seq![env_join(key, val)]
    } else if vars[0].0 == key {
        spec_child_env(vars.drop_first(), key, val)
    } else {
        seq![env_join(vars[0].0, vars[0].1)] + spec_child_env(vars.drop_first(), key, val)
    }
}

/// The pairs of a variable list, as byte sequences.
pub open spec fn var_views(vars: Seq<(Vec<u8>, Vec<u8>)>) -> Seq<(Seq<u8>, Seq<u8>)> {
    vars.map_values(|kv: (Vec<u8>, Vec<u8>)| (kv.0@, kv.1@))
}

/// Are two byte vectors equal?
pub fn bytes_eq(a: &Vec<u8>, b: &Vec<u8>) -> (r: bool)
    ensures
        r == (a@ == b@),
{
    if a.len() != b.len() {
        proof {
            assert(a@ != b@);
        }
        return false;
    }
    let mut i: usize = 0;
    while i < a.len()
        invariant
            i <= a@.len(),
            a@.len() == b@.len(),
            forall|k: int| 0 <= k < i ==> a@[k] == b@[k],
        decreases a@.len() - i,
    {
        if a[i] != b[i] {
            proof {
                assert(a@[i as int] != b@[i as int]);
            }
            return false;
        }
        i = i + 1;
    }
    proof {
        assert(a@ =~= b@);
    }
    true
}

/// Build the child's environment, each variable as one `key=value` byte
/// string: the parent's variables without any binding of `key`, then the
/// fresh binding of `key` to `val`.
pub fn child_env(vars: &Vec<(Vec<u8>, Vec<u8>)>, key: &Vec<u8>, val: &Vec<u8>) -> (r: Vec<Vec<u8>>)
    ensures
        crate::channel::payloads(r@) == spec_child_env(var_views(vars@), key@, val@),
{
    let mut out: Vec<Vec<u8>> = Vec::new();
    proof {
        assert(crate::channel::payloads(out@) =~= Seq::<Seq<u8>>::empty());
        assert(var_views(vars@).skip(0) =~= var_views(vars@));
        assert(crate::channel::payloads(out@) + spec_child_env(var_views(vars@), key@, val@)
            =~= spec_child_env(var_views(vars@), key@, val@));
    }
    let mut i: usize = 0;
    while i < vars.len()
        invariant
            i <= vars@.len(),
            crate::channel::payloads(out@) + spec_child_env(
                var_views(vars@).skip(i as int),
                key@,
                val@,
            ) =~= spec_child_env(var_views(vars@), key@, val@),
        decreases vars@.len() - i,
    {
        let ghost pre = out@;
        let ghost rem = var_views(vars@).skip(i as int);
        proof {
            assert(rem[0] == (vars@[i as int].0@, vars@[i as int].1@));
            assert(rem.drop_first() =~= var_views(vars@).skip(i + 1));
        }
        if !bytes_eq(&vars[i].0, key) {
            let mut line: Vec<u8> = Vec::new();
            crate::codec::append_bytes(&vars[i].0, &mut line);
            line.push(61);
            crate::codec::append_bytes(&vars[i].1, &mut line);
            proof {
                assert(line@ =~= env_join(vars@[i as int].0@, vars@[i as int].1@));
            }
            out.push(line);
            proof {
                assert(crate::channel::payloads(out@) =~= crate::channel::payloads(pre).push(
                    env_join(vars@[i as int].0@, vars@[i as int].1@),
                ));
                assert(spec_child_env(rem, key@, val@) == seq![
                    env_join(vars@[i as int].0@, vars@[i as int].1@),
                ] + spec_child_env(rem.drop_first(), key@, val@));
                assert(crate::channel::payloads(out@) + spec_child_env(
                    rem.drop_first(),
                    key@,
                    val@,
                ) =~= crate::channel::payloads(pre) + spec_child_env(rem, key@, val@));
            }
        } else {
            proof {
                assert(spec_child_env(rem, key@, val@) == spec_child_env(
                    rem.drop_first(),
                    key@,
                    val@,
                ));
            }
        }
        i = i + 1;
    }
    let mut line: Vec<u8> = Vec::new();
    crate::codec::append_bytes(key, &mut line);
    line.push(61);
    crate::codec::append_bytes(val, &mut line);
    proof {
        assert(line@ =~= env_join(key@, val@));
    }
    let ghost pre = out@;
    out.push(line);
    proof {
        assert(var_views(vars@).skip(vars@.len() as int) =~= Seq::<(Seq<u8>, Seq<u8>)>::empty());
        assert(spec_child_env(Seq::<(Seq<u8>, Seq<u8>)>::empty(), key@, val@) == seq![
            env_join(key@, val@),
        ]);
        assert(crate::channel::payloads(out@) =~= crate::channel::payloads(pre).push(
            env_join(key@, val@),
        ));
        assert(crate::channel::payloads(out@) =~= spec_child_env(var_views(vars@), key@, val@));
    }
    out
}

/// Read a natively spawned process's argument blob: its spawn argument,
/// then its own pid, and nothing after them. Anything else is no argument
/// blob of this runtime.
pub fn read_native_arg(buf: &Vec<u8>) -> (r: Option<(SpawnArg, Pid)>)
    ensures
        match spawn_arg_dec(buf@.subrange(0, buf@.len() as int)) {
            Some(p) => {
                if p.1 + 6 == buf@.len() {
                    &&& r is Some
                    &&& r.unwrap().0.bridge == p.0.0
                    &&& crate::spawn::spawn_arg_view(r.unwrap().0).1 == p.0.1
                    &&& crate::pid::pid_enc(r.unwrap().1) == buf@.subrange(p.1, p.1 + 6)
                } else {
                    r is None
                }
            },
            None => r is None,
        },
{
    let (arg, mid) = match dec_spawn_arg(buf, 0) {
        Some(p) => p,
        None => {
            return None;
        },
    };
    let (pid, end) = match crate::pid::dec_pid(buf, mid) {
        Some(p) => p,
        None => {
            proof {
                assert(buf@.subrange(mid as int, buf@.len() as int).len() < 6);
            }
            return None;
        },
    };
    if end != buf.len() {
        return None;
    }
    proof {
        crate::pid::lemma_pid_roundtrip(pid, Seq::<u8>::empty());
        assert(crate::pid::pid_enc(pid).len() == 6);
        assert(buf@.subrange(mid as int, mid + 6).subrange(0, 4) =~= buf@.subrange(
            mid as int,
            mid + 4,
        ));
        assert(buf@.subrange(mid as int, mid + 6).subrange(4, 6) =~= buf@.subrange(
            mid + 4,
            mid + 6,
        ));
        assert forall|k: int| 0 <= k < 6 implies crate::pid::pid_enc(pid)[k] == buf@.subrange(
            mid as int,
            mid + 6,
        )[k] by {
            lemma_pid_enc_bytes(pid, buf@.subrange(mid as int, mid + 6), k);
        }
        assert(crate::pid::pid_enc(pid) =~= buf@.subrange(mid as int, mid + 6));
    }
    Some((arg, pid))
}

/// Read a pid at pos, also giving back the fact that the six consumed
/// bytes are its encoding.
fn read_pid_exact(buf: &Vec<u8>, pos: usize) -> (r: Option<(Pid, usize)>)
    requires
        pos <= buf@.len(),
    ensures
        match r {
            Some(p) => {
                &&& p.1 == pos + 6
                &&& p.1 <= buf@.len()
                &&& crate::pid::pid_enc(p.0) == buf@.subrange(pos as int, pos + 6)
            },
            None => pos + 6 > buf@.len(),
        },
{
    match crate::pid::dec_pid(buf, pos) {
        Some((pid, end)) => {
            proof {
                assert(buf@.subrange(pos as int, pos + 6).subrange(0, 4) =~= buf@.subrange(
                    pos as int,
                    pos + 4,
                ));
                assert(buf@.subrange(pos as int, pos + 6).subrange(4, 6) =~= buf@.subrange(
                    pos + 4,
                    pos + 6,
                ));
                crate::pid::lemma_pid_roundtrip(pid, Seq::<u8>::empty());
                assert forall|k: int| 0 <= k < 6 implies crate::pid::pid_enc(pid)[k]
                    == buf@.subrange(pos as int, pos + 6)[k] by {
                    lemma_pid_enc_bytes(pid, buf@.subrange(pos as int, pos + 6), k);
                }
                assert(crate::pid::pid_enc(pid) =~= buf@.subrange(pos as int, pos + 6));
            }
            Some((pid, end))
        },
        None => None,
    }
}

/// Read a deployed process's argument blob: its spawn argument, the
/// scheduler's pid, its own pid, and nothing after them.
#[verifier::rlimit(60)]
pub fn read_deployed_arg(buf: &Vec<u8>) -> (r: Option<(SpawnArg, Pid, Pid)>)
    ensures
        match r {
            Some(p) => buf@ == crate::spawn::spawn_arg_enc(
                p.0.bridge,
                crate::spawn::spawn_arg_view(p.0).1,
            ) + crate::pid::pid_enc(p.1) + crate::pid::pid_enc(p.2),
            None => true,
        },
        forall|bridge: Pid, spawn: Option<(Pid, Seq<u8>)>, sched: Pid, own: Pid|
            crate::spawn::spawn_arg_wf(spawn) && buf@ == crate::spawn::spawn_arg_enc(bridge, spawn)
                + crate::pid::pid_enc(sched) + crate::pid::pid_enc(own) ==> r is Some
                && r.unwrap().0.bridge == bridge && crate::spawn::spawn_arg_view(r.unwrap().0).1
                == spawn && r.unwrap().1 == sched && r.unwrap().2 == own,
{
    let (arg, mid) = match dec_spawn_arg(buf, 0) {
        Some(p) => p,
        None => {
            proof {
                lemma_no_arg_prefix(buf@);
            }
            return None;
        },
    };
    let (sched, mid2) = match read_pid_exact(buf, mid) {
        Some(p) => p,
        None => {
            proof {
                lemma_arg_positions(buf@, mid as int);
            }
            return None;
        },
    };
    let (own, end) = match read_pid_exact(buf, mid2) {
        Some(p) => p,
        None => {
            proof {
                lemma_arg_positions(buf@, mid as int);
            }
            return None;
        },
    };
    if end != buf.len() {
        proof {
            lemma_arg_positions(buf@, mid as int);
        }
        return None;
    }
    proof {
        lemma_spawn_arg_sound(buf@, arg, mid as int);
        assert(buf@ =~= crate::spawn::spawn_arg_enc(
            arg.bridge,
            crate::spawn::spawn_arg_view(arg).1,
        ) + crate::pid::pid_enc(sched) + crate::pid::pid_enc(own));
        assert forall|bridge: Pid, spawn: Option<(Pid, Seq<u8>)>, s2: Pid, o2: Pid|
            crate::spawn::spawn_arg_wf(spawn) && buf@ == crate::spawn::spawn_arg_enc(bridge, spawn)
                + crate::pid::pid_enc(s2) + crate::pid::pid_enc(o2) implies arg.bridge == bridge
            && crate::spawn::spawn_arg_view(arg).1 == spawn && sched == s2 && own == o2 by {
            crate::spawn::lemma_spawn_arg_roundtrip(
                bridge,
                spawn,
                crate::pid::pid_enc(s2) + crate::pid::pid_enc(o2),
            );
            assert(buf@.subrange(0, buf@.len() as int) =~= crate::spawn::spawn_arg_enc(
                bridge,
                spawn,
            ) + (crate::pid::pid_enc(s2) + crate::pid::pid_enc(o2)));
            crate::pid::lemma_pid_roundtrip(s2, Seq::<u8>::empty());
            crate::pid::lemma_pid_roundtrip(o2, Seq::<u8>::empty());
            assert(mid == crate::spawn::spawn_arg_enc(bridge, spawn).len());
            assert(buf@.subrange(mid as int, mid + 6) =~= crate::pid::pid_enc(s2));
            assert(buf@.subrange(mid + 6, mid + 12) =~= crate::pid::pid_enc(o2));
            lemma_pid_from_enc(s2, buf@.subrange(mid as int, mid + 6));
            lemma_pid_from_enc(sched, buf@.subrange(mid as int, mid + 6));
            lemma_pid_from_enc(o2, buf@.subrange(mid + 6, mid + 12));
            lemma_pid_from_enc(own, buf@.subrange(mid + 6, mid + 12));
        }
    }
    Some((arg, sched, own))
}

/// The bridge's own startup blob: the scheduler's pid, then the bridge's
/// own pid, and nothing else. This is what the bridge reads before it
/// binds its listener and starts aggregating.
pub fn bridge_init(buf: &Vec<u8>) -> (r: Option<(Pid, Pid)>)
    ensures
        match r {
            Some(p) => buf@ == crate::pid::pid_enc(p.0) + crate::pid::pid_enc(p.1),
            None => buf@.len() != 12,
        },
        forall|sched: Pid, own: Pid|
            buf@ == crate::pid::pid_enc(sched) + crate::pid::pid_enc(own) ==> r == Some(
                (sched, own),
            ),
{
    let (sched, mid) = match read_pid_exact(buf, 0) {
        Some(p) => p,
        None => {
            proof {
                lemma_two_pids_len(buf@);
            }
            return None;
        },
    };
    let (own, end) = match read_pid_exact(buf, mid) {
        Some(p) => p,
        None => {
            proof {
                lemma_two_pids_len(buf@);
            }
            return None;
        },
    };
    if end != buf.len() {
        proof {
            lemma_two_pids_len(buf@);
        }
        return None;
    }
    proof {
        lemma_two_pids_len(buf@);
        assert(buf@ =~= crate::pid::pid_enc(sched) + crate::pid::pid_enc(own));
        assert forall|s2: Pid, o2: Pid|
            buf@ == crate::pid::pid_enc(s2) + crate::pid::pid_enc(o2) implies Some((sched, own))
            == Some::<(Pid, Pid)>((s2, o2)) by {
            crate::pid::lemma_pid_roundtrip(s2, crate::pid::pid_enc(o2));
            crate::pid::lemma_pid_roundtrip(o2, Seq::<u8>::empty());
            crate::pid::lemma_pid_roundtrip(sched, crate::pid::pid_enc(own));
            assert(buf@.subrange(0, 6) =~= crate::pid::pid_enc(s2));
            assert(buf@.subrange(6, 12) =~= crate::pid::pid_enc(o2));
            assert(buf@.subrange(0, 4) =~= (crate::pid::pid_enc(s2) + crate::pid::pid_enc(
                o2,
            )).subrange(0, 4));
            assert(buf@.subrange(4, 6) =~= (crate::pid::pid_enc(s2) + crate::pid::pid_enc(
                o2,
            )).subrange(4, 6));
            assert(buf@.subrange(6, 10) =~= (crate::pid::pid_enc(s2) + crate::pid::pid_enc(
                o2,
            )).subrange(6, 10));
            assert(buf@.subrange(10, 12) =~= (crate::pid::pid_enc(s2) + crate::pid::pid_enc(
                o2,
            )).subrange(10, 12));
            lemma_pid_from_enc(s2, buf@.subrange(0, 6));
            lemma_pid_from_enc(sched, buf@.subrange(0, 6));
            lemma_pid_from_enc(o2, buf@.subrange(6, 12));
            lemma_pid_from_enc(own, buf@.subrange(6, 12));
        }
    }
    Some((sched, own))
}

/// Two encoded pids are twelve bytes.
proof fn lemma_two_pids_len(s: Seq<u8>)
    ensures
        forall|a: Pid, b: Pid|
            s == crate::pid::pid_enc(a) + crate::pid::pid_enc(b) ==> s.len() == 12,
{
    assert forall|a: Pid, b: Pid|
        s == crate::pid::pid_enc(a) + crate::pid::pid_enc(b) implies s.len() == 12 by {
        crate::pid::lemma_pid_roundtrip(a, Seq::<u8>::empty());
        crate::pid::lemma_pid_roundtrip(b, Seq::<u8>::empty());
    }
}

/// A pid whose encoding is a given six-byte string is determined by it.
proof fn lemma_pid_from_enc(p: Pid, s: Seq<u8>)
    requires
        s.len() == 6,
        crate::pid::pid_enc(p) == s,
    ensures
        p.ip == crate::codec::le_val(s.subrange(0, 4)),
        p.port == crate::codec::le_val(s.subrange(4, 6)),
{
    crate::pid::lemma_pid_roundtrip(p, Seq::<u8>::empty());
    assert((crate::pid::pid_enc(p) + Seq::<u8>::empty()).subrange(0, 4) =~= s.subrange(0, 4));
    assert((crate::pid::pid_enc(p) + Seq::<u8>::empty()).subrange(4, 6) =~= s.subrange(4, 6));
}

/// If the whole buffer carries a deployed argument, the spawn argument at
/// its front decodes; used to turn a failed decode into the absence of
/// any such argument.
proof fn lemma_no_arg_prefix(s: Seq<u8>)
    ensures
        forall|bridge: Pid, spawn: Option<(Pid, Seq<u8>)>, sched: Pid, own: Pid|
            crate::spawn::spawn_arg_wf(spawn) && s == crate::spawn::spawn_arg_enc(bridge, spawn)
                + crate::pid::pid_enc(sched) + crate::pid::pid_enc(own) ==> crate::spawn::spawn_arg_dec(
                s.subrange(0, s.len() as int),
            ) is Some,
{
    assert forall|bridge: Pid, spawn: Option<(Pid, Seq<u8>)>, sched: Pid, own: Pid|
        crate::spawn::spawn_arg_wf(spawn) && s == crate::spawn::spawn_arg_enc(bridge, spawn)
            + crate::pid::pid_enc(sched) + crate::pid::pid_enc(own) implies crate::spawn::spawn_arg_dec(
        s.subrange(0, s.len() as int),
    ) is Some by {
        crate::spawn::lemma_spawn_arg_roundtrip(
            bridge,
            spawn,
            crate::pid::pid_enc(sched) + crate::pid::pid_enc(own),
        );
        assert(s.subrange(0, s.len() as int) =~= crate::spawn::spawn_arg_enc(bridge, spawn) + (
        crate::pid::pid_enc(sched) + crate::pid::pid_enc(own)));
    }
}

/// In a whole buffer that carries a deployed argument, the spawn argument
/// ends exactly twelve bytes short of the end.
proof fn lemma_arg_positions(s: Seq<u8>, mid: int)
    requires
        crate::spawn::spawn_arg_dec(s.subrange(0, s.len() as int)) matches Some(p) && p.1 == mid,
    ensures
        forall|bridge: Pid, spawn: Option<(Pid, Seq<u8>)>, sched: Pid, own: Pid|
            crate::spawn::spawn_arg_wf(spawn) && s == crate::spawn::spawn_arg_enc(bridge, spawn)
                + crate::pid::pid_enc(sched) + crate::pid::pid_enc(own) ==> mid + 12 == s.len(),
{
    assert forall|bridge: Pid, spawn: Option<(Pid, Seq<u8>)>, sched: Pid, own: Pid|
        crate::spawn::spawn_arg_wf(spawn) && s == crate::spawn::spawn_arg_enc(bridge, spawn)
            + crate::pid::pid_enc(sched) + crate::pid::pid_enc(own) implies mid + 12
        == s.len() by {
        crate::spawn::lemma_spawn_arg_roundtrip(
            bridge,
            spawn,
            crate::pid::pid_enc(sched) + crate::pid::pid_enc(own),
        );
        assert(s.subrange(0, s.len() as int) =~= crate::spawn::spawn_arg_enc(bridge, spawn) + (
        crate::pid::pid_enc(sched) + crate::pid::pid_enc(own)));
        crate::pid::lemma_pid_roundtrip(sched, Seq::<u8>::empty());
        crate::pid::lemma_pid_roundtrip(own, Seq::<u8>::empty());
    }
}

/// What a successful spawn-argument decode consumed is the encoding of
/// what it returned.
proof fn lemma_spawn_arg_sound(s: Seq<u8>, arg: SpawnArg, mid: int)
    requires
        crate::spawn::spawn_arg_dec(s.subrange(0, s.len() as int)) matches Some(p) && p.0.0
            == arg.bridge && p.0.1 == crate::spawn::spawn_arg_view(arg).1 && p.1 == mid,
        0 <= mid <= s.len(),
    ensures
        s.subrange(0, mid) == crate::spawn::spawn_arg_enc(
            arg.bridge,
            crate::spawn::spawn_arg_view(arg).1,
        ),
{
    let whole = s.subrange(0, s.len() as int);
    let d = crate::spawn::spawn_arg_dec(whole);
    let enc = crate::spawn::spawn_arg_enc(arg.bridge, crate::spawn::spawn_arg_view(arg).1);
    crate::codec::lemma_pow256_values();
    crate::codec::lemma_le_val_bound(whole.subrange(0, 4));
    crate::codec::lemma_le_val_bound(whole.subrange(4, 6));
    lemma_le_enc_of(whole.subrange(0, 4));
    lemma_le_enc_of(whole.subrange(4, 6));
    match crate::spawn::spawn_arg_view(arg).1 {
        None => {
            assert(mid == 7);
            crate::pid::lemma_pid_roundtrip(arg.bridge, Seq::<u8>::empty());
            assert forall|k: int| 0 <= k < 7 implies enc[k] == s[k] by {
                if k < 6 {
                    assert(whole.subrange(0, 6).subrange(0, 4) =~= whole.subrange(0, 4));
                    assert(whole.subrange(0, 6).subrange(4, 6) =~= whole.subrange(4, 6));
                    lemma_pid_enc_bytes(arg.bridge, whole.subrange(0, 6), k);
                    assert(enc[k] == crate::pid::pid_enc(arg.bridge)[k]);
                    assert(whole[k] == whole.subrange(0, 6)[k]);
                }
            }
            assert(s.subrange(0, mid) =~= enc);
        },
        Some(pp) => {
            let len = pp.1.len() as int;
            assert(mid == 17 + len);
            crate::codec::lemma_le_val_bound(whole.subrange(7, 11));
            crate::codec::lemma_le_val_bound(whole.subrange(11, 13));
            crate::pid::lemma_pid_roundtrip(arg.bridge, Seq::<u8>::empty());
            crate::pid::lemma_pid_roundtrip(pp.0, Seq::<u8>::empty());
            crate::codec::lemma_le_val_bound(whole.subrange(13, 17));
            assert(pp.1.len() < 0x100000000);
            crate::codec::lemma_le_bytes_len((pp.1.len() as u32) as nat, 4);
            assert(crate::codec::u32_le(pp.1.len() as u32).len() == 4);
            assert(enc.len() == 17 + len);
            assert forall|k: int| 0 <= k < mid implies enc[k] == s[k] by {
                lemma_spawn_arg_some_bytes(whole, arg, pp, k);
                assert(whole[k] == s[k]);
            }
            assert(s.subrange(0, mid) =~= enc);
        },
    }
}

/// One byte of the encoding of a decoded spawn argument with a start
/// closure agrees with the buffer it was decoded from.
proof fn lemma_spawn_arg_some_bytes(whole: Seq<u8>, arg: SpawnArg, pp: (Pid, Seq<u8>), k: int)
    requires
        crate::spawn::spawn_arg_dec(whole) matches Some(p) && p.0.0 == arg.bridge && p.0.1
            == Some((pp.0, pp.1)) && p.1 == 17 + pp.1.len(),
        crate::spawn::spawn_arg_view(arg).1 == Some((pp.0, pp.1)),
        0 <= k < 17 + pp.1.len(),
    ensures
        crate::spawn::spawn_arg_enc(arg.bridge, Some((pp.0, pp.1)))[k] == whole[k],
{
    let enc = crate::spawn::spawn_arg_enc(arg.bridge, Some((pp.0, pp.1)));
    let len = pp.1.len() as int;
    crate::codec::lemma_pow256_values();
    crate::codec::lemma_le_val_bound(whole.subrange(0, 4));
    crate::codec::lemma_le_val_bound(whole.subrange(4, 6));
    crate::codec::lemma_le_val_bound(whole.subrange(7, 11));
    crate::codec::lemma_le_val_bound(whole.subrange(11, 13));
    crate::codec::lemma_le_val_bound(whole.subrange(13, 17));
    crate::pid::lemma_pid_roundtrip(arg.bridge, Seq::<u8>::empty());
    crate::pid::lemma_pid_roundtrip(pp.0, Seq::<u8>::empty());
    crate::codec::lemma_le_bytes_len(pp.1.len(), 4);
    assert(whole.len() >= 17);
    assert(whole[6] == 1) by {
        if whole.len() >= 7 && whole[6] == 0 {
            assert(crate::spawn::spawn_arg_dec(whole).unwrap().0.1 is None);
        }
    };
    assert(arg.bridge.ip as nat == crate::codec::le_val(whole.subrange(0, 4)));
    assert(arg.bridge.port as nat == crate::codec::le_val(whole.subrange(4, 6)));
    assert(pp.0.ip as nat == crate::codec::le_val(whole.subrange(7, 11)));
    assert(pp.0.port as nat == crate::codec::le_val(whole.subrange(11, 13)));
    assert(pp.1 == whole.subrange(17, 17 + (crate::codec::le_val(whole.subrange(13, 17)) as int)));
    assert(pp.1.len() == crate::codec::le_val(whole.subrange(13, 17)));
    if k < 6 {
        assert(whole.subrange(0, 6).subrange(0, 4) =~= whole.subrange(0, 4));
        assert(whole.subrange(0, 6).subrange(4, 6) =~= whole.subrange(4, 6));
        lemma_pid_enc_bytes(arg.bridge, whole.subrange(0, 6), k);
        assert(enc[k] == crate::pid::pid_enc(arg.bridge)[k]);
    } else if k == 6 {
        assert(enc[6] == 1 && whole[6] == 1);
    } else if k < 13 {
        assert(whole.subrange(7, 13).subrange(0, 4) =~= whole.subrange(7, 11));
        assert(whole.subrange(7, 13).subrange(4, 6) =~= whole.subrange(11, 13));
        lemma_pid_enc_bytes(pp.0, whole.subrange(7, 13), k - 7);
        assert(enc[k] == crate::pid::pid_enc(pp.0)[k - 7]);
    } else if k < 17 {
        lemma_le_enc_of(whole.subrange(13, 17));
        assert(crate::codec::le_bytes(pp.1.len(), 4) == whole.subrange(13, 17)) by {
            assert(pp.1.len() == crate::codec::le_val(whole.subrange(13, 17)));
        }
        assert(enc[k] == crate::codec::u32_le(pp.1.len() as u32)[k - 13]);
        assert(crate::codec::u32_le(pp.1.len() as u32) == crate::codec::le_bytes(pp.1.len(), 4));
        assert(crate::codec::le_bytes(pp.1.len(), 4)[k - 13] == whole.subrange(13, 17)[k - 13]);
    } else {
        assert(enc[k] == pp.1[k - 17]);
        assert(pp.1[k - 17] == whole.subrange(17, 17 + len)[k - 17]);
    }
}

/// Encoding the value of a little-endian byte string gives the string
/// back, stated through the generic width.
proof fn lemma_le_enc_of(s: Seq<u8>)
    ensures
        crate::codec::le_bytes(crate::codec::le_val(s), s.len()) == s,
{
    lemma_le_bytes_of_val(s);
}

/// The bytes of an encoded pid are determined by its fields; conversely a
/// pid decoded from six bytes re-encodes to those bytes.
proof fn lemma_pid_enc_bytes(p: Pid, s: Seq<u8>, k: int)
    requires
        s.len() == 6,
        p.ip == crate::codec::le_val(s.subrange(0, 4)),
        p.port == crate::codec::le_val(s.subrange(4, 6)),
        0 <= k < 6,
    ensures
        crate::pid::pid_enc(p)[k] == s[k],
{
    crate::codec::lemma_le_val_bound(s.subrange(0, 4));
    crate::codec::lemma_le_val_bound(s.subrange(4, 6));
    crate::codec::lemma_pow256_values();
    lemma_le_bytes_of_val(s.subrange(0, 4));
    lemma_le_bytes_of_val(s.subrange(4, 6));
    crate::codec::lemma_le_bytes_len(p.ip as nat, 4);
    if k < 4 {
        assert(crate::pid::pid_enc(p)[k] == crate::codec::le_bytes(p.ip as nat, 4)[k]);
        assert(crate::codec::le_bytes(p.ip as nat, 4)[k] == s.subrange(0, 4)[k]);
    } else {
        assert(crate::pid::pid_enc(p)[k] == crate::codec::le_bytes(p.port as nat, 2)[k - 4]);
        assert(crate::codec::le_bytes(p.port as nat, 2)[k - 4] == s.subrange(4, 6)[k - 4]);
    }
}

/// Encoding the value of a little-endian byte string gives the bytes
/// back: the encoding is the unique little-endian form of its value.
proof fn lemma_le_bytes_of_val(s: Seq<u8>)
    ensures
        crate::codec::le_bytes(crate::codec::le_val(s), s.len()) == s,
    decreases s.len(),
{
    if s.len() > 0 {
        let v = crate::codec::le_val(s);
        assert(v == s[0] + 256 * crate::codec::le_val(s.drop_first()));
        assert(v % 256 == s[0] && v / 256 == crate::codec::le_val(s.drop_first())) by {
            assert(crate::codec::le_val(s.drop_first()) * 256 + s[0] == v);
        };
        lemma_le_bytes_of_val(s.drop_first());
        assert(crate::codec::le_bytes(v, s.len()) =~= seq![s[0]] + s.drop_first());
        assert(seq![s[0]] + s.drop_first() =~= s);
    } else {
        assert(crate::codec::le_bytes(crate::codec::le_val(s), 0) =~= s);
    }
}

} // verus!
