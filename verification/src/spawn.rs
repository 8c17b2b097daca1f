//! The spawn protocol: the argument blob a new process reads at startup,
//! the request sent to the fabric scheduler in deployed mode, the
//! scheduler's reply, and the choice between the native and the deployed
//! path. The fork, exec and sockets live outside; these functions build
//! and read the bytes and decide.

use vstd::prelude::*;
use crate::codec::{bytes_enc, dec_bytes, enc_bytes, enc_u32, le_val, u32_le};
use crate::pid::{dec_pid, enc_pid, pid_enc, Pid};
use crate::resources::{enc_resources, resources_enc, Resources};
use crate::runtime::Runtime;

verus! {

/// Why a spawn that must not wait failed.
#[derive(Clone, Copy, PartialEq, Eq, Structural, Hash, Debug)]
pub enum TrySpawnError {
    /// The scheduler cannot allocate the requested resources right now.
    NoCapacity,
    /// The fork, exec or fabric-side launch failed.
    Exec,
}

/// Why a blocking spawn failed: waiting folds the want of capacity into
/// the wait itself, so only the launch failure remains.
#[derive(Clone, Copy, PartialEq, Eq, Structural, Hash, Debug)]
pub enum SpawnError {
    /// The fork, exec or fabric-side launch failed.
    Exec,
}

/// A blocking spawn's view of a fail-fast error: the want of capacity is
/// no error to it — it waits — and a launch failure stays one.
pub fn spawn_error_of(e: TrySpawnError) -> (r: Option<SpawnError>)
    ensures
        e is NoCapacity ==> r is None,
        e is Exec ==> r == Some(SpawnError::Exec),
{
    match e {
        TrySpawnError::NoCapacity => None,
        TrySpawnError::Exec => Some(SpawnError::Exec),
    }
}

/// What a spawned process finds in its argument blob: the bridge to
/// report to, and — unless it is the first process of a run — its parent
/// and the serialized start closure to run.
pub struct SpawnArg {
    /// The bridge process of this run.
    pub bridge: Pid,
    /// The parent's pid and the serialized start closure, absent in the
    /// run's first process.
    pub spawn: Option<(Pid, Vec<u8>)>,
}

/// Spec form of a spawn argument, the closure blob a byte sequence.
pub open spec fn spawn_arg_view(a: SpawnArg) -> (Pid, Option<(Pid, Seq<u8>)>) {
    (
        a.bridge,
        match a.spawn {
            Some(p) => Some((p.0, p.1@)),
            None => None,
        },
    )
}

/// Encoding of a spawn argument: the bridge pid, then a tag, then — when
/// present — the parent pid and the length-prefixed closure blob.
pub open spec fn spawn_arg_enc(bridge: Pid, spawn: Option<(Pid, Seq<u8>)>) -> Seq<u8> {
    pid_enc(bridge) + match spawn {
        None => seq![0u8],
        Some(p) => seq![1u8] + pid_enc(p.0) + bytes_enc(p.1),
    }
}

/// A spawn argument whose closure blob fits its length prefix.
pub open spec fn spawn_arg_wf(spawn: Option<(Pid, Seq<u8>)>) -> bool {
    match spawn {
        Some(p) => p.1.len() < 0x100000000,
        None => true,
    }
}

/// Append the encoding of a spawn argument.
pub fn enc_spawn_arg(a: &SpawnArg, out: &mut Vec<u8>)
    requires
        spawn_arg_wf(spawn_arg_view(*a).1),
    ensures
        final(out)@ == old(out)@ + spawn_arg_enc(a.bridge, spawn_arg_view(*a).1),
{
    enc_pid(&a.bridge, out);
    match &a.spawn {
        None => {
            out.push(0);
        },
        Some(p) => {
            out.push(1);
            enc_pid(&p.0, out);
            enc_bytes(&p.1, out);
        },
    }
    proof {
        assert(out@ =~= old(out)@ + spawn_arg_enc(a.bridge, spawn_arg_view(*a).1));
    }
}

/// What decoding a spawn argument finds at the front of a byte string.
pub open spec fn spawn_arg_dec(s: Seq<u8>) -> Option<((Pid, Option<(Pid, Seq<u8>)>), int)> {
    if s.len() < 7 {
        None
    } else {
        let bridge = Pid {
            ip: le_val(s.subrange(0, 4)) as u32,
            port: le_val(s.subrange(4, 6)) as u16,
        };
        if s[6] == 0 {
            Some(((bridge, None), 7))
        } else if s[6] == 1 {
            if s.len() >= 17 {
                let parent = Pid {
                    ip: le_val(s.subrange(7, 11)) as u32,
                    port: le_val(s.subrange(11, 13)) as u16,
                };
                let len = le_val(s.subrange(13, 17)) as int;
                if 17 + len <= s.len() {
                    Some(((bridge, Some((parent, s.subrange(17, 17 + len)))), 17 + len))
                } else {
                    None
                }
            } else {
                None
            }
        } else {
            None
        }
    }
}

/// Decode a spawn argument at pos.
pub fn dec_spawn_arg(buf: &Vec<u8>, pos: usize) -> (r: Option<(SpawnArg, usize)>)
    requires
        pos <= buf@.len(),
    ensures
        match spawn_arg_dec(buf@.subrange(pos as int, buf@.len() as int)) {
            Some(p) => {
                &&& r is Some
                &&& r.unwrap().0.bridge == p.0.0
                &&& spawn_arg_view(r.unwrap().0).1 == p.0.1
                &&& r.unwrap().1 == pos + p.1
            },
            None => r is None,
        },
{
    let ghost tail = buf@.subrange(pos as int, buf@.len() as int);
    let (bridge, mid) = match dec_pid(buf, pos) {
        Some(p) => p,
        None => {
            return None;
        },
    };
    proof {
        assert(tail.subrange(0, 4) =~= buf@.subrange(pos as int, pos + 4));
        assert(tail.subrange(4, 6) =~= buf@.subrange(pos + 4, pos + 6));
    }
    if mid >= buf.len() {
        return None;
    }
    let tag = buf[mid];
    proof {
        assert(tail[6] == buf@[mid as int]);
    }
    if tag == 0 {
        Some((SpawnArg { bridge, spawn: None }, mid + 1))
    } else if tag == 1 {
        let (parent, mid2) = match dec_pid(buf, mid + 1) {
            Some(p) => p,
            None => {
                return None;
            },
        };
        proof {
            assert(tail.subrange(7, 11) =~= buf@.subrange(mid + 1, mid + 5));
            assert(tail.subrange(11, 13) =~= buf@.subrange(mid + 5, mid + 7));
        }
        match dec_bytes(buf, mid2) {
            Some((blob, end)) => {
                proof {
                    assert(tail.subrange(13, 17) =~= buf@.subrange(mid + 7, mid + 11));
                    let len = le_val(tail.subrange(13, 17)) as int;
                    assert(blob@ =~= tail.subrange(17, 17 + len));
                }
                Some((SpawnArg { bridge, spawn: Some((parent, blob)) }, end))
            },
            None => {
                proof {
                    if tail.len() >= 17 {
                        assert(tail.subrange(13, 17) =~= buf@.subrange(mid + 7, mid + 11));
                    }
                }
                None
            },
        }
    } else {
        None
    }
}

/// Decoding a spawn argument from its encoding followed by anything
/// yields the argument back and consumes exactly its encoding.
pub proof fn lemma_spawn_arg_roundtrip(bridge: Pid, spawn: Option<(Pid, Seq<u8>)>, rest: Seq<u8>)
    requires
        spawn_arg_wf(spawn),
    ensures
        spawn_arg_dec(spawn_arg_enc(bridge, spawn) + rest) == Some(
            ((bridge, spawn), spawn_arg_enc(bridge, spawn).len() as int),
        ),
{
    let whole = spawn_arg_enc(bridge, spawn) + rest;
    crate::pid::lemma_pid_roundtrip(bridge, rest);
    assert(whole.subrange(0, 4) =~= (pid_enc(bridge) + rest).subrange(0, 4));
    assert(whole.subrange(4, 6) =~= (pid_enc(bridge) + rest).subrange(4, 6));
    match spawn {
        None => {
            assert(whole[6] == 0);
        },
        Some(p) => {
            assert(whole[6] == 1);
            crate::pid::lemma_pid_roundtrip(p.0, rest);
            assert(whole.subrange(7, 11) =~= (pid_enc(p.0) + rest).subrange(0, 4));
            assert(whole.subrange(11, 13) =~= (pid_enc(p.0) + rest).subrange(4, 6));
            crate::codec::lemma_bytes_enc_parses(p.1, rest);
            assert(whole.subrange(13, 17) =~= (bytes_enc(p.1) + rest).subrange(0, 4));
            assert(whole.subrange(17, 17 + p.1.len() as int) =~= (bytes_enc(p.1) + rest).subrange(
                4,
                4 + p.1.len() as int,
            ));
        },
    }
}

/// The argument blob a natively spawned process reads: its spawn argument
/// followed by its own pid.
pub open spec fn native_arg_enc(
    bridge: Pid,
    parent: Pid,
    start: Seq<u8>,
    new_pid: Pid,
) -> Seq<u8> {
    spawn_arg_enc(bridge, Some((parent, start))) + pid_enc(new_pid)
}

/// Build the argument blob for a natively spawned process: the bridge,
/// this process as the parent, the serialized start closure, and the new
/// process's pid, which its freshly bound listener fixed.
pub fn native_spawn_blob(rt: &Runtime, start: &Vec<u8>, new_pid: Pid) -> (r: Option<Vec<u8>>)
    requires
        start@.len() < 0x100000000,
    ensures
        rt.initialized() ==> r is Some && r.unwrap()@ == native_arg_enc(
            rt.st.bridge,
            rt.st.pid,
            start@,
            new_pid,
        ),
        !rt.initialized() ==> r is None,
{
    if !rt.inited {
        return None;
    }
    let mut out: Vec<u8> = Vec::new();
    let arg = SpawnArg { bridge: rt.st.bridge, spawn: Some((rt.st.pid, clone_bytes(start))) };
    enc_spawn_arg(&arg, &mut out);
    enc_pid(&new_pid, &mut out);
    proof {
        assert(out@ =~= native_arg_enc(rt.st.bridge, rt.st.pid, start@, new_pid));
    }
    Some(out)
}

/// Copy a byte vector.
pub fn clone_bytes(v: &Vec<u8>) -> (r: Vec<u8>)
    ensures
        r@ == v@,
{
    let mut out: Vec<u8> = Vec::new();
    crate::codec::append_bytes(v, &mut out);
    proof {
        assert(out@ =~= v@);
    }
    out
}

/// Encoding of a request to the fabric scheduler: whether to wait for
/// capacity, the resources asked for, the argument strings and the
/// environment of the new process, and the argument blob it starts from.
pub open spec fn fabric_request_enc(
    block: bool,
    resources: Resources,
    args: Seq<Seq<u8>>,
    vars: Seq<Seq<u8>>,
    arg: Seq<u8>,
) -> Seq<u8> {
    seq![if block { 1u8 } else { 0u8 }] + resources_enc(resources) + u32_le(args.len() as u32)
        + concat_bytes_encs(args) + u32_le(vars.len() as u32) + concat_bytes_encs(vars)
        + bytes_enc(arg)
}

/// The concatenation of the length-prefixed encodings of many byte
/// strings.
pub open spec fn concat_bytes_encs(items: Seq<Seq<u8>>) -> Seq<u8>
    decreases items.len(),
{
    if items.len() == 0 {
        Seq::empty()
    } else {
        bytes_enc(items[0]) + concat_bytes_encs(items.drop_first())
    }
}

/// Every byte string fits its length prefix.
pub open spec fn bytes_list_wf(items: Seq<Seq<u8>>) -> bool {
    forall|i: int| 0 <= i < items.len() ==> (#[trigger] items[i]).len() < 0x100000000
}

/// Append the length-prefixed encodings of a list of byte strings.
fn enc_bytes_list(items: &Vec<Vec<u8>>, out: &mut Vec<u8>)
    requires
        bytes_list_wf(crate::channel::payloads(items@)),
        items@.len() < 0x100000000,
    ensures
        final(out)@ == old(out)@ + u32_le(items@.len() as u32) + concat_bytes_encs(
            crate::channel::payloads(items@),
        ),
{
    enc_u32(items.len() as u32, out);
    let ghost all = crate::channel::payloads(items@);
    let mut i: usize = 0;
    while i < items.len()
        invariant
            i <= items@.len(),
            all == crate::channel::payloads(items@),
            bytes_list_wf(all),
            out@ =~= old(out)@ + u32_le(items@.len() as u32) + concat_bytes_encs(
                all.subrange(0, i as int),
            ),
        decreases items@.len() - i,
    {
        proof {
            assert(all[i as int] == items@[i as int]@);
        }
        enc_bytes(&items[i], out);
        i = i + 1;
        proof {
            lemma_concat_bytes_encs_snoc(all.subrange(0, i - 1), all[i - 1]);
            assert(all.subrange(0, i as int) =~= all.subrange(0, i - 1).push(all[i - 1]));
        }
    }
    proof {
        assert(all.subrange(0, all.len() as int) =~= all);
    }
}

proof fn lemma_concat_bytes_encs_snoc(items: Seq<Seq<u8>>, last: Seq<u8>)
    ensures
        concat_bytes_encs(items.push(last)) == concat_bytes_encs(items) + bytes_enc(last),
    decreases items.len(),
{
    if items.len() == 0 {
        assert(items.push(last)[0] == last);
        assert(items.push(last).drop_first() =~= Seq::<Seq<u8>>::empty());
        assert(concat_bytes_encs(items.push(last)) == bytes_enc(last) + concat_bytes_encs(
            items.push(last).drop_first(),
        ));
        assert(concat_bytes_encs(Seq::<Seq<u8>>::empty()) == Seq::<u8>::empty());
        assert(concat_bytes_encs(items.push(last)) =~= concat_bytes_encs(items) + bytes_enc(
            last,
        ));
    } else {
        assert(items.push(last).drop_first() =~= items.drop_first().push(last));
        lemma_concat_bytes_encs_snoc(items.drop_first(), last);
        assert(items.push(last)[0] == items[0]);
        assert(concat_bytes_encs(items.push(last)) == bytes_enc(items[0]) + concat_bytes_encs(
            items.drop_first().push(last),
        ));
        assert(concat_bytes_encs(items) == bytes_enc(items[0]) + concat_bytes_encs(
            items.drop_first(),
        ));
        assert(concat_bytes_encs(items.push(last)) =~= concat_bytes_encs(items) + bytes_enc(
            last,
        ));
    }
}

/// Build the scheduler request for a deployed spawn: this process's
/// argument strings and environment, the resources, the argument blob for
/// the new process, and whether the scheduler should hold the request
/// until capacity frees up rather than fail fast.
pub fn fabric_request(
    block: bool,
    resources: &Resources,
    args: &Vec<Vec<u8>>,
    vars: &Vec<Vec<u8>>,
    arg: &Vec<u8>,
) -> (r: Vec<u8>)
    requires
        bytes_list_wf(crate::channel::payloads(args@)),
        bytes_list_wf(crate::channel::payloads(vars@)),
        args@.len() < 0x100000000,
        vars@.len() < 0x100000000,
        arg@.len() < 0x100000000,
    ensures
        r@ == fabric_request_enc(
            block,
            *resources,
            crate::channel::payloads(args@),
            crate::channel::payloads(vars@),
            arg@,
        ),
{
    let mut out: Vec<u8> = Vec::new();
    out.push(if block {
        1
    } else {
        0
    });
    enc_resources(resources, &mut out);
    enc_bytes_list(args, &mut out);
    enc_bytes_list(vars, &mut out);
    enc_bytes(arg, &mut out);
    proof {
        assert(out@ =~= fabric_request_enc(
            block,
            *resources,
            crate::channel::payloads(args@),
            crate::channel::payloads(vars@),
            arg@,
        ));
    }
    out
}

/// Encoding of the scheduler's reply: the new pid, or why there is none.
pub open spec fn spawn_reply_enc(r: Result<Pid, TrySpawnError>) -> Seq<u8> {
    match r {
        Ok(p) => seq![0u8] + pid_enc(p),
        Err(TrySpawnError::NoCapacity) => seq![1u8],
        Err(TrySpawnError::Exec) => seq![2u8],
    }
}

/// Append the encoding of a scheduler reply.
pub fn enc_spawn_reply(r: &Result<Pid, TrySpawnError>, out: &mut Vec<u8>)
    ensures
        final(out)@ == old(out)@ + spawn_reply_enc(*r),
{
    match r {
        Ok(p) => {
            out.push(0);
            enc_pid(p, out);
        },
        Err(TrySpawnError::NoCapacity) => {
            out.push(1);
        },
        Err(TrySpawnError::Exec) => {
            out.push(2);
        },
    }
    proof {
        assert(out@ =~= old(out)@ + spawn_reply_enc(*r));
    }
}

/// What decoding a scheduler reply finds at the front of a byte string.
pub open spec fn spawn_reply_dec(s: Seq<u8>) -> Option<(Result<Pid, TrySpawnError>, int)> {
    if s.len() >= 1 && s[0] == 0 {
        if s.len() >= 7 {
            Some(
                (
                    Ok(
                        Pid {
                            ip: le_val(s.subrange(1, 5)) as u32,
                            port: le_val(s.subrange(5, 7)) as u16,
                        },
                    ),
                    7,
                ),
            )
        } else {
            None
        }
    } else if s.len() >= 1 && s[0] == 1 {
        Some((Err(TrySpawnError::NoCapacity), 1))
    } else if s.len() >= 1 && s[0] == 2 {
        Some((Err(TrySpawnError::Exec), 1))
    } else {
        None
    }
}

/// Decode the scheduler's reply at pos: the new pid, the scheduler's
/// refusal for want of capacity, or the fabric-side launch failure;
/// nothing when the bytes are no reply — a protocol violation the caller
/// treats as fatal for the scheduler connection.
pub fn dec_spawn_reply(buf: &Vec<u8>, pos: usize) -> (r: Option<
    (Result<Pid, TrySpawnError>, usize),
>)
    requires
        pos <= buf@.len(),
    ensures
        match spawn_reply_dec(buf@.subrange(pos as int, buf@.len() as int)) {
            Some(p) => r is Some && r.unwrap().0 == p.0 && r.unwrap().1 == pos + p.1,
            None => r is None,
        },
{
    let ghost tail = buf@.subrange(pos as int, buf@.len() as int);
    if pos >= buf.len() {
        return None;
    }
    let tag = buf[pos];
    proof {
        assert(tail[0] == buf@[pos as int]);
    }
    if tag == 0 {
        match dec_pid(buf, pos + 1) {
            Some((p, end)) => {
                proof {
                    assert(tail.subrange(1, 5) =~= buf@.subrange(pos + 1, pos + 5));
                    assert(tail.subrange(5, 7) =~= buf@.subrange(pos + 5, pos + 7));
                }
                Some((Ok(p), end))
            },
            None => None,
        }
    } else if tag == 1 {
        Some((Err(TrySpawnError::NoCapacity), pos + 1))
    } else if tag == 2 {
        Some((Err(TrySpawnError::Exec), pos + 1))
    } else {
        None
    }
}

/// Decoding a scheduler reply from its encoding followed by anything
/// yields the reply back.
pub proof fn lemma_spawn_reply_roundtrip(v: Result<Pid, TrySpawnError>, rest: Seq<u8>)
    ensures
        spawn_reply_dec(spawn_reply_enc(v) + rest) == Some(
            (v, spawn_reply_enc(v).len() as int),
        ),
{
    let whole = spawn_reply_enc(v) + rest;
    match v {
        Ok(p) => {
            crate::pid::lemma_pid_roundtrip(p, rest);
            assert(whole[0] == 0);
            assert(whole.subrange(1, 5) =~= (pid_enc(p) + rest).subrange(0, 4));
            assert(whole.subrange(5, 7) =~= (pid_enc(p) + rest).subrange(4, 6));
        },
        Err(TrySpawnError::NoCapacity) => {
            assert(whole[0] == 1);
        },
        Err(TrySpawnError::Exec) => {
            assert(whole[0] == 2);
        },
    }
}

/// How a spawn is to be carried out.
#[derive(Clone, Copy, PartialEq, Eq, Structural, Hash, Debug)]
pub struct SpawnDecision {
    /// Ask the fabric scheduler, rather than fork and exec locally.
    pub deployed: bool,
    /// Wait for capacity rather than fail fast.
    pub block: bool,
}

/// Decide a fail-fast spawn: rejected before bootstrap; otherwise the
/// runtime's mode decides the path, and the scheduler is not asked to
/// wait for capacity.
pub fn try_spawn(rt: &Runtime) -> (r: Option<SpawnDecision>)
    ensures
        !rt.initialized() ==> r is None,
        rt.initialized() ==> r == Some(
            SpawnDecision { deployed: rt.st.deployed, block: false },
        ),
{
    match rt.deployed() {
        Some(deployed) => Some(SpawnDecision { deployed, block: false }),
        None => None,
    }
}

/// Decide a blocking spawn: rejected before bootstrap; otherwise the
/// runtime's mode decides the path, and the scheduler holds the request
/// until capacity frees up.
pub fn spawn(rt: &Runtime) -> (r: Option<SpawnDecision>)
    ensures
        !rt.initialized() ==> r is None,
        rt.initialized() ==> r == Some(SpawnDecision { deployed: rt.st.deployed, block: true }),
{
    match rt.deployed() {
        Some(deployed) => Some(SpawnDecision { deployed, block: true }),
        None => None,
    }
}

} // verus!
