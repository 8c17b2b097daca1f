//! Lifecycle events between a worker's monitor and the bridge, and their
//! wire encodings.
//!
//! A monitor reports upward that its worker spawned a child, wrote bytes
//! to one of its standard streams, or exited; the bridge sends downward
//! bytes for the worker's stdin, or an order to kill it.

use vstd::prelude::*;
use crate::codec::{bytes_enc, dec_bytes, dec_u32, enc_bytes, enc_u32, le_val, u32_le};
use crate::pid::{dec_pid, enc_pid, pid_enc, Pid};
use crate::status::{dec_status, enc_status, status_dec, status_enc, ExitStatus};

verus! {

/// What a monitor tells the bridge about its worker.
#[derive(Clone, Debug)]
pub enum ProcessOutputEvent {
    /// The worker spawned a new process with this pid.
    Spawn(Pid),
    /// The worker wrote these bytes to this standard stream; an empty
    /// payload means the stream closed.
    Output(i32, Vec<u8>),
    /// The worker exited; this event is the monitor's last.
    Exit(ExitStatus),
}

/// What the bridge tells a monitor.
#[derive(Clone, Debug)]
pub enum ProcessInputEvent {
    /// Feed these bytes to the worker's standard input; an empty payload
    /// closes it.
    Input(i32, Vec<u8>),
    /// Kill the worker.
    Kill,
}

/// Spec form of an output event, its payload a byte sequence.
pub enum OutputEventModel {
    /// The worker spawned a new process with this pid.
    Spawn(Pid),
    /// The worker wrote these bytes to this standard stream.
    Output(int, Seq<u8>),
    /// The worker exited.
    Exit(ExitStatus),
}

/// Spec form of an input event, its payload a byte sequence.
pub enum InputEventModel {
    /// Bytes for the worker's standard input.
    Input(int, Seq<u8>),
    /// Kill the worker.
    Kill,
}

/// The spec form of an output event.
pub open spec fn poe_view(e: ProcessOutputEvent) -> OutputEventModel {
    match e {
        ProcessOutputEvent::Spawn(p) => OutputEventModel::Spawn(p),
        ProcessOutputEvent::Output(fd, bytes) => OutputEventModel::Output(fd as int, bytes@),
        ProcessOutputEvent::Exit(s) => OutputEventModel::Exit(s),
    }
}

/// The spec form of an input event.
pub open spec fn pie_view(e: ProcessInputEvent) -> InputEventModel {
    match e {
        ProcessInputEvent::Input(fd, bytes) => InputEventModel::Input(fd as int, bytes@),
        ProcessInputEvent::Kill => InputEventModel::Kill,
    }
}

/// An output event that can go on the wire: the stream number is a real
/// file descriptor and the payload fits its length prefix.
pub open spec fn poe_wf(v: OutputEventModel) -> bool {
    match v {
        OutputEventModel::Output(fd, bytes) => 0 <= fd < 0x80000000 && bytes.len() < 0x100000000,
        _ => true,
    }
}

/// An input event that can go on the wire.
pub open spec fn pie_wf(v: InputEventModel) -> bool {
    match v {
        InputEventModel::Input(fd, bytes) => 0 <= fd < 0x80000000 && bytes.len() < 0x100000000,
        _ => true,
    }
}

/// Encoding of an output event: a tag byte, then its fields.
pub open spec fn poe_enc(v: OutputEventModel) -> Seq<u8> {
    match v {
        OutputEventModel::Spawn(p) => seq![0u8] + pid_enc(p),
        OutputEventModel::Output(fd, bytes) => seq![1u8] + u32_le(fd as u32) + bytes_enc(bytes),
        OutputEventModel::Exit(s) => seq![2u8] + status_enc(s),
    }
}

/// Encoding of an input event: a tag byte, then its fields.
pub open spec fn pie_enc(v: InputEventModel) -> Seq<u8> {
    match v {
        InputEventModel::Input(fd, bytes) => seq![0u8] + u32_le(fd as u32) + bytes_enc(bytes),
        InputEventModel::Kill => seq![1u8],
    }
}

/// Append the encoding of an output event.
pub fn enc_output_event(e: &ProcessOutputEvent, out: &mut Vec<u8>)
    requires
        poe_wf(poe_view(*e)),
    ensures
        final(out)@ == old(out)@ + poe_enc(poe_view(*e)),
{
    match e {
        ProcessOutputEvent::Spawn(p) => {
            out.push(0);
            enc_pid(p, out);
        },
        ProcessOutputEvent::Output(fd, bytes) => {
            out.push(1);
            enc_u32(*fd as u32, out);
            enc_bytes(bytes, out);
        },
        ProcessOutputEvent::Exit(s) => {
            out.push(2);
            enc_status(s, out);
        },
    }
    proof {
        assert(out@ =~= old(out)@ + poe_enc(poe_view(*e)));
    }
}

/// Append the encoding of an input event.
pub fn enc_input_event(e: &ProcessInputEvent, out: &mut Vec<u8>)
    requires
        pie_wf(pie_view(*e)),
    ensures
        final(out)@ == old(out)@ + pie_enc(pie_view(*e)),
{
    match e {
        ProcessInputEvent::Input(fd, bytes) => {
            out.push(0);
            enc_u32(*fd as u32, out);
            enc_bytes(bytes, out);
        },
        ProcessInputEvent::Kill => {
            out.push(1);
        },
    }
    proof {
        assert(out@ =~= old(out)@ + pie_enc(pie_view(*e)));
    }
}

/// What decoding an output event finds at the front of a byte string.
pub open spec fn poe_dec(s: Seq<u8>) -> Option<(OutputEventModel, int)> {
    if s.len() >= 1 && s[0] == 0 {
        if s.len() >= 7 {
            Some(
                (
                    OutputEventModel::Spawn(
                        Pid {
                            ip: le_val(s.subrange(1, 5)) as u32,
                            port: le_val(s.subrange(5, 7)) as u16,
                        },
                    ),
                    7,
                ),
            )
        } else {
            None
        }
    } else if s.len() >= 1 && s[0] == 1 {
        if s.len() >= 9 {
            let fd = le_val(s.subrange(1, 5));
            let len = le_val(s.subrange(5, 9)) as int;
            if fd < 0x80000000 && 9 + len <= s.len() {
                Some((OutputEventModel::Output(fd as int, s.subrange(9, 9 + len)), 9 + len))
            } else {
                None
            }
        } else {
            None
        }
    } else if s.len() >= 1 && s[0] == 2 {
        match status_dec(s.skip(1)) {
            Some(p) => Some((OutputEventModel::Exit(p.0), 1 + p.1)),
            None => None,
        }
    } else {
        None
    }
}

/// What decoding an input event finds at the front of a byte string.
pub open spec fn pie_dec(s: Seq<u8>) -> Option<(InputEventModel, int)> {
    if s.len() >= 1 && s[0] == 0 {
        if s.len() >= 9 {
            let fd = le_val(s.subrange(1, 5));
            let len = le_val(s.subrange(5, 9)) as int;
            if fd < 0x80000000 && 9 + len <= s.len() {
                Some((InputEventModel::Input(fd as int, s.subrange(9, 9 + len)), 9 + len))
            } else {
                None
            }
        } else {
            None
        }
    } else if s.len() >= 1 && s[0] == 1 {
        Some((InputEventModel::Kill, 1))
    } else {
        None
    }
}

/// Decode an output event at pos.
pub fn dec_output_event(buf: &Vec<u8>, pos: usize) -> (r: Option<(ProcessOutputEvent, usize)>)
    requires
        pos <= buf@.len(),
    ensures
        match poe_dec(buf@.subrange(pos as int, buf@.len() as int)) {
            Some(p) => {
                &&& r is Some
                &&& poe_view(r.unwrap().0) == p.0
                &&& r.unwrap().1 == pos + p.1
            },
            None => r is None,
        },
{
    let ghost tail = buf@.subrange(pos as int, buf@.len() as int);
    if pos >= buf.len() {
        return None;
    }
    let tag = buf[pos];
    proof {
        assert(tail[0] == buf@[pos as int]);
    }
    if tag == 0 {
        match dec_pid(buf, pos + 1) {
            Some((p, end)) => {
                proof {
                    assert(tail.subrange(1, 5) =~= buf@.subrange(pos + 1, pos + 5));
                    assert(tail.subrange(5, 7) =~= buf@.subrange(pos + 5, pos + 7));
                }
                Some((ProcessOutputEvent::Spawn(p), end))
            },
            None => None,
        }
    } else if tag == 1 {
        let (fd, mid) = match dec_u32(buf, pos + 1) {
            Some(p) => p,
            None => {
                return None;
            },
        };
        proof {
            assert(tail.subrange(1, 5) =~= buf@.subrange(pos + 1, pos + 5));
        }
        if fd >= 0x80000000u32 {
            return None;
        }
        match dec_bytes(buf, mid) {
            Some((bytes, end)) => {
                proof {
                    assert(tail.subrange(5, 9) =~= buf@.subrange(pos + 5, pos + 9));
                    let len = le_val(tail.subrange(5, 9)) as int;
                    assert(bytes@ =~= tail.subrange(9, 9 + len));
                }
                Some((ProcessOutputEvent::Output(fd as i32, bytes), end))
            },
            None => {
                proof {
                    if tail.len() >= 9 {
                        assert(tail.subrange(5, 9) =~= buf@.subrange(pos + 5, pos + 9));
                    }
                }
                None
            },
        }
    } else if tag == 2 {
        proof {
            assert(tail.skip(1) =~= buf@.subrange(pos + 1, buf@.len() as int));
        }
        match dec_status(buf, pos + 1) {
            Some((s, end)) => Some((ProcessOutputEvent::Exit(s), end)),
            None => None,
        }
    } else {
        None
    }
}

/// Decode an input event at pos.
pub fn dec_input_event(buf: &Vec<u8>, pos: usize) -> (r: Option<(ProcessInputEvent, usize)>)
    requires
        pos <= buf@.len(),
    ensures
        match pie_dec(buf@.subrange(pos as int, buf@.len() as int)) {
            Some(p) => {
                &&& r is Some
                &&& pie_view(r.unwrap().0) == p.0
                &&& r.unwrap().1 == pos + p.1
            },
            None => r is None,
        },
{
    let ghost tail = buf@.subrange(pos as int, buf@.len() as int);
    if pos >= buf.len() {
        return None;
    }
    let tag = buf[pos];
    proof {
        assert(tail[0] == buf@[pos as int]);
    }
    if tag == 0 {
        let (fd, mid) = match dec_u32(buf, pos + 1) {
            Some(p) => p,
            None => {
                return None;
            },
        };
        proof {
            assert(tail.subrange(1, 5) =~= buf@.subrange(pos + 1, pos + 5));
        }
        if fd >= 0x80000000u32 {
            return None;
        }
        match dec_bytes(buf, mid) {
            Some((bytes, end)) => {
                proof {
                    assert(tail.subrange(5, 9) =~= buf@.subrange(pos + 5, pos + 9));
                    let len = le_val(tail.subrange(5, 9)) as int;
                    assert(bytes@ =~= tail.subrange(9, 9 + len));
                }
                Some((ProcessInputEvent::Input(fd as i32, bytes), end))
            },
            None => {
                proof {
                    if tail.len() >= 9 {
                        assert(tail.subrange(5, 9) =~= buf@.subrange(pos + 5, pos + 9));
                    }
                }
                None
            },
        }
    } else if tag == 1 {
        Some((ProcessInputEvent::Kill, pos + 1))
    } else {
        None
    }
}

/// Decoding an output event from its encoding followed by anything yields
/// the event back and consumes exactly its encoding.
pub proof fn lemma_poe_roundtrip(v: OutputEventModel, rest: Seq<u8>)
    requires
        poe_wf(v),
    ensures
        poe_dec(poe_enc(v) + rest) == Some((v, poe_enc(v).len() as int)),
{
    let whole = poe_enc(v) + rest;
    match v {
        OutputEventModel::Spawn(p) => {
            crate::pid::lemma_pid_roundtrip(p, rest);
            assert(whole[0] == 0);
            assert(whole.subrange(1, 5) =~= (pid_enc(p) + rest).subrange(0, 4));
            assert(whole.subrange(5, 7) =~= (pid_enc(p) + rest).subrange(4, 6));
        },
        OutputEventModel::Output(fd, bytes) => {
            crate::codec::lemma_u32_le_val(fd as u32);
            crate::codec::lemma_bytes_enc_parses(bytes, rest);
            assert(whole[0] == 1);
            assert(whole.subrange(1, 5) =~= u32_le(fd as u32));
            assert(whole.subrange(5, 9) =~= (bytes_enc(bytes) + rest).subrange(0, 4));
            assert(whole.subrange(9, 9 + bytes.len() as int) =~= (bytes_enc(bytes)
                + rest).subrange(4, 4 + bytes.len() as int));
        },
        OutputEventModel::Exit(s) => {
            crate::status::lemma_status_roundtrip(s, rest);
            assert(whole[0] == 2);
            assert(whole.skip(1) =~= status_enc(s) + rest);
        },
    }
}

/// Decoding an input event from its encoding followed by anything yields
/// the event back and consumes exactly its encoding.
pub proof fn lemma_pie_roundtrip(v: InputEventModel, rest: Seq<u8>)
    requires
        pie_wf(v),
    ensures
        pie_dec(pie_enc(v) + rest) == Some((v, pie_enc(v).len() as int)),
{
    let whole = pie_enc(v) + rest;
    match v {
        InputEventModel::Input(fd, bytes) => {
            crate::codec::lemma_u32_le_val(fd as u32);
            crate::codec::lemma_bytes_enc_parses(bytes, rest);
            assert(whole[0] == 0);
            assert(whole.subrange(1, 5) =~= u32_le(fd as u32));
            assert(whole.subrange(5, 9) =~= (bytes_enc(bytes) + rest).subrange(0, 4));
            assert(whole.subrange(9, 9 + bytes.len() as int) =~= (bytes_enc(bytes)
                + rest).subrange(4, 4 + bytes.len() as int));
        },
        InputEventModel::Kill => {
            assert(whole[0] == 1);
        },
    }
}

} // verus!
