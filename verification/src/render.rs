//! Rendering the bridge's output: one line per event, either readable or
//! as a JSON object, written byte-exactly as these specifications say.

use vstd::prelude::*;
use crate::bridge::DeployOutputEvent;
use crate::digits::{dec_digits, render_u64};
use crate::pid::Pid;
use crate::status::ExitStatus;

verus! {

/// An address octet of a pid: octet 0 is the highest.
pub open spec fn octet(p: Pid, k: int) -> nat {
    ((p.ip as nat) / pow_octet(k)) % 256
}

/// The divisor that brings octet k to the low byte.
pub open spec fn pow_octet(k: int) -> nat {
    if k == 0 {
        0x1000000
    } else if k == 1 {
        0x10000
    } else if k == 2 {
        0x100
    } else {
        1
    }
}

/// The text of a pid: the four address octets joined by dots, a colon,
/// the port.
pub open spec fn pid_text(p: Pid) -> Seq<u8> {
    dec_digits(octet(p, 0)) + seq![46u8] + dec_digits(octet(p, 1)) + seq![46u8] + dec_digits(
        octet(p, 2),
    ) + seq![46u8] + dec_digits(octet(p, 3)) + seq![58u8] + dec_digits(p.port as nat)
}

/// Append the text of a pid.
pub fn render_pid(p: &Pid, out: &mut Vec<u8>)
    ensures
        final(out)@ == old(out)@ + pid_text(*p),
{
    render_u64(((p.ip / 0x1000000) % 256) as u64, out);
    out.push(46);
    render_u64(((p.ip / 0x10000) % 256) as u64, out);
    out.push(46);
    render_u64(((p.ip / 0x100) % 256) as u64, out);
    out.push(46);
    render_u64((p.ip % 256) as u64, out);
    out.push(58);
    render_u64(p.port as u64, out);
    proof {
        assert(out@ =~= old(out)@ + pid_text(*p));
    }
}

/// The text of an exit status: `ok`, `code N`, or `signal N`.
pub open spec fn status_text(s: ExitStatus) -> Seq<u8> {
    match s {
        ExitStatus::Success => seq![111u8, 107u8],
        ExitStatus::Code(c) => seq![99u8, 111u8, 100u8, 101u8, 32u8] + dec_digits(c as nat),
        ExitStatus::Signaled(g) => seq![115u8, 105u8, 103u8, 110u8, 97u8, 108u8, 32u8]
            + dec_digits(g as nat),
    }
}

/// Append the text of an exit status.
pub fn render_status(s: &ExitStatus, out: &mut Vec<u8>)
    ensures
        final(out)@ == old(out)@ + status_text(*s),
{
    match *s {
        ExitStatus::Success => {
            out.push(111);
            out.push(107);
        },
        ExitStatus::Code(c) => {
            out.push(99);
            out.push(111);
            out.push(100);
            out.push(101);
            out.push(32);
            render_u64(c as u64, out);
        },
        ExitStatus::Signaled(g) => {
            out.push(115);
            out.push(105);
            out.push(103);
            out.push(110);
            out.push(97);
            out.push(108);
            out.push(32);
            render_u64(g as u64, out);
        },
    }
    proof {
        assert(out@ =~= old(out)@ + status_text(*s));
    }
}

/// The stream marker of a readable output line: `> ` for standard out,
/// `! ` for standard error, `? ` for anything else.
pub open spec fn stream_mark(fd: int) -> Seq<u8> {
    if fd == 1 {
        seq![62u8, 32u8]
    } else if fd == 2 {
        seq![33u8, 32u8]
    } else {
        seq![63u8, 32u8]
    }
}

/// The readable line for one event.
pub open spec fn human_line(e: DeployOutputEvent) -> Seq<u8> {
    match e {
        DeployOutputEvent::Spawn(a, b) => pid_text(a) + seq![
            32u8, 115u8, 112u8, 97u8, 119u8, 110u8, 101u8, 100u8, 32u8,
        ] + pid_text(b) + seq![10u8],
        DeployOutputEvent::Output(a, fd, bytes) => pid_text(a) + stream_mark(fd as int) + bytes@
            + seq![10u8],
        DeployOutputEvent::Exit(a, s) => pid_text(a) + seq![
            32u8, 101u8, 120u8, 105u8, 116u8, 101u8, 100u8, 32u8,
        ] + status_text(s) + seq![10u8],
    }
}

/// Render one event as its readable line: `A spawned B`, the bytes a
/// process wrote behind its pid and stream marker, or `A exited S`.
pub fn render_human(e: &DeployOutputEvent) -> (out: Vec<u8>)
    ensures
        out@ == human_line(*e),
{
    let mut out: Vec<u8> = Vec::new();
    match e {
        DeployOutputEvent::Spawn(a, b) => {
            render_pid(a, &mut out);
            out.push(32);
            out.push(115);
            out.push(112);
            out.push(97);
            out.push(119);
            out.push(110);
            out.push(101);
            out.push(100);
            out.push(32);
            render_pid(b, &mut out);
            out.push(10);
        },
        DeployOutputEvent::Output(a, fd, bytes) => {
            render_pid(a, &mut out);
            if *fd == 1 {
                out.push(62);
            } else if *fd == 2 {
                out.push(33);
            } else {
                out.push(63);
            }
            out.push(32);
            crate::codec::append_bytes(bytes, &mut out);
            out.push(10);
        },
        DeployOutputEvent::Exit(a, s) => {
            render_pid(a, &mut out);
            out.push(32);
            out.push(101);
            out.push(120);
            out.push(105);
            out.push(116);
            out.push(101);
            out.push(100);
            out.push(32);
            render_status(s, &mut out);
            out.push(10);
        },
    }
    proof {
        assert(out@ =~= human_line(*e));
    }
    out
}

/// The items of a JSON array of byte values, comma-joined.
pub open spec fn bytes_json_items(s: Seq<u8>) -> Seq<u8>
    decreases s.len(),
{
    if s.len() == 0 {
        Seq::empty()
    } else if s.len() == 1 {
        dec_digits(s[0] as nat)
    } else {
        dec_digits(s[0] as nat) + seq![44u8] + bytes_json_items(s.drop_first())
    }
}

proof fn lemma_bytes_json_items_snoc(s: Seq<u8>, b: u8)
    ensures
        bytes_json_items(s.push(b)) == if s.len() == 0 {
            dec_digits(b as nat)
        } else {
            bytes_json_items(s) + seq![44u8] + dec_digits(b as nat)
        },
    decreases s.len(),
{
    if s.len() == 0 {
        assert(s.push(b) =~= seq![b]);
        assert(bytes_json_items(seq![b]) == dec_digits(b as nat));
    } else {
        assert(s.push(b).drop_first() =~= s.drop_first().push(b));
        lemma_bytes_json_items_snoc(s.drop_first(), b);
        assert(s.push(b)[0] == s[0]);
        assert(s.push(b).len() >= 2);
        if s.len() == 1 {
            assert(bytes_json_items(s.push(b)) =~= bytes_json_items(s) + seq![44u8] + dec_digits(
                b as nat,
            ));
        } else {
            assert(bytes_json_items(s.push(b)) =~= bytes_json_items(s) + seq![44u8] + dec_digits(
                b as nat,
            ));
        }
    }
}

/// The JSON array of a byte string's values.
pub open spec fn bytes_json(s: Seq<u8>) -> Seq<u8> {
    seq![91u8] + bytes_json_items(s) + seq![93u8]
}

/// Append the JSON array of a byte string's values.
pub fn render_bytes_json(bytes: &Vec<u8>, out: &mut Vec<u8>)
    ensures
        final(out)@ == old(out)@ + bytes_json(bytes@),
{
    out.push(91);
    let mut i: usize = 0;
    while i < bytes.len()
        invariant
            i <= bytes@.len(),
            out@ =~= old(out)@ + seq![91u8] + bytes_json_items(bytes@.take(i as int)),
        decreases bytes@.len() - i,
    {
        if i > 0 {
            out.push(44);
        }
        render_u64(bytes[i] as u64, out);
        i = i + 1;
        proof {
            assert(bytes@.take(i as int) =~= bytes@.take(i - 1).push(bytes@[i - 1]));
            lemma_bytes_json_items_snoc(bytes@.take(i - 1), bytes@[i - 1]);
            assert(out@ =~= old(out)@ + seq![91u8] + bytes_json_items(bytes@.take(i as int)));
        }
    }
    out.push(93);
    proof {
        assert(bytes@.take(bytes@.len() as int) =~= bytes@);
        assert(out@ =~= old(out)@ + bytes_json(bytes@));
    }
}

/// `{"spawn":{"parent":"` — the JSON line openings are fixed texts.
pub open spec fn json_spawn_head() -> Seq<u8> {
    seq![
        123u8, 34u8, 115u8, 112u8, 97u8, 119u8, 110u8, 34u8, 58u8, 123u8, 34u8, 112u8, 97u8,
        114u8, 101u8, 110u8, 116u8, 34u8, 58u8, 34u8,
    ]
}

/// `","pid":"` between the two pids of a spawn line.
pub open spec fn json_spawn_mid() -> Seq<u8> {
    seq![34u8, 44u8, 34u8, 112u8, 105u8, 100u8, 34u8, 58u8, 34u8]
}

/// `"}}` and the line break closing a spawn line.
pub open spec fn json_obj_tail() -> Seq<u8> {
    seq![34u8, 125u8, 125u8, 10u8]
}

/// `{"output":{"pid":"`.
pub open spec fn json_output_head() -> Seq<u8> {
    seq![
        123u8, 34u8, 111u8, 117u8, 116u8, 112u8, 117u8, 116u8, 34u8, 58u8, 123u8, 34u8, 112u8,
        105u8, 100u8, 34u8, 58u8, 34u8,
    ]
}

/// `","fd":`.
pub open spec fn json_output_fd() -> Seq<u8> {
    seq![34u8, 44u8, 34u8, 102u8, 100u8, 34u8, 58u8]
}

/// `,"bytes":`.
pub open spec fn json_output_bytes() -> Seq<u8> {
    seq![44u8, 34u8, 98u8, 121u8, 116u8, 101u8, 115u8, 34u8, 58u8]
}

/// `}}` and the line break closing an output line.
pub open spec fn json_plain_tail() -> Seq<u8> {
    seq![125u8, 125u8, 10u8]
}

/// `{"exit":{"pid":"`.
pub open spec fn json_exit_head() -> Seq<u8> {
    seq![
        123u8, 34u8, 101u8, 120u8, 105u8, 116u8, 34u8, 58u8, 123u8, 34u8, 112u8, 105u8, 100u8,
        34u8, 58u8, 34u8,
    ]
}

/// `","code":`.
pub open spec fn json_exit_code() -> Seq<u8> {
    seq![34u8, 44u8, 34u8, 99u8, 111u8, 100u8, 101u8, 34u8, 58u8]
}

/// The exit code a status renders as: zero for success, the code, or the
/// conventional 128 plus the signal.
pub open spec fn status_code(s: ExitStatus) -> nat {
    match s {
        ExitStatus::Success => 0,
        ExitStatus::Code(c) => c as nat,
        ExitStatus::Signaled(g) => (128 + g) as nat,
    }
}

/// The JSON line for one event: a spawn names parent and child, an output
/// names the pid, the stream and the byte values, an exit names the pid
/// and the exit code.
pub open spec fn json_line(e: DeployOutputEvent) -> Seq<u8> {
    match e {
        DeployOutputEvent::Spawn(a, b) => json_spawn_head() + pid_text(a) + json_spawn_mid()
            + pid_text(b) + json_obj_tail(),
        DeployOutputEvent::Output(a, fd, bytes) => json_output_head() + pid_text(a)
            + json_output_fd() + dec_digits(fd as nat) + json_output_bytes() + bytes_json(bytes@)
            + json_plain_tail(),
        DeployOutputEvent::Exit(a, s) => json_exit_head() + pid_text(a) + json_exit_code()
            + dec_digits(status_code(s)) + json_plain_tail(),
    }
}

/// Append each byte of a fixed text.
fn push_all(out: &mut Vec<u8>, bytes: &Vec<u8>)
    ensures
        final(out)@ == old(out)@ + bytes@,
{
    crate::codec::append_bytes(bytes, out);
}

/// Render one event as its JSON line. An output event's stream number is
/// rendered only for real descriptors.
#[verifier::rlimit(60)]
pub fn render_json(e: &DeployOutputEvent) -> (out: Vec<u8>)
    requires
        e matches DeployOutputEvent::Output(_, fd, _) ==> fd >= 0,
    ensures
        out@ == json_line(*e),
{
    let mut out: Vec<u8> = Vec::new();
    match e {
        DeployOutputEvent::Spawn(a, b) => {
            let mut head: Vec<u8> = Vec::new();
            head.push(123);
            head.push(34);
            head.push(115);
            head.push(112);
            head.push(97);
            head.push(119);
            head.push(110);
            head.push(34);
            head.push(58);
            head.push(123);
            head.push(34);
            head.push(112);
            head.push(97);
            head.push(114);
            head.push(101);
            head.push(110);
            head.push(116);
            head.push(34);
            head.push(58);
            head.push(34);
            proof {
                assert(head@ =~= json_spawn_head());
            }
            push_all(&mut out, &head);
            render_pid(a, &mut out);
            let mut mid: Vec<u8> = Vec::new();
            mid.push(34);
            mid.push(44);
            mid.push(34);
            mid.push(112);
            mid.push(105);
            mid.push(100);
            mid.push(34);
            mid.push(58);
            mid.push(34);
            proof {
                assert(mid@ =~= json_spawn_mid());
            }
            push_all(&mut out, &mid);
            render_pid(b, &mut out);
            out.push(34);
            out.push(125);
            out.push(125);
            out.push(10);
        },
        DeployOutputEvent::Output(a, fd, bytes) => {
            let mut head: Vec<u8> = Vec::new();
            head.push(123);
            head.push(34);
            head.push(111);
            head.push(117);
            head.push(116);
            head.push(112);
            head.push(117);
            head.push(116);
            head.push(34);
            head.push(58);
            head.push(123);
            head.push(34);
            head.push(112);
            head.push(105);
            head.push(100);
            head.push(34);
            head.push(58);
            head.push(34);
            proof {
                assert(head@ =~= json_output_head());
            }
            push_all(&mut out, &head);
            render_pid(a, &mut out);
            out.push(34);
            out.push(44);
            out.push(34);
            out.push(102);
            out.push(100);
            out.push(34);
            out.push(58);
            render_u64(*fd as u64, &mut out);
            out.push(44);
            out.push(34);
            out.push(98);
            out.push(121);
            out.push(116);
            out.push(101);
            out.push(115);
            out.push(34);
            out.push(58);
            render_bytes_json(bytes, &mut out);
            out.push(125);
            out.push(125);
            out.push(10);
        },
        DeployOutputEvent::Exit(a, s) => {
            let mut head: Vec<u8> = Vec::new();
            head.push(123);
            head.push(34);
            head.push(101);
            head.push(120);
            head.push(105);
            head.push(116);
            head.push(34);
            head.push(58);
            head.push(123);
            head.push(34);
            head.push(112);
            head.push(105);
            head.push(100);
            head.push(34);
            head.push(58);
            head.push(34);
            proof {
                assert(head@ =~= json_exit_head());
            }
            push_all(&mut out, &head);
            render_pid(a, &mut out);
            out.push(34);
            out.push(44);
            out.push(34);
            out.push(99);
            out.push(111);
            out.push(100);
            out.push(101);
            out.push(34);
            out.push(58);
            let code: u64 = match s {
                ExitStatus::Success => 0,
                ExitStatus::Code(c) => *c as u64,
                ExitStatus::Signaled(g) => 128 + (*g as u64),
            };
            render_u64(code, &mut out);
            out.push(125);
            out.push(125);
            out.push(10);
        },
    }
    proof {
        assert(out@ =~= json_line(*e));
    }
    out
}

} // verus!
