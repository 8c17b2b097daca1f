//! Process identity: an IPv4 address and port naming a process's channel
//! listener, and the deterministic tie-break that decides which side of a
//! pid pair dials the single TCP connection between them.

use vstd::prelude::*;

verus! {

/// Identity of a process: the IPv4 address (as one big-endian number) and
/// port of its channel listener. Equality is structural.
#[derive(Clone, Copy, PartialEq, Eq, Structural, Hash, Debug)]
pub struct Pid {
    /// IPv4 address packed into one number, high octet first.
    pub ip: u32,
    /// Listener port.
    pub port: u16,
}

impl Pid {
    /// A pid as a single number, for ordering: address first, port second.
    pub open spec fn key(self) -> int {
        self.ip * 0x10000 + self.port
    }

    /// Make a pid from a listener's bound address.
    pub fn new(ip: u32, port: u16) -> (r: Pid)
        ensures
            r.ip == ip,
            r.port == port,
    {
        Pid { ip, port }
    }

    /// Strict order on pids: by address, then by port.
    pub fn lt(&self, other: &Pid) -> (r: bool)
        ensures
            r == (self.key() < other.key()),
    {
        self.ip < other.ip || (self.ip == other.ip && self.port < other.port)
    }
}

/// Which side of a pair opens the one TCP connection between them: the side
/// with the smaller pid dials, the other accepts.
pub open spec fn spec_dials(a: Pid, b: Pid) -> bool {
    a.key() < b.key()
}

/// Exec form of the tie-break: does `a` dial `b`?
pub fn dials(a: &Pid, b: &Pid) -> (r: bool)
    ensures
        r == spec_dials(*a, *b),
{
    a.lt(b)
}

/// Encoding of a pid on the wire: address, then port, six bytes.
pub open spec fn pid_enc(p: Pid) -> Seq<u8> {
    crate::codec::u32_le(p.ip) + crate::codec::u16_le(p.port)
}

/// Append the encoding of p.
pub fn enc_pid(p: &Pid, out: &mut Vec<u8>)
    ensures
        final(out)@ == old(out)@ + pid_enc(*p),
{
    crate::codec::enc_u32(p.ip, out);
    crate::codec::enc_u16(p.port, out);
    proof {
        assert(out@ =~= old(out)@ + pid_enc(*p));
    }
}

/// Decode a pid at pos; None when fewer than six bytes remain.
pub fn dec_pid(buf: &Vec<u8>, pos: usize) -> (r: Option<(Pid, usize)>)
    ensures
        pos + 6 <= buf@.len() ==> {
            &&& r is Some
            &&& r.unwrap().0.ip as nat == crate::codec::le_val(
                buf@.subrange(pos as int, pos + 4),
            )
            &&& r.unwrap().0.port as nat == crate::codec::le_val(buf@.subrange(pos + 4, pos + 6))
            &&& r.unwrap().1 == pos + 6
        },
        pos + 6 > buf@.len() ==> r is None,
{
    match crate::codec::dec_u32(buf, pos) {
        Some((ip, mid)) => match crate::codec::dec_u16(buf, mid) {
            Some((port, end)) => Some((Pid { ip, port }, end)),
            None => None,
        },
        None => None,
    }
}

/// Decoding a pid from its encoding followed by anything yields the pid
/// back and consumes exactly six bytes.
pub proof fn lemma_pid_roundtrip(p: Pid, rest: Seq<u8>)
    ensures
        pid_enc(p).len() == 6,
        ({
            let whole = pid_enc(p) + rest;
            &&& crate::codec::le_val(whole.subrange(0, 4)) == p.ip
            &&& crate::codec::le_val(whole.subrange(4, 6)) == p.port
        }),
{
    crate::codec::lemma_u32_le_val(p.ip);
    crate::codec::lemma_u16_le_val(p.port);
    let whole = pid_enc(p) + rest;
    assert(whole.subrange(0, 4) =~= crate::codec::u32_le(p.ip));
    assert(whole.subrange(4, 6) =~= crate::codec::u16_le(p.port));
}

/// Distinct pids have distinct keys, so the order underlying the tie-break
/// never sees a tie.
pub proof fn lemma_pid_key_injective(a: Pid, b: Pid)
    ensures
        (a.key() == b.key()) <==> (a == b),
{
}

/// The tie-break is deterministic and picks exactly one dialer out of any
/// pair of distinct pids: it depends on the two pids alone, so a restart
/// with the same pids decides the same way, and the two sides never both
/// dial nor both accept.
pub proof fn lemma_tie_break_one_dialer(a: Pid, b: Pid)
    requires
        a != b,
    ensures
        spec_dials(a, b) <==> !spec_dials(b, a),
{
    lemma_pid_key_injective(a, b);
}

} // verus!
