//! Resource requirements attached to every spawn request: memory in bytes
//! and a CPU share in 1/65536ths of a core. Published to a child process
//! through its environment so it learns its own limits.

use vstd::prelude::*;
use crate::codec::{dec_u32, dec_u64, enc_u32, enc_u64, le_val, u32_le, u64_le};

verus! {

/// Memory, in bytes.
#[derive(Clone, Copy, PartialEq, Eq, Structural, Hash, Debug)]
pub struct Mem(pub u64);

/// CPU share, in 1/65536ths of a core: 65536 is one full core.
#[derive(Clone, Copy, PartialEq, Eq, Structural, Hash, Debug)]
pub struct Cpu(pub u32);

/// One full core, in the fixed-point unit of [`Cpu`].
pub const CPU_UNIT: u32 = 65536;

/// Memory and CPU requirements of one process.
#[derive(Clone, Copy, PartialEq, Eq, Structural, Hash, Debug)]
pub struct Resources {
    /// Memory the process may use.
    pub mem: Mem,
    /// CPU share the process may use.
    pub cpu: Cpu,
}

impl Default for Resources {
    /// The requirements assumed when a spawn names none: 128 MiB of memory
    /// and a sixteenth of a core.
    fn default() -> (r: Resources)
        ensures
            r.mem.0 == 0x8000000,
            r.cpu.0 == 4096,
    {
        Resources { mem: Mem(0x8000000), cpu: Cpu(4096) }
    }
}

/// Encoding of a resource record: memory, then CPU share.
pub open spec fn resources_enc(r: Resources) -> Seq<u8> {
    u64_le(r.mem.0) + u32_le(r.cpu.0)
}

/// Append the encoding of r.
pub fn enc_resources(r: &Resources, out: &mut Vec<u8>)
    ensures
        final(out)@ == old(out)@ + resources_enc(*r),
{
    enc_u64(r.mem.0, out);
    enc_u32(r.cpu.0, out);
    proof {
        assert(out@ =~= old(out)@ + resources_enc(*r));
    }
}

/// Decode a resource record at pos; None when fewer than twelve bytes
/// remain.
pub fn dec_resources(buf: &Vec<u8>, pos: usize) -> (r: Option<(Resources, usize)>)
    ensures
        pos + 12 <= buf@.len() ==> {
            &&& r is Some
            &&& r.unwrap().0.mem.0 as nat == le_val(buf@.subrange(pos as int, pos + 8))
            &&& r.unwrap().0.cpu.0 as nat == le_val(buf@.subrange(pos + 8, pos + 12))
            &&& r.unwrap().1 == pos + 12
        },
        pos + 12 > buf@.len() ==> r is None,
{
    match dec_u64(buf, pos) {
        Some((mem, mid)) => match dec_u32(buf, mid) {
            Some((cpu, end)) => Some((Resources { mem: Mem(mem), cpu: Cpu(cpu) }, end)),
            None => None,
        },
        None => None,
    }
}

/// Decoding a resource record from its encoding followed by anything yields
/// the record back and consumes exactly twelve bytes.
pub proof fn lemma_resources_roundtrip(r: Resources, rest: Seq<u8>)
    ensures
        resources_enc(r).len() == 12,
        ({
            let whole = resources_enc(r) + rest;
            &&& le_val(whole.subrange(0, 8)) == r.mem.0
            &&& le_val(whole.subrange(8, 12)) == r.cpu.0
        }),
{
    crate::codec::lemma_u64_le_val(r.mem.0);
    crate::codec::lemma_u32_le_val(r.cpu.0);
    let whole = resources_enc(r) + rest;
    assert(whole.subrange(0, 8) =~= u64_le(r.mem.0));
    assert(whole.subrange(8, 12) =~= u32_le(r.cpu.0));
}

/// The text a parent publishes to its child to say what it granted: a
/// JSON record of the memory bytes and the CPU share.
pub open spec fn resources_json(r: Resources) -> Seq<u8> {
    json_head() + crate::digits::dec_digits(r.mem.0 as nat) + json_mid()
        + crate::digits::dec_digits(r.cpu.0 as nat) + json_tail()
}

/// The opening of the record up to the memory value: `{"mem":`.
pub open spec fn json_head() -> Seq<u8> {
    seq![123u8, 34u8, 109u8, 101u8, 109u8, 34u8, 58u8]
}

/// Between the two values: `,"cpu":`.
pub open spec fn json_mid() -> Seq<u8> {
    seq![44u8, 34u8, 99u8, 112u8, 117u8, 34u8, 58u8]
}

/// The closing brace.
pub open spec fn json_tail() -> Seq<u8> {
    seq![125u8]
}

/// Render the record as its canonical JSON text.
pub fn render_resources_json(r: &Resources) -> (out: Vec<u8>)
    ensures
        out@ == resources_json(*r),
{
    let mut out: Vec<u8> = Vec::new();
    out.push(123);
    out.push(34);
    out.push(109);
    out.push(101);
    out.push(109);
    out.push(34);
    out.push(58);
    proof {
        assert(out@ =~= json_head());
    }
    crate::digits::render_u64(r.mem.0, &mut out);
    let ghost snap1 = out@;
    out.push(44);
    out.push(34);
    out.push(99);
    out.push(112);
    out.push(117);
    out.push(34);
    out.push(58);
    proof {
        assert(out@ =~= snap1 + json_mid());
    }
    crate::digits::render_u64(r.cpu.0 as u64, &mut out);
    out.push(125);
    proof {
        assert(out@ =~= resources_json(*r));
    }
    out
}

/// Does the buffer carry exactly this byte string at pos? The position
/// after it, when it does.
fn expect_bytes(buf: &Vec<u8>, pos: usize, lit: &Vec<u8>) -> (r: Option<usize>)
    requires
        pos <= buf@.len(),
        lit@.len() > 0,
    ensures
        match r {
            Some(end) => end == pos + lit@.len() && end <= buf@.len() && buf@.subrange(
                pos as int,
                end as int,
            ) == lit@,
            None => !(pos + lit@.len() <= buf@.len() && buf@.subrange(
                pos as int,
                pos + lit@.len(),
            ) == lit@),
        },
{
    let n = lit.len();
    let blen: usize = buf.len();
    if blen - pos < n {
        proof {
            if pos + lit@.len() <= buf@.len() {
                assert(false);
            }
        }
        return None;
    }
    let mut i: usize = 0;
    while i < n
        invariant
            i <= n,
            n == lit@.len(),
            blen == buf@.len(),
            pos + n <= blen,
            forall|k: int| 0 <= k < i ==> buf@[pos + k] == lit@[k],
        decreases n - i,
    {
        if buf[pos + i] != lit[i] {
            proof {
                assert(buf@.subrange(pos as int, pos + lit@.len())[i as int] == buf@[pos + i]);
            }
            return None;
        }
        i = i + 1;
    }
    proof {
        assert(buf@.subrange(pos as int, pos + lit@.len()) =~= lit@);
    }
    Some(pos + n)
}

/// Read a resource record from its JSON text. Exactly the canonical texts
/// are accepted: the text of any record parses to that record, and
/// whatever parses is the canonical text of its result — no other bytes
/// are accepted.
pub fn parse_resources_json(buf: &Vec<u8>) -> (r: Option<Resources>)
    ensures
        forall|rr: Resources| buf@ == resources_json(rr) ==> r == Some(rr),
        r is Some ==> buf@ == resources_json(r.unwrap()),
{
    let mut head: Vec<u8> = Vec::new();
    head.push(123);
    head.push(34);
    head.push(109);
    head.push(101);
    head.push(109);
    head.push(34);
    head.push(58);
    proof {
        assert(head@ =~= json_head());
    }
    let mut mid: Vec<u8> = Vec::new();
    mid.push(44);
    mid.push(34);
    mid.push(99);
    mid.push(112);
    mid.push(117);
    mid.push(34);
    mid.push(58);
    proof {
        assert(mid@ =~= json_mid());
    }
    let p1 = match expect_bytes(buf, 0, &head) {
        Some(p) => p,
        None => {
            proof {
                lemma_json_shape();
                assert forall|rr: Resources| buf@ == resources_json(rr) implies false by {
                    lemma_parse_run(buf@, rr);
                }
            }
            return None;
        },
    };
    let (mem, p2) = match crate::digits::parse_u64(buf, p1) {
        Some(p) => p,
        None => {
            proof {
                lemma_json_shape();
                assert forall|rr: Resources| buf@ == resources_json(rr) implies false by {
                    lemma_parse_run(buf@, rr);
                    let md = crate::digits::dec_digits(rr.mem.0 as nat);
                    assert(buf@.subrange(p1 as int, p1 + md.len()) == md);
                    assert(!crate::digits::is_digit(buf@[p1 + md.len()]));
                }
            }
            return None;
        },
    };
    if buf[p1] == 48 && p2 > p1 + 1 {
        proof {
            lemma_json_shape();
            assert forall|rr: Resources| buf@ == resources_json(rr) implies false by {
                lemma_parse_run(buf@, rr);
                crate::digits::lemma_dec_digits_no_leading_zero(rr.mem.0 as nat);
                assert(buf@[7] == crate::digits::dec_digits(rr.mem.0 as nat)[0]);
            }
        }
        return None;
    }
    let p3 = match expect_bytes(buf, p2, &mid) {
        Some(p) => p,
        None => {
            proof {
                lemma_json_shape();
                assert forall|rr: Resources| buf@ == resources_json(rr) implies false by {
                    lemma_mem_run_pinned(buf@, rr, p2 as int);
                    lemma_parse_run(buf@, rr);
                    assert(buf@.subrange(p2 as int, p2 + 7) == json_mid());
                }
            }
            return None;
        },
    };
    let (cpu64, p4) = match crate::digits::parse_u64(buf, p3) {
        Some(p) => p,
        None => {
            proof {
                lemma_json_shape();
                assert forall|rr: Resources| buf@ == resources_json(rr) implies false by {
                    lemma_mem_run_pinned(buf@, rr, p2 as int);
                    lemma_parse_run(buf@, rr);
                    lemma_parse_cpu_run(buf@, rr);
                    let cd = crate::digits::dec_digits(rr.cpu.0 as nat);
                    assert(buf@.subrange(p3 as int, p3 + cd.len()) == cd);
                    assert(!crate::digits::is_digit(buf@[p3 + cd.len()]));
                }
            }
            return None;
        },
    };
    if (buf[p3] == 48 && p4 > p3 + 1) || cpu64 > 0xFFFFFFFFu64 || p4 >= buf.len() || buf[p4] != 125
        || p4 + 1 != buf.len() {
        proof {
            lemma_json_shape();
            assert forall|rr: Resources| buf@ == resources_json(rr) implies false by {
                lemma_mem_run_pinned(buf@, rr, p2 as int);
                lemma_parse_run(buf@, rr);
                lemma_cpu_run_pinned(buf@, rr, p4 as int);
                lemma_parse_cpu_run(buf@, rr);
                crate::digits::lemma_dec_digits_no_leading_zero(rr.cpu.0 as nat);
                assert(buf@[p3 as int] == crate::digits::dec_digits(rr.cpu.0 as nat)[0]);
            }
        }
        return None;
    }
    let result = Resources { mem: Mem(mem), cpu: Cpu(cpu64 as u32) };
    proof {
        let memrun = buf@.subrange(p1 as int, p2 as int);
        let cpurun = buf@.subrange(p3 as int, p4 as int);
        crate::digits::lemma_digits_unique(memrun);
        crate::digits::lemma_digits_unique(cpurun);
        assert(buf@ =~= resources_json(result));
        assert forall|rr: Resources| buf@ == resources_json(rr) implies Some(result) == Some::<
            Resources,
        >(rr) by {
            lemma_json_injective(result, rr);
        }
    }
    Some(result)
}

/// The canonical text is long enough for every field the parser reads.
proof fn lemma_json_shape()
    ensures
        json_head().len() == 7,
        json_mid().len() == 7,
        json_tail().len() == 1,
{
}

/// In the canonical text, the memory digits sit right after the head and
/// end at the comma: the digit run the parser reads is exactly them.
proof fn lemma_parse_run(s: Seq<u8>, rr: Resources)
    requires
        s == resources_json(rr),
    ensures
        ({
            let md = crate::digits::dec_digits(rr.mem.0 as nat);
            &&& s.len() == 15 + md.len() + crate::digits::dec_digits(rr.cpu.0 as nat).len()
            &&& s.subrange(7, 7 + md.len() as int) == md
            &&& s[7 + md.len() as int] == 44
            &&& s.subrange(0, 7) == json_head()
            &&& s.subrange(7 + md.len() as int, 14 + md.len() as int) == json_mid()
        }),
{
    let md = crate::digits::dec_digits(rr.mem.0 as nat);
    let cd = crate::digits::dec_digits(rr.cpu.0 as nat);
    crate::digits::lemma_dec_digits_are_digits(rr.mem.0 as nat);
    crate::digits::lemma_dec_digits_are_digits(rr.cpu.0 as nat);
    assert(s.subrange(0, 7) =~= json_head());
    assert(s.subrange(7, 7 + md.len() as int) =~= md);
    assert(s.subrange(7 + md.len() as int, 14 + md.len() as int) =~= json_mid());
    assert(s[7 + md.len() as int] == json_mid()[0]);
}

/// Likewise for the CPU digits: they sit after the separator and end at
/// the closing brace.
proof fn lemma_parse_cpu_run(s: Seq<u8>, rr: Resources)
    requires
        s == resources_json(rr),
    ensures
        ({
            let md = crate::digits::dec_digits(rr.mem.0 as nat);
            let cd = crate::digits::dec_digits(rr.cpu.0 as nat);
            &&& s.subrange(14 + md.len() as int, 14 + md.len() + cd.len() as int) == cd
            &&& s[14 + md.len() + cd.len() as int] == 125
            &&& 14 + md.len() + cd.len() + 1 == s.len()
        }),
{
    let md = crate::digits::dec_digits(rr.mem.0 as nat);
    let cd = crate::digits::dec_digits(rr.cpu.0 as nat);
    assert(s.subrange(14 + md.len() as int, 14 + md.len() + cd.len() as int) =~= cd);
}

/// A maximal digit run that starts where the memory digits start is the
/// memory digits: it can neither stop inside them nor run past the comma.
proof fn lemma_mem_run_pinned(s: Seq<u8>, rr: Resources, p2: int)
    requires
        s == resources_json(rr),
        7 < p2 <= s.len(),
        crate::digits::is_digits(s.subrange(7, p2)),
        p2 == s.len() || !crate::digits::is_digit(s[p2]),
    ensures
        p2 == 7 + crate::digits::dec_digits(rr.mem.0 as nat).len(),
        s.subrange(7, p2) == crate::digits::dec_digits(rr.mem.0 as nat),
        crate::digits::digits_val(s.subrange(7, p2)) == rr.mem.0,
{
    lemma_parse_run(s, rr);
    let md = crate::digits::dec_digits(rr.mem.0 as nat);
    crate::digits::lemma_dec_digits_are_digits(rr.mem.0 as nat);
    if p2 < 7 + md.len() {
        assert(s[p2] == md[p2 - 7]);
        assert(crate::digits::is_digit(md[p2 - 7]));
        assert(false);
    }
    if p2 > 7 + md.len() {
        assert(s.subrange(7, p2)[md.len() as int] == s[7 + md.len() as int]);
        assert(crate::digits::is_digit(s[7 + md.len() as int]));
        assert(false);
    }
    assert(s.subrange(7, p2) =~= md);
    crate::digits::lemma_digits_roundtrip(rr.mem.0 as nat);
}

/// Likewise for the CPU digits, which start after the separator and stop
/// at the closing brace.
proof fn lemma_cpu_run_pinned(s: Seq<u8>, rr: Resources, p4: int)
    requires
        s == resources_json(rr),
        ({
            let start = 14 + crate::digits::dec_digits(rr.mem.0 as nat).len() as int;
            &&& start < p4 <= s.len()
            &&& crate::digits::is_digits(s.subrange(start, p4))
            &&& (p4 == s.len() || !crate::digits::is_digit(s[p4]))
        }),
    ensures
        p4 == 14 + crate::digits::dec_digits(rr.mem.0 as nat).len()
            + crate::digits::dec_digits(rr.cpu.0 as nat).len(),
        s.subrange(14 + crate::digits::dec_digits(rr.mem.0 as nat).len() as int, p4)
            == crate::digits::dec_digits(rr.cpu.0 as nat),
        crate::digits::digits_val(
            s.subrange(14 + crate::digits::dec_digits(rr.mem.0 as nat).len() as int, p4),
        ) == rr.cpu.0,
{
    lemma_parse_run(s, rr);
    lemma_parse_cpu_run(s, rr);
    let start = 14 + crate::digits::dec_digits(rr.mem.0 as nat).len() as int;
    let cd = crate::digits::dec_digits(rr.cpu.0 as nat);
    crate::digits::lemma_dec_digits_are_digits(rr.cpu.0 as nat);
    if p4 < start + cd.len() {
        assert(s[p4] == cd[p4 - start]);
        assert(crate::digits::is_digit(cd[p4 - start]));
        assert(false);
    }
    if p4 > start + cd.len() {
        assert(s.subrange(start, p4)[cd.len() as int] == s[start + cd.len() as int]);
        assert(crate::digits::is_digit(s[start + cd.len() as int]));
        assert(false);
    }
    assert(s.subrange(start, p4) =~= cd);
    crate::digits::lemma_digits_roundtrip(rr.cpu.0 as nat);
}

/// Two records with the same canonical text are the same record.
proof fn lemma_json_injective(a: Resources, b: Resources)
    requires
        resources_json(a) == resources_json(b),
    ensures
        a == b,
{
    lemma_parse_run(resources_json(a), a);
    lemma_parse_run(resources_json(a), b);
    let mda = crate::digits::dec_digits(a.mem.0 as nat);
    let mdb = crate::digits::dec_digits(b.mem.0 as nat);
    crate::digits::lemma_dec_digits_are_digits(a.mem.0 as nat);
    crate::digits::lemma_dec_digits_are_digits(b.mem.0 as nat);
    if mda.len() < mdb.len() {
        assert(resources_json(a)[7 + mda.len() as int] == 44);
        assert(mdb[mda.len() as int] == 44);
        assert(false);
    }
    if mdb.len() < mda.len() {
        assert(resources_json(a)[7 + mdb.len() as int] == 44);
        assert(mda[mdb.len() as int] == 44);
        assert(false);
    }
    assert(mda =~= mdb);
    crate::digits::lemma_digits_roundtrip(a.mem.0 as nat);
    crate::digits::lemma_digits_roundtrip(b.mem.0 as nat);
    lemma_parse_cpu_run(resources_json(a), a);
    lemma_parse_cpu_run(resources_json(a), b);
    let cda = crate::digits::dec_digits(a.cpu.0 as nat);
    let cdb = crate::digits::dec_digits(b.cpu.0 as nat);
    assert(cda =~= cdb);
    crate::digits::lemma_digits_roundtrip(a.cpu.0 as nat);
    crate::digits::lemma_digits_roundtrip(b.cpu.0 as nat);
}

} // verus!
