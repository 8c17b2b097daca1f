//! Little-endian byte codec: the primitive layer of the wire format.
//!
//! Frames, handshakes and control messages are all built out of fixed-width
//! little-endian integers and length-prefixed byte strings; this module
//! defines those encodings, their encoders and decoders, and proves that
//! decoding inverts encoding.

use vstd::prelude::*;

verus! {

/// 256 to the n-th power: the number of values n bytes can hold.
pub open spec fn pow256(n: nat) -> nat
    decreases n,
{
    if n == 0 {
        1
    } else {
        256 * pow256((n - 1) as nat)
    }
}

/// The n little-endian bytes of x: lowest byte first.
pub open spec fn le_bytes(x: nat, n: nat) -> Seq<u8>
    decreases n,
{
    if n == 0 {
        Seq::empty()
    } else {
        seq![(x % 256) as u8] + le_bytes(x / 256, (n - 1) as nat)
    }
}

/// The value of a little-endian byte string.
pub open spec fn le_val(s: Seq<u8>) -> nat
    decreases s.len(),
{
    if s.len() == 0 {
        0
    } else {
        (s[0] + 256 * le_val(s.drop_first())) as nat
    }
}

pub proof fn lemma_le_bytes_len(x: nat, n: nat)
    ensures
        le_bytes(x, n).len() == n,
    decreases n,
{
    if n > 0 {
        lemma_le_bytes_len(x / 256, (n - 1) as nat);
    }
}

/// Decoding inverts encoding: the value of the n little-endian bytes of x
/// is x again, for any x that fits in n bytes.
pub proof fn lemma_le_roundtrip(x: nat, n: nat)
    requires
        x < pow256(n),
    ensures
        le_val(le_bytes(x, n)) == x,
    decreases n,
{
    if n > 0 {
        assert(x / 256 < pow256((n - 1) as nat)) by {
            assert(x < 256 * pow256((n - 1) as nat));
        };
        lemma_le_roundtrip(x / 256, (n - 1) as nat);
        let s = le_bytes(x, n);
        assert(s.drop_first() =~= le_bytes(x / 256, (n - 1) as nat));
        lemma_le_bytes_len(x / 256, (n - 1) as nat);
        assert(le_val(s) == x % 256 + 256 * (x / 256));
    }
}

/// A little-endian byte string is worth less than one more than its width
/// can hold.
pub proof fn lemma_le_val_bound(s: Seq<u8>)
    ensures
        le_val(s) < pow256(s.len()),
    decreases s.len(),
{
    if s.len() > 0 {
        lemma_le_val_bound(s.drop_first());
    }
}

pub proof fn lemma_pow256_monotonic(m: nat, n: nat)
    requires
        m <= n,
    ensures
        pow256(m) <= pow256(n),
    decreases n,
{
    if m < n {
        lemma_pow256_monotonic(m, (n - 1) as nat);
        assert(pow256(n) == 256 * pow256((n - 1) as nat));
    }
}

pub proof fn lemma_pow256_values()
    ensures
        pow256(1) == 0x100,
        pow256(2) == 0x10000,
        pow256(4) == 0x100000000,
        pow256(8) == 0x10000000000000000,
{
    reveal_with_fuel(pow256, 9);
}

/// Encoding of a u16, two bytes, low first.
pub open spec fn u16_le(x: u16) -> Seq<u8> {
    le_bytes(x as nat, 2)
}

/// Encoding of a u32, four bytes, low first.
pub open spec fn u32_le(x: u32) -> Seq<u8> {
    le_bytes(x as nat, 4)
}

/// Encoding of a u64, eight bytes, low first.
pub open spec fn u64_le(x: u64) -> Seq<u8> {
    le_bytes(x as nat, 8)
}

/// Append the n little-endian bytes of x to out.
fn enc_le(x: u64, n: usize, out: &mut Vec<u8>)
    requires
        n <= 8,
        (x as nat) < pow256(n as nat),
    ensures
        final(out)@ == old(out)@ + le_bytes(x as nat, n as nat),
{
    let ghost start = out@;
    let mut v: u64 = x;
    let mut i: usize = 0;
    while i < n
        invariant
            i <= n,
            n <= 8,
            start + le_bytes(x as nat, n as nat) =~= out@ + le_bytes(v as nat, (n - i) as nat),
        decreases n - i,
    {
        let b: u8 = (v % 256) as u8;
        proof {
            assert(le_bytes(v as nat, (n - i) as nat) =~= seq![b] + le_bytes(
                (v / 256) as nat,
                (n - i - 1) as nat,
            ));
        }
        out.push(b);
        v = v / 256;
        i = i + 1;
    }
    proof {
        assert(le_bytes(v as nat, 0) =~= Seq::<u8>::empty());
        assert(out@ =~= start + le_bytes(x as nat, n as nat));
    }
}

/// Read the n little-endian bytes at pos as a value; None when the buffer is
/// too short.
fn dec_le(buf: &Vec<u8>, pos: usize, n: usize) -> (r: Option<(u64, usize)>)
    requires
        n <= 8,
    ensures
        pos + n <= buf@.len() ==> {
            &&& r is Some
            &&& r.unwrap().0 as nat == le_val(buf@.subrange(pos as int, pos + n))
            &&& r.unwrap().1 == pos + n
        },
        pos + n > buf@.len() ==> r is None,
{
    if buf.len() < n || pos > buf.len() - n {
        return None;
    }
    let end: usize = pos + n;
    proof {
        lemma_pow256_values();
    }
    let mut v: u64 = 0;
    let mut i: usize = 0;
    while i < n
        invariant
            i <= n,
            n <= 8,
            end == pos + n,
            pos + n <= buf@.len(),
            v as nat == le_val(buf@.subrange(pos + n - i, pos + n)),
            (v as nat) < pow256(i as nat),
            pow256(8) == 0x10000000000000000,
        decreases n - i,
    {
        proof {
            lemma_pow256_monotonic(i as nat, 7);
            reveal_with_fuel(pow256, 9);
        }
        let b: u8 = buf[end - 1 - i];
        let ghost prev = buf@.subrange(pos + n - i, pos + n);
        let ghost cur = buf@.subrange(pos + n - 1 - i, pos + n);
        proof {
            assert(cur.drop_first() =~= prev);
            assert(cur[0] == b);
            assert(le_val(cur) == b + 256 * le_val(prev));
        }
        v = v * 256 + (b as u64);
        i = i + 1;
    }
    Some((v, pos + n))
}

/// Append the encoding of a u16.
pub fn enc_u16(x: u16, out: &mut Vec<u8>)
    ensures
        final(out)@ == old(out)@ + u16_le(x),
{
    proof {
        lemma_pow256_values();
    }
    enc_le(x as u64, 2, out);
}

/// Append the encoding of a u32.
pub fn enc_u32(x: u32, out: &mut Vec<u8>)
    ensures
        final(out)@ == old(out)@ + u32_le(x),
{
    proof {
        lemma_pow256_values();
    }
    enc_le(x as u64, 4, out);
}

/// Append the encoding of a u64.
pub fn enc_u64(x: u64, out: &mut Vec<u8>)
    ensures
        final(out)@ == old(out)@ + u64_le(x),
{
    proof {
        lemma_pow256_values();
    }
    enc_le(x, 8, out);
}

/// Decode a u16 at pos; None when fewer than two bytes remain.
pub fn dec_u16(buf: &Vec<u8>, pos: usize) -> (r: Option<(u16, usize)>)
    ensures
        pos + 2 <= buf@.len() ==> {
            &&& r is Some
            &&& r.unwrap().0 as nat == le_val(buf@.subrange(pos as int, pos + 2))
            &&& r.unwrap().1 == pos + 2
        },
        pos + 2 > buf@.len() ==> r is None,
{
    match dec_le(buf, pos, 2) {
        Some((v, end)) => {
            proof {
                lemma_le_val_bound(buf@.subrange(pos as int, pos + 2));
                lemma_pow256_values();
            }
            Some((v as u16, end))
        },
        None => None,
    }
}

/// Decode a u32 at pos; None when fewer than four bytes remain.
pub fn dec_u32(buf: &Vec<u8>, pos: usize) -> (r: Option<(u32, usize)>)
    ensures
        pos + 4 <= buf@.len() ==> {
            &&& r is Some
            &&& r.unwrap().0 as nat == le_val(buf@.subrange(pos as int, pos + 4))
            &&& r.unwrap().1 == pos + 4
        },
        pos + 4 > buf@.len() ==> r is None,
{
    match dec_le(buf, pos, 4) {
        Some((v, end)) => {
            proof {
                lemma_le_val_bound(buf@.subrange(pos as int, pos + 4));
                lemma_pow256_values();
            }
            Some((v as u32, end))
        },
        None => None,
    }
}

/// Decode a u64 at pos; None when fewer than eight bytes remain.
pub fn dec_u64(buf: &Vec<u8>, pos: usize) -> (r: Option<(u64, usize)>)
    ensures
        pos + 8 <= buf@.len() ==> {
            &&& r is Some
            &&& r.unwrap().0 as nat == le_val(buf@.subrange(pos as int, pos + 8))
            &&& r.unwrap().1 == pos + 8
        },
        pos + 8 > buf@.len() ==> r is None,
{
    dec_le(buf, pos, 8)
}

/// The value of an encoded integer is the integer: u16 form.
pub proof fn lemma_u16_le_val(x: u16)
    ensures
        le_val(u16_le(x)) == x,
        u16_le(x).len() == 2,
{
    lemma_pow256_values();
    lemma_le_roundtrip(x as nat, 2);
    lemma_le_bytes_len(x as nat, 2);
}

/// The value of an encoded integer is the integer: u32 form.
pub proof fn lemma_u32_le_val(x: u32)
    ensures
        le_val(u32_le(x)) == x,
        u32_le(x).len() == 4,
{
    lemma_pow256_values();
    lemma_le_roundtrip(x as nat, 4);
    lemma_le_bytes_len(x as nat, 4);
}

/// The value of an encoded integer is the integer: u64 form.
pub proof fn lemma_u64_le_val(x: u64)
    ensures
        le_val(u64_le(x)) == x,
        u64_le(x).len() == 8,
{
    lemma_pow256_values();
    lemma_le_roundtrip(x as nat, 8);
    lemma_le_bytes_len(x as nat, 8);
}

/// Append a copy of src to out.
pub fn append_bytes(src: &Vec<u8>, out: &mut Vec<u8>)
    ensures
        final(out)@ == old(out)@ + src@,
{
    let mut i: usize = 0;
    while i < src.len()
        invariant
            i <= src@.len(),
            out@ =~= old(out)@ + src@.subrange(0, i as int),
        decreases src@.len() - i,
    {
        out.push(src[i]);
        i = i + 1;
        proof {
            assert(out@ =~= old(out)@ + src@.subrange(0, i as int));
        }
    }
    proof {
        assert(src@.subrange(0, src@.len() as int) =~= src@);
    }
}

/// Copy the bytes at [from, from + n) of src into a new vector.
pub fn copy_range(src: &Vec<u8>, from: usize, n: usize) -> (r: Vec<u8>)
    requires
        from + n <= src@.len(),
    ensures
        r@ == src@.subrange(from as int, from + n),
{
    let len: usize = src.len();
    let mut out: Vec<u8> = Vec::new();
    let mut i: usize = 0;
    while i < n
        invariant
            i <= n,
            from + n <= src@.len(),
            len == src@.len(),
            out@ =~= src@.subrange(from as int, from + i),
        decreases n - i,
    {
        out.push(src[from + i]);
        i = i + 1;
        proof {
            assert(out@ =~= src@.subrange(from as int, from + i));
        }
    }
    out
}

/// Encoding of a byte string: a u32 length prefix, then the bytes.
pub open spec fn bytes_enc(s: Seq<u8>) -> Seq<u8> {
    u32_le(s.len() as u32) + s
}

/// Append the length-prefixed encoding of b.
pub fn enc_bytes(b: &Vec<u8>, out: &mut Vec<u8>)
    requires
        b@.len() < 0x100000000,
    ensures
        final(out)@ == old(out)@ + bytes_enc(b@),
{
    enc_u32(b.len() as u32, out);
    append_bytes(b, out);
    proof {
        assert(out@ =~= old(out)@ + bytes_enc(b@));
    }
}

/// Decode a length-prefixed byte string at pos: the length read must fit in
/// what remains, else None.
pub fn dec_bytes(buf: &Vec<u8>, pos: usize) -> (r: Option<(Vec<u8>, usize)>)
    ensures
        match r {
            Some(p) => {
                &&& pos + 4 <= buf@.len()
                &&& le_val(buf@.subrange(pos as int, pos + 4)) == p.0@.len()
                &&& p.1 == pos + 4 + p.0@.len()
                &&& p.1 <= buf@.len()
                &&& p.0@ == buf@.subrange(pos + 4, pos + 4 + p.0@.len())
            },
            None => pos + 4 > buf@.len() || pos + 4 + le_val(
                buf@.subrange(pos as int, pos + 4),
            ) > buf@.len(),
        },
{
    match dec_u32(buf, pos) {
        Some((len, body)) => {
            let len = len as usize;
            if len > buf.len() || body > buf.len() - len {
                return None;
            }
            let out = copy_range(buf, body, len);
            Some((out, body + len))
        },
        None => None,
    }
}

/// Decoding a length-prefixed byte string from its encoding followed by
/// anything yields the byte string back and consumes exactly its encoding.
pub proof fn lemma_bytes_enc_parses(s: Seq<u8>, rest: Seq<u8>)
    requires
        s.len() < 0x100000000,
    ensures
        le_val((bytes_enc(s) + rest).subrange(0, 4)) == s.len(),
        (bytes_enc(s) + rest).subrange(4, 4 + s.len() as int) =~= s,
        bytes_enc(s).len() == 4 + s.len(),
{
    lemma_u32_le_val(s.len() as u32);
    let whole = bytes_enc(s) + rest;
    assert(whole.subrange(0, 4) =~= u32_le(s.len() as u32));
}

} // verus!
