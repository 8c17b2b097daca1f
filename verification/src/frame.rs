//! Framing: every TCP connection carries a stream of length-prefixed,
//! kinded frames. A frame is a four-byte little-endian body length, a kind
//! byte, and the payload; the body length counts the kind byte and the
//! payload. A frame that is too large or carries an unknown kind is a
//! protocol violation, fatal for its connection.

use vstd::prelude::*;
use crate::codec::{copy_range, dec_u32, enc_u32, le_val, u32_le};

verus! {

/// The largest payload a frame may carry.
pub const MAX_PAYLOAD: u32 = 0xFFFFFF;

/// What a frame carries: typed data for an endpoint, the close of one half
/// of the channel pair, or an acknowledgement.
#[derive(Clone, Copy, PartialEq, Eq, Structural, Hash, Debug)]
pub enum FrameKind {
    /// A serialized value for the receiving endpoint.
    Data,
    /// The sending half of the peer's channel pair closed.
    CloseSend,
    /// The receiving half of the peer's channel pair closed.
    CloseRecv,
    /// Acknowledgement used during teardown.
    Ack,
}

/// Why a byte stream is no longer a frame stream.
#[derive(Clone, Copy, PartialEq, Eq, Structural, Hash, Debug)]
pub enum FrameError {
    /// The announced body is larger than any frame may be.
    TooLarge,
    /// The kind byte names no frame kind, or the body is empty.
    UnknownKind,
}

/// One decoded frame.
#[derive(Clone, Debug)]
pub struct Frame {
    /// What the frame carries.
    pub kind: FrameKind,
    /// The payload bytes.
    pub payload: Vec<u8>,
}

/// The byte that stands for a frame kind on the wire.
pub open spec fn kind_byte(k: FrameKind) -> u8 {
    match k {
        FrameKind::Data => 0,
        FrameKind::CloseSend => 1,
        FrameKind::CloseRecv => 2,
        FrameKind::Ack => 3,
    }
}

/// Encoding of a frame: body length, kind byte, payload.
pub open spec fn frame_enc(k: FrameKind, payload: Seq<u8>) -> Seq<u8> {
    u32_le((payload.len() + 1) as u32) + seq![kind_byte(k)] + payload
}

/// What decoding finds at the front of a byte string: a complete frame and
/// the bytes it took, nothing yet when more bytes must arrive first, or a
/// protocol violation.
pub open spec fn frame_dec(s: Seq<u8>) -> Result<Option<((FrameKind, Seq<u8>), int)>, FrameError> {
    if s.len() < 4 {
        Ok(None)
    } else {
        let body = le_val(s.subrange(0, 4)) as int;
        if body == 0 {
            Err(FrameError::UnknownKind)
        } else if body > MAX_PAYLOAD + 1 {
            Err(FrameError::TooLarge)
        } else if s.len() < 4 + body {
            Ok(None)
        } else if s[4] == 0 {
            Ok(Some(((FrameKind::Data, s.subrange(5, 4 + body)), 4 + body)))
        } else if s[4] == 1 {
            Ok(Some(((FrameKind::CloseSend, s.subrange(5, 4 + body)), 4 + body)))
        } else if s[4] == 2 {
            Ok(Some(((FrameKind::CloseRecv, s.subrange(5, 4 + body)), 4 + body)))
        } else if s[4] == 3 {
            Ok(Some(((FrameKind::Ack, s.subrange(5, 4 + body)), 4 + body)))
        } else {
            Err(FrameError::UnknownKind)
        }
    }
}

/// Append the encoding of a frame with the given kind and payload.
pub fn enc_frame(k: FrameKind, payload: &Vec<u8>, out: &mut Vec<u8>)
    requires
        payload@.len() <= MAX_PAYLOAD,
    ensures
        final(out)@ == old(out)@ + frame_enc(k, payload@),
{
    enc_u32(payload.len() as u32 + 1, out);
    let b: u8 = match k {
        FrameKind::Data => 0,
        FrameKind::CloseSend => 1,
        FrameKind::CloseRecv => 2,
        FrameKind::Ack => 3,
    };
    out.push(b);
    crate::codec::append_bytes(payload, out);
    proof {
        assert(out@ =~= old(out)@ + frame_enc(k, payload@));
    }
}

/// Decode one frame at pos. `Ok(None)` means the frame is not complete yet
/// and more bytes must arrive; an error means the stream is no frame
/// stream and the connection must be torn down.
pub fn dec_frame(buf: &Vec<u8>, pos: usize) -> (r: Result<Option<(Frame, usize)>, FrameError>)
    requires
        pos <= buf@.len(),
    ensures
        ({
            let d = frame_dec(buf@.subrange(pos as int, buf@.len() as int));
            match d {
                Ok(None) => r == Ok::<Option<(Frame, usize)>, FrameError>(None),
                Ok(Some(p)) => match r {
                    Ok(Some(q)) => {
                        &&& q.0.kind == p.0.0
                        &&& q.0.payload@ == p.0.1
                        &&& q.1 == pos + p.1
                    },
                    _ => false,
                },
                Err(e) => r == Err::<Option<(Frame, usize)>, FrameError>(e),
            }
        }),
{
    let ghost tail = buf@.subrange(pos as int, buf@.len() as int);
    let len: usize = buf.len();
    let body = match dec_u32(buf, pos) {
        Some((body, _)) => body,
        None => {
            return Ok(None);
        },
    };
    proof {
        assert(tail.subrange(0, 4) =~= buf@.subrange(pos as int, pos + 4));
    }
    if body == 0 {
        return Err(FrameError::UnknownKind);
    }
    if body > MAX_PAYLOAD + 1 {
        return Err(FrameError::TooLarge);
    }
    let body: usize = body as usize;
    if len - (pos + 4) < body {
        return Ok(None);
    }
    let kb = buf[pos + 4];
    proof {
        assert(tail[4] == buf@[pos + 4]);
    }
    let kind = if kb == 0 {
        FrameKind::Data
    } else if kb == 1 {
        FrameKind::CloseSend
    } else if kb == 2 {
        FrameKind::CloseRecv
    } else if kb == 3 {
        FrameKind::Ack
    } else {
        return Err(FrameError::UnknownKind);
    };
    let payload = copy_range(buf, pos + 5, body - 1);
    proof {
        assert(payload@ =~= tail.subrange(5, 4 + body));
    }
    Ok(Some((Frame { kind, payload }, pos + 4 + body)))
}

/// Decoding a frame from its encoding followed by anything yields the kind
/// and payload back and consumes exactly the encoding.
pub proof fn lemma_frame_roundtrip(k: FrameKind, payload: Seq<u8>, rest: Seq<u8>)
    requires
        payload.len() <= MAX_PAYLOAD,
    ensures
        frame_enc(k, payload).len() == 5 + payload.len(),
        frame_dec(frame_enc(k, payload) + rest) == Ok::<_, FrameError>(
            Some(((k, payload), 5 + payload.len() as int)),
        ),
{
    let whole = frame_enc(k, payload) + rest;
    crate::codec::lemma_u32_le_val((payload.len() + 1) as u32);
    assert(whole.subrange(0, 4) =~= u32_le((payload.len() + 1) as u32));
    assert(whole[4] == kind_byte(k));
    assert(whole.subrange(5, 5 + payload.len() as int) =~= payload);
}

/// Encoding of a sequence of frames, first frame first.
pub open spec fn frames_enc(msgs: Seq<(FrameKind, Seq<u8>)>) -> Seq<u8>
    decreases msgs.len(),
{
    if msgs.len() == 0 {
        Seq::empty()
    } else {
        frame_enc(msgs[0].0, msgs[0].1) + frames_enc(msgs.drop_first())
    }
}

/// Every payload fits in a frame.
pub open spec fn frames_wf(msgs: Seq<(FrameKind, Seq<u8>)>) -> bool {
    forall|i: int| 0 <= i < msgs.len() ==> (#[trigger] msgs[i]).1.len() <= MAX_PAYLOAD
}

/// The complete frames at the front of a byte stream, in stream order.
pub open spec fn frames_dec(s: Seq<u8>) -> Seq<(FrameKind, Seq<u8>)>
    decreases s.len(),
{
    match frame_dec(s) {
        Ok(Some(p)) => if 0 < p.1 <= s.len() {
            seq![p.0] + frames_dec(s.skip(p.1))
        } else {
            Seq::empty()
        },
        _ => Seq::empty(),
    }
}

/// The transport is FIFO and lossless: decoding the concatenation of any
/// sequence of encoded frames yields exactly those frames, in the order
/// they were encoded, with their payloads byte-equal.
pub proof fn lemma_frames_roundtrip(msgs: Seq<(FrameKind, Seq<u8>)>)
    requires
        frames_wf(msgs),
    ensures
        frames_dec(frames_enc(msgs)) == msgs,
    decreases msgs.len(),
{
    if msgs.len() == 0 {
        assert(frames_enc(msgs).len() < 4);
        assert(frames_dec(frames_enc(msgs)) =~= msgs);
    } else {
        let k = msgs[0].0;
        let payload = msgs[0].1;
        let rest = frames_enc(msgs.drop_first());
        assert(msgs[0] == (k, payload));
        lemma_frame_roundtrip(k, payload, rest);
        let whole = frame_enc(k, payload) + rest;
        assert(frames_enc(msgs) == whole);
        let n = 5 + payload.len() as int;
        assert(whole.skip(n) =~= rest);
        assert(frames_wf(msgs.drop_first())) by {
            assert(forall|i: int| 0 <= i < msgs.drop_first().len() ==> #[trigger] msgs.drop_first()[i]
                == msgs[i + 1]);
        }
        lemma_frames_roundtrip(msgs.drop_first());
        assert(frames_dec(whole) =~= seq![(k, payload)] + msgs.drop_first());
        assert(seq![(k, payload)] + msgs.drop_first() =~= msgs);
    }
}

/// The frames a sender's payload queue becomes on the wire: one data
/// frame per payload, in queue order.
pub open spec fn data_frames(msgs: Seq<Seq<u8>>) -> Seq<(FrameKind, Seq<u8>)> {
    msgs.map_values(|m: Seq<u8>| (FrameKind::Data, m))
}

/// A channel delivers every payload byte-equal and in send order: the
/// frames decoded from the wire bytes of a sender's queue are exactly one
/// data frame per sent payload, each payload unchanged, in the order they
/// were sent.
pub proof fn lemma_channel_transport_fifo(msgs: Seq<Seq<u8>>)
    requires
        forall|i: int| 0 <= i < msgs.len() ==> (#[trigger] msgs[i]).len() <= MAX_PAYLOAD,
    ensures
        frames_dec(frames_enc(data_frames(msgs))) == data_frames(msgs),
        frames_dec(frames_enc(data_frames(msgs))).len() == msgs.len(),
        forall|i: int| 0 <= i < msgs.len() ==> #[trigger] frames_dec(
            frames_enc(data_frames(msgs)),
        )[i] == (FrameKind::Data, msgs[i]),
{
    assert(frames_wf(data_frames(msgs))) by {
        assert(forall|i: int| 0 <= i < msgs.len() ==> #[trigger] data_frames(msgs)[i] == (
        FrameKind::Data, msgs[i]));
    }
    lemma_frames_roundtrip(data_frames(msgs));
    assert(forall|i: int| 0 <= i < msgs.len() ==> #[trigger] data_frames(msgs)[i] == (
    FrameKind::Data, msgs[i]));
}

} // verus!
