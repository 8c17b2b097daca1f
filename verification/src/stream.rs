//! The stream and sink view of a channel of optional values: the sender
//! wraps each value, or the end-of-stream marker, into a tagged payload;
//! the receiver presents the values as a lazy sequence that ends at the
//! first marker, without tearing the channel down.

use vstd::prelude::*;
use crate::channel::{ChannelError, Receiver, Sender};
use crate::frame::MAX_PAYLOAD;

verus! {

/// Encoding of an optional value as a channel payload: a tag byte, then
/// the value's bytes; the end-of-stream marker is the bare zero tag.
pub open spec fn option_enc(v: Option<Seq<u8>>) -> Seq<u8> {
    match v {
        Some(b) => seq![1u8] + b,
        None => seq![0u8],
    }
}

/// What a channel payload says to the stream: a value, the end-of-stream
/// marker, or nothing a stream accepts.
pub open spec fn option_dec(p: Seq<u8>) -> Option<Option<Seq<u8>>> {
    if p.len() >= 1 && p[0] == 1 {
        Some(Some(p.drop_first()))
    } else if p.len() == 1 && p[0] == 0 {
        Some(None)
    } else {
        None
    }
}

/// Decoding a payload built by [`option_enc`] yields the optional value
/// back; in particular the end-of-stream marker decodes to the end of the
/// stream.
pub proof fn lemma_option_roundtrip(v: Option<Seq<u8>>)
    ensures
        option_dec(option_enc(v)) == Some(v),
{
    match v {
        Some(b) => {
            assert(option_enc(v).drop_first() =~= b);
        },
        None => {},
    }
}

/// Send one optional value into the channel: the sink side of the stream.
/// An unending sink: the channel stays up whatever is sent; the `None`
/// marker only tells the peer's stream to end.
pub fn send_option(s: &mut Sender, v: Option<Vec<u8>>)
    requires
        old(s).wf(),
        old(s).pending().len() < old(s).cap,
        v matches Some(b) ==> b@.len() < MAX_PAYLOAD,
    ensures
        final(s).wf(),
        final(s).remote == old(s).remote,
        final(s).cap == old(s).cap,
        final(s).pending() == old(s).pending().push(
            option_enc(
                match v {
                    Some(b) => Some(b@),
                    None => None,
                },
            ),
        ),
{
    let mut payload: Vec<u8> = Vec::new();
    match v {
        Some(b) => {
            payload.push(1);
            crate::codec::append_bytes(&b, &mut payload);
            proof {
                assert(payload@ =~= option_enc(Some(b@)));
            }
        },
        None => {
            payload.push(0);
            proof {
                assert(payload@ =~= option_enc(None::<Seq<u8>>));
            }
        },
    }
    s.send(payload);
}

/// One poll of the stream.
#[derive(Clone, Debug)]
pub enum StreamStep {
    /// The next value of the stream.
    Item(Vec<u8>),
    /// The stream ended: the peer sent the end-of-stream marker. Every
    /// later poll says the same.
    End,
    /// The channel failed under the stream: the peer tore it down without
    /// ending the stream, or the transport broke.
    Error(ChannelError),
    /// Nothing yet; poll again once the reactor delivers more.
    Pending,
}

/// The receiving half of a channel of optional values, seen as a stream.
pub struct OptionStream {
    /// The channel the values arrive on.
    pub inner: Receiver,
    /// Whether the end-of-stream marker was seen.
    pub done: bool,
}

impl OptionStream {
    /// See a receiver as a stream.
    pub fn new(inner: Receiver) -> (r: OptionStream)
        ensures
            r.inner == inner,
            !r.done,
    {
        OptionStream { inner, done: false }
    }

    /// What the next poll of the stream resolves to, given the channel's
    /// state: once ended always the end; then the channel's own verdict;
    /// then the front payload read as a value or the marker — a payload
    /// no stream accepts is a protocol violation and poisons the channel.
    pub open spec fn next_result(self) -> Option<Option<Option<Seq<u8>>>> {
        if self.done {
            Some(Some(None))
        } else if !self.inner.ready() {
            None
        } else {
            match self.inner.recv_result() {
                Err(_) => Some(None),
                Ok(p) => Some(
                    match option_dec(p) {
                        Some(v) => Some(v),
                        None => None,
                    },
                ),
            }
        }
    }

    /// Poll the stream: yields the next value, the end of the stream, an
    /// error, or nothing yet. The end is terminal: after it every poll
    /// yields the end again; a protocol violation is terminal too, the
    /// channel is poisoned and every later poll errs.
    pub fn poll_next(&mut self) -> (r: StreamStep)
        ensures
            final(self).inner.remote == old(self).inner.remote,
            match old(self).next_result() {
                None => {
                    &&& r is Pending
                    &&& final(self).done == old(self).done
                    &&& final(self).inner.delivered() == old(self).inner.delivered()
                    &&& final(self).inner.closed == old(self).inner.closed
                    &&& final(self).inner.failed == old(self).inner.failed
                },
                Some(None) => {
                    &&& r matches StreamStep::Error(_)
                    &&& final(self).done == old(self).done
                },
                Some(Some(None)) => r is End && final(self).done,
                Some(Some(Some(b))) => {
                    &&& r matches StreamStep::Item(v) && v@ == b
                    &&& final(self).done == old(self).done
                    &&& final(self).inner.delivered() == old(self).inner.delivered().drop_first()
                },
            },
            old(self).done ==> *final(self) == *old(self),
            match old(self).inner.recv_result() {
                Err(e) => (!old(self).done && old(self).inner.ready()) ==> r
                    == StreamStep::Error(e),
                Ok(p) => (!old(self).done && old(self).inner.ready() && option_dec(p) is None)
                    ==> (r == StreamStep::Error(ChannelError::Unknown) && final(self).inner.failed),
            },
{
        if self.done {
            return StreamStep::End;
        }
        let got = match self.inner.try_recv() {
            None => {
                return StreamStep::Pending;
            },
            Some(Err(e)) => {
                return StreamStep::Error(e);
            },
            Some(Ok(p)) => p,
        };
        if got.len() == 0 {
            self.inner.fail();
            return StreamStep::Error(ChannelError::Unknown);
        }
        let tag = got[0];
        if tag == 1 {
            let rest = crate::codec::copy_range(&got, 1, got.len() - 1);
            proof {
                assert(rest@ =~= got@.drop_first());
            }
            StreamStep::Item(rest)
        } else if tag == 0 && got.len() == 1 {
            self.done = true;
            StreamStep::End
        } else {
            self.inner.fail();
            StreamStep::Error(ChannelError::Unknown)
        }
    }
}

} // verus!
