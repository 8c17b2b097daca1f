//! Channel endpoints: the sending and receiving halves of a typed channel
//! toward one remote pid.
//!
//! A process holds at most one `Sender` and at most one `Receiver` toward
//! any peer; the runtime's registry enforces it. A `Sender` queues payloads
//! toward the wire in order; a `Receiver` holds delivered payloads in order
//! and surfaces a terminal error once the peer closed its send half or the
//! transport failed. All I/O is outside: the reactor hands a `Receiver`
//! decoded frames and drains a `Sender`'s queue as encoded frames.

use vstd::prelude::*;
use crate::frame::{frame_enc, Frame, FrameKind, MAX_PAYLOAD};
use crate::pid::Pid;
use crate::runtime::{pids_contain, pids_remove, Runtime};

verus! {

/// Why a receive ended without a value.
#[derive(Clone, Copy, PartialEq, Eq, Structural, Hash, Debug)]
pub enum ChannelError {
    /// The peer closed its send half cleanly; no more data will come.
    Exited,
    /// Transport or protocol failure; the channel is unusable.
    Unknown,
}

/// Why no new endpoint was made.
#[derive(Clone, Copy, PartialEq, Eq, Structural, Hash, Debug)]
pub enum NewEndpointError {
    /// Bootstrap has not run in this process.
    NotInitialized,
    /// The remote pid is this process's own: a process cannot open a
    /// channel to itself.
    OwnPid,
    /// An endpoint of this direction toward this peer already lives here.
    AlreadyExists,
}

/// The direction of an endpoint.
#[derive(Clone, Copy, PartialEq, Eq, Structural, Hash, Debug)]
pub enum Direction {
    /// The sending half.
    Send,
    /// The receiving half.
    Recv,
}

/// How many payloads a sender may hold queued toward the wire before
/// sending would block.
pub const SEND_CAPACITY: usize = 64;

/// The payloads of a queue of byte vectors, as sequences.
pub open spec fn payloads(q: Seq<Vec<u8>>) -> Seq<Seq<u8>> {
    q.map_values(|v: Vec<u8>| v@)
}

/// Whether a new endpoint of the given direction toward `remote` may be
/// created, and the error when not: rejected before bootstrap, toward the
/// process's own pid, and when one already exists.
pub open spec fn endpoint_check(rt: Runtime, dir: Direction, remote: Pid) -> Option<
    NewEndpointError,
> {
    if !rt.initialized() {
        Some(NewEndpointError::NotInitialized)
    } else if remote == rt.st.pid {
        Some(NewEndpointError::OwnPid)
    } else if (match dir {
        Direction::Send => rt.st.senders@,
        Direction::Recv => rt.st.receivers@,
    }).contains(remote) {
        Some(NewEndpointError::AlreadyExists)
    } else {
        None
    }
}

/// The sending half of a channel toward one peer.
pub struct Sender {
    /// The peer this sender talks to.
    pub remote: Pid,
    /// Payloads accepted and not yet written to the wire, oldest first.
    pub queue: Vec<Vec<u8>>,
    /// How many payloads may be queued at once.
    pub cap: usize,
}

impl Sender {
    /// The queue respects its capacity and every payload fits in a frame.
    pub open spec fn wf(self) -> bool {
        &&& self.queue@.len() <= self.cap
        &&& forall|i: int| 0 <= i < self.queue@.len() ==> #[trigger] self.queue@[i]@.len()
            <= MAX_PAYLOAD
    }

    /// The queued payloads, oldest first.
    pub open spec fn pending(self) -> Seq<Seq<u8>> {
        payloads(self.queue@)
    }

    /// Create the one sender toward `remote` in this process. Rejected
    /// exactly when the runtime has not bootstrapped, `remote` is this
    /// process itself, or a sender toward `remote` already exists.
    pub fn new(rt: &mut Runtime, remote: Pid) -> (r: Result<Sender, NewEndpointError>)
        requires
            old(rt).wf(),
        ensures
            final(rt).wf(),
            match endpoint_check(*old(rt), Direction::Send, remote) {
                Some(e) => r == Err::<Sender, NewEndpointError>(e) && final(rt).same_state(
                    *old(rt),
                ),
                None => {
                    &&& r is Ok
                    &&& r.unwrap().remote == remote
                    &&& r.unwrap().pending() == Seq::<Seq<u8>>::empty()
                    &&& r.unwrap().cap == SEND_CAPACITY
                    &&& r.unwrap().wf()
                    &&& final(rt).initialized()
                    &&& final(rt).st.senders@ == old(rt).st.senders@.push(remote)
                    &&& final(rt).st.receivers@ == old(rt).st.receivers@
                    &&& final(rt).st.pid == old(rt).st.pid
                    &&& final(rt).st.bridge == old(rt).st.bridge
                    &&& final(rt).st.resources == old(rt).st.resources
                    &&& final(rt).st.deployed == old(rt).st.deployed
                },
            },
    {
        if !rt.inited {
            return Err(NewEndpointError::NotInitialized);
        }
        if rt.st.pid.ip == remote.ip && rt.st.pid.port == remote.port {
            return Err(NewEndpointError::OwnPid);
        }
        if pids_contain(&rt.st.senders, &remote) {
            return Err(NewEndpointError::AlreadyExists);
        }
        rt.st.senders.push(remote);
        let s = Sender { remote, queue: Vec::new(), cap: SEND_CAPACITY };
        proof {
            assert(s.pending() =~= Seq::<Seq<u8>>::empty());
            assert forall|i: int, j: int|
                0 <= i < j < rt.st.senders@.len() implies rt.st.senders@[i]
                != rt.st.senders@[j] by {
                if j == rt.st.senders@.len() - 1 {
                    assert(old(rt).st.senders@.contains(old(rt).st.senders@[i]));
                }
            }
        }
        Ok(s)
    }

    /// The pid of the remote end.
    pub fn remote_pid(&self) -> (r: Pid)
        ensures
            r == self.remote,
    {
        self.remote
    }

    /// Nonblocking send: accepted exactly when the queue has room, in
    /// which case the payload joins the end of the queue.
    pub fn try_send(&mut self, payload: Vec<u8>) -> (r: bool)
        requires
            old(self).wf(),
            payload@.len() <= MAX_PAYLOAD,
        ensures
            final(self).wf(),
            final(self).remote == old(self).remote,
            final(self).cap == old(self).cap,
            r == (old(self).pending().len() < old(self).cap),
            r ==> final(self).pending() == old(self).pending().push(payload@),
            !r ==> final(self).pending() == old(self).pending(),
    {
        if self.queue.len() < self.cap {
            let ghost pre = self.queue@;
            self.queue.push(payload);
            proof {
                assert(payloads(self.queue@) =~= payloads(pre).push(payload@));
            }
            true
        } else {
            false
        }
    }

    /// Send: the step an async send takes once the reactor reports
    /// capacity; the payload joins the end of the queue. Delivery toward
    /// one peer is in queue order.
    pub fn send(&mut self, payload: Vec<u8>)
        requires
            old(self).wf(),
            old(self).pending().len() < old(self).cap,
            payload@.len() <= MAX_PAYLOAD,
        ensures
            final(self).wf(),
            final(self).remote == old(self).remote,
            final(self).cap == old(self).cap,
            final(self).pending() == old(self).pending().push(payload@),
    {
        let ghost pre = self.queue@;
        self.queue.push(payload);
        proof {
            assert(payloads(self.queue@) =~= payloads(pre).push(payload@));
        }
    }

    /// Send a payload produced on demand: the producing closure runs only
    /// now that the reactor reports capacity, and what it produced joins
    /// the end of the queue.
    pub fn send_with<F: FnOnce() -> Vec<u8>>(&mut self, f: F)
        requires
            old(self).wf(),
            old(self).pending().len() < old(self).cap,
            call_requires(f, ()),
            forall|v: Vec<u8>| call_ensures(f, (), v) ==> v@.len() <= MAX_PAYLOAD,
        ensures
            final(self).wf(),
            final(self).remote == old(self).remote,
            final(self).cap == old(self).cap,
            exists|v: Vec<u8>|
                call_ensures(f, (), v) && final(self).pending() == old(self).pending().push(v@),
    {
        let v = f();
        self.send(v);
    }

    /// Byte-stream write of the whole buffer: each byte becomes one
    /// one-byte payload, in buffer order.
    pub fn write_all(&mut self, buf: &Vec<u8>)
        requires
            old(self).wf(),
            old(self).pending().len() + buf@.len() <= old(self).cap,
        ensures
            final(self).wf(),
            final(self).remote == old(self).remote,
            final(self).cap == old(self).cap,
            final(self).pending() == old(self).pending() + buf@.map_values(|b: u8| seq![b]),
    {
        let mut i: usize = 0;
        while i < buf.len()
            invariant
                i <= buf@.len(),
                self.wf(),
                self.remote == old(self).remote,
                self.cap == old(self).cap,
                self.pending().len() + buf@.len() <= self.cap + i,
                self.pending() =~= old(self).pending() + buf@.subrange(0, i as int).map_values(
                    |b: u8| seq![b],
                ),
            decreases buf@.len() - i,
        {
            let mut one: Vec<u8> = Vec::new();
            one.push(buf[i]);
            assert(one@ =~= seq![buf@[i as int]]);
            self.send(one);
            i = i + 1;
            proof {
                assert(buf@.subrange(0, i as int).map_values(|b: u8| seq![b]) =~= buf@.subrange(
                    0,
                    i - 1,
                ).map_values(|b: u8| seq![b]).push(seq![buf@[i - 1]]));
            }
        }
        proof {
            assert(buf@.subrange(0, buf@.len() as int) =~= buf@);
        }
    }

    /// Byte-stream write with partial progress: as many leading bytes as
    /// the queue has room for are sent, and their number returned.
    pub fn write(&mut self, buf: &Vec<u8>) -> (r: usize)
        requires
            old(self).wf(),
        ensures
            final(self).wf(),
            final(self).remote == old(self).remote,
            final(self).cap == old(self).cap,
            r == if buf@.len() <= old(self).cap - old(self).pending().len() {
                buf@.len() as int
            } else {
                old(self).cap - old(self).pending().len()
            },
            final(self).pending() == old(self).pending() + buf@.subrange(0, r as int).map_values(
                |b: u8| seq![b],
            ),
    {
        let room = self.cap - self.queue.len();
        let n = if buf.len() <= room {
            buf.len()
        } else {
            room
        };
        let mut i: usize = 0;
        while i < n
            invariant
                i <= n,
                n <= buf@.len(),
                self.wf(),
                self.remote == old(self).remote,
                self.cap == old(self).cap,
                self.pending().len() + n <= self.cap + i,
                self.pending() =~= old(self).pending() + buf@.subrange(0, i as int).map_values(
                    |b: u8| seq![b],
                ),
            decreases n - i,
        {
            let mut one: Vec<u8> = Vec::new();
            one.push(buf[i]);
            assert(one@ =~= seq![buf@[i as int]]);
            self.send(one);
            i = i + 1;
            proof {
                assert(buf@.subrange(0, i as int).map_values(|b: u8| seq![b]) =~= buf@.subrange(
                    0,
                    i - 1,
                ).map_values(|b: u8| seq![b]).push(seq![buf@[i - 1]]));
            }
        }
        n
    }

    /// The reactor's write path: take the oldest queued payload off as an
    /// encoded data frame for the wire, if any is queued.
    pub fn poll_wire(&mut self) -> (r: Option<Vec<u8>>)
        requires
            old(self).wf(),
        ensures
            final(self).wf(),
            final(self).remote == old(self).remote,
            final(self).cap == old(self).cap,
            old(self).pending().len() == 0 ==> r is None && final(self).pending() == old(self).pending(),
            old(self).pending().len() > 0 ==> {
                &&& r is Some
                &&& r.unwrap()@ == frame_enc(FrameKind::Data, old(self).pending()[0])
                &&& final(self).pending() == old(self).pending().drop_first()
            },
    {
        if self.queue.len() == 0 {
            return None;
        }
        let ghost pre = self.queue@;
        let front = self.queue.remove(0);
        let mut out: Vec<u8> = Vec::new();
        crate::frame::enc_frame(FrameKind::Data, &front, &mut out);
        proof {
            assert(payloads(self.queue@) =~= payloads(pre).drop_first());
        }
        Some(out)
    }

    /// Drop this sender: it leaves the registry, and the frame that tells
    /// the peer the send half closed is returned for the wire. Anything
    /// still queued is sent before it by the reactor; nothing queued is
    /// lost.
    pub fn drop(self, rt: &mut Runtime) -> (r: Vec<u8>)
        requires
            old(rt).wf(),
        ensures
            final(rt).wf(),
            r@ == frame_enc(FrameKind::CloseSend, Seq::<u8>::empty()),
            final(rt).inited == old(rt).inited,
            final(rt).st.pid == old(rt).st.pid,
            final(rt).st.bridge == old(rt).st.bridge,
            final(rt).st.resources == old(rt).st.resources,
            final(rt).st.deployed == old(rt).st.deployed,
            final(rt).st.receivers@ == old(rt).st.receivers@,
            forall|q: Pid| final(rt).st.senders@.contains(q) <==> (old(rt).st.senders@.contains(q)
                && q != self.remote),
    {
        pids_remove(&mut rt.st.senders, &self.remote);
        let empty: Vec<u8> = Vec::new();
        let mut out: Vec<u8> = Vec::new();
        crate::frame::enc_frame(FrameKind::CloseSend, &empty, &mut out);
        out
    }
}

/// The receiving half of a channel toward one peer.
pub struct Receiver {
    /// The peer this receiver listens to.
    pub remote: Pid,
    /// Payloads delivered by the reactor and not yet consumed, oldest
    /// first.
    pub queue: Vec<Vec<u8>>,
    /// Whether the peer closed its send half: once the queue drains, the
    /// channel is exited.
    pub closed: bool,
    /// Whether the transport failed: every receive errs.
    pub failed: bool,
}

impl Receiver {
    /// The delivered, unconsumed payloads, oldest first.
    pub open spec fn delivered(self) -> Seq<Seq<u8>> {
        payloads(self.queue@)
    }

    /// Create the one receiver toward `remote` in this process. Rejected
    /// exactly when the runtime has not bootstrapped, `remote` is this
    /// process itself, or a receiver toward `remote` already exists.
    pub fn new(rt: &mut Runtime, remote: Pid) -> (r: Result<Receiver, NewEndpointError>)
        requires
            old(rt).wf(),
        ensures
            final(rt).wf(),
            match endpoint_check(*old(rt), Direction::Recv, remote) {
                Some(e) => r == Err::<Receiver, NewEndpointError>(e) && final(rt).same_state(
                    *old(rt),
                ),
                None => {
                    &&& r is Ok
                    &&& r.unwrap().remote == remote
                    &&& r.unwrap().delivered() == Seq::<Seq<u8>>::empty()
                    &&& !r.unwrap().closed
                    &&& !r.unwrap().failed
                    &&& final(rt).initialized()
                    &&& final(rt).st.receivers@ == old(rt).st.receivers@.push(remote)
                    &&& final(rt).st.senders@ == old(rt).st.senders@
                    &&& final(rt).st.pid == old(rt).st.pid
                    &&& final(rt).st.bridge == old(rt).st.bridge
                    &&& final(rt).st.resources == old(rt).st.resources
                    &&& final(rt).st.deployed == old(rt).st.deployed
                },
            },
    {
        if !rt.inited {
            return Err(NewEndpointError::NotInitialized);
        }
        if rt.st.pid.ip == remote.ip && rt.st.pid.port == remote.port {
            return Err(NewEndpointError::OwnPid);
        }
        if pids_contain(&rt.st.receivers, &remote) {
            return Err(NewEndpointError::AlreadyExists);
        }
        rt.st.receivers.push(remote);
        let r = Receiver { remote, queue: Vec::new(), closed: false, failed: false };
        proof {
            assert(r.delivered() =~= Seq::<Seq<u8>>::empty());
            assert forall|i: int, j: int|
                0 <= i < j < rt.st.receivers@.len() implies rt.st.receivers@[i]
                != rt.st.receivers@[j] by {
                if j == rt.st.receivers@.len() - 1 {
                    assert(old(rt).st.receivers@.contains(old(rt).st.receivers@[i]));
                }
            }
        }
        Ok(r)
    }

    /// The pid of the remote end.
    pub fn remote_pid(&self) -> (r: Pid)
        ensures
            r == self.remote,
    {
        self.remote
    }

    /// The reactor's dispatch path: apply one decoded frame from this
    /// peer. Data joins the end of the queue, in arrival order; the peer's
    /// close of its send half marks the channel exited; the remaining
    /// kinds concern the opposite direction and change nothing here.
    pub fn on_frame(&mut self, f: Frame)
        ensures
            final(self).remote == old(self).remote,
            final(self).failed == old(self).failed,
            f.kind is Data ==> final(self).delivered() == old(self).delivered().push(f.payload@)
                && final(self).closed == old(self).closed,
            f.kind is CloseSend ==> final(self).delivered() == old(self).delivered() && final(self).closed,
            f.kind is CloseRecv || f.kind is Ack ==> final(self).delivered() == old(self).delivered() && final(self).closed == old(self).closed,
    {
        match f.kind {
            FrameKind::Data => {
                let ghost pre = self.queue@;
                self.queue.push(f.payload);
                proof {
                    assert(payloads(self.queue@) =~= payloads(pre).push(f.payload@));
                }
            },
            FrameKind::CloseSend => {
                self.closed = true;
            },
            FrameKind::CloseRecv => {},
            FrameKind::Ack => {},
        }
    }

    /// The reactor's verdict on a protocol violation: the transport is
    /// gone and every later receive errs.
    pub fn fail(&mut self)
        ensures
            final(self).remote == old(self).remote,
            final(self).delivered() == old(self).delivered(),
            final(self).closed == old(self).closed,
            final(self).failed,
    {
        self.failed = true;
    }

    /// Is a receive ready to resolve without blocking?
    pub open spec fn ready(self) -> bool {
        self.failed || self.delivered().len() > 0 || self.closed
    }

    /// What a ready receive resolves to: transport failure first, then the
    /// oldest delivered payload, then — queue drained and peer closed —
    /// the terminal exit.
    pub open spec fn recv_result(self) -> Result<Seq<u8>, ChannelError> {
        if self.failed {
            Err(ChannelError::Unknown)
        } else if self.delivered().len() > 0 {
            Ok(self.delivered()[0])
        } else {
            Err(ChannelError::Exited)
        }
    }

    /// Nonblocking receive: nothing when a receive would block, otherwise
    /// what the receive resolves to. Consumes the oldest payload exactly
    /// when one is returned; terminal errors persist.
    pub fn try_recv(&mut self) -> (r: Option<Result<Vec<u8>, ChannelError>>)
        ensures
            final(self).remote == old(self).remote,
            final(self).closed == old(self).closed,
            final(self).failed == old(self).failed,
            !old(self).ready() ==> r is None && final(self).delivered() == old(self).delivered(),
            old(self).ready() ==> {
                &&& r is Some
                &&& match old(self).recv_result() {
                    Ok(p) => r.unwrap() is Ok && r.unwrap().unwrap()@ == p && final(self).delivered() == old(self).delivered().drop_first(),
                    Err(e) => r.unwrap() == Err::<Vec<u8>, ChannelError>(e) && final(self).delivered() == old(self).delivered(),
                }
            },
    {
        if self.failed {
            return Some(Err(ChannelError::Unknown));
        }
        if self.queue.len() > 0 {
            let ghost pre = self.queue@;
            let front = self.queue.remove(0);
            proof {
                assert(payloads(self.queue@) =~= payloads(pre).drop_first());
            }
            return Some(Ok(front));
        }
        if self.closed {
            return Some(Err(ChannelError::Exited));
        }
        None
    }

    /// Receive: the step an async receive takes once ready. Yields the
    /// oldest payload, or the terminal error — `Exited` once the peer
    /// closed and everything delivered was consumed, `Unknown` on
    /// transport failure.
    pub fn recv(&mut self) -> (r: Result<Vec<u8>, ChannelError>)
        requires
            old(self).ready(),
        ensures
            final(self).remote == old(self).remote,
            final(self).closed == old(self).closed,
            final(self).failed == old(self).failed,
            match old(self).recv_result() {
                Ok(p) => r is Ok && r.unwrap()@ == p && final(self).delivered() == old(self).delivered().drop_first(),
                Err(e) => r == Err::<Vec<u8>, ChannelError>(e) && final(self).delivered() == old(self).delivered(),
            },
    {
        match self.try_recv() {
            Some(r) => r,
            None => {
                proof {
                    assert(false);
                }
                Err(ChannelError::Unknown)
            },
        }
    }

    /// Byte-stream read of exactly n bytes, one delivered one-byte payload
    /// each, in delivery order.
    pub fn read_exact(&mut self, n: usize) -> (r: Vec<u8>)
        requires
            !old(self).failed,
            n <= old(self).delivered().len(),
            forall|i: int| 0 <= i < n ==> #[trigger] old(self).delivered()[i].len() == 1,
        ensures
            final(self).remote == old(self).remote,
            final(self).closed == old(self).closed,
            final(self).failed == old(self).failed,
            final(self).delivered() == old(self).delivered().skip(n as int),
            r@.len() == n,
            forall|i: int| 0 <= i < n ==> #[trigger] r@[i] == old(self).delivered()[i][0],
    {
        let mut out: Vec<u8> = Vec::new();
        let mut i: usize = 0;
        while i < n
            invariant
                i <= n,
                !self.failed,
                self.remote == old(self).remote,
                self.closed == old(self).closed,
                self.delivered() =~= old(self).delivered().skip(i as int),
                n <= old(self).delivered().len(),
                forall|k: int| 0 <= k < n ==> #[trigger] old(self).delivered()[k].len() == 1,
                out@.len() == i,
                forall|k: int| 0 <= k < i ==> #[trigger] out@[k] == old(self).delivered()[k][0],
            decreases n - i,
        {
            let b = match self.recv() {
                Ok(p) => p[0],
                Err(_) => {
                    proof {
                        assert(false);
                    }
                    0
                },
            };
            out.push(b);
            i = i + 1;
            proof {
                assert(self.delivered() =~= old(self).delivered().skip(i as int));
            }
        }
        out
    }

    /// Byte-stream read with partial progress: up to n bytes, as many as
    /// are delivered now, one one-byte payload each, in delivery order.
    pub fn read(&mut self, n: usize) -> (r: Vec<u8>)
        requires
            !old(self).failed,
            forall|i: int| 0 <= i < old(self).delivered().len() ==> #[trigger] old(
                self,
            ).delivered()[i].len() == 1,
        ensures
            final(self).remote == old(self).remote,
            final(self).closed == old(self).closed,
            final(self).failed == old(self).failed,
            r@.len() == if n <= old(self).delivered().len() {
                n as int
            } else {
                old(self).delivered().len() as int
            },
            final(self).delivered() == old(self).delivered().skip(r@.len() as int),
            forall|i: int| 0 <= i < r@.len() ==> #[trigger] r@[i] == old(self).delivered()[i][0],
    {
        let avail = self.queue.len();
        let take = if n <= avail {
            n
        } else {
            avail
        };
        self.read_exact(take)
    }

    /// Drop this receiver: it leaves the registry, and the frame that
    /// tells the peer the receive half closed is returned for the wire.
    pub fn drop(self, rt: &mut Runtime) -> (r: Vec<u8>)
        requires
            old(rt).wf(),
        ensures
            final(rt).wf(),
            r@ == frame_enc(FrameKind::CloseRecv, Seq::<u8>::empty()),
            final(rt).inited == old(rt).inited,
            final(rt).st.pid == old(rt).st.pid,
            final(rt).st.bridge == old(rt).st.bridge,
            final(rt).st.resources == old(rt).st.resources,
            final(rt).st.deployed == old(rt).st.deployed,
            final(rt).st.senders@ == old(rt).st.senders@,
            forall|q: Pid| final(rt).st.receivers@.contains(q) <==> (old(rt).st.receivers@.contains(q) && q != self.remote),
    {
        pids_remove(&mut rt.st.receivers, &self.remote);
        let empty: Vec<u8> = Vec::new();
        let mut out: Vec<u8> = Vec::new();
        crate::frame::enc_frame(FrameKind::CloseRecv, &empty, &mut out);
        out
    }
}

/// Once a sender toward a peer exists, a second one is rejected; likewise
/// for receivers. The registry rule: at most one endpoint per peer and
/// direction per process.
pub proof fn lemma_second_endpoint_rejected(rt: Runtime, dir: Direction, remote: Pid)
    requires
        rt.initialized(),
        match dir {
            Direction::Send => rt.st.senders@.contains(remote),
            Direction::Recv => rt.st.receivers@.contains(remote),
        },
    ensures
        endpoint_check(rt, dir, remote) == Some(NewEndpointError::AlreadyExists)
            || endpoint_check(rt, dir, remote) == Some(NewEndpointError::OwnPid),
{
}

/// Dropping a sender ends the peer's channel cleanly: once the close of
/// the send half is delivered and everything sent before it has been
/// consumed, the very next receive — and every one after it — resolves
/// to the terminal exit, not to an error and not to a wait.
pub proof fn lemma_closed_channel_exits(r: Receiver)
    requires
        r.closed,
        !r.failed,
        r.delivered().len() == 0,
    ensures
        r.ready(),
        r.recv_result() == Err::<Seq<u8>, ChannelError>(ChannelError::Exited),
{
}

/// The byte-stream contract: writing a buffer sends one one-byte payload
/// per byte in order, so once those payloads are delivered, reading as
/// many bytes yields the identical byte sequence. The reader's bytes are
/// the heads of the delivered one-byte payloads; this says they are the
/// written buffer itself.
pub proof fn lemma_byte_stream_identity(b: Seq<u8>, r: Seq<u8>)
    requires
        r.len() == b.len(),
        forall|i: int| 0 <= i < b.len() ==> #[trigger] r[i] == b.map_values(|x: u8| seq![x])[i][0],
    ensures
        r == b,
{
    let singles = b.map_values(|x: u8| seq![x]);
    assert(forall|i: int| 0 <= i < b.len() ==> singles[i] == seq![#[trigger] b[i]]);
    assert(r =~= b);
}

/// A channel to the process itself is always rejected.
pub proof fn lemma_no_self_channel(rt: Runtime, dir: Direction)
    requires
        rt.initialized(),
    ensures
        endpoint_check(rt, dir, rt.st.pid) is Some,
{
}

} // verus!
