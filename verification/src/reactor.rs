//! The reactor's connection table and per-connection receive buffering.
//!
//! The event loop itself — sockets, readiness, accept — lives outside;
//! this module decides. The table keeps the invariant that at most one
//! connection exists toward any peer, collapsing a simultaneous
//! dial-and-accept race with the deterministic tie-break: the smaller pid
//! is the connector. A [`FrameBuffer`] turns the wire bytes of one
//! connection back into frames, in order.

use vstd::prelude::*;
use crate::frame::{dec_frame, frame_dec, Frame, FrameError};
use crate::pid::{spec_dials, Pid};

verus! {

/// Where a connection stands.
#[derive(Clone, Copy, PartialEq, Eq, Structural, Hash, Debug)]
pub enum ConnState {
    /// An outbound connect is in flight.
    Dialing,
    /// Connected; the pid exchange is under way.
    Handshaking,
    /// Identified and carrying frames both ways.
    Open,
    /// This side closed its half; the peer's half still runs.
    HalfClosedLocal,
    /// The peer closed its half; this side's half still runs.
    HalfClosedRemote,
    /// Both halves closed and drained.
    Closed,
}

/// What to do with an inbound connection whose handshake named a peer.
#[derive(Clone, Copy, PartialEq, Eq, Structural, Hash, Debug)]
pub enum AcceptAction {
    /// Keep the accepted socket: it is the one connection to that peer.
    Adopt,
    /// Drop the accepted socket: the connection to that peer already
    /// stands, or this side is the connector and its dial wins.
    Reject,
}

/// The per-process connection table.
pub struct Reactor {
    /// This process's own pid.
    pub own: Pid,
    /// One entry per remote pid.
    pub conns: Vec<(Pid, ConnState)>,
}

/// The decision taken on an inbound connection from `peer`, given the
/// state of the entry toward `peer`, if any: with no entry the inbound
/// connection is the connection; while this side is still dialing or
/// handshaking, the tie-break decides — the smaller pid is the connector,
/// so if this side dials it rejects the inbound attempt, else it abandons
/// its own; once a connection is open, a second one is never accepted.
pub open spec fn accept_decision(own: Pid, cur: Option<ConnState>, peer: Pid) -> AcceptAction {
    match cur {
        None => AcceptAction::Adopt,
        Some(ConnState::Dialing) => if spec_dials(own, peer) {
            AcceptAction::Reject
        } else {
            AcceptAction::Adopt
        },
        Some(ConnState::Handshaking) => if spec_dials(own, peer) {
            AcceptAction::Reject
        } else {
            AcceptAction::Adopt
        },
        Some(_) => AcceptAction::Reject,
    }
}

/// One half closing advances the connection's state; when the second half
/// closes, the connection is closed.
pub open spec fn close_step(s: ConnState, local: bool) -> ConnState {
    match s {
        ConnState::Open => if local {
            ConnState::HalfClosedLocal
        } else {
            ConnState::HalfClosedRemote
        },
        ConnState::HalfClosedLocal => if local {
            ConnState::HalfClosedLocal
        } else {
            ConnState::Closed
        },
        ConnState::HalfClosedRemote => if local {
            ConnState::Closed
        } else {
            ConnState::HalfClosedRemote
        },
        _ => s,
    }
}

impl Reactor {
    /// The remote pids of the table, in entry order.
    pub open spec fn keys(self) -> Seq<Pid> {
        self.conns@.map_values(|e: (Pid, ConnState)| e.0)
    }

    /// No peer has two entries: at most one connection per pid pair.
    pub open spec fn wf(self) -> bool {
        forall|i: int, j: int| 0 <= i < j < self.keys().len() ==> self.keys()[i]
            != self.keys()[j]
    }

    /// Is there a connection toward p?
    pub open spec fn has_conn(self, p: Pid) -> bool {
        self.keys().contains(p)
    }

    /// The state of the connection toward p.
    pub open spec fn state_of(self, p: Pid) -> Option<ConnState> {
        if self.has_conn(p) {
            let i = choose|i: int| 0 <= i < self.keys().len() && self.keys()[i] == p;
            Some(self.conns@[i].1)
        } else {
            None
        }
    }

    /// A fresh reactor with no connections.
    pub fn new(own: Pid) -> (r: Reactor)
        ensures
            r.own == own,
            r.keys() == Seq::<Pid>::empty(),
            r.wf(),
    {
        let r = Reactor { own, conns: Vec::new() };
        proof {
            assert(r.keys() =~= Seq::<Pid>::empty());
        }
        r
    }

    /// The index of the entry toward p, if any.
    fn find(&self, p: &Pid) -> (r: Option<usize>)
        ensures
            match r {
                Some(i) => i < self.conns@.len() && self.conns@[i as int].0 == *p,
                None => !self.has_conn(*p),
            },
    {
        let mut i: usize = 0;
        while i < self.conns.len()
            invariant
                i <= self.conns@.len(),
                forall|k: int| 0 <= k < i ==> self.conns@[k].0 != *p,
            decreases self.conns@.len() - i,
        {
            if self.conns[i].0.ip == p.ip && self.conns[i].0.port == p.port {
                return Some(i);
            }
            i = i + 1;
        }
        proof {
            assert forall|k: int| 0 <= k < self.keys().len() implies self.keys()[k] != *p by {}
        }
        None
    }

    /// Dial on first use: make the entry toward `remote` and start
    /// connecting, unless a connection toward it already stands — there is
    /// never a second one.
    pub fn dial(&mut self, remote: Pid) -> (r: bool)
        requires
            old(self).wf(),
        ensures
            final(self).wf(),
            final(self).own == old(self).own,
            r == !old(self).has_conn(remote),
            r ==> final(self).keys() == old(self).keys().push(remote) && final(self).state_of(
                remote,
            ) == Some(ConnState::Dialing),
            !r ==> final(self).conns@ == old(self).conns@,
    {
        match self.find(&remote) {
            Some(i) => {
                proof {
                    assert(self.keys()[i as int] == remote);
                }
                false
            },
            None => {
                self.conns.push((remote, ConnState::Dialing));
                proof {
                    lemma_push_keys(*old(self), *self, remote, ConnState::Dialing);
                    let n = self.keys().len() - 1;
                    lemma_unique_index(*self, remote, n);
                }
                true
            },
        }
    }

    /// Advance the entry toward `remote` to the given state; nothing
    /// happens when no entry exists.
    fn set_state(&mut self, remote: &Pid, s: ConnState) -> (r: bool)
        requires
            old(self).wf(),
        ensures
            final(self).wf(),
            final(self).own == old(self).own,
            final(self).keys() == old(self).keys(),
            r == old(self).has_conn(*remote),
            r ==> final(self).state_of(*remote) == Some(s),
            forall|q: Pid| q != *remote ==> final(self).state_of(q) == old(self).state_of(q),
            !r ==> final(self).conns@ == old(self).conns@,
    {
        match self.find(remote) {
            Some(i) => {
                self.conns[i] = (*remote, s);
                proof {
                    assert(self.keys() =~= old(self).keys());
                    lemma_unique_index(*self, *remote, i as int);
                    assert forall|q: Pid| q != *remote implies #[trigger] self.state_of(q) == old(
                        self,
                    ).state_of(q) by {
                        lemma_state_of_untouched(*old(self), *self, i as int, q);
                    }
                }
                true
            },
            None => false,
        }
    }

    /// The dial toward `remote` connected: exchange pids.
    pub fn on_connected(&mut self, remote: Pid) -> (r: bool)
        requires
            old(self).wf(),
        ensures
            final(self).wf(),
            final(self).own == old(self).own,
            final(self).keys() == old(self).keys(),
            r == old(self).has_conn(remote),
            r ==> final(self).state_of(remote) == Some(ConnState::Handshaking),
            forall|q: Pid| q != remote ==> final(self).state_of(q) == old(self).state_of(q),
    {
        self.set_state(&remote, ConnState::Handshaking)
    }

    /// The pid exchange toward `remote` completed: the connection is open.
    pub fn on_handshake_complete(&mut self, remote: Pid) -> (r: bool)
        requires
            old(self).wf(),
        ensures
            final(self).wf(),
            final(self).own == old(self).own,
            final(self).keys() == old(self).keys(),
            r == old(self).has_conn(remote),
            r ==> final(self).state_of(remote) == Some(ConnState::Open),
            forall|q: Pid| q != remote ==> final(self).state_of(q) == old(self).state_of(q),
    {
        self.set_state(&remote, ConnState::Open)
    }

    /// An accepted inbound connection announced `peer` in its handshake.
    /// Decide per [`accept_decision`]; on Adopt the table's one entry
    /// toward `peer` is the inbound connection, open; on Reject the table
    /// is unchanged and the inbound socket is dropped.
    pub fn on_accept(&mut self, peer: Pid) -> (r: AcceptAction)
        requires
            old(self).wf(),
        ensures
            final(self).wf(),
            final(self).own == old(self).own,
            r == accept_decision(old(self).own, old(self).state_of(peer), peer),
            r is Adopt ==> final(self).state_of(peer) == Some(ConnState::Open),
            r is Adopt && old(self).has_conn(peer) ==> final(self).keys() == old(self).keys(),
            r is Adopt && !old(self).has_conn(peer) ==> final(self).keys() == old(
                self,
            ).keys().push(peer),
            r is Reject ==> final(self).conns@ == old(self).conns@,
            forall|q: Pid| q != peer ==> final(self).state_of(q) == old(self).state_of(q),
    {
        match self.find(&peer) {
            None => {
                self.conns.push((peer, ConnState::Open));
                proof {
                    lemma_push_keys(*old(self), *self, peer, ConnState::Open);
                    let n = self.keys().len() - 1;
                    lemma_unique_index(*self, peer, n);
                    assert forall|q: Pid| q != peer implies #[trigger] self.state_of(q) == old(
                        self,
                    ).state_of(q) by {
                        lemma_state_of_after_push(*old(self), *self, q);
                    }
                }
                AcceptAction::Adopt
            },
            Some(i) => {
                proof {
                    lemma_unique_index(*old(self), peer, i as int);
                }
                let cur = self.conns[i].1;
                let we_dial = crate::pid::dials(&self.own, &peer);
                match cur {
                    ConnState::Dialing | ConnState::Handshaking => {
                        if we_dial {
                            AcceptAction::Reject
                        } else {
                            let _ = self.set_state(&peer, ConnState::Open);
                            AcceptAction::Adopt
                        }
                    },
                    _ => AcceptAction::Reject,
                }
            },
        }
    }

    /// This side closed its half toward `remote` (its sender and receiver
    /// both dropped); advance the state, and say whether the connection is
    /// now fully closed.
    pub fn on_local_close(&mut self, remote: Pid) -> (r: bool)
        requires
            old(self).wf(),
            old(self).has_conn(remote),
        ensures
            final(self).wf(),
            final(self).own == old(self).own,
            final(self).keys() == old(self).keys(),
            final(self).state_of(remote) == Some(
                close_step(old(self).state_of(remote).unwrap(), true),
            ),
            r == (close_step(old(self).state_of(remote).unwrap(), true) is Closed),
            forall|q: Pid| q != remote ==> final(self).state_of(q) == old(self).state_of(q),
    {
        let i = match self.find(&remote) {
            Some(i) => i,
            None => {
                proof {
                    assert(false);
                }
                return false;
            },
        };
        proof {
            lemma_unique_index(*old(self), remote, i as int);
        }
        let cur = self.conns[i].1;
        let next = match cur {
            ConnState::Open => ConnState::HalfClosedLocal,
            ConnState::HalfClosedLocal => ConnState::HalfClosedLocal,
            ConnState::HalfClosedRemote => ConnState::Closed,
            other => other,
        };
        let _ = self.set_state(&remote, next);
        matches!(next, ConnState::Closed)
    }

    /// The peer closed its half toward this process; advance the state,
    /// and say whether the connection is now fully closed.
    pub fn on_remote_close(&mut self, remote: Pid) -> (r: bool)
        requires
            old(self).wf(),
            old(self).has_conn(remote),
        ensures
            final(self).wf(),
            final(self).own == old(self).own,
            final(self).keys() == old(self).keys(),
            final(self).state_of(remote) == Some(
                close_step(old(self).state_of(remote).unwrap(), false),
            ),
            r == (close_step(old(self).state_of(remote).unwrap(), false) is Closed),
            forall|q: Pid| q != remote ==> final(self).state_of(q) == old(self).state_of(q),
    {
        let i = match self.find(&remote) {
            Some(i) => i,
            None => {
                proof {
                    assert(false);
                }
                return false;
            },
        };
        proof {
            lemma_unique_index(*old(self), remote, i as int);
        }
        let cur = self.conns[i].1;
        let next = match cur {
            ConnState::Open => ConnState::HalfClosedRemote,
            ConnState::HalfClosedLocal => ConnState::Closed,
            ConnState::HalfClosedRemote => ConnState::HalfClosedRemote,
            other => other,
        };
        let _ = self.set_state(&remote, next);
        matches!(next, ConnState::Closed)
    }
}

proof fn lemma_push_keys(pre: Reactor, post: Reactor, p: Pid, s: ConnState)
    requires
        pre.wf(),
        post.conns@ == pre.conns@.push((p, s)),
        !pre.has_conn(p),
    ensures
        post.keys() == pre.keys().push(p),
        post.wf(),
{
    assert(post.keys() =~= pre.keys().push(p));
    let n = post.keys().len() - 1;
    assert forall|i: int, j: int| 0 <= i < j < post.keys().len() implies post.keys()[i]
        != post.keys()[j] by {
        if j == n {
            assert(pre.keys().contains(pre.keys()[i]));
        }
    }
}

/// In a well-formed table the entry toward a pid is unique, so `state_of`
/// speaks of the entry at any index that carries that pid.
pub proof fn lemma_unique_index(r: Reactor, p: Pid, i: int)
    requires
        r.wf(),
        0 <= i < r.conns@.len(),
        r.conns@[i].0 == p,
    ensures
        r.state_of(p) == Some(r.conns@[i].1),
{
    assert(r.keys()[i] == p);
    assert(r.has_conn(p));
    let j = choose|j: int| 0 <= j < r.keys().len() && r.keys()[j] == p;
    if i != j {
        assert(r.keys()[i] == r.keys()[j]);
        assert(false);
    }
}

proof fn lemma_state_of_untouched(pre: Reactor, post: Reactor, i: int, q: Pid)
    requires
        pre.wf(),
        post.wf(),
        0 <= i < pre.conns@.len(),
        post.conns@.len() == pre.conns@.len(),
        forall|k: int| 0 <= k < pre.conns@.len() && k != i ==> post.conns@[k] == pre.conns@[k],
        post.conns@[i].0 == pre.conns@[i].0,
        q != pre.conns@[i].0,
    ensures
        post.state_of(q) == pre.state_of(q),
{
    assert(post.keys() =~= pre.keys());
    if pre.has_conn(q) {
        let k = choose|k: int| 0 <= k < pre.keys().len() && pre.keys()[k] == q;
        assert(k != i);
        lemma_unique_index(pre, q, k);
        lemma_unique_index(post, q, k);
    }
}

proof fn lemma_state_of_after_push(pre: Reactor, post: Reactor, q: Pid)
    requires
        pre.wf(),
        post.wf(),
        post.conns@.len() == pre.conns@.len() + 1,
        forall|k: int| 0 <= k < pre.conns@.len() ==> post.conns@[k] == pre.conns@[k],
        q != post.conns@[post.conns@.len() - 1].0,
    ensures
        post.state_of(q) == pre.state_of(q),
{
    assert forall|k: int| 0 <= k < pre.keys().len() implies post.keys()[k] == pre.keys()[k] by {}
    if pre.has_conn(q) {
        let k = choose|k: int| 0 <= k < pre.keys().len() && pre.keys()[k] == q;
        lemma_unique_index(pre, q, k);
        lemma_unique_index(post, q, k);
    } else {
        if post.has_conn(q) {
            let k = choose|k: int| 0 <= k < post.keys().len() && post.keys()[k] == q;
            assert(k < pre.keys().len());
            assert(pre.keys().contains(q));
        }
    }
}

/// At most one connection exists toward any peer: in a well-formed table,
/// two entries naming the same pid are the same entry.
pub proof fn lemma_one_connection_per_pair(r: Reactor, i: int, j: int)
    requires
        r.wf(),
        0 <= i < r.conns@.len(),
        0 <= j < r.conns@.len(),
        r.conns@[i].0 == r.conns@[j].0,
    ensures
        i == j,
{
    if i < j {
        assert(r.keys()[i] == r.keys()[j]);
    }
    if j < i {
        assert(r.keys()[i] == r.keys()[j]);
    }
}

/// In a simultaneous dial race between two distinct processes, the two
/// sides decide complementarily: exactly one of them adopts the other's
/// inbound connection and abandons its own dial, so exactly one TCP
/// connection survives. Which side wins depends on the two pids alone, so
/// a restart with the same pids decides the same way.
pub proof fn lemma_race_collapses_to_one(a: Pid, b: Pid)
    requires
        a != b,
    ensures
        (accept_decision(a, Some(ConnState::Dialing), b) is Reject) <==> (accept_decision(
            b,
            Some(ConnState::Dialing),
            a,
        ) is Adopt),
{
    crate::pid::lemma_tie_break_one_dialer(a, b);
}

/// How many frames the reactor holds for a `(remote, direction)` with no
/// registered endpoint before it stops reading that direction.
pub const PENDING_BOUND: usize = 16;

/// Frames decoded for an endpoint that does not exist yet: a small,
/// bounded room. When it fills, the reactor applies backpressure — it
/// reads no further on that direction — rather than drop or grow.
pub struct PendingFrames {
    /// The held frames, oldest first.
    pub frames: Vec<Frame>,
}

impl PendingFrames {
    /// The held payload-and-kind pairs, oldest first.
    pub open spec fn view_frames(self) -> Seq<(crate::frame::FrameKind, Seq<u8>)> {
        self.frames@.map_values(|f: Frame| (f.kind, f.payload@))
    }

    /// No room for frames yet.
    pub fn new() -> (r: PendingFrames)
        ensures
            r.view_frames() == Seq::<(crate::frame::FrameKind, Seq<u8>)>::empty(),
            r.frames@.len() == 0,
    {
        let r = PendingFrames { frames: Vec::new() };
        proof {
            assert(r.view_frames() =~= Seq::<(crate::frame::FrameKind, Seq<u8>)>::empty());
        }
        r
    }

    /// Hold one more frame, in arrival order — accepted exactly while the
    /// room has space; a refusal is the reactor's signal to stop reading.
    pub fn push(&mut self, f: Frame) -> (r: bool)
        ensures
            r == (old(self).frames@.len() < PENDING_BOUND),
            r ==> final(self).view_frames() == old(self).view_frames().push((f.kind, f.payload@)),
            r ==> final(self).frames@.len() == old(self).frames@.len() + 1,
            !r ==> final(self).frames@ == old(self).frames@,
    {
        if self.frames.len() < PENDING_BOUND {
            let ghost pre = self.frames@;
            self.frames.push(f);
            proof {
                assert(self.view_frames() =~= PendingFrames { frames: old(self).frames }
                    .view_frames().push(
                    (self.frames@[pre.len() as int].kind, self.frames@[pre.len() as int].payload@),
                ));
            }
            true
        } else {
            false
        }
    }

    /// Hand everything held to the endpoint that now exists, oldest
    /// first; the room empties and the endpoint is exactly as if the
    /// reactor had dispatched each frame on arrival.
    pub fn drain(&mut self, receiver: &mut crate::channel::Receiver)
        ensures
            final(self).frames@.len() == 0,
            final(receiver).remote == old(receiver).remote,
            final(receiver).failed == old(receiver).failed,
            final(receiver).delivered() == apply_frames(
                old(receiver).delivered(),
                old(receiver).closed,
                old(self).view_frames(),
            ).0,
            final(receiver).closed == apply_frames(
                old(receiver).delivered(),
                old(receiver).closed,
                old(self).view_frames(),
            ).1,
    {
        while self.frames.len() > 0
            invariant
                receiver.remote == old(receiver).remote,
                receiver.failed == old(receiver).failed,
                apply_frames(receiver.delivered(), receiver.closed, self.view_frames())
                    == apply_frames(
                    old(receiver).delivered(),
                    old(receiver).closed,
                    old(self).view_frames(),
                ),
            decreases self.frames@.len(),
        {
            let ghost pre = self.frames@;
            let ghost pre_view = self.view_frames();
            let f = self.frames.remove(0);
            proof {
                assert(self.view_frames() =~= pre_view.drop_first());
                assert(pre_view[0] == (f.kind, f.payload@));
            }
            receiver.on_frame(f);
        }
        proof {
            assert(self.view_frames() =~= Seq::<(crate::frame::FrameKind, Seq<u8>)>::empty());
        }
    }
}

/// What one frame does to a receiving endpoint's state: data joins the
/// delivered queue, the peer's close marks the channel, anything else
/// changes nothing.
pub open spec fn frame_effect(
    d: Seq<Seq<u8>>,
    c: bool,
    f: (crate::frame::FrameKind, Seq<u8>),
) -> (Seq<Seq<u8>>, bool) {
    match f.0 {
        crate::frame::FrameKind::Data => (d.push(f.1), c),
        crate::frame::FrameKind::CloseSend => (d, true),
        _ => (d, c),
    }
}

/// What a run of frames does to a receiving endpoint's state, first frame
/// first.
pub open spec fn apply_frames(
    d: Seq<Seq<u8>>,
    c: bool,
    fs: Seq<(crate::frame::FrameKind, Seq<u8>)>,
) -> (Seq<Seq<u8>>, bool)
    decreases fs.len(),
{
    if fs.len() == 0 {
        (d, c)
    } else {
        let step = frame_effect(d, c, fs[0]);
        apply_frames(step.0, step.1, fs.drop_first())
    }
}

/// The undecoded wire bytes of one connection, turned back into frames in
/// arrival order.
pub struct FrameBuffer {
    /// Bytes received and not yet decoded.
    pub rx: Vec<u8>,
}

impl FrameBuffer {
    /// An empty buffer for a fresh connection.
    pub fn new() -> (r: FrameBuffer)
        ensures
            r.rx@ == Seq::<u8>::empty(),
    {
        let r = FrameBuffer { rx: Vec::new() };
        proof {
            assert(r.rx@ =~= Seq::<u8>::empty());
        }
        r
    }

    /// Bytes arrived from the wire: they join the end of the buffer.
    pub fn ingest(&mut self, bytes: &Vec<u8>)
        ensures
            final(self).rx@ == old(self).rx@ + bytes@,
    {
        crate::codec::append_bytes(bytes, &mut self.rx);
    }

    /// Decode the frame at the front of the buffer, consuming its bytes:
    /// nothing when no complete frame has arrived yet, the frame when one
    /// has, and the protocol violation when the bytes are no frame — the
    /// connection is then torn down.
    pub fn next_frame(&mut self) -> (r: Result<Option<Frame>, FrameError>)
        ensures
            match frame_dec(old(self).rx@) {
                Ok(None) => r is Ok && r.unwrap() is None && final(self).rx@ == old(self).rx@,
                Ok(Some(p)) => {
                    &&& r is Ok
                    &&& r.unwrap() is Some
                    &&& r.unwrap().unwrap().kind == p.0.0
                    &&& r.unwrap().unwrap().payload@ == p.0.1
                    &&& final(self).rx@ == old(self).rx@.skip(p.1)
                },
                Err(e) => r == Err::<Option<Frame>, FrameError>(e) && final(self).rx@ == old(
                    self,
                ).rx@,
            },
    {
        proof {
            assert(self.rx@.subrange(0, self.rx@.len() as int) =~= self.rx@);
        }
        match dec_frame(&self.rx, 0) {
            Ok(Some((f, end))) => {
                proof {
                    let d = frame_dec(self.rx@);
                    assert(d matches Ok(Some(p)) && end == p.1 && p.1 <= self.rx@.len());
                }
                let rest = crate::codec::copy_range(&self.rx, end, self.rx.len() - end);
                proof {
                    assert(rest@ =~= old(self).rx@.skip(end as int));
                }
                self.rx = rest;
                Ok(Some(f))
            },
            Ok(None) => Ok(None),
            Err(e) => Err(e),
        }
    }
}

} // verus!
