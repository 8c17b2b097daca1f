//! The monitor's decisions. Every worker runs behind a monitor process
//! that holds the one channel to the bridge, relays the worker's standard
//! streams and lifecycle upward and the bridge's input and kill orders
//! downward, and turns the worker's wait result into an exit status.
//! The pipes, threads and signals live outside; these functions decide.

use vstd::prelude::*;
use crate::events::{pie_view, poe_view, InputEventModel, ProcessInputEvent, ProcessOutputEvent};
use crate::pid::Pid;
use crate::status::ExitStatus;

verus! {

/// What `wait` reported about the worker.
#[derive(Clone, Copy, PartialEq, Eq, Structural, Hash, Debug)]
pub enum WaitStatus {
    /// The worker exited with this code.
    Exited(u8),
    /// The worker was ended by this signal.
    Signaled(u8),
}

/// The worker's wait result as its exit status: code zero is
/// success, any other code is a plain failure, a signal is death by that
/// signal.
pub fn exit_status_of_wait(w: WaitStatus) -> (r: ExitStatus)
    ensures
        w == WaitStatus::Exited(0u8) ==> r == ExitStatus::Success,
        forall|c: u8| c != 0 && w == WaitStatus::Exited(c) ==> r == ExitStatus::Code(c),
        forall|s: u8| w == WaitStatus::Signaled(s) ==> r == ExitStatus::Signaled(s),
        crate::status::status_wf(r),
{
    match w {
        WaitStatus::Exited(c) => ExitStatus::from_unix_status(c),
        WaitStatus::Signaled(s) => ExitStatus::from_unix_signal(s),
    }
}

/// Where an accepted socket belongs.
#[derive(Clone, Copy, PartialEq, Eq, Structural, Hash, Debug)]
pub enum SocketRoute {
    /// The monitor keeps it: it is the control channel to the bridge.
    Keep,
    /// It belongs to the supervised worker: pass the descriptor down.
    ForwardToWorker,
}

/// The socket forwarder's policy: the monitor shares its worker's
/// listener, keeps only the connection whose peer is the bridge, and hands
/// every other accepted connection to the worker.
pub fn route_accepted(peer: &Pid, bridge: &Pid) -> (r: SocketRoute)
    ensures
        r == SocketRoute::Keep <==> *peer == *bridge,
        r == SocketRoute::ForwardToWorker <==> *peer != *bridge,
{
    if peer.ip == bridge.ip && peer.port == bridge.port {
        SocketRoute::Keep
    } else {
        SocketRoute::ForwardToWorker
    }
}

/// One read from a worker's standard stream, turned into the event to
/// relay: the bytes read, attributed to that stream; an empty read is the
/// stream's end — the final, empty event is still relayed, and the
/// forwarding of that stream stops.
pub fn forward_chunk(fd: i32, chunk: Vec<u8>) -> (r: (ProcessOutputEvent, bool))
    ensures
        r.0 matches ProcessOutputEvent::Output(f, b) && f == fd && b@ == chunk@,
        r.1 == (chunk@.len() > 0),
{
    let more = chunk.len() > 0;
    (ProcessOutputEvent::Output(fd, chunk), more)
}

/// What the monitor does with one bridge-originated input event, given
/// which stream it forwards and whether the worker's stdin pipe is still
/// open.
#[derive(Clone, Debug)]
pub enum StdinAction {
    /// Write these bytes into the worker's stdin pipe.
    Write(Vec<u8>),
    /// Close the worker's stdin pipe and stop forwarding input.
    Close,
    /// Deliver a kill signal to the worker; a worker already gone is no
    /// error.
    Kill,
    /// Nothing: the pipe is already closed, or the event names a stream
    /// this monitor does not feed.
    Ignore,
}

/// Decide one bridge-originated event: bytes for the forwarded stream are
/// written while the pipe is open, an empty payload closes the pipe, a
/// kill order kills, everything else is ignored.
pub fn stdin_step(fd: i32, ev: ProcessInputEvent, pipe_open: bool) -> (r: StdinAction)
    ensures
        ev matches ProcessInputEvent::Kill ==> r is Kill,
        match pie_view(ev) {
            InputEventModel::Input(f, b) => if f == fd && pipe_open {
                if b.len() > 0 {
                    r matches StdinAction::Write(w) && w@ == b
                } else {
                    r is Close
                }
            } else {
                r is Ignore
            },
            InputEventModel::Kill => r is Kill,
        },
{
    match ev {
        ProcessInputEvent::Kill => StdinAction::Kill,
        ProcessInputEvent::Input(f, b) => {
            if f == fd && pipe_open {
                if b.len() > 0 {
                    StdinAction::Write(b)
                } else {
                    StdinAction::Close
                }
            } else {
                StdinAction::Ignore
            }
        },
    }
}

/// Relay one worker-originated event toward the bridge, and say whether
/// the monitor's relay loop is over: the exit event is the last.
pub fn relay_step(ev: ProcessOutputEvent) -> (r: (ProcessOutputEvent, bool))
    ensures
        poe_view(r.0) == poe_view(ev),
        r.1 == (poe_view(ev) is Exit),
{
    let stop = matches!(ev, ProcessOutputEvent::Exit(_));
    (ev, stop)
}

/// The monitor's last word: the worker's wait result as the exit event
/// the bridge folds into the run's status.
pub fn final_exit_event(w: WaitStatus) -> (r: ProcessOutputEvent)
    ensures
        r matches ProcessOutputEvent::Exit(s) && s == (match w {
            WaitStatus::Exited(c) => if c == 0 {
                ExitStatus::Success
            } else {
                ExitStatus::Code(c)
            },
            WaitStatus::Signaled(g) => ExitStatus::Signaled(g),
        }),
{
    ProcessOutputEvent::Exit(exit_status_of_wait(w))
}

} // verus!
