use constellation::bridge::{Bridge, DeployOutputEvent};
use constellation::events::ProcessOutputEvent;
use constellation::pid::{dials, Pid};
use constellation::reactor::{AcceptAction, ConnState, Reactor};
use constellation::render::{render_human, render_json};
use constellation::status::ExitStatus;

fn pid(port: u16) -> Pid {
    Pid::new(0x7F000001, port)
}

#[test]
fn tie_break_is_deterministic_and_one_sided() {
    let a = pid(1000);
    let b = pid(2000);
    assert!(dials(&a, &b));
    assert!(!dials(&b, &a));
    // same inputs, same answer — a restart decides identically
    assert!(dials(&a, &b));
    let c = Pid::new(0x7F000002, 1000);
    assert!(dials(&a, &c));
    assert!(!dials(&c, &a));
}

#[test]
fn at_most_one_connection_per_peer() {
    let mut r = Reactor::new(pid(1000));
    assert!(r.dial(pid(2000)));
    assert!(!r.dial(pid(2000)));
    assert!(r.dial(pid(3000)));
    assert_eq!(r.conns.len(), 2);
}

#[test]
fn dial_race_collapses_to_one_connection() {
    let a = pid(1000);
    let b = pid(2000);
    // both sides dialed at once; each accepts an inbound connection that
    // announces the other
    let mut ra = Reactor::new(a);
    let mut rb = Reactor::new(b);
    assert!(ra.dial(b));
    assert!(rb.dial(a));
    let at_a = ra.on_accept(b);
    let at_b = rb.on_accept(a);
    // exactly one side keeps its dial and rejects the inbound socket
    assert!(matches!(
        (at_a, at_b),
        (AcceptAction::Reject, AcceptAction::Adopt) | (AcceptAction::Adopt, AcceptAction::Reject)
    ));
    // the smaller pid is the connector
    assert!(matches!(at_a, AcceptAction::Reject));
    assert_eq!(ra.conns.len(), 1);
    assert_eq!(rb.conns.len(), 1);
}

#[test]
fn inbound_to_unknown_peer_is_adopted() {
    let mut r = Reactor::new(pid(1000));
    assert!(matches!(r.on_accept(pid(4000)), AcceptAction::Adopt));
    // a second inbound from the same peer is refused
    assert!(matches!(r.on_accept(pid(4000)), AcceptAction::Reject));
}

#[test]
fn connection_lifecycle_states() {
    let mut r = Reactor::new(pid(1000));
    let peer = pid(2000);
    assert!(r.dial(peer));
    assert!(r.on_connected(peer));
    assert_eq!(r.conns[0].1, ConnState::Handshaking);
    assert!(r.on_handshake_complete(peer));
    assert_eq!(r.conns[0].1, ConnState::Open);
    assert!(!r.on_local_close(peer));
    assert_eq!(r.conns[0].1, ConnState::HalfClosedLocal);
    assert!(r.on_remote_close(peer));
    assert_eq!(r.conns[0].1, ConnState::Closed);
}

#[test]
fn close_halves_commute() {
    let mut r = Reactor::new(pid(1000));
    let peer = pid(2000);
    assert!(matches!(r.on_accept(peer), AcceptAction::Adopt));
    assert!(!r.on_remote_close(peer));
    assert_eq!(r.conns[0].1, ConnState::HalfClosedRemote);
    assert!(r.on_local_close(peer));
    assert_eq!(r.conns[0].1, ConnState::Closed);
}

#[test]
fn bridge_registers_spawn_and_opens_endpoints() {
    let first = pid(1000);
    let mut b = Bridge::new(first);
    let newcomer = pid(2000);
    let (ev, open) = b.step(first, ProcessOutputEvent::Spawn(newcomer));
    assert!(matches!(ev, DeployOutputEvent::Spawn(a, n) if a == first && n == newcomer));
    assert_eq!(open, Some(newcomer));
    assert!(b.knows(&newcomer));
    // the same spawn again opens nothing twice
    let (_, open) = b.step(first, ProcessOutputEvent::Spawn(newcomer));
    assert_eq!(open, None);
}

#[test]
fn bridge_fan_out_collects_all_children() {
    let first = pid(1000);
    let mut b = Bridge::new(first);
    let kids = [pid(2000), pid(3000), pid(4000)];
    let mut opened: Vec<Pid> = Vec::new();
    for k in kids {
        let (_, open) = b.step(first, ProcessOutputEvent::Spawn(k));
        opened.push(open.unwrap());
    }
    assert_eq!(opened, kids.to_vec());
    for k in kids {
        assert!(b.knows(&k));
    }
}

#[test]
fn bridge_passes_output_through() {
    let first = pid(1000);
    let mut b = Bridge::new(first);
    let (ev, open) = b.step(first, ProcessOutputEvent::Output(1, b"hi".to_vec()));
    assert!(open.is_none());
    assert!(matches!(ev, DeployOutputEvent::Output(a, 1, bytes) if a == first && bytes == b"hi".to_vec()));
}

#[test]
fn bridge_aggregates_first_failure_and_finishes() {
    let first = pid(1000);
    let mut b = Bridge::new(first);
    let second = pid(2000);
    let _ = b.step(first, ProcessOutputEvent::Spawn(second));
    assert!(!b.done());

    let (ev, _) = b.step(second, ProcessOutputEvent::Exit(ExitStatus::Signaled(9)));
    assert!(matches!(ev, DeployOutputEvent::Exit(p, ExitStatus::Signaled(9)) if p == second));
    assert!(!b.knows(&second));
    // a later success does not mask the failure
    let _ = b.step(first, ProcessOutputEvent::Exit(ExitStatus::Success));
    assert!(b.done());
    assert_eq!(b.exit_code(), 137);
}

#[test]
fn bridge_all_successes_exit_zero() {
    let first = pid(1000);
    let mut b = Bridge::new(first);
    let _ = b.step(first, ProcessOutputEvent::Exit(ExitStatus::Success));
    assert!(b.done());
    assert_eq!(b.exit_code(), 0);
}

#[test]
fn exit_codes_by_kind() {
    assert_eq!(ExitStatus::Success.exit_code(), 0);
    assert_eq!(ExitStatus::Code(3).exit_code(), 3);
    assert_eq!(ExitStatus::Signaled(15).exit_code(), 143);
}

#[test]
fn human_lines_exact() {
    let a = Pid::new(0x7F000001, 1000);
    let b = Pid::new(0x7F000001, 2000);
    let line = render_human(&DeployOutputEvent::Spawn(a, b));
    assert_eq!(line, b"127.0.0.1:1000 spawned 127.0.0.1:2000\n".to_vec());
    let line = render_human(&DeployOutputEvent::Output(a, 1, b"hi".to_vec()));
    assert_eq!(line, b"127.0.0.1:1000> hi\n".to_vec());
    let line = render_human(&DeployOutputEvent::Output(a, 2, b"oops".to_vec()));
    assert_eq!(line, b"127.0.0.1:1000! oops\n".to_vec());
    let line = render_human(&DeployOutputEvent::Exit(a, ExitStatus::Signaled(9)));
    assert_eq!(line, b"127.0.0.1:1000 exited signal 9\n".to_vec());
    let line = render_human(&DeployOutputEvent::Exit(a, ExitStatus::Success));
    assert_eq!(line, b"127.0.0.1:1000 exited ok\n".to_vec());
}

#[test]
fn json_lines_exact() {
    let a = Pid::new(0x7F000001, 1000);
    let b = Pid::new(0x7F000001, 2000);
    let line = render_json(&DeployOutputEvent::Spawn(a, b));
    assert_eq!(
        String::from_utf8(line).unwrap(),
        "{\"spawn\":{\"parent\":\"127.0.0.1:1000\",\"pid\":\"127.0.0.1:2000\"}}\n"
    );
    let line = render_json(&DeployOutputEvent::Output(a, 1, vec![104, 105]));
    assert_eq!(
        String::from_utf8(line).unwrap(),
        "{\"output\":{\"pid\":\"127.0.0.1:1000\",\"fd\":1,\"bytes\":[104,105]}}\n"
    );
    let line = render_json(&DeployOutputEvent::Exit(a, ExitStatus::Code(3)));
    assert_eq!(
        String::from_utf8(line).unwrap(),
        "{\"exit\":{\"pid\":\"127.0.0.1:1000\",\"code\":3}}\n"
    );
}
