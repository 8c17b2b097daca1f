use constellation::channel::{ChannelError, NewEndpointError, Receiver, Sender};
use constellation::codec::{dec_u64, enc_u64};
use constellation::frame::{dec_frame, FrameKind};
use constellation::pid::Pid;
use constellation::resources::{Cpu, Mem, Resources};
use constellation::runtime::Runtime;
use constellation::stream::{send_option, OptionStream, StreamStep};

fn res() -> Resources {
    Resources { mem: Mem(1024), cpu: Cpu(256) }
}

fn booted(own: Pid, bridge: Pid) -> Runtime {
    let mut rt = Runtime::new_uninit();
    assert!(rt.bootstrap(own, bridge, res(), false));
    rt
}

fn peer() -> Pid {
    Pid::new(0x7F000001, 2000)
}

fn own() -> Pid {
    Pid::new(0x7F000001, 1000)
}

#[test]
fn api_before_bootstrap_is_rejected() {
    let mut rt = Runtime::new_uninit();
    assert!(rt.pid().is_none());
    assert!(rt.resources().is_none());
    assert!(rt.bridge().is_none());
    assert!(rt.deployed().is_none());
    assert!(matches!(
        Sender::new(&mut rt, peer()),
        Err(NewEndpointError::NotInitialized)
    ));
    assert!(matches!(
        Receiver::new(&mut rt, peer()),
        Err(NewEndpointError::NotInitialized)
    ));
    assert!(constellation::spawn::try_spawn(&rt).is_none());
    assert!(constellation::spawn::spawn(&rt).is_none());
}

#[test]
fn bootstrap_is_write_once() {
    let mut rt = Runtime::new_uninit();
    assert!(rt.bootstrap(own(), peer(), res(), false));
    assert!(!rt.bootstrap(own(), peer(), res(), true));
    assert_eq!(rt.pid(), Some(own()));
    assert_eq!(rt.bridge(), Some(peer()));
    assert_eq!(rt.resources(), Some(res()));
    assert_eq!(rt.deployed(), Some(false));
}

#[test]
fn no_channel_to_self() {
    let mut rt = booted(own(), peer());
    assert!(matches!(
        Sender::new(&mut rt, own()),
        Err(NewEndpointError::OwnPid)
    ));
    assert!(matches!(
        Receiver::new(&mut rt, own()),
        Err(NewEndpointError::OwnPid)
    ));
}

#[test]
fn second_endpoint_to_same_peer_is_rejected() {
    let mut rt = booted(own(), peer());
    let s = Sender::new(&mut rt, peer()).unwrap();
    assert!(matches!(
        Sender::new(&mut rt, peer()),
        Err(NewEndpointError::AlreadyExists)
    ));
    // the other direction is independent
    let r = Receiver::new(&mut rt, peer()).unwrap();
    assert!(matches!(
        Receiver::new(&mut rt, peer()),
        Err(NewEndpointError::AlreadyExists)
    ));
    // dropping frees the slot
    let close = s.drop(&mut rt);
    let (f, _) = dec_frame(&close, 0).unwrap().unwrap();
    assert!(matches!(f.kind, FrameKind::CloseSend));
    assert!(Sender::new(&mut rt, peer()).is_ok());
    let close = r.drop(&mut rt);
    let (f, _) = dec_frame(&close, 0).unwrap().unwrap();
    assert!(matches!(f.kind, FrameKind::CloseRecv));
    assert!(Receiver::new(&mut rt, peer()).is_ok());
}

#[test]
fn fifo_delivery_per_direction() {
    let mut a = booted(own(), peer());
    let mut b = booted(peer(), own());
    let mut s = Sender::new(&mut a, peer()).unwrap();
    let mut r = Receiver::new(&mut b, own()).unwrap();

    for i in 0..10u8 {
        s.send(vec![i, i + 1]);
    }
    // the reactor drains the queue to the wire in order and the peer's
    // reactor dispatches each decoded frame
    while let Some(wire) = s.poll_wire() {
        let (f, end) = dec_frame(&wire, 0).unwrap().unwrap();
        assert_eq!(end, wire.len());
        r.on_frame(f);
    }
    for i in 0..10u8 {
        let got = r.recv().unwrap();
        assert_eq!(got, vec![i, i + 1]);
    }
    assert!(r.try_recv().is_none());
}

#[test]
fn round_trip_byte_equal_value() {
    let mut a = booted(own(), peer());
    let mut b = booted(peer(), own());
    let mut s = Sender::new(&mut a, peer()).unwrap();
    let mut r = Receiver::new(&mut b, own()).unwrap();

    let mut payload: Vec<u8> = Vec::new();
    enc_u64(42, &mut payload);
    s.send(payload);
    let wire = s.poll_wire().unwrap();
    let (f, _) = dec_frame(&wire, 0).unwrap().unwrap();
    r.on_frame(f);
    let got = r.recv().unwrap();
    let (v, _) = dec_u64(&got, 0).unwrap();
    assert_eq!(v, 42);
}

#[test]
fn dropped_sender_resolves_to_exited_after_drain() {
    let mut a = booted(own(), peer());
    let mut b = booted(peer(), own());
    let mut s = Sender::new(&mut a, peer()).unwrap();
    let mut r = Receiver::new(&mut b, own()).unwrap();

    s.send(vec![7]);
    let pending = s.poll_wire().unwrap();
    let close = s.drop(&mut a);
    // pending frames drain before the close travels
    let (f, _) = dec_frame(&pending, 0).unwrap().unwrap();
    r.on_frame(f);
    let (f, _) = dec_frame(&close, 0).unwrap().unwrap();
    r.on_frame(f);

    assert_eq!(r.recv().unwrap(), vec![7]);
    assert!(matches!(r.recv(), Err(ChannelError::Exited)));
    assert!(matches!(r.recv(), Err(ChannelError::Exited)));
}

#[test]
fn transport_failure_is_unknown_and_sticky() {
    let mut b = booted(peer(), own());
    let mut r = Receiver::new(&mut b, own()).unwrap();
    r.fail();
    assert!(matches!(r.recv(), Err(ChannelError::Unknown)));
    assert!(matches!(r.try_recv(), Some(Err(ChannelError::Unknown))));
}

#[test]
fn try_send_respects_capacity() {
    let mut a = booted(own(), peer());
    let mut s = Sender::new(&mut a, peer()).unwrap();
    let mut accepted = 0usize;
    while s.try_send(vec![0]) {
        accepted += 1;
    }
    assert_eq!(accepted, constellation::channel::SEND_CAPACITY);
    // draining one frame frees one slot
    assert!(s.poll_wire().is_some());
    assert!(s.try_send(vec![0]));
}

#[test]
fn send_with_defers_building_the_payload() {
    let mut a = booted(own(), peer());
    let mut s = Sender::new(&mut a, peer()).unwrap();
    s.send_with(|| vec![1, 2, 3]);
    let wire = s.poll_wire().unwrap();
    let (f, _) = dec_frame(&wire, 0).unwrap().unwrap();
    assert!(matches!(f.kind, FrameKind::Data));
    assert_eq!(f.payload, vec![1, 2, 3]);
}

#[test]
fn byte_stream_write_then_read_identical() {
    let mut a = booted(own(), peer());
    let mut b = booted(peer(), own());
    let mut s = Sender::new(&mut a, peer()).unwrap();
    let mut r = Receiver::new(&mut b, own()).unwrap();

    let text = b"hello".to_vec();
    s.write_all(&text);
    while let Some(wire) = s.poll_wire() {
        let (f, _) = dec_frame(&wire, 0).unwrap().unwrap();
        r.on_frame(f);
    }
    let got = r.read_exact(5);
    assert_eq!(got, text);
}

#[test]
fn partial_read_reports_progress() {
    let mut a = booted(own(), peer());
    let mut b = booted(peer(), own());
    let mut s = Sender::new(&mut a, peer()).unwrap();
    let mut r = Receiver::new(&mut b, own()).unwrap();
    s.write_all(&b"abc".to_vec());
    while let Some(wire) = s.poll_wire() {
        let (f, _) = dec_frame(&wire, 0).unwrap().unwrap();
        r.on_frame(f);
    }
    assert_eq!(r.read(2), b"ab".to_vec());
    // only one byte is left, however much is asked for
    assert_eq!(r.read(10), b"c".to_vec());
    assert_eq!(r.read(10), Vec::<u8>::new());
}

#[test]
fn partial_write_reports_progress() {
    let mut a = booted(own(), peer());
    let mut s = Sender::new(&mut a, peer()).unwrap();
    let cap = constellation::channel::SEND_CAPACITY;
    let big = vec![1u8; cap + 10];
    let n = s.write(&big);
    assert_eq!(n, cap);
}

#[test]
fn stream_ends_at_none_marker() {
    let mut a = booted(own(), peer());
    let mut b = booted(peer(), own());
    let mut s = Sender::new(&mut a, peer()).unwrap();
    let r = Receiver::new(&mut b, own()).unwrap();
    let mut stream = OptionStream::new(r);

    send_option(&mut s, Some(vec![1]));
    send_option(&mut s, Some(vec![2]));
    send_option(&mut s, None);
    while let Some(wire) = s.poll_wire() {
        let (f, _) = dec_frame(&wire, 0).unwrap().unwrap();
        stream.inner.on_frame(f);
    }
    assert!(matches!(stream.poll_next(), StreamStep::Item(v) if v == vec![1]));
    assert!(matches!(stream.poll_next(), StreamStep::Item(v) if v == vec![2]));
    assert!(matches!(stream.poll_next(), StreamStep::End));
    // the end is terminal
    assert!(matches!(stream.poll_next(), StreamStep::End));
}

#[test]
fn stream_without_marker_surfaces_channel_exit() {
    let mut a = booted(own(), peer());
    let mut b = booted(peer(), own());
    let mut s = Sender::new(&mut a, peer()).unwrap();
    let r = Receiver::new(&mut b, own()).unwrap();
    let mut stream = OptionStream::new(r);

    send_option(&mut s, Some(vec![5]));
    let wire = s.poll_wire().unwrap();
    let (f, _) = dec_frame(&wire, 0).unwrap().unwrap();
    stream.inner.on_frame(f);
    let close = s.drop(&mut a);
    let (f, _) = dec_frame(&close, 0).unwrap().unwrap();
    stream.inner.on_frame(f);

    assert!(matches!(stream.poll_next(), StreamStep::Item(v) if v == vec![5]));
    assert!(matches!(stream.poll_next(), StreamStep::Error(ChannelError::Exited)));
}

#[test]
fn stream_rejects_malformed_payload() {
    let mut b = booted(peer(), own());
    let mut r = Receiver::new(&mut b, own()).unwrap();
    r.on_frame(constellation::frame::Frame { kind: FrameKind::Data, payload: vec![9, 9] });
    let mut stream = OptionStream::new(r);
    assert!(matches!(stream.poll_next(), StreamStep::Error(ChannelError::Unknown)));
    // the poisoning is terminal
    assert!(matches!(stream.poll_next(), StreamStep::Error(ChannelError::Unknown)));
}

#[test]
fn pending_when_nothing_delivered() {
    let mut b = booted(peer(), own());
    let r = Receiver::new(&mut b, own()).unwrap();
    let mut stream = OptionStream::new(r);
    assert!(matches!(stream.poll_next(), StreamStep::Pending));
    assert_eq!(stream.inner.remote_pid(), own());
}
