use constellation::frame::{dec_frame, enc_frame, FrameError, FrameKind};
use constellation::pid::Pid;
use constellation::reactor::{FrameBuffer, PendingFrames, PENDING_BOUND};
use constellation::resources::{Cpu, Mem, Resources};
use constellation::runtime::Runtime;

#[test]
fn frame_layout_exact() {
    let mut out: Vec<u8> = Vec::new();
    enc_frame(FrameKind::Data, &vec![9, 9], &mut out);
    // body length 3 = kind byte + two payload bytes
    assert_eq!(out, vec![3, 0, 0, 0, 0, 9, 9]);
}

#[test]
fn frame_round_trip_with_trailing_bytes() {
    let mut out: Vec<u8> = Vec::new();
    enc_frame(FrameKind::CloseSend, &Vec::new(), &mut out);
    out.push(0xAA);
    let (f, end) = dec_frame(&out, 0).unwrap().unwrap();
    assert!(matches!(f.kind, FrameKind::CloseSend));
    assert!(f.payload.is_empty());
    assert_eq!(end, 5);
}

#[test]
fn incomplete_frame_waits() {
    let mut out: Vec<u8> = Vec::new();
    enc_frame(FrameKind::Data, &vec![1, 2, 3], &mut out);
    for cut in 0..out.len() {
        let partial: Vec<u8> = out[..cut].to_vec();
        assert!(dec_frame(&partial, 0).unwrap().is_none());
    }
}

#[test]
fn unknown_kind_is_fatal() {
    let buf = vec![1u8, 0, 0, 0, 9];
    assert!(matches!(dec_frame(&buf, 0), Err(FrameError::UnknownKind)));
    let empty_body = vec![0u8, 0, 0, 0];
    assert!(matches!(dec_frame(&empty_body, 0), Err(FrameError::UnknownKind)));
}

#[test]
fn oversized_frame_is_fatal() {
    let buf = vec![0xFF, 0xFF, 0xFF, 0x02, 0];
    assert!(matches!(dec_frame(&buf, 0), Err(FrameError::TooLarge)));
}

#[test]
fn buffer_reassembles_split_frames_in_order() {
    let mut wire: Vec<u8> = Vec::new();
    enc_frame(FrameKind::Data, &vec![1], &mut wire);
    enc_frame(FrameKind::Data, &vec![2], &mut wire);
    enc_frame(FrameKind::CloseSend, &Vec::new(), &mut wire);

    let mut buf = FrameBuffer::new();
    let cut = 7;
    buf.ingest(&wire[..cut].to_vec());
    let first = buf.next_frame().unwrap().unwrap();
    assert!(matches!(first.kind, FrameKind::Data));
    assert_eq!(first.payload, vec![1]);
    assert!(buf.next_frame().unwrap().is_none());

    buf.ingest(&wire[cut..].to_vec());
    let second = buf.next_frame().unwrap().unwrap();
    assert_eq!(second.payload, vec![2]);
    let third = buf.next_frame().unwrap().unwrap();
    assert!(matches!(third.kind, FrameKind::CloseSend));
    assert!(buf.next_frame().unwrap().is_none());
}

#[test]
fn pending_room_is_bounded_and_fifo() {
    let mut room = PendingFrames::new();
    let mut accepted = 0usize;
    let mut n: u8 = 0;
    loop {
        let f = constellation::frame::Frame { kind: FrameKind::Data, payload: vec![n] };
        if !room.push(f) {
            break;
        }
        accepted += 1;
        n += 1;
    }
    // the room refuses at its bound: backpressure, not loss
    assert_eq!(accepted, PENDING_BOUND);

    // once the endpoint exists, the frames arrive in their held order
    let own = Pid::new(0x7F000001, 1000);
    let peer = Pid::new(0x7F000001, 2000);
    let mut rt = Runtime::new_uninit();
    assert!(rt.bootstrap(own, peer, Resources { mem: Mem(1), cpu: Cpu(1) }, false));
    let mut r = constellation::channel::Receiver::new(&mut rt, peer).unwrap();
    room.drain(&mut r);
    for i in 0..accepted as u8 {
        assert_eq!(r.recv().unwrap(), vec![i]);
    }
    assert!(r.try_recv().is_none());
}

#[test]
fn buffer_surfaces_protocol_violation() {
    let mut buf = FrameBuffer::new();
    buf.ingest(&vec![1, 0, 0, 0, 250]);
    assert!(matches!(buf.next_frame(), Err(FrameError::UnknownKind)));
}
