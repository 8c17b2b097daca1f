//! Model-level runs of whole sessions: two runtimes talk through the
//! frame codec exactly as the reactors would over TCP, with the tests
//! playing the network.

use constellation::bridge::{Bridge, DeployOutputEvent};
use constellation::channel::{Receiver, Sender};
use constellation::codec::{dec_u32, dec_u64, enc_u32, enc_u64};
use constellation::events::ProcessOutputEvent;
use constellation::frame::dec_frame;
use constellation::pid::{dec_pid, enc_pid, Pid};
use constellation::resources::{Cpu, Mem, Resources};
use constellation::runtime::Runtime;
use constellation::status::ExitStatus;
use constellation::stream::{send_option, OptionStream, StreamStep};

fn res() -> Resources {
    Resources { mem: Mem(128 * 1024 * 1024), cpu: Cpu(32768) }
}

fn booted(own: Pid, bridge: Pid) -> Runtime {
    let mut rt = Runtime::new_uninit();
    assert!(rt.bootstrap(own, bridge, res(), false));
    rt
}

fn pid(port: u16) -> Pid {
    Pid::new(0x7F000001, port)
}

/// Deliver everything a sender has queued into a receiver, as the two
/// reactors would.
fn transfer(s: &mut Sender, r: &mut Receiver) {
    while let Some(wire) = s.poll_wire() {
        let (f, end) = dec_frame(&wire, 0).unwrap().unwrap();
        assert_eq!(end, wire.len());
        r.on_frame(f);
    }
}

#[test]
fn echo_session() {
    let parent = pid(1000);
    let child = pid(2000);
    let mut prt = booted(parent, pid(500));
    let mut crt = booted(child, pid(500));

    let mut p_to_c = Sender::new(&mut prt, child).unwrap();
    let mut c_from_p = Receiver::new(&mut crt, parent).unwrap();
    let mut c_to_p = Sender::new(&mut crt, parent).unwrap();
    let mut p_from_c = Receiver::new(&mut prt, child).unwrap();

    // parent sends 42; child receives it and sends it back
    let mut payload: Vec<u8> = Vec::new();
    enc_u64(42, &mut payload);
    p_to_c.send(payload);
    transfer(&mut p_to_c, &mut c_from_p);
    let got = c_from_p.recv().unwrap();
    let (v, _) = dec_u64(&got, 0).unwrap();
    assert_eq!(v, 42);
    let mut back: Vec<u8> = Vec::new();
    enc_u64(v, &mut back);
    c_to_p.send(back);
    transfer(&mut c_to_p, &mut p_from_c);
    let answer = p_from_c.recv().unwrap();
    let (v, _) = dec_u64(&answer, 0).unwrap();
    assert_eq!(v, 42);
}

#[test]
fn fan_out_collects_the_spawned_pids() {
    let parent = pid(1000);
    let bridge_pid = pid(500);
    let mut prt = booted(parent, bridge_pid);
    let mut bridge = Bridge::new(parent);
    let kids = [pid(2000), pid(3000), pid(4000)];

    let mut collected: Vec<Pid> = Vec::new();
    for kid in kids {
        // the spawn reaches the bridge before any output of the child
        let (_, open) = bridge.step(parent, ProcessOutputEvent::Spawn(kid));
        assert_eq!(open, Some(kid));
        // each child opens a channel home and sends its own pid
        let mut krt = booted(kid, bridge_pid);
        let mut k_to_p = Sender::new(&mut krt, parent).unwrap();
        let mut p_from_k = Receiver::new(&mut prt, kid).unwrap();
        let mut hello: Vec<u8> = Vec::new();
        enc_pid(&kid, &mut hello);
        k_to_p.send(hello);
        transfer(&mut k_to_p, &mut p_from_k);
        let wire = p_from_k.recv().unwrap();
        let (who, _) = dec_pid(&wire, 0).unwrap();
        collected.push(who);
    }
    assert_eq!(collected, kids.to_vec());
}

#[test]
fn stream_of_numbers_terminates_exactly_after_two() {
    let parent = pid(1000);
    let child = pid(2000);
    let mut prt = booted(parent, pid(500));
    let mut crt = booted(child, pid(500));
    let mut s = Sender::new(&mut prt, child).unwrap();
    let r = Receiver::new(&mut crt, parent).unwrap();
    let mut stream = OptionStream::new(r);

    for v in [1u32, 2] {
        let mut item: Vec<u8> = Vec::new();
        enc_u32(v, &mut item);
        send_option(&mut s, Some(item));
    }
    send_option(&mut s, None);
    while let Some(wire) = s.poll_wire() {
        let (f, _) = dec_frame(&wire, 0).unwrap().unwrap();
        stream.inner.on_frame(f);
    }
    let mut seen: Vec<u32> = Vec::new();
    loop {
        match stream.poll_next() {
            StreamStep::Item(bytes) => {
                let (v, _) = dec_u32(&bytes, 0).unwrap();
                seen.push(v);
            },
            StreamStep::End => break,
            other => panic!("stream gave {:?}", other),
        }
    }
    assert_eq!(seen, vec![1, 2]);
    assert!(matches!(stream.poll_next(), StreamStep::End));
}

#[test]
fn crash_session_fails_the_run() {
    let parent = pid(1000);
    let child = pid(2000);
    let mut prt = booted(parent, pid(500));
    let mut crt = booted(child, pid(500));
    let mut c_to_p = Sender::new(&mut crt, parent).unwrap();
    let mut p_from_c = Receiver::new(&mut prt, child).unwrap();

    // the child says hi, then dies; its monitor closes its half
    c_to_p.send(b"hi".to_vec());
    transfer(&mut c_to_p, &mut p_from_c);
    let close = c_to_p.drop(&mut crt);
    let (f, _) = dec_frame(&close, 0).unwrap().unwrap();
    p_from_c.on_frame(f);

    assert_eq!(p_from_c.recv().unwrap(), b"hi".to_vec());
    assert!(matches!(
        p_from_c.recv(),
        Err(constellation::channel::ChannelError::Exited)
    ));

    // the monitor saw the signal; the bridge's run fails
    let mut bridge = Bridge::new(parent);
    let _ = bridge.step(parent, ProcessOutputEvent::Spawn(child));
    let ev = constellation::monitor::final_exit_event(
        constellation::monitor::WaitStatus::Signaled(6),
    );
    let (line, _) = bridge.step(child, ev);
    assert!(matches!(line, DeployOutputEvent::Exit(p, ExitStatus::Signaled(6)) if p == child));
    let _ = bridge.step(parent, ProcessOutputEvent::Exit(ExitStatus::Success));
    assert!(bridge.done());
    assert_ne!(bridge.exit_code(), 0);
}

#[test]
fn interleaved_writes_of_varied_sizes_stay_fifo() {
    let a = pid(1000);
    let b = pid(2000);
    let mut art = booted(a, pid(500));
    let mut brt = booted(b, pid(500));
    let mut s = Sender::new(&mut art, b).unwrap();
    let mut r = Receiver::new(&mut brt, a).unwrap();

    // a linear congruential generator drives the interleaving: payload
    // sizes, and whether to send or to let the wire run, vary pseudo-
    // randomly over many rounds
    let mut state: u64 = 0x2545F4914F6CDD1D;
    let mut rand = move || {
        state = state.wrapping_mul(6364136223846793005).wrapping_add(1442695040888963407);
        state >> 33
    };
    let mut sent: Vec<Vec<u8>> = Vec::new();
    let mut received: Vec<Vec<u8>> = Vec::new();
    for round in 0..200u64 {
        let size = (rand() % 7) as usize;
        let payload: Vec<u8> = (0..size).map(|i| (round as u8).wrapping_add(i as u8)).collect();
        if s.try_send(payload.clone()) {
            sent.push(payload);
        }
        if rand() % 3 == 0 {
            // drain a little of the wire
            for _ in 0..(rand() % 4) {
                if let Some(wire) = s.poll_wire() {
                    let (f, _) = dec_frame(&wire, 0).unwrap().unwrap();
                    r.on_frame(f);
                }
            }
        }
        if rand() % 4 == 0 {
            while let Some(Ok(p)) = r.try_recv() {
                received.push(p);
            }
        }
    }
    transfer(&mut s, &mut r);
    while let Some(Ok(p)) = r.try_recv() {
        received.push(p);
    }
    assert_eq!(received, sent);
}
