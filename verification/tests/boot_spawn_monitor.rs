use constellation::boot::{
    bridge_init, child_env, fd_moves, init, read_deployed_arg, read_native_arg, should_close_fd,
    EnvSettings, Format, InitPlan, RolePlan, ARG_FD, LISTENER_FD, MONITOR_FD, SCHEDULER_FD,
};
use constellation::events::{
    dec_input_event, dec_output_event, enc_input_event, enc_output_event, ProcessInputEvent,
    ProcessOutputEvent,
};
use constellation::monitor::{
    exit_status_of_wait, final_exit_event, forward_chunk, relay_step, route_accepted, stdin_step,
    SocketRoute, StdinAction, WaitStatus,
};
use constellation::pid::Pid;
use constellation::resources::{Cpu, Mem, Resources};
use constellation::runtime::Runtime;
use constellation::spawn::{
    dec_spawn_reply, enc_spawn_reply, fabric_request, native_spawn_blob, spawn, spawn_error_of,
    try_spawn, SpawnError, TrySpawnError,
};
use constellation::status::ExitStatus;

fn res() -> Resources {
    Resources { mem: Mem(128 * 1024 * 1024), cpu: Cpu(32768) }
}

fn pid(port: u16) -> Pid {
    Pid::new(0x7F000001, port)
}

fn env(version: bool, recce: bool, deployed: bool, granted: Option<Resources>) -> EnvSettings {
    EnvSettings { version, recce, format: Format::Human, deployed, resources: granted }
}

#[test]
fn init_branches() {
    assert!(matches!(init(&env(true, false, false, None), &res()), InitPlan::PrintVersion));
    let plan = init(&env(false, true, false, None), &res());
    assert!(matches!(plan, InitPlan::Recce(r) if r == res()));
    assert!(matches!(
        init(&env(false, false, true, Some(res())), &res()),
        InitPlan::Boot(RolePlan::Deployed)
    ));
    assert!(matches!(
        init(&env(false, false, false, None), &res()),
        InitPlan::Boot(RolePlan::NativeTop)
    ));
    assert!(matches!(
        init(&env(false, false, false, Some(res())), &res()),
        InitPlan::Boot(RolePlan::NativeSub)
    ));
}

#[test]
fn well_known_descriptors() {
    assert_eq!(LISTENER_FD, 3);
    assert_eq!(ARG_FD, 4);
    assert_eq!(SCHEDULER_FD, 4);
    assert_eq!(MONITOR_FD, 5);
}

#[test]
fn close_plan_keeps_listener_arg_and_stdio() {
    let listener = 7;
    let arg = 9;
    assert!(!should_close_fd(0, listener, arg, None));
    assert!(!should_close_fd(2, listener, arg, None));
    assert!(should_close_fd(3, listener, arg, None));
    assert!(!should_close_fd(7, listener, arg, None));
    assert!(!should_close_fd(9, listener, arg, None));
    assert!(should_close_fd(8, listener, arg, None));
    // the harness-reserved range at the top stays untouched
    assert!(should_close_fd(1021, listener, arg, Some(1022)));
    assert!(!should_close_fd(1022, listener, arg, Some(1022)));
}

#[test]
fn fd_move_plan() {
    assert_eq!(fd_moves(7, 9), vec![(7, 3), (9, 4)]);
    assert_eq!(fd_moves(3, 9), vec![(9, 4)]);
    assert_eq!(fd_moves(7, 4), vec![(7, 3)]);
    assert_eq!(fd_moves(3, 4), Vec::<(i32, i32)>::new());
}

#[test]
fn child_env_replaces_resource_binding() {
    let key = b"GRANT".to_vec();
    let vars = vec![
        (b"PATH".to_vec(), b"/bin".to_vec()),
        (b"GRANT".to_vec(), b"old".to_vec()),
        (b"HOME".to_vec(), b"/root".to_vec()),
    ];
    let out = child_env(&vars, &key, &b"new".to_vec());
    assert_eq!(
        out,
        vec![b"PATH=/bin".to_vec(), b"HOME=/root".to_vec(), b"GRANT=new".to_vec()]
    );
}

#[test]
fn native_arg_blob_round_trip() {
    let mut rt = Runtime::new_uninit();
    assert!(rt.bootstrap(pid(1000), pid(500), res(), false));
    let start = b"closure-bytes".to_vec();
    let newborn = pid(3000);
    let blob = native_spawn_blob(&rt, &start, newborn).unwrap();
    let (arg, own) = read_native_arg(&blob).unwrap();
    assert_eq!(arg.bridge, pid(500));
    let (parent, closure) = arg.spawn.unwrap();
    assert_eq!(parent, pid(1000));
    assert_eq!(closure, start);
    assert_eq!(own, newborn);
    // a truncated blob is no argument
    let cut = blob[..blob.len() - 1].to_vec();
    assert!(read_native_arg(&cut).is_none());
}

#[test]
fn native_blob_requires_bootstrap() {
    let rt = Runtime::new_uninit();
    assert!(native_spawn_blob(&rt, &Vec::new(), pid(3000)).is_none());
}

#[test]
fn deployed_arg_blob_round_trip() {
    let mut blob: Vec<u8> = Vec::new();
    let arg = constellation::spawn::SpawnArg {
        bridge: pid(500),
        spawn: Some((pid(1000), b"go".to_vec())),
    };
    constellation::spawn::enc_spawn_arg(&arg, &mut blob);
    constellation::pid::enc_pid(&pid(77), &mut blob);
    constellation::pid::enc_pid(&pid(3000), &mut blob);
    let (back, sched, own) = read_deployed_arg(&blob).unwrap();
    assert_eq!(back.bridge, pid(500));
    let (parent, closure) = back.spawn.unwrap();
    assert_eq!(parent, pid(1000));
    assert_eq!(closure, b"go".to_vec());
    assert_eq!(sched, pid(77));
    assert_eq!(own, pid(3000));
}

#[test]
fn bridge_arg_blob_round_trip() {
    let mut blob: Vec<u8> = Vec::new();
    constellation::pid::enc_pid(&pid(77), &mut blob);
    constellation::pid::enc_pid(&pid(500), &mut blob);
    assert_eq!(bridge_init(&blob), Some((pid(77), pid(500))));
    blob.push(0);
    assert_eq!(bridge_init(&blob), None);
}

#[test]
fn fabric_request_layout() {
    let req = fabric_request(
        true,
        &res(),
        &vec![b"prog".to_vec()],
        &vec![b"A=1".to_vec()],
        &b"blob".to_vec(),
    );
    let mut expect: Vec<u8> = vec![1];
    constellation::resources::enc_resources(&res(), &mut expect);
    constellation::codec::enc_u32(1, &mut expect);
    constellation::codec::enc_bytes(&b"prog".to_vec(), &mut expect);
    constellation::codec::enc_u32(1, &mut expect);
    constellation::codec::enc_bytes(&b"A=1".to_vec(), &mut expect);
    constellation::codec::enc_bytes(&b"blob".to_vec(), &mut expect);
    assert_eq!(req, expect);
}

#[test]
fn scheduler_reply_round_trip() {
    for reply in [
        Ok(pid(4000)),
        Err(TrySpawnError::NoCapacity),
        Err(TrySpawnError::Exec),
    ] {
        let mut wire: Vec<u8> = Vec::new();
        enc_spawn_reply(&reply, &mut wire);
        let (back, end) = dec_spawn_reply(&wire, 0).unwrap();
        assert_eq!(back, reply);
        assert_eq!(end, wire.len());
    }
    assert!(dec_spawn_reply(&vec![9], 0).is_none());
}

#[test]
fn spawn_decisions_and_blocking() {
    let mut rt = Runtime::new_uninit();
    assert!(rt.bootstrap(pid(1000), pid(500), res(), true));
    // fail-fast spawn does not ask the scheduler to wait
    let d = try_spawn(&rt).unwrap();
    assert!(d.deployed);
    assert!(!d.block);
    // a blocking spawn does
    let d = spawn(&rt).unwrap();
    assert!(d.deployed);
    assert!(d.block);
}

#[test]
fn no_capacity_is_no_error_to_a_blocking_spawn() {
    assert_eq!(spawn_error_of(TrySpawnError::NoCapacity), None);
    assert_eq!(spawn_error_of(TrySpawnError::Exec), Some(SpawnError::Exec));
}

#[test]
fn wait_status_to_exit_status() {
    assert_eq!(exit_status_of_wait(WaitStatus::Exited(0)), ExitStatus::Success);
    assert_eq!(exit_status_of_wait(WaitStatus::Exited(3)), ExitStatus::Code(3));
    assert_eq!(exit_status_of_wait(WaitStatus::Signaled(9)), ExitStatus::Signaled(9));
}

#[test]
fn monitor_keeps_only_the_bridge_connection() {
    let bridge = pid(500);
    assert_eq!(route_accepted(&bridge, &bridge), SocketRoute::Keep);
    assert_eq!(route_accepted(&pid(4000), &bridge), SocketRoute::ForwardToWorker);
}

#[test]
fn stdin_and_kill_decisions() {
    assert!(matches!(
        stdin_step(0, ProcessInputEvent::Input(0, b"x".to_vec()), true),
        StdinAction::Write(w) if w == b"x".to_vec()
    ));
    assert!(matches!(
        stdin_step(0, ProcessInputEvent::Input(0, Vec::new()), true),
        StdinAction::Close
    ));
    assert!(matches!(
        stdin_step(0, ProcessInputEvent::Input(0, b"x".to_vec()), false),
        StdinAction::Ignore
    ));
    assert!(matches!(
        stdin_step(0, ProcessInputEvent::Input(7, b"x".to_vec()), true),
        StdinAction::Ignore
    ));
    assert!(matches!(stdin_step(0, ProcessInputEvent::Kill, true), StdinAction::Kill));
}

#[test]
fn stream_forwarding_stops_at_empty_read() {
    let (ev, more) = forward_chunk(1, b"out".to_vec());
    assert!(more);
    assert!(matches!(ev, ProcessOutputEvent::Output(1, b) if b == b"out".to_vec()));
    let (ev, more) = forward_chunk(2, Vec::new());
    assert!(!more);
    assert!(matches!(ev, ProcessOutputEvent::Output(2, b) if b.is_empty()));
}

#[test]
fn relay_stops_at_exit_event() {
    let (_, stop) = relay_step(ProcessOutputEvent::Spawn(pid(4000)));
    assert!(!stop);
    let (_, stop) = relay_step(ProcessOutputEvent::Exit(ExitStatus::Success));
    assert!(stop);
}

#[test]
fn killed_worker_reports_its_signal() {
    let ev = final_exit_event(WaitStatus::Signaled(9));
    assert!(matches!(ev, ProcessOutputEvent::Exit(ExitStatus::Signaled(9))));
}

#[test]
fn event_wire_round_trip() {
    let events = [
        ProcessOutputEvent::Spawn(pid(4000)),
        ProcessOutputEvent::Output(1, b"hello".to_vec()),
        ProcessOutputEvent::Exit(ExitStatus::Code(2)),
    ];
    for ev in events {
        let mut wire: Vec<u8> = Vec::new();
        enc_output_event(&ev, &mut wire);
        let (back, end) = dec_output_event(&wire, 0).unwrap();
        assert_eq!(end, wire.len());
        match (&ev, &back) {
            (ProcessOutputEvent::Spawn(a), ProcessOutputEvent::Spawn(b)) => assert_eq!(a, b),
            (ProcessOutputEvent::Output(f1, b1), ProcessOutputEvent::Output(f2, b2)) => {
                assert_eq!(f1, f2);
                assert_eq!(b1, b2);
            },
            (ProcessOutputEvent::Exit(s1), ProcessOutputEvent::Exit(s2)) => assert_eq!(s1, s2),
            _ => panic!("event kind changed on the wire"),
        }
    }
    let inputs = [ProcessInputEvent::Input(0, b"in".to_vec()), ProcessInputEvent::Kill];
    for ev in inputs {
        let mut wire: Vec<u8> = Vec::new();
        enc_input_event(&ev, &mut wire);
        let (back, end) = dec_input_event(&wire, 0).unwrap();
        assert_eq!(end, wire.len());
        match (&ev, &back) {
            (ProcessInputEvent::Input(f1, b1), ProcessInputEvent::Input(f2, b2)) => {
                assert_eq!(f1, f2);
                assert_eq!(b1, b2);
            },
            (ProcessInputEvent::Kill, ProcessInputEvent::Kill) => {},
            _ => panic!("event kind changed on the wire"),
        }
    }
    assert!(dec_output_event(&vec![9], 0).is_none());
    assert!(dec_input_event(&vec![9], 0).is_none());
}

#[test]
fn borrowed_option_contents() {
    let x = Some(41);
    assert_eq!(*constellation::borrow_unwrap_option(&x), 41);
}
