use tokio_ns_jail::child::{EventPoll, ReadOutcome};
use tokio_ns_jail::jailed::{Failure, JailAction, JailEvent, JailRun, FAILURE};
use tokio_ns_jail::launch::{
    children_path, get_child_pid, Launch, LaunchAction, LaunchError, LaunchEvent, PidError, GIVE_UP,
    GO,
};
use tokio_ns_jail::monitor::{
    monitor_child, MonitorAction, MonitorEvent, MonitorState, WaitReport,
};
use tokio_ns_jail::stdio::{StdioTarget, Stream};
use tokio_ns_jail::wire::{native_byte_order, ByteOrder};
use tokio_ns_jail::{Child, Command, Gid, Status, Stdio, Uid};

type Launching = (Launch<u8>, LaunchAction<u8>);

fn mapped() -> Command {
    let mut cmd = Command::new(b"prog");
    cmd.ids_as_root(Uid { raw: 1000 }, Gid { raw: 100 });
    cmd
}

fn written(launch: Launching, path: &str, contents: &str) -> Launching {
    match launch.1 {
        LaunchAction::WriteFile(file) => {
            assert_eq!(file.path, path.as_bytes());
            assert_eq!(file.contents, contents.as_bytes());
            launch.0.step(LaunchEvent::Done)
        }
        other => panic!("{:?}", other),
    }
}

fn released() -> Launch<u8> {
    let cmd = Command::new(b"prog");
    let (launch, action) = Launch::<u8>::new(&cmd, 50, ByteOrder::Big);
    assert!(matches!(action, LaunchAction::SendByte(GO)));
    let (launch, action) = launch.step(LaunchEvent::Done);
    assert!(matches!(action, LaunchAction::ReadReply));
    launch
}

#[test]
fn a_launch_sets_ids_and_reads_the_answer() {
    let launch = Launch::<u8>::new(&mapped(), 50, ByteOrder::Big);
    let launch = written(launch, "/proc/50/uid_map", "0 1000 1\n");
    let launch = written(launch, "/proc/50/setgroups", "deny");
    let (launch, action) = written(launch, "/proc/50/gid_map", "0 100 1\n");
    assert!(matches!(action, LaunchAction::SendByte(GO)));
    let (launch, action) = launch.step(LaunchEvent::Done);
    assert!(matches!(action, LaunchAction::ReadReply));
    let (launch, action) = launch.step(LaunchEvent::Reply([0, 0, 0, 0]));
    assert!(matches!(action, LaunchAction::ReadFile(path) if path == b"/proc/50/task/50/children"));
    let (_, action) = launch.step(LaunchEvent::Contents(b"51 \n".to_vec()));
    match action {
        LaunchAction::Finish(child) => {
            assert_eq!(child.id(), 50);
            assert_eq!(child.kill().unwrap().pid, 51);
        }
        other => panic!("{:?}", other),
    }
}

#[test]
fn a_failed_write_makes_the_process_give_up() {
    for sent in [LaunchEvent::Done, LaunchEvent::Failed(9)] {
        let launch = Launch::<u8>::new(&mapped(), 50, ByteOrder::Big);
        let (launch, _) = written(launch, "/proc/50/uid_map", "0 1000 1\n");
        let (launch, action) = launch.step(LaunchEvent::Failed(1));
        assert!(matches!(action, LaunchAction::SendByte(GIVE_UP)));
        let (_, action) = launch.step(sent);
        assert!(matches!(action, LaunchAction::Fail(LaunchError::Io(1))));
    }
}

#[test]
fn failed_operations_fail_the_launch() {
    let cmd = Command::new(b"prog");
    let (launch, _) = Launch::<u8>::new(&cmd, 50, ByteOrder::Big);
    let (_, action) = launch.step(LaunchEvent::Failed(2));
    assert!(matches!(action, LaunchAction::Fail(LaunchError::Io(2))));
    let (_, action) = released().step(LaunchEvent::Failed(3));
    assert!(matches!(action, LaunchAction::Fail(LaunchError::Io(3))));
    let (launch, _) = released().step(LaunchEvent::Reply([0, 0, 0, 0]));
    let (_, action) = launch.step(LaunchEvent::Failed(4));
    assert!(matches!(action, LaunchAction::Fail(LaunchError::Io(4))));
}

#[test]
fn errors_in_the_jail_fail_the_launch() {
    let (_, action) = released().step(LaunchEvent::Reply([0, 0, 0, 2]));
    assert!(matches!(action, LaunchAction::Fail(LaunchError::Os(2))));
    let (_, action) = released().step(LaunchEvent::Reply([0xff, 0xff, 0xff, 0xff]));
    assert!(matches!(action, LaunchAction::Fail(LaunchError::Os(-1))));
}

#[test]
fn a_list_of_children_that_is_no_pid_fails_the_launch() {
    let (launch, _) = released().step(LaunchEvent::Reply([0, 0, 0, 0]));
    let (_, action) = launch.step(LaunchEvent::Contents(b"".to_vec()));
    assert!(matches!(
        action,
        LaunchAction::Fail(LaunchError::Pid(PidError::NotANumber))
    ));
}

#[test]
fn pids_are_read() {
    let pid = |text: &str| get_child_pid(text.as_bytes().to_vec());
    assert_eq!(pid("123"), Ok(123));
    assert_eq!(pid(" \t123 \n"), Ok(123));
    assert_eq!(pid("+5"), Ok(5));
    assert_eq!(pid("-5"), Ok(-5));
    assert_eq!(pid("2147483647"), Ok(i32::MAX));
    assert_eq!(pid("-2147483648"), Ok(i32::MIN));
    assert_eq!(pid("2147483648"), Err(PidError::NotANumber));
    assert_eq!(pid("1 2"), Err(PidError::NotANumber));
    assert_eq!(pid(" "), Err(PidError::NotANumber));
    assert_eq!(pid("-"), Err(PidError::NotANumber));
    assert_eq!(pid("\u{3000}7\u{a0}"), Ok(7));
    assert_eq!(get_child_pid(vec![0x31, 0xff]), Err(PidError::NotUtf8));
    assert_eq!(children_path(-3), b"/proc/-3/task/-3/children");
}

#[test]
fn pids_are_trimmed_of_all_white_space() {
    for code in 0u32..0x3100 {
        if let Some(c) = char::from_u32(code) {
            let text = format!("{}8{}", c, c);
            let want = match text.trim().parse::<i32>() {
                Ok(pid) => Ok(pid),
                Err(_) => Err(PidError::NotANumber),
            };
            assert_eq!(get_child_pid(text.into_bytes()), want);
        }
    }
}

fn until_spawn(run: JailRun) -> JailRun {
    let (run, action) = run.step(JailEvent::Go(Some(GO)));
    assert!(matches!(action, JailAction::BuildRoot));
    let (run, action) = run.step(JailEvent::Done);
    assert!(matches!(action, JailAction::Redirect(Stream::Stdin, StdioTarget::Null)));
    let (run, action) = run.step(JailEvent::Done);
    assert!(matches!(action, JailAction::Redirect(Stream::Stdout, StdioTarget::Pipe)));
    let (run, action) = run.step(JailEvent::Done);
    assert!(matches!(action, JailAction::Redirect(Stream::Stderr, StdioTarget::Inherit)));
    let (run, action) = run.step(JailEvent::Done);
    assert!(matches!(action, JailAction::Spawn));
    run
}

fn jail() -> JailRun {
    let mut cmd = Command::new(b"prog");
    cmd.stdin(Some(Stdio::null()));
    let (run, action) = cmd.run_child(false, true, false);
    assert!(matches!(action, JailAction::AwaitGo));
    run
}

#[test]
fn the_jail_starts_the_command_and_acknowledges() {
    let (run, action) = until_spawn(jail()).step(JailEvent::Done);
    assert!(matches!(action, JailAction::Write(bytes) if bytes == [0, 0, 0, 0]));
    let (_, action) = run.step(JailEvent::Written(true));
    assert!(matches!(action, JailAction::Monitor));
    let (run, _) = until_spawn(jail()).step(JailEvent::Done);
    let (_, action) = run.step(JailEvent::Written(false));
    assert!(matches!(action, JailAction::Exit(FAILURE)));
}

#[test]
fn without_leave_the_jail_does_nothing() {
    for byte in [None, Some(GIVE_UP), Some(7)] {
        let (_, action) = jail().step(JailEvent::Go(byte));
        assert!(matches!(action, JailAction::Exit(FAILURE)));
    }
}

fn failure(errno: Option<i32>, message: Option<&str>) -> JailEvent {
    JailEvent::Failed(Failure { errno, message: message.map(|text| text.as_bytes().to_vec()) })
}

#[test]
fn a_root_that_fails_is_answered_without_words() {
    for (event, answer) in [
        (failure(Some(13), None), [0u8, 0, 0, 13]),
        (failure(None, Some("odd")), [0, 0, 0, 22]),
    ] {
        let (run, _) = jail().step(JailEvent::Go(Some(GO)));
        let (run, action) = run.step(event);
        assert!(matches!(action, JailAction::Write(bytes) if bytes == answer));
        let (_, action) = run.step(JailEvent::Written(true));
        assert!(matches!(action, JailAction::Exit(FAILURE)));
    }
}

#[test]
fn a_command_that_fails_is_answered_with_words() {
    let (run, action) = until_spawn(jail()).step(failure(None, Some("nul byte")));
    assert!(matches!(action, JailAction::Write(bytes) if bytes == [0, 0, 0, 22]));
    let (run, action) = run.step(JailEvent::Written(true));
    assert!(matches!(action, JailAction::Write(bytes) if bytes == b"nul byte"));
    let (_, action) = run.step(JailEvent::Written(true));
    assert!(matches!(action, JailAction::Exit(FAILURE)));

    let (run, _) = until_spawn(jail()).step(failure(None, Some("nul byte")));
    let (_, action) = run.step(JailEvent::Written(false));
    assert!(matches!(action, JailAction::Exit(FAILURE)));

    let (run, action) = until_spawn(jail()).step(failure(Some(2), None));
    assert!(matches!(action, JailAction::Write(bytes) if bytes == [0, 0, 0, 2]));
    let (_, action) = run.step(JailEvent::Written(true));
    assert!(matches!(action, JailAction::Exit(FAILURE)));
}

#[test]
fn a_stream_that_fails_is_answered() {
    let (run, _) = jail().step(JailEvent::Go(Some(GO)));
    let (run, _) = run.step(JailEvent::Done);
    let (_, action) = run.step(failure(Some(9), None));
    assert!(matches!(action, JailAction::Write(bytes) if bytes == [0, 0, 0, 9]));
}

#[test]
fn an_error_of_the_jail_reaches_the_caller() {
    let (_, action) = until_spawn(jail()).step(failure(Some(2), None));
    let reply: [u8; 4] = match action {
        JailAction::Write(bytes) => bytes.try_into().unwrap(),
        other => panic!("{:?}", other),
    };
    let (_, action) = released().step(LaunchEvent::Reply(reply));
    assert!(matches!(action, LaunchAction::Fail(LaunchError::Os(2))));
}

const RUNNING: WaitReport = WaitReport {
    code: None,
    signal: None,
    core_dumped: false,
    stopped_signal: None,
    continued: false,
};

fn watch(state: MonitorState, event: MonitorEvent) -> (MonitorState, MonitorAction) {
    monitor_child(ByteOrder::Big, state, event)
}

#[test]
fn the_monitor_reports_the_end() {
    let report = WaitReport { code: Some(3), ..RUNNING };
    let (state, action) = watch(MonitorState::Waiting, MonitorEvent::Waited(report));
    assert_eq!(action, MonitorAction::Send([0, 0, 0, 0, 3]));
    for arrived in [true, false] {
        let (_, action) = watch(state, MonitorEvent::Sent(arrived));
        assert_eq!(action, MonitorAction::Exit(3));
    }
    let report = WaitReport { signal: Some(11), core_dumped: true, ..RUNNING };
    let (state, action) = watch(MonitorState::Waiting, MonitorEvent::Waited(report));
    assert_eq!(action, MonitorAction::Send([2, 0, 0, 0, 11]));
    let (_, action) = watch(state, MonitorEvent::Sent(true));
    assert_eq!(action, MonitorAction::Exit(139));
    let report = WaitReport { signal: Some(9), ..RUNNING };
    let (state, action) = watch(MonitorState::Waiting, MonitorEvent::Waited(report));
    assert_eq!(action, MonitorAction::Send([1, 0, 0, 0, 9]));
    assert_eq!(watch(state, MonitorEvent::Sent(true)).1, MonitorAction::Exit(137));
}

#[test]
fn the_monitor_reports_stops_and_goes_on() {
    let report = WaitReport { stopped_signal: Some(19), continued: true, ..RUNNING };
    let (state, action) = watch(MonitorState::Waiting, MonitorEvent::Waited(report));
    assert_eq!(action, MonitorAction::Send([3, 0, 0, 0, 19]));
    let (state, action) = watch(state, MonitorEvent::Sent(true));
    assert_eq!(action, MonitorAction::Send([4, 0, 0, 0, 0]));
    let (state, action) = watch(state, MonitorEvent::Sent(true));
    assert_eq!((state, action), (MonitorState::Waiting, MonitorAction::Wait));
    let report = WaitReport { continued: true, ..RUNNING };
    let (state, action) = watch(MonitorState::Waiting, MonitorEvent::Waited(report));
    assert_eq!(action, MonitorAction::Send([4, 0, 0, 0, 0]));
    assert_eq!(watch(state, MonitorEvent::Sent(false)).1, MonitorAction::Exit(1));
    let (state, action) = watch(MonitorState::Waiting, MonitorEvent::Waited(RUNNING));
    assert_eq!((state, action), (MonitorState::Waiting, MonitorAction::Wait));
}

#[test]
fn the_monitor_reports_errors_of_waiting() {
    let (state, action) = watch(MonitorState::Waiting, MonitorEvent::WaitFailed(Some(10)));
    assert_eq!(action, MonitorAction::Send([5, 0, 0, 0, 10]));
    assert_eq!(watch(state, MonitorEvent::Sent(true)).1, MonitorAction::Exit(1));
    let (state, action) = watch(MonitorState::Waiting, MonitorEvent::WaitFailed(None));
    assert_eq!((state, action), (MonitorState::Waiting, MonitorAction::Wait));
}

#[test]
fn the_end_reaches_the_caller() {
    let order = native_byte_order();
    let report = WaitReport { signal: Some(6), core_dumped: true, ..RUNNING };
    let waited = MonitorEvent::Waited(report);
    let message = match monitor_child(order, MonitorState::Waiting, waited).1 {
        MonitorAction::Send(message) => message.to_vec(),
        other => panic!("{:?}", other),
    };
    let mut child = Child::new(1, 2, order);
    match child.poll_next_event::<u8>(Some(ReadOutcome::Data(message))) {
        EventPoll::Ready(status) => assert_eq!(status, Status::Signaled(6, true)),
        other => panic!("{:?}", other),
    }
}
