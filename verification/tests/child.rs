use tokio_ns_jail::child::{
    EventError, EventPoll, ReadOutcome, SendSignal, StatusPoll, WaitPoll, EINVAL, LAST_SIGNAL,
    SIGKILL,
};
use tokio_ns_jail::wire::{
    byte_order_of, decode, encode, from_be_bytes, from_bytes, native_byte_order, to_be_bytes, to_bytes,
    ByteOrder, Notice,
};
use tokio_ns_jail::{Child, ExitStatus, Output, Status};

type Read = Option<ReadOutcome<u8>>;

fn data(bytes: &[u8]) -> Read {
    Some(ReadOutcome::Data(bytes.to_vec()))
}

fn event(poll: EventPoll<u8>) -> Status {
    match poll {
        EventPoll::Ready(status) => status,
        other => panic!("{:?}", other),
    }
}

fn exit_status(message: &[u8]) -> ExitStatus {
    let mut child = Child::new(1, 2, ByteOrder::Big);
    match child.poll_wait(data(message)) {
        WaitPoll::Ready(status) => status,
        other => panic!("{:?}", other),
    }
}

#[test]
fn numbers_have_the_bytes_of_their_order() {
    for n in [0i32, 1, -1, 256, 0x0102_0304, i32::MIN, i32::MAX] {
        assert_eq!(to_be_bytes(n), n.to_be_bytes());
        assert_eq!(from_be_bytes(n.to_be_bytes()), n);
        assert_eq!(to_bytes(ByteOrder::Little, n), n.to_le_bytes());
        assert_eq!(to_bytes(ByteOrder::Big, n), n.to_be_bytes());
        assert_eq!(from_bytes(ByteOrder::Little, n.to_le_bytes()), n);
        assert_eq!(to_bytes(native_byte_order(), n), n.to_ne_bytes());
    }
}

#[test]
fn the_byte_order_follows_from_the_probe() {
    assert_eq!(byte_order_of(u16::from_le_bytes([1, 0])), ByteOrder::Little);
    assert_eq!(byte_order_of(u16::from_be_bytes([1, 0])), ByteOrder::Big);
    assert_eq!(native_byte_order(), byte_order_of(u16::from_ne_bytes([1, 0])));
}

#[test]
fn messages_have_a_kind_and_a_number() {
    let be = ByteOrder::Big;
    assert_eq!(encode(be, Notice::Event(Status::Exited(7))), [0, 0, 0, 0, 7]);
    assert_eq!(encode(be, Notice::Event(Status::Signaled(9, false))), [1, 0, 0, 0, 9]);
    assert_eq!(encode(be, Notice::Event(Status::Signaled(11, true))), [2, 0, 0, 0, 11]);
    assert_eq!(encode(be, Notice::Event(Status::Stopped(19))), [3, 0, 0, 0, 19]);
    assert_eq!(encode(be, Notice::Event(Status::Continued)), [4, 0, 0, 0, 0]);
    assert_eq!(encode(be, Notice::Error(10)), [5, 0, 0, 0, 10]);
    let le = ByteOrder::Little;
    assert_eq!(encode(le, Notice::Event(Status::Exited(-2))), [0, 0xfe, 0xff, 0xff, 0xff]);
    assert_eq!(decode(le, [6, 0, 0, 0, 0]), Notice::Unknown);
}

#[test]
fn messages_read_back() {
    for order in [ByteOrder::Big, ByteOrder::Little] {
        for notice in [
            Notice::Event(Status::Exited(-3)),
            Notice::Event(Status::Signaled(15, false)),
            Notice::Event(Status::Signaled(6, true)),
            Notice::Event(Status::Stopped(20)),
            Notice::Event(Status::Continued),
            Notice::Error(5),
        ] {
            assert_eq!(decode(order, encode(order, notice)), notice);
        }
    }
}

#[test]
fn a_poll_begins_by_asking_for_bytes() {
    let mut child = Child::new(10, 11, ByteOrder::Big);
    assert!(matches!(child.poll_next_event::<u8>(None), EventPoll::Read(5)));
    assert!(matches!(
        child.poll_next_event::<u8>(Some(ReadOutcome::Pending)),
        EventPoll::Pending
    ));
    assert!(matches!(
        child.poll_next_event(Some(ReadOutcome::Failed(3u8))),
        EventPoll::Failed(EventError::Io(3))
    ));
}

#[test]
fn messages_arrive_in_pieces() {
    let mut child = Child::new(10, 11, ByteOrder::Big);
    assert!(matches!(child.poll_next_event(data(&[3, 0])), EventPoll::Read(3)));
    assert!(matches!(child.poll_next_event::<u8>(None), EventPoll::Read(3)));
    assert!(matches!(child.poll_next_event(data(&[0])), EventPoll::Read(2)));
    assert_eq!(event(child.poll_next_event(data(&[0, 19]))), Status::Stopped(19));
    assert!(matches!(
        child.status::<u8>(Some(ReadOutcome::Pending)),
        StatusPoll::Ready(Status::Stopped(19))
    ));
}

#[test]
fn the_end_of_the_stream_ends_a_poll() {
    let mut child = Child::new(10, 11, ByteOrder::Big);
    assert!(matches!(child.poll_next_event(data(&[3, 0])), EventPoll::Read(3)));
    for _ in 0..2 {
        assert!(matches!(
            child.poll_next_event(data(&[])),
            EventPoll::Failed(EventError::Closed)
        ));
        assert!(matches!(child.poll_wait(data(&[])), WaitPoll::Failed(EventError::Closed)));
        assert!(matches!(child.status(data(&[])), StatusPoll::Failed(EventError::Closed)));
    }
    assert_eq!(event(child.poll_next_event(data(&[0, 0, 19]))), Status::Stopped(19));
    assert_eq!(event(child.poll_next_event(data(&[0, 0, 0, 0, 1]))), Status::Exited(1));
    assert!(matches!(child.status(data(&[])), StatusPoll::Ready(Status::Exited(1))));
}

#[test]
fn cuts_do_not_matter() {
    let stream = [3, 0, 0, 0, 19, 4, 0, 0, 0, 0, 9, 0, 0, 0, 0, 5, 0, 0, 0, 7, 1, 0, 0, 0, 9];
    let run = |sizes: &[usize]| {
        let mut child = Child::new(10, 11, ByteOrder::Big);
        let mut out = Vec::new();
        let (mut at, mut turn) = (0, 0);
        while at < stream.len() {
            assert!(matches!(
                child.poll_next_event::<u8>(Some(ReadOutcome::Pending)),
                EventPoll::Pending
            ));
            let asked = match child.poll_next_event::<u8>(None) {
                EventPoll::Read(count) => count,
                other => panic!("{:?}", other),
            };
            let count = asked.min(sizes[turn % sizes.len()]);
            match child.poll_next_event(data(&stream[at..at + count])) {
                EventPoll::Read(_) => {}
                other => out.push(format!("{:?}", other)),
            }
            at += count;
            turn += 1;
        }
        out
    };
    let whole = run(&[5]);
    assert_eq!(
        whole,
        vec![
            "Ready(Stopped(19))",
            "Ready(Continued)",
            "Failed(InvalidData)",
            "Failed(Os(7))",
            "Ready(Signaled(9, false))",
        ]
    );
    assert_eq!(run(&[1]), whole);
    assert_eq!(run(&[2, 1, 4]), whole);
    assert_eq!(run(&[3]), whole);
}

#[test]
fn a_continued_process_is_running() {
    let mut child = Child::new(10, 11, ByteOrder::Big);
    assert_eq!(event(child.poll_next_event(data(&[3, 0, 0, 0, 19]))), Status::Stopped(19));
    assert_eq!(event(child.poll_next_event(data(&[4, 0, 0, 0, 0]))), Status::Continued);
    assert!(matches!(
        child.status::<u8>(Some(ReadOutcome::Pending)),
        StatusPoll::Ready(Status::Running)
    ));
}

#[test]
fn errors_of_the_control_process_are_given() {
    let mut child = Child::new(10, 11, ByteOrder::Big);
    assert!(matches!(
        child.poll_next_event(data(&[5, 0, 0, 0, 10])),
        EventPoll::Failed(EventError::Os(10))
    ));
    assert!(matches!(
        child.poll_next_event(data(&[9, 0, 0, 0, 10])),
        EventPoll::Failed(EventError::InvalidData)
    ));
    assert!(matches!(
        child.status(data(&[5, 0, 0, 0, 4])),
        StatusPoll::Failed(EventError::Os(4))
    ));
    assert!(matches!(
        child.poll_wait(data(&[6, 0, 0, 0, 0])),
        WaitPoll::Failed(EventError::InvalidData)
    ));
    assert!(matches!(
        child.status::<u8>(Some(ReadOutcome::Pending)),
        StatusPoll::Ready(Status::Running)
    ));
}

#[test]
fn termination_stays() {
    let mut child = Child::new(10, 11, ByteOrder::Big);
    assert_eq!(event(child.poll_next_event(data(&[1, 0, 0, 0, 9]))), Status::Signaled(9, false));
    assert_eq!(event(child.poll_next_event(None)), Status::Signaled(9, false));
    assert_eq!(
        event(child.poll_next_event(data(&[0, 0, 0, 0, 1]))),
        Status::Signaled(9, false)
    );
    assert!(matches!(child.poll_wait::<u8>(None), WaitPoll::Ready(_)));
    assert!(matches!(
        child.status::<u8>(None),
        StatusPoll::Ready(Status::Signaled(9, false))
    ));
}

#[test]
fn waiting_goes_on_past_other_events() {
    let mut child = Child::new(10, 11, ByteOrder::Big);
    assert!(matches!(child.poll_wait::<u8>(None), WaitPoll::Read(5)));
    assert!(matches!(child.poll_wait(data(&[3, 0, 0, 0, 19])), WaitPoll::Read(5)));
    assert!(matches!(child.poll_wait(data(&[4, 0, 0, 0, 0])), WaitPoll::Read(5)));
    assert!(matches!(
        child.poll_wait::<u8>(Some(ReadOutcome::Pending)),
        WaitPoll::Pending
    ));
    assert!(matches!(
        child.poll_wait(Some(ReadOutcome::Failed(1u8))),
        WaitPoll::Failed(EventError::Io(1))
    ));
    match child.poll_wait(data(&[0, 0, 0, 0, 3])) {
        WaitPoll::Ready(status) => assert_eq!(status.code(), Some(3)),
        other => panic!("{:?}", other),
    }
}

#[test]
fn exit_statuses_say_how_a_process_ended() {
    let ok = exit_status(&[0, 0, 0, 0, 0]);
    assert!(ok.success());
    assert_eq!(ok.code(), Some(0));
    assert_eq!(ok.signal(), None);
    assert!(!ok.core_dumped());
    let bad = exit_status(&[0, 0, 0, 0, 2]);
    assert!(!bad.success());
    assert_eq!(bad.code(), Some(2));
    let killed = exit_status(&[1, 0, 0, 0, 9]);
    assert!(!killed.success());
    assert_eq!(killed.code(), None);
    assert_eq!(killed.signal(), Some(9));
    assert!(!killed.core_dumped());
    let dumped = exit_status(&[2, 0, 0, 0, 11]);
    assert_eq!(dumped.signal(), Some(11));
    assert!(dumped.core_dumped());
}

#[test]
fn statuses_say_what_they_are() {
    let exited = Status::Exited(4);
    assert!(exited.exited() && !exited.signaled() && !exited.running());
    assert_eq!(exited.code(), Some(4));
    assert_eq!(exited.signal(), None);
    let killed = Status::Signaled(6, true);
    assert!(killed.signaled() && killed.core_dumped() && !killed.exited());
    assert_eq!(killed.signal(), Some(6));
    assert_eq!(killed.code(), None);
    assert!(!Status::Signaled(6, false).core_dumped());
    let stopped = Status::Stopped(19);
    assert!(stopped.stopped() && !stopped.running());
    assert_eq!(stopped.stopped_signal(), Some(19));
    assert_eq!(stopped.signal(), None);
    assert!(Status::Continued.continued() && Status::Continued.running());
    assert!(Status::Running.running() && !Status::Running.continued());
    assert_eq!(Status::Running.stopped_signal(), None);
}

#[test]
fn running_is_neither_ended_nor_stopped() {
    for status in [
        Status::Exited(0),
        Status::Signaled(9, false),
        Status::Stopped(19),
        Status::Continued,
        Status::Running,
    ] {
        let over = status.exited() || status.signaled() || status.stopped();
        assert_eq!(status.running(), !over);
    }
}

#[test]
fn signals_are_checked() {
    let child = Child::new(10, 11, ByteOrder::Big);
    assert_eq!(child.send_signal(15), Ok(SendSignal { pid: 11, signal: 15 }));
    assert_eq!(child.send_signal(1), Ok(SendSignal { pid: 11, signal: 1 }));
    assert_eq!(child.send_signal(LAST_SIGNAL), Ok(SendSignal { pid: 11, signal: 31 }));
    assert_eq!(child.send_signal(0), Err(EINVAL));
    assert_eq!(child.send_signal(32), Err(EINVAL));
    assert_eq!(child.send_signal(-1), Err(EINVAL));
    assert_eq!(child.kill(), Ok(SendSignal { pid: 11, signal: SIGKILL }));
    assert_eq!(EINVAL, nix::errno::Errno::EINVAL as i32);
    assert_eq!(SIGKILL, nix::sys::signal::Signal::SIGKILL as i32);
}

#[test]
fn the_id_is_that_of_the_control_process() {
    assert_eq!(Child::new(10, 11, ByteOrder::Big).id(), 10);
    assert_eq!(Child::new(-1, 11, ByteOrder::Big).id(), u32::MAX);
    assert_eq!(Child::new(i32::MIN, 11, ByteOrder::Big).id(), 0x8000_0000);
}

#[test]
fn output_goes_to_its_own_stream() {
    let status = exit_status(&[0, 0, 0, 0, 0]);
    let out: Output = Child::wait_with_output(status, None, Some(b"err".to_vec()));
    assert_eq!(out.stdout, b"");
    assert_eq!(out.stderr, b"err");
    let out = Child::wait_with_output(status, Some(b"out".to_vec()), None);
    assert_eq!(out.stdout, b"out");
    assert_eq!(out.stderr, b"");
    let out = Child::wait_with_output(status, Some(b"a".to_vec()), Some(b"b".to_vec()));
    assert_eq!((out.stdout, out.stderr), (b"a".to_vec(), b"b".to_vec()));
    let out = Child::wait_with_output(status, None, None);
    assert!(out.stdout.is_empty() && out.stderr.is_empty() && out.status.success());
}
