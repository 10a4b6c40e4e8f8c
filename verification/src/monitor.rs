//! The process that watches over a jailed command and reports its changes.
use crate::child::{
    notice_poll, sent_is_received, ChildView, EventError, EventPoll, Status,
};
use crate::wire::{encode, message, message_reads_back, ByteOrder, Notice};
use vstd::prelude::*;

verus! {

/// What the system reports of a command that was waited for.
#[derive(Debug, Clone, Copy, PartialEq, Eq, Structural)]
pub struct WaitReport {
    /// The exit code, if the command terminated normally.
    pub code: Option<i32>,
    /// The signal that killed the command, if one did.
    pub signal: Option<i32>,
    /// Whether that resulted in a core dump.
    pub core_dumped: bool,
    /// The signal that stopped the command, if one did.
    pub stopped_signal: Option<i32>,
    /// Whether the command was continued.
    pub continued: bool,
}

/// What the monitor does, between its steps.
#[derive(Debug, Clone, Copy, PartialEq, Eq, Structural)]
pub enum MonitorState {
    /// It waits for the command.
    Waiting,
    /// It sends its last message, and then exits with the code.
    Ending(isize),
    /// It sends a message, and if the flag is set one more, that the command
    /// was continued.
    Reporting(bool),
}

/// What came of the last action of the monitor.
#[derive(Debug, Clone, Copy, PartialEq, Eq, Structural)]
pub enum MonitorEvent {
    /// The command was waited for.
    Waited(WaitReport),
    /// Waiting failed, with a number if it is an error of the system.
    WaitFailed(Option<i32>),
    /// A message was sent, or could not be.
    Sent(bool),
}

/// What the monitor does next.
#[derive(Debug, Clone, Copy, PartialEq, Eq)]
pub enum MonitorAction {
    /// It waits for the command.
    Wait,
    /// It sends a message to the caller.
    Send([u8; 5]),
    /// It exits.
    Exit(isize),
}

/// What the monitor does next, with the message by its bytes.
pub enum ActionView {
    /// It waits for the command.
    Wait,
    /// It sends a message to the caller.
    Send(Seq<u8>),
    /// It exits.
    Exit(int),
}

impl View for MonitorAction {
    type V = ActionView;

    open spec fn view(&self) -> ActionView {
        match *self {
            MonitorAction::Wait => ActionView::Wait,
            MonitorAction::Send(msg) => ActionView::Send(msg@),
            MonitorAction::Exit(code) => ActionView::Exit(code as int),
        }
    }
}

/// The code of a process that was killed by a signal.
pub open spec fn signal_code(signal: i32) -> int {
    signal + 128
}

/// Whether an event can follow the last action.
pub open spec fn expected(state: MonitorState, event: MonitorEvent) -> bool {
    match state {
        MonitorState::Waiting => match event {
            MonitorEvent::Waited(report) => report.code is None && report.signal is Some
                ==> signal_code(report.signal.unwrap()) <= i32::MAX,
            MonitorEvent::WaitFailed(_) => true,
            MonitorEvent::Sent(_) => false,
        },
        _ => event is Sent,
    }
}

/// A message about the command.
pub open spec fn send(order: ByteOrder, notice: Notice) -> ActionView {
    ActionView::Send(message(order, notice))
}

/// The state and the action that follow an event.
///
/// The end of the command is reported and the monitor exits as the command
/// did, whether or not the report arrives. While the command lasts, its stops
/// and continuations are reported, and the monitor gives up if it cannot.
pub open spec fn monitor_next(
    order: ByteOrder,
    state: MonitorState,
    event: MonitorEvent,
) -> (MonitorState, ActionView) {
    match event {
        MonitorEvent::Waited(report) => if report.code is Some {
            let code = report.code.unwrap();
            (MonitorState::Ending(code as isize), send(order, Notice::Event(Status::Exited(code))))
        } else if report.signal is Some {
            let sig = report.signal.unwrap();
            (
                MonitorState::Ending(signal_code(sig) as isize),
                send(order, Notice::Event(Status::Signaled(sig, report.core_dumped))),
            )
        } else if report.stopped_signal is Some {
            (
                MonitorState::Reporting(report.continued),
                send(order, Notice::Event(Status::Stopped(report.stopped_signal.unwrap()))),
            )
        } else if report.continued {
            (MonitorState::Reporting(false), send(order, Notice::Event(Status::Continued)))
        } else {
            (MonitorState::Waiting, ActionView::Wait)
        },
        MonitorEvent::WaitFailed(Some(errno)) => (
            MonitorState::Ending(1),
            send(order, Notice::Error(errno)),
        ),
        MonitorEvent::WaitFailed(None) => (MonitorState::Waiting, ActionView::Wait),
        MonitorEvent::Sent(arrived) => match state {
            MonitorState::Ending(code) => (state, ActionView::Exit(code as int)),
            MonitorState::Reporting(continued) => if !arrived {
                (state, ActionView::Exit(1))
            } else if continued {
                (MonitorState::Reporting(false), send(order, Notice::Event(Status::Continued)))
            } else {
                (MonitorState::Waiting, ActionView::Wait)
            },
            MonitorState::Waiting => (MonitorState::Waiting, ActionView::Wait),
        },
    }
}

/// Takes the next step of watching over a command. The monitor begins by
/// waiting.
pub fn monitor_child(order: ByteOrder, state: MonitorState, event: MonitorEvent) -> (r: (
    MonitorState,
    MonitorAction,
))
    requires
        expected(state, event),
    ensures
        (r.0, r.1@) == monitor_next(order, state, event),
{
    match event {
        MonitorEvent::Waited(report) => {
            if let Some(code) = report.code {
                let msg = encode(order, Notice::Event(Status::Exited(code)));
                return (MonitorState::Ending(code as isize), MonitorAction::Send(msg));
            }
            if let Some(sig) = report.signal {
                let msg = encode(order, Notice::Event(Status::Signaled(sig, report.core_dumped)));
                return (MonitorState::Ending((sig + 128) as isize), MonitorAction::Send(msg));
            }
            if let Some(sig) = report.stopped_signal {
                let msg = encode(order, Notice::Event(Status::Stopped(sig)));
                return (MonitorState::Reporting(report.continued), MonitorAction::Send(msg));
            }
            if report.continued {
                let msg = encode(order, Notice::Event(Status::Continued));
                return (MonitorState::Reporting(false), MonitorAction::Send(msg));
            }
            (MonitorState::Waiting, MonitorAction::Wait)
        },
        MonitorEvent::WaitFailed(Some(errno)) => {
            let msg = encode(order, Notice::Error(errno));
            (MonitorState::Ending(1), MonitorAction::Send(msg))
        },
        MonitorEvent::WaitFailed(None) => (MonitorState::Waiting, MonitorAction::Wait),
        MonitorEvent::Sent(arrived) => match state {
            MonitorState::Ending(code) => (state, MonitorAction::Exit(code)),
            MonitorState::Reporting(continued) => {
                if !arrived {
                    (state, MonitorAction::Exit(1))
                } else if continued {
                    let msg = encode(order, Notice::Event(Status::Continued));
                    (MonitorState::Reporting(false), MonitorAction::Send(msg))
                } else {
                    (MonitorState::Waiting, MonitorAction::Wait)
                }
            },
            MonitorState::Waiting => (MonitorState::Waiting, MonitorAction::Wait),
        },
    }
}

/// The end of a command, as the system reports it.
pub open spec fn reported_end(report: WaitReport) -> Option<Status> {
    if report.code is Some {
        Some(Status::Exited(report.code.unwrap()))
    } else if report.signal is Some {
        Some(Status::Signaled(report.signal.unwrap(), report.core_dumped))
    } else {
        None
    }
}

/// The end of a command reaches the caller as it was: the message that the
/// monitor sends about it is the event that the caller is given.
pub proof fn the_end_reaches_the_caller<E>(child: ChildView, report: WaitReport)
    requires
        expected(MonitorState::Waiting, MonitorEvent::Waited(report)),
        reported_end(report) is Some,
        child.partial.len() == 0,
    ensures
        ({
            let end = reported_end(report).unwrap();
            let (_, action) = monitor_next(
                child.order,
                MonitorState::Waiting,
                MonitorEvent::Waited(report),
            );
            &&& action matches ActionView::Send(msg)
            &&& child.feed::<E>(msg).1 == notice_poll::<E>(Notice::Event(end))
            &&& child.feed::<E>(msg).0.status == end
        }),
{
    let notice = Notice::Event(reported_end(report).unwrap());
    message_reads_back(child.order, notice);
    assert(child.partial + message(child.order, notice) =~= message(child.order, notice));
}

/// Once the end of a command was reported, the monitor exits with the code
/// of the command, or with 128 more than the signal that killed it, even if
/// the report did not arrive.
pub proof fn the_monitor_ends_as_the_command_did(
    order: ByteOrder,
    report: WaitReport,
    arrived: bool,
)
    requires
        expected(MonitorState::Waiting, MonitorEvent::Waited(report)),
        reported_end(report) is Some,
    ensures
        ({
            let (state, _) = monitor_next(
                order,
                MonitorState::Waiting,
                MonitorEvent::Waited(report),
            );
            monitor_next(order, state, MonitorEvent::Sent(arrived)).1 == ActionView::Exit(
                match reported_end(report).unwrap() {
                    Status::Exited(code) => code as int,
                    Status::Signaled(sig, _) => signal_code(sig),
                    _ => 0,
                },
            )
        }),
{
}

/// A command that was neither ended nor given up is waited for again: the
/// monitor never stops before it has reported the end, or could not report.
pub proof fn the_monitor_goes_on(order: ByteOrder, state: MonitorState, event: MonitorEvent)
    requires
        expected(state, event),
        monitor_next(order, state, event).1 is Exit,
    ensures
        event matches MonitorEvent::Sent(arrived) && (state is Ending || !arrived),
{
}

/// What the system reports of a command reaches the caller: its exit code, or
/// the signal that killed it and whether core was dumped, or else that it was
/// stopped and by which signal, or that it was continued. After a report of
/// none of these the monitor waits again.
pub proof fn reports_reach_the_caller<E>(child: ChildView, report: WaitReport)
    requires
        expected(MonitorState::Waiting, MonitorEvent::Waited(report)),
        child.partial.len() == 0,
    ensures
        ({
            let (state, action) = monitor_next(
                child.order,
                MonitorState::Waiting,
                MonitorEvent::Waited(report),
            );
            let ended = report.code is Some || report.signal is Some;
            &&& report.code matches Some(code) ==> {
                &&& action matches ActionView::Send(msg)
                &&& child.feed::<E>(msg).1 == EventPoll::<E>::Ready(Status::Exited(code))
            }
            &&& report.code is None ==> (report.signal matches Some(signal) ==> {
                &&& action matches ActionView::Send(msg)
                &&& child.feed::<E>(msg).1 == EventPoll::<E>::Ready(
                    Status::Signaled(signal, report.core_dumped),
                )
            })
            &&& !ended ==> (report.stopped_signal matches Some(signal) ==> {
                &&& action matches ActionView::Send(msg)
                &&& child.feed::<E>(msg).1 == EventPoll::<E>::Ready(Status::Stopped(signal))
                &&& state == MonitorState::Reporting(report.continued)
            })
            &&& !ended && report.stopped_signal is None && report.continued ==> {
                &&& action matches ActionView::Send(msg)
                &&& child.feed::<E>(msg).1 == EventPoll::<E>::Ready(Status::Continued)
                &&& state == MonitorState::Reporting(false)
            }
            &&& !ended && report.stopped_signal is None && !report.continued ==> action is Wait
                && state is Waiting
        }),
{
    if let Some(code) = report.code {
        sent_is_received::<E>(child, Notice::Event(Status::Exited(code)));
    } else if let Some(signal) = report.signal {
        sent_is_received::<E>(
            child,
            Notice::Event(Status::Signaled(signal, report.core_dumped)),
        );
    } else if let Some(signal) = report.stopped_signal {
        sent_is_received::<E>(child, Notice::Event(Status::Stopped(signal)));
    } else {
        sent_is_received::<E>(child, Notice::Event(Status::Continued));
    }
}

/// After the report of an end the monitor exits with the code of the command,
/// or with 128 more than the signal that killed it, and after the report of
/// an error with 1, whether or not the report arrived. Where another report
/// did not arrive it exits with 1; where it did, it reports a continuation
/// that is still to be reported, and then waits again.
pub proof fn the_monitor_goes_on_or_exits<E>(
    child: ChildView,
    report: WaitReport,
    errno: i32,
    arrived: bool,
)
    requires
        expected(MonitorState::Waiting, MonitorEvent::Waited(report)),
        child.partial.len() == 0,
    ensures
        ({
            let order = child.order;
            let waiting = MonitorState::Waiting;
            let (state, _) = monitor_next(order, waiting, MonitorEvent::Waited(report));
            let (failed, said) = monitor_next(
                order,
                waiting,
                MonitorEvent::WaitFailed(Some(errno)),
            );
            let sent = MonitorEvent::Sent(arrived);
            let (next, then) = monitor_next(order, MonitorState::Reporting(true), sent);
            &&& report.code matches Some(code) ==> monitor_next(order, state, sent).1
                == ActionView::Exit(code as int)
            &&& report.code is None ==> (report.signal matches Some(signal) ==> monitor_next(
                order,
                state,
                sent,
            ).1 == ActionView::Exit(signal + 128))
            &&& said matches ActionView::Send(msg)
            &&& child.feed::<E>(msg).1 == EventPoll::<E>::Failed(EventError::Os(errno))
            &&& monitor_next(order, failed, sent).1 == ActionView::Exit(1)
            &&& monitor_next(order, waiting, MonitorEvent::WaitFailed(None)) == (
                waiting,
                ActionView::Wait,
            )
            &&& monitor_next(order, MonitorState::Reporting(false), sent).1 == if arrived {
                ActionView::Wait
            } else {
                ActionView::Exit(1)
            }
            &&& arrived ==> monitor_next(order, MonitorState::Reporting(false), sent).0 == waiting
            &&& !arrived ==> then == ActionView::Exit(1)
            &&& arrived ==> {
                &&& next == MonitorState::Reporting(false)
                &&& then matches ActionView::Send(again)
                &&& child.feed::<E>(again).1 == EventPoll::<E>::Ready(Status::Continued)
            }
        }),
{
    sent_is_received::<E>(child, Notice::Error(errno));
    sent_is_received::<E>(child, Notice::Event(Status::Continued));
}

/// The actions of the monitor are seen as they are.
pub proof fn monitor_actions_are_seen_whole(action: MonitorAction)
    ensures
        match action {
            MonitorAction::Wait => action@ is Wait,
            MonitorAction::Send(msg) => action@ == ActionView::Send(msg@),
            MonitorAction::Exit(code) => action@ == ActionView::Exit(code as int),
        },
{
}

} // verus!
