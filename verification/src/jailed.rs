//! The jail's side of starting a jailed process.
//!
//! The process that controls the jail waits for leave to go on, sets up the
//! root filesystem, starts the command, and answers the caller with an error
//! number, which is 0 if the command was started.
use crate::bytes::opt_view;
use crate::child::EINVAL;
use crate::command::Command;
use crate::launch::{LaunchActionView, LaunchError, LaunchEvent, LaunchView, GO};
use crate::stdio::{StdioTarget, Stream};
use crate::wire::{big_endian, bytes_weigh_the_number, number_reads_back, to_be_bytes, ByteOrder};
use vstd::prelude::*;

verus! {

/// The code of a process that could not start the command.
pub const FAILURE: isize = 1;

/// An error that an operation met.
#[derive(Debug)]
pub struct Failure {
    /// Its number, if it is an error of the system.
    pub errno: Option<i32>,
    /// What it says, if it is not.
    pub message: Option<Vec<u8>>,
}

/// What the process does, between its steps.
#[derive(Debug)]
pub enum JailPhase {
    /// It waits for leave to go on.
    AwaitingGo,
    /// It sets up the root filesystem.
    BuildingRoot,
    /// It sets a stream of the command.
    Redirecting(Stream),
    /// It starts the command.
    Spawning,
    /// It answers that the command was started.
    Acknowledging,
    /// It answers with an error number, and has this to say of the error.
    Reporting(Option<Vec<u8>>),
    /// It sends the last thing that it has to say.
    Closing,
    /// It is done.
    Ended,
}

/// What the process does, by contents.
pub enum JailPhaseView {
    /// It waits for leave to go on.
    AwaitingGo,
    /// It sets up the root filesystem.
    BuildingRoot,
    /// It sets a stream of the command.
    Redirecting(Stream),
    /// It starts the command.
    Spawning,
    /// It answers that the command was started.
    Acknowledging,
    /// It answers with an error number, and has this to say of the error.
    Reporting(Option<Seq<u8>>),
    /// It sends the last thing that it has to say.
    Closing,
    /// It is done.
    Ended,
}

/// What came of the last action of the process.
#[derive(Debug)]
pub enum JailEvent {
    /// The byte that came from the caller, if one did.
    Go(Option<u8>),
    /// It succeeded.
    Done,
    /// It failed.
    Failed(Failure),
    /// Bytes were sent to the caller, or could not be.
    Written(bool),
}

/// What the process does next.
#[derive(Debug)]
pub enum JailAction {
    /// It waits for a byte from the caller.
    AwaitGo,
    /// It sets up the root filesystem.
    BuildRoot,
    /// It sets a stream of the command.
    Redirect(Stream, StdioTarget),
    /// It starts the command.
    Spawn,
    /// It sends bytes to the caller.
    Write(Vec<u8>),
    /// It watches over the command.
    Monitor,
    /// It exits.
    Exit(isize),
}

/// What the process does next, by contents.
pub enum JailActionView {
    /// It waits for a byte from the caller.
    AwaitGo,
    /// It sets up the root filesystem.
    BuildRoot,
    /// It sets a stream of the command.
    Redirect(Stream, StdioTarget),
    /// It starts the command.
    Spawn,
    /// It sends bytes to the caller.
    Write(Seq<u8>),
    /// It watches over the command.
    Monitor,
    /// It exits.
    Exit(isize),
}

impl View for JailPhase {
    type V = JailPhaseView;

    open spec fn view(&self) -> JailPhaseView {
        match *self {
            JailPhase::AwaitingGo => JailPhaseView::AwaitingGo,
            JailPhase::BuildingRoot => JailPhaseView::BuildingRoot,
            JailPhase::Redirecting(stream) => JailPhaseView::Redirecting(stream),
            JailPhase::Spawning => JailPhaseView::Spawning,
            JailPhase::Acknowledging => JailPhaseView::Acknowledging,
            JailPhase::Reporting(message) => JailPhaseView::Reporting(opt_view(message)),
            JailPhase::Closing => JailPhaseView::Closing,
            JailPhase::Ended => JailPhaseView::Ended,
        }
    }
}

impl View for JailAction {
    type V = JailActionView;

    open spec fn view(&self) -> JailActionView {
        match *self {
            JailAction::AwaitGo => JailActionView::AwaitGo,
            JailAction::BuildRoot => JailActionView::BuildRoot,
            JailAction::Redirect(stream, target) => JailActionView::Redirect(stream, target),
            JailAction::Spawn => JailActionView::Spawn,
            JailAction::Write(bytes) => JailActionView::Write(bytes@),
            JailAction::Monitor => JailActionView::Monitor,
            JailAction::Exit(code) => JailActionView::Exit(code),
        }
    }
}

/// The process that starts the command of a jail.
#[derive(Debug)]
pub struct JailRun {
    stdin: StdioTarget,
    stdout: StdioTarget,
    stderr: StdioTarget,
    phase: JailPhase,
}

/// The contents of a [`JailRun`].
pub struct JailView {
    /// What standard input is set to.
    pub stdin: StdioTarget,
    /// What standard output is set to.
    pub stdout: StdioTarget,
    /// What standard error is set to.
    pub stderr: StdioTarget,
    /// What the process does.
    pub phase: JailPhaseView,
}

impl View for JailRun {
    type V = JailView;

    closed spec fn view(&self) -> JailView {
        JailView {
            stdin: self.stdin,
            stdout: self.stdout,
            stderr: self.stderr,
            phase: self.phase@,
        }
    }
}

/// The number that an error is answered with.
pub open spec fn answer(failure: Failure) -> i32 {
    match failure.errno {
        Some(errno) => errno,
        None => EINVAL,
    }
}

impl JailView {
    /// Whether an event can follow the last action.
    pub open spec fn expects(self, event: JailEvent) -> bool {
        match self.phase {
            JailPhaseView::AwaitingGo => event is Go,
            JailPhaseView::BuildingRoot => event is Done || event is Failed,
            JailPhaseView::Redirecting(_) => event is Done || event is Failed,
            JailPhaseView::Spawning => event is Done || event is Failed,
            JailPhaseView::Acknowledging => event is Written,
            JailPhaseView::Reporting(_) => event is Written,
            JailPhaseView::Closing => event is Written,
            JailPhaseView::Ended => false,
        }
    }

    /// The process in a phase, with the action.
    pub open spec fn then_do(
        self,
        phase: JailPhaseView,
        action: JailActionView,
    ) -> (JailView, JailActionView) {
        (JailView { phase, ..self }, action)
    }

    /// The process that is done, with its last action.
    pub open spec fn finally(self, action: JailActionView) -> (JailView, JailActionView) {
        self.then_do(JailPhaseView::Ended, action)
    }

    /// The process that sets a stream.
    pub open spec fn redirect(self, stream: Stream) -> (JailView, JailActionView) {
        let target = match stream {
            Stream::Stdin => self.stdin,
            Stream::Stdout => self.stdout,
            Stream::Stderr => self.stderr,
        };
        self.then_do(
            JailPhaseView::Redirecting(stream),
            JailActionView::Redirect(stream, target),
        )
    }

    /// The process and the action that follow an event. The last case is of
    /// events that are not expected, which do not occur.
    pub open spec fn next(self, event: JailEvent) -> (JailView, JailActionView) {
        match (self.phase, event) {
            (JailPhaseView::AwaitingGo, JailEvent::Go(byte)) => if byte == Some(GO) {
                self.then_do(JailPhaseView::BuildingRoot, JailActionView::BuildRoot)
            } else {
                self.finally(JailActionView::Exit(FAILURE))
            },
            (JailPhaseView::BuildingRoot, JailEvent::Done) => self.redirect(Stream::Stdin),
            (JailPhaseView::BuildingRoot, JailEvent::Failed(failure)) => self.then_do(
                JailPhaseView::Closing,
                JailActionView::Write(big_endian(answer(failure))),
            ),
            (JailPhaseView::Redirecting(stream), JailEvent::Done) => match stream {
                Stream::Stdin => self.redirect(Stream::Stdout),
                Stream::Stdout => self.redirect(Stream::Stderr),
                Stream::Stderr => self.then_do(JailPhaseView::Spawning, JailActionView::Spawn),
            },
            (JailPhaseView::Spawning, JailEvent::Done) => self.then_do(
                JailPhaseView::Acknowledging,
                JailActionView::Write(big_endian(0)),
            ),
            (_, JailEvent::Failed(failure)) => self.then_do(
                JailPhaseView::Reporting(opt_view(failure.message)),
                JailActionView::Write(big_endian(answer(failure))),
            ),
            (JailPhaseView::Acknowledging, JailEvent::Written(arrived)) => if arrived {
                self.finally(JailActionView::Monitor)
            } else {
                self.finally(JailActionView::Exit(FAILURE))
            },
            (JailPhaseView::Reporting(message), JailEvent::Written(arrived)) => match message {
                Some(text) if arrived => self.then_do(
                    JailPhaseView::Closing,
                    JailActionView::Write(text),
                ),
                _ => self.finally(JailActionView::Exit(FAILURE)),
            },
            (JailPhaseView::Closing, JailEvent::Written(_)) => self.finally(
                JailActionView::Exit(FAILURE),
            ),
            _ => self.finally(JailActionView::Exit(FAILURE)),
        }
    }
}

fn answer_bytes(errno: Option<i32>) -> (r: Vec<u8>)
    ensures
        r@ == big_endian(match errno {
            Some(errno) => errno,
            None => EINVAL,
        }),
{
    let number = match errno {
        Some(errno) => errno,
        None => EINVAL,
    };
    number_bytes_be(number)
}

fn number_bytes_be(n: i32) -> (r: Vec<u8>)
    ensures
        r@ == big_endian(n),
{
    let b = to_be_bytes(n);
    let mut out: Vec<u8> = Vec::new();
    out.push(b[0]);
    out.push(b[1]);
    out.push(b[2]);
    out.push(b[3]);
    assert(out@ =~= b@);
    out
}

impl Command {
    /// Begins the process that starts the command, where `stdin`, `stdout`
    /// and `stderr` say for which of the streams a pipe was made.
    pub fn run_child(&self, stdin: bool, stdout: bool, stderr: bool) -> (r: (JailRun, JailAction))
        ensures
            r.0@ == (JailView {
                stdin: self@.target(Stream::Stdin, stdin),
                stdout: self@.target(Stream::Stdout, stdout),
                stderr: self@.target(Stream::Stderr, stderr),
                phase: JailPhaseView::AwaitingGo,
            }),
            r.1@ == JailActionView::AwaitGo,
    {
        (
            JailRun {
                stdin: self.stdio_target(Stream::Stdin, stdin),
                stdout: self.stdio_target(Stream::Stdout, stdout),
                stderr: self.stdio_target(Stream::Stderr, stderr),
                phase: JailPhase::AwaitingGo,
            },
            JailAction::AwaitGo,
        )
    }
}

impl JailRun {
    fn at(self, phase: JailPhase, action: JailAction) -> (r: (JailRun, JailAction))
        ensures
            (r.0@, r.1@) == self@.then_do(phase@, action@),
    {
        let mut run = self;
        run.phase = phase;
        (run, action)
    }

    fn redirect(self, stream: Stream) -> (r: (JailRun, JailAction))
        ensures
            (r.0@, r.1@) == self@.redirect(stream),
    {
        let target = match stream {
            Stream::Stdin => self.stdin,
            Stream::Stdout => self.stdout,
            Stream::Stderr => self.stderr,
        };
        self.at(JailPhase::Redirecting(stream), JailAction::Redirect(stream, target))
    }

    /// Takes the next step of starting the command.
    pub fn step(self, event: JailEvent) -> (r: (JailRun, JailAction))
        requires
            self@.expects(event),
        ensures
            (r.0@, r.1@) == self@.next(event),
    {
        let JailRun { stdin, stdout, stderr, phase } = self;
        let run = JailRun { stdin, stdout, stderr, phase: JailPhase::Ended };
        match (phase, event) {
            (JailPhase::AwaitingGo, JailEvent::Go(byte)) => {
                match byte {
                    Some(b) => {
                        if b == GO {
                            run.at(JailPhase::BuildingRoot, JailAction::BuildRoot)
                        } else {
                            run.at(JailPhase::Ended, JailAction::Exit(FAILURE))
                        }
                    },
                    None => run.at(JailPhase::Ended, JailAction::Exit(FAILURE)),
                }
            },
            (JailPhase::BuildingRoot, JailEvent::Done) => run.redirect(Stream::Stdin),
            (JailPhase::BuildingRoot, JailEvent::Failed(failure)) => run.at(
                JailPhase::Closing,
                JailAction::Write(answer_bytes(failure.errno)),
            ),
            (JailPhase::Redirecting(stream), JailEvent::Done) => match stream {
                Stream::Stdin => run.redirect(Stream::Stdout),
                Stream::Stdout => run.redirect(Stream::Stderr),
                Stream::Stderr => run.at(JailPhase::Spawning, JailAction::Spawn),
            },
            (JailPhase::Spawning, JailEvent::Done) => run.at(
                JailPhase::Acknowledging,
                JailAction::Write(number_bytes_be(0)),
            ),
            (_, JailEvent::Failed(failure)) => {
                let bytes = answer_bytes(failure.errno);
                run.at(JailPhase::Reporting(failure.message), JailAction::Write(bytes))
            },
            (JailPhase::Acknowledging, JailEvent::Written(arrived)) => {
                if arrived {
                    run.at(JailPhase::Ended, JailAction::Monitor)
                } else {
                    run.at(JailPhase::Ended, JailAction::Exit(FAILURE))
                }
            },
            (JailPhase::Reporting(message), JailEvent::Written(arrived)) => {
                match message {
                    Some(text) => {
                        if arrived {
                            run.at(JailPhase::Closing, JailAction::Write(text))
                        } else {
                            run.at(JailPhase::Ended, JailAction::Exit(FAILURE))
                        }
                    },
                    None => run.at(JailPhase::Ended, JailAction::Exit(FAILURE)),
                }
            },
            _ => run.at(JailPhase::Ended, JailAction::Exit(FAILURE)),
        }
    }
}

/// Without leave to go on the process exits and does nothing else.
pub proof fn nothing_happens_without_leave(run: JailView, byte: Option<u8>)
    requires
        run.phase is AwaitingGo,
        byte != Some(GO),
    ensures
        run.next(JailEvent::Go(byte)).1 == JailActionView::Exit(FAILURE),
{
}

/// The command is started only after the root filesystem was set up and all
/// three streams were set, each in turn.
pub proof fn the_command_starts_last(run: JailView, event: JailEvent)
    requires
        run.expects(event),
    ensures
        run.next(event).1 is BuildRoot ==> run.phase is AwaitingGo && event == JailEvent::Go(
            Some(GO),
        ),
        run.next(event).1 matches JailActionView::Redirect(Stream::Stdin, _) ==> run.phase
            is BuildingRoot && event is Done,
        run.next(event).1 matches JailActionView::Redirect(Stream::Stdout, _) ==> run.phase
            == JailPhaseView::Redirecting(Stream::Stdin) && event is Done,
        run.next(event).1 matches JailActionView::Redirect(Stream::Stderr, _) ==> run.phase
            == JailPhaseView::Redirecting(Stream::Stdout) && event is Done,
        run.next(event).1 is Spawn ==> run.phase == JailPhaseView::Redirecting(Stream::Stderr)
            && event is Done,
        run.next(event).1 is Monitor ==> run.phase is Acknowledging && event
            == JailEvent::Written(true),
{
}

/// What the process answers after it started the command lets the launch go
/// on.
pub proof fn a_start_is_acknowledged<E>(run: JailView, launch: LaunchView<E>, reply: [u8; 4])
    requires
        run.phase is Spawning,
        run.next(JailEvent::Done).1 == JailActionView::Write(reply@),
        launch.phase is AwaitingReply,
    ensures
        launch.next(LaunchEvent::Reply(reply)).0.phase is ReadingChildren,
{
    number_reads_back(ByteOrder::Big, 0);
}

/// An error that keeps the command from being started is the error that the
/// launch fails with, unless its number is 0.
pub proof fn an_error_is_answered<E>(
    run: JailView,
    failure: Failure,
    launch: LaunchView<E>,
    reply: [u8; 4],
)
    requires
        run.expects(JailEvent::Failed(failure)),
        run.next(JailEvent::Failed(failure)).1 == JailActionView::Write(reply@),
        launch.phase is AwaitingReply,
        answer(failure) != 0,
    ensures
        launch.next(LaunchEvent::Reply(reply)).1 == LaunchActionView::<E>::Fail(
            LaunchError::Os(answer(failure)),
        ),
{
    number_reads_back(ByteOrder::Big, answer(failure));
}

/// The process keeps to what its streams were to be set to.
pub proof fn the_streams_stay_as_they_were_set(run: JailView, event: JailEvent)
    requires
        run.expects(event),
    ensures
        run.next(event).0.stdin == run.stdin,
        run.next(event).0.stdout == run.stdout,
        run.next(event).0.stderr == run.stderr,
        run.next(event).1 matches JailActionView::Redirect(stream, target) ==> target
            == match stream {
            Stream::Stdin => run.stdin,
            Stream::Stdout => run.stdout,
            Stream::Stderr => run.stderr,
        },
{
}

/// Where nothing fails, the process sets up the root, sets the streams one
/// after the other, starts the command, answers with four zeros and watches
/// over the command.
pub proof fn a_start_takes_its_course(run: JailView)
    requires
        run.phase is AwaitingGo,
    ensures
        ({
            let (s1, a1) = run.next(JailEvent::Go(Some(0)));
            let (s2, a2) = s1.next(JailEvent::Done);
            let (s3, a3) = s2.next(JailEvent::Done);
            let (s4, a4) = s3.next(JailEvent::Done);
            let (s5, a5) = s4.next(JailEvent::Done);
            let (s6, a6) = s5.next(JailEvent::Done);
            let (s7, a7) = s6.next(JailEvent::Written(true));
            &&& a1 is BuildRoot
            &&& a2 == JailActionView::Redirect(Stream::Stdin, run.stdin)
            &&& a3 == JailActionView::Redirect(Stream::Stdout, run.stdout)
            &&& a4 == JailActionView::Redirect(Stream::Stderr, run.stderr)
            &&& a5 is Spawn
            &&& a6 matches JailActionView::Write(bytes)
            &&& bytes == seq![0u8, 0, 0, 0]
            &&& a7 is Monitor
            &&& s6.next(JailEvent::Written(false)).1 == JailActionView::Exit(1)
        }),
{
    bytes_weigh_the_number(0);
    let b = big_endian(0);
    assert(b =~= seq![0u8, 0, 0, 0]);
}

/// Wherever an operation fails, the process answers with the number of the
/// error, or with 22 where it has none, most significant byte first, and
/// exits with 1. What the error says follows the number where it arrived,
/// unless it was the root that failed. Nothing else is done.
pub proof fn a_failure_takes_its_course(run: JailView, failure: Failure, arrived: bool, last: bool)
    requires
        run.phase is BuildingRoot || run.phase is Redirecting || run.phase is Spawning,
    ensures
        ({
            let (s1, a1) = run.next(JailEvent::Failed(failure));
            let (s2, a2) = s1.next(JailEvent::Written(arrived));
            let number: int = match failure.errno {
                Some(errno) => errno as int,
                None => 22,
            };
            &&& a1 matches JailActionView::Write(b)
            &&& b.len() == 4
            &&& b[0] * 0x100_0000 + b[1] * 0x1_0000 + b[2] * 0x100 + b[3] == if number >= 0 {
                number
            } else {
                number + 0x1_0000_0000
            }
            &&& run.phase is BuildingRoot || failure.message is None || !arrived ==> a2
                == JailActionView::Exit(1)
            &&& !(run.phase is BuildingRoot) && arrived ==> (failure.message matches Some(text)
                ==> {
                &&& a2 == JailActionView::Write(text@)
                &&& s2.next(JailEvent::Written(last)).1 == JailActionView::Exit(1)
            })
        }),
{
    bytes_weigh_the_number(answer(failure));
}

/// The actions of the process are seen as they are.
pub proof fn jail_actions_are_seen_whole(action: JailAction)
    ensures
        match action {
            JailAction::AwaitGo => action@ is AwaitGo,
            JailAction::BuildRoot => action@ is BuildRoot,
            JailAction::Redirect(stream, target) => action@ == JailActionView::Redirect(
                stream,
                target,
            ),
            JailAction::Spawn => action@ is Spawn,
            JailAction::Write(bytes) => action@ == JailActionView::Write(bytes@),
            JailAction::Monitor => action@ is Monitor,
            JailAction::Exit(code) => action@ == JailActionView::Exit(code),
        },
{
}

} // verus!
