//! The state of a jailed process, as its caller sees it.
use crate::wire::{
    messages_are_told_apart,
    decode, message, message_reads_back, notice_of, sendable, ByteOrder, Notice, MESSAGE_LEN,
};
use vstd::prelude::*;

verus! {

/// An object representing status of a jailed process
#[derive(Debug, Clone, Copy, PartialEq, Eq, Hash, Structural)]
pub enum Status {
    /// The process has terminated normally with the contained exit code
    Exited(i32),
    /// The process was killed by the contained signal.
    ///
    /// The second field of this variant denotes whether the signal
    /// resulted in a core dump.
    Signaled(i32, bool),
    /// The process was stopped by the contained signal.
    ///
    /// A stopped process can be resumed by sending the `SIGCONT` signal.
    Stopped(i32),
    /// The process was continued after previously being stopped
    Continued,
    /// The process is currently running
    Running,
}

/// An object representing the exit condition of a terminated jailed process
#[derive(Debug, Clone, Copy, PartialEq, Eq, Hash, Structural)]
pub struct ExitStatus {
    inner: InnerExitStatus,
}

#[derive(Debug, Clone, Copy, PartialEq, Eq, Hash, Structural)]
enum InnerExitStatus {
    Exited(i32),
    Signaled(i32, bool),
}

/// Exit status and stdio data of a terminated jailed process
#[derive(Debug, Clone)]
pub struct Output {
    /// The [`ExitStatus`] for the jailed process
    pub status: ExitStatus,
    /// The `stdout` data of the jailed process.
    ///
    /// This will be empty unless `stdout` was piped.
    pub stdout: Vec<u8>,
    /// The `stderr` data of the jailed process.
    ///
    /// This will be empty unless `stderr` was piped.
    pub stderr: Vec<u8>,
}

impl View for ExitStatus {
    type V = Status;

    /// The final status of the process.
    closed spec fn view(&self) -> Status {
        match self.inner {
            InnerExitStatus::Exited(code) => Status::Exited(code),
            InnerExitStatus::Signaled(sig, dumped) => Status::Signaled(sig, dumped),
        }
    }
}

impl ExitStatus {
    /// Every exit status says how the process terminated.
    pub proof fn is_terminal(self)
        ensures
            self@.terminal(),
    {
    }

    /// Returns whether the jailed process exited normally with 0 exit code
    pub fn success(&self) -> (r: bool)
        ensures
            r == (self@ == Status::Exited(0)),
    {
        matches!(self.inner, InnerExitStatus::Exited(0))
    }

    /// Returns the exit code of the jailed process if it terminated normally.
    ///
    /// This will return [`None`] if the process was killed by a signal.
    pub fn code(&self) -> (r: Option<i32>)
        ensures
            r == (match self@ {
                Status::Exited(code) => Some(code),
                _ => None,
            }),
    {
        if let InnerExitStatus::Exited(code) = self.inner {
            Some(code)
        } else {
            None
        }
    }

    /// Returns the signal that killed the jailed process if it did not terminate normally.
    ///
    /// This will return [`None`] if the process terminated normally.
    pub fn signal(&self) -> (r: Option<i32>)
        ensures
            r == (match self@ {
                Status::Signaled(sig, _) => Some(sig),
                _ => None,
            }),
    {
        if let InnerExitStatus::Signaled(sig, _) = self.inner {
            Some(sig)
        } else {
            None
        }
    }

    /// Returns `true` if the jailed process was killed by a signal and resulted in a core dump.
    pub fn core_dumped(&self) -> (r: bool)
        ensures
            r == (self@ matches Status::Signaled(_, dumped) && dumped),
    {
        matches!(self.inner, InnerExitStatus::Signaled(_, true))
    }

    /// The exit status that a final status stands for.
    fn of(status: Status) -> (r: Option<ExitStatus>)
        ensures
            match r {
                Some(exit) => status.terminal() && exit@ == status,
                None => !status.terminal(),
            },
    {
        match status {
            Status::Exited(code) => Some(ExitStatus { inner: InnerExitStatus::Exited(code) }),
            Status::Signaled(sig, dumped) => Some(
                ExitStatus { inner: InnerExitStatus::Signaled(sig, dumped) },
            ),
            _ => None,
        }
    }
}

impl Status {
    /// Whether the process has terminated.
    pub open spec fn terminal(self) -> bool {
        self is Exited || self is Signaled
    }

    /// Returns `true` if the process terminated normally with an exit code
    pub fn exited(&self) -> (r: bool)
        ensures
            r == (*self is Exited),
    {
        matches!(*self, Self::Exited(_))
    }

    /// Returns `true` if the process was killed by a signal
    pub fn signaled(&self) -> (r: bool)
        ensures
            r == (*self is Signaled),
    {
        matches!(*self, Self::Signaled(_, _))
    }

    /// Returns `true` if the process was killed by a signal and resulted in a core dump
    pub fn core_dumped(&self) -> (r: bool)
        ensures
            r == (*self matches Status::Signaled(_, dumped) && dumped),
    {
        matches!(*self, Self::Signaled(_, true))
    }

    /// Returns `true` if the process was stopped by a signal
    pub fn stopped(&self) -> (r: bool)
        ensures
            r == (*self is Stopped),
    {
        matches!(*self, Self::Stopped(_))
    }

    /// Returns `true` if the process was continued after being stopped
    pub fn continued(&self) -> (r: bool)
        ensures
            r == (*self is Continued),
    {
        matches!(*self, Self::Continued)
    }

    /// Returns `true` if the process is currently running normally.
    ///
    /// Running normally means that the process has not terminated and has not been
    /// stopped.
    pub fn running(&self) -> (r: bool)
        ensures
            r == (*self is Continued || *self is Running),
    {
        matches!(*self, Self::Continued | Self::Running)
    }

    /// Gets the exit code of the process if it terminated normally
    pub fn code(&self) -> (r: Option<i32>)
        ensures
            r == (match *self {
                Status::Exited(code) => Some(code),
                _ => None,
            }),
    {
        if let Self::Exited(code) = *self {
            Some(code)
        } else {
            None
        }
    }

    /// Gets the signal that killed the process, if any
    pub fn signal(&self) -> (r: Option<i32>)
        ensures
            r == (match *self {
                Status::Signaled(sig, _) => Some(sig),
                _ => None,
            }),
    {
        if let Self::Signaled(sig, _) = *self {
            Some(sig)
        } else {
            None
        }
    }

    /// Gets the signal that stopped the process, if any
    pub fn stopped_signal(&self) -> (r: Option<i32>)
        ensures
            r == (match *self {
                Status::Stopped(sig) => Some(sig),
                _ => None,
            }),
    {
        if let Self::Stopped(sig) = *self {
            Some(sig)
        } else {
            None
        }
    }
}

/// A process with a status is running normally exactly when it has neither
/// terminated nor been stopped.
pub proof fn running_is_neither_ended_nor_stopped(status: Status)
    ensures
        (status is Continued || status is Running) <==> !status.terminal() && !(status is Stopped),
{
}

/// A handle to a jailed process: its process IDs and what is known of it.
///
/// The changes of the process arrive as messages over a control socket, in
/// pieces of any size. The handle gathers them and keeps the latest status.
#[derive(Debug)]
pub struct Child {
    pid: i32,
    child_pid: i32,
    order: ByteOrder,
    buf: [u8; 5],
    len: u8,
    status: Status,
}

/// The contents of a [`Child`].
pub struct ChildView {
    /// The host PID of the process that controls the jail.
    pub pid: i32,
    /// The host PID of the jailed process.
    pub child_pid: i32,
    /// The byte order of the messages.
    pub order: ByteOrder,
    /// What has arrived of the next message.
    pub partial: Seq<u8>,
    /// The latest status of the jailed process.
    pub status: Status,
}

/// What came of polling the control socket for bytes.
#[derive(Debug)]
pub enum ReadOutcome<E> {
    /// There is nothing to read yet.
    Pending,
    /// Reading failed.
    Failed(E),
    /// The bytes that were read; none at the end of the stream.
    Data(Vec<u8>),
}

/// Why the status of a process is not known.
#[derive(Debug)]
pub enum EventError<E> {
    /// Reading from the control socket failed.
    Io(E),
    /// The process that controls the jail met this error of the system.
    Os(i32),
    /// A message has a kind that is not known.
    InvalidData,
    /// The control socket was closed at its other end.
    Closed,
}

/// What polling for the next event of a process comes to.
#[derive(Debug)]
pub enum EventPoll<E> {
    /// The control socket is to be polled for at most this many bytes.
    Read(usize),
    /// There is no event yet.
    Pending,
    /// The next event.
    Ready(Status),
    /// The event is not known.
    Failed(EventError<E>),
}

/// What polling for the end of a process comes to.
#[derive(Debug)]
pub enum WaitPoll<E> {
    /// The control socket is to be polled for at most this many bytes.
    Read(usize),
    /// There is no further event yet, and the process has not terminated.
    Pending,
    /// The process has terminated.
    Ready(ExitStatus),
    /// The event is not known.
    Failed(EventError<E>),
}

/// What asking for the current status of a process comes to.
#[derive(Debug)]
pub enum StatusPoll<E> {
    /// The control socket is to be polled for at most this many bytes.
    Read(usize),
    /// The current status.
    Ready(Status),
    /// The status is not known.
    Failed(EventError<E>),
}

/// A signal to be sent to a process.
#[derive(Debug, Clone, Copy, PartialEq, Eq, Structural)]
pub struct SendSignal {
    /// The host PID of the process.
    pub pid: i32,
    /// The number of the signal.
    pub signal: i32,
}

/// The number of the error for an argument that is not valid.
pub const EINVAL: i32 = 22;

/// The number of the signal that kills a process.
pub const SIGKILL: i32 = 9;

/// The greatest number of a standard signal; the least is 1.
pub const LAST_SIGNAL: i32 = 31;

/// The number that names a signal on some architectures only.
pub const DIVERGENT_SIGNAL: i32 = 7;

/// Whether a number names a signal on every architecture.
pub open spec fn is_common_signal(signal: i32) -> bool {
    1 <= signal <= LAST_SIGNAL && signal != DIVERGENT_SIGNAL
}

/// The status of a process after a message about it.
pub open spec fn status_after(status: Status, notice: Notice) -> Status {
    match notice {
        Notice::Event(Status::Continued) => Status::Running,
        Notice::Event(next) => next,
        _ => status,
    }
}

/// What polling comes to when a whole message has arrived.
pub open spec fn notice_poll<E>(notice: Notice) -> EventPoll<E> {
    match notice {
        Notice::Event(event) => EventPoll::Ready(event),
        Notice::Error(errno) => EventPoll::Failed(EventError::Os(errno)),
        Notice::Unknown => EventPoll::Failed(EventError::InvalidData),
    }
}

impl ChildView {
    /// The handle and the result after bytes have arrived, or the stream has
    /// ended and none have.
    pub open spec fn feed<E>(self, data: Seq<u8>) -> (ChildView, EventPoll<E>) {
        let all = self.partial + data;
        if data.len() == 0 {
            (self, EventPoll::Failed(EventError::Closed))
        } else if all.len() < MESSAGE_LEN {
            (
                ChildView { partial: all, ..self },
                EventPoll::Read((MESSAGE_LEN - all.len()) as usize),
            )
        } else {
            let notice = notice_of(self.order, all);
            (
                ChildView {
                    partial: Seq::empty(),
                    status: status_after(self.status, notice),
                    ..self
                },
                notice_poll(notice),
            )
        }
    }

    /// The handle and the result of a step of polling for the next event.
    ///
    /// A terminated process has no further event: its final status is given
    /// again. A poll begins without an outcome and asks for bytes.
    pub open spec fn poll<E>(self, read: Option<ReadOutcome<E>>) -> (ChildView, EventPoll<E>) {
        if self.status.terminal() {
            (self, EventPoll::Ready(self.status))
        } else {
            match read {
                None => (self, EventPoll::Read((MESSAGE_LEN - self.partial.len()) as usize)),
                Some(ReadOutcome::Pending) => (self, EventPoll::Pending),
                Some(ReadOutcome::Failed(err)) => (self, EventPoll::Failed(EventError::Io(err))),
                Some(ReadOutcome::Data(data)) => self.feed(data@),
            }
        }
    }

    /// Whether bytes that were read are no more than were asked for.
    pub open spec fn accepts<E>(self, read: Option<ReadOutcome<E>>) -> bool {
        read matches Some(ReadOutcome::Data(data)) ==> self.partial.len() + data@.len()
            <= MESSAGE_LEN
    }
}

impl View for Child {
    type V = ChildView;

    closed spec fn view(&self) -> ChildView {
        ChildView {
            pid: self.pid,
            child_pid: self.child_pid,
            order: self.order,
            partial: self.buf@.take(self.len as int),
            status: self.status,
        }
    }
}

/// The number of a signal, by `nix::sys::signal::Signal::try_from`.
///
/// On Linux the numbers from 1 to 31, with the possible exception of 7, each
/// name a signal, which has that number; of any other number the outcome is
/// the error `EINVAL`. Whether 7 names a signal depends on the architecture:
/// on MIPS and SPARC it does not.
#[verifier::external_body]
fn check_signal(signal: i32) -> (r: Result<i32, i32>)
    ensures
        match r {
            Ok(n) => n == signal && 1 <= signal <= LAST_SIGNAL,
            Err(errno) => errno == EINVAL && !is_common_signal(signal),
        },
{
    match nix::sys::signal::Signal::try_from(signal) {
        Ok(signal) => Ok(signal as i32),
        Err(errno) => Err(errno as i32),
    }
}

impl Child {
    /// Whether less than a message has been gathered.
    pub open spec fn wf(self) -> bool {
        self.gathering() && self@.partial.len() < MESSAGE_LEN
    }

    /// Whether the place of the next byte lies inside the buffer.
    pub closed spec fn gathering(self) -> bool {
        self.len < MESSAGE_LEN
    }

    /// A handle to a process that has just been started.
    pub fn new(pid: i32, child_pid: i32, order: ByteOrder) -> (r: Child)
        ensures
            r.wf(),
            r@ == (ChildView {
                pid,
                child_pid,
                order,
                partial: Seq::empty(),
                status: Status::Running,
            }),
    {
        let r = Child { pid, child_pid, order, buf: [0, 0, 0, 0, 0], len: 0, status: Status::Running };
        assert(r@.partial =~= Seq::empty());
        r
    }

    /// The provided signal, to be sent to the jailed process. Whether 7 is a
    /// signal depends on the architecture.
    pub fn send_signal(&self, signal: i32) -> (r: Result<SendSignal, i32>)
        ensures
            match r {
                Ok(sent) => {
                    &&& sent == (SendSignal { pid: self@.child_pid, signal })
                    &&& 1 <= signal <= LAST_SIGNAL
                },
                Err(errno) => errno == EINVAL && !is_common_signal(signal),
            },
    {
        match check_signal(signal) {
            Ok(signal) => Ok(SendSignal { pid: self.child_pid, signal }),
            Err(errno) => Err(errno),
        }
    }

    /// `SIGKILL`, to be sent to the jailed process.
    pub fn kill(&self) -> (r: Result<SendSignal, i32>)
        ensures
            r == Ok::<SendSignal, i32>(SendSignal { pid: self@.child_pid, signal: SIGKILL }),
    {
        self.send_signal(SIGKILL)
    }

    /// Returns the host PID of the process that controls the jail.
    ///
    /// Note that due to quirks of Linux namespaces, two subprocesses are
    /// associated with a jailed process. The PID returned by this function
    /// is for the control process which manages the process executing the
    /// command.
    pub fn id(&self) -> (r: u32)
        ensures
            r == (if self@.pid < 0 {
                self@.pid + 0x1_0000_0000
            } else {
                self@.pid as int
            }),
    {
        let wide: i64 = self.pid as i64;
        if wide < 0 {
            (wide + 0x1_0000_0000) as u32
        } else {
            wide as u32
        }
    }

    /// Polls for the next event, or change in status, for the jailed process.
    ///
    /// A poll begins without an outcome. As long as the result asks for it,
    /// the control socket is polled and what came of that is handed back.
    pub fn poll_next_event<E>(&mut self, read: Option<ReadOutcome<E>>) -> (r: EventPoll<E>)
        requires
            old(self).wf(),
            old(self)@.accepts(read),
        ensures
            final(self).wf(),
            (final(self)@, r) == old(self)@.poll(read),
    {
        match self.status {
            Status::Exited(_) | Status::Signaled(_, _) => return EventPoll::Ready(self.status),
            _ => {},
        }
        match read {
            None => EventPoll::Read(MESSAGE_LEN - self.len as usize),
            Some(ReadOutcome::Pending) => EventPoll::Pending,
            Some(ReadOutcome::Failed(err)) => EventPoll::Failed(EventError::Io(err)),
            Some(ReadOutcome::Data(data)) => self.gather(data),
        }
    }

    /// Adds bytes to the message that is being gathered. Without any, the
    /// stream has ended.
    fn gather<E>(&mut self, data: Vec<u8>) -> (r: EventPoll<E>)
        requires
            old(self).wf(),
            old(self)@.partial.len() + data@.len() <= MESSAGE_LEN,
        ensures
            final(self).wf(),
            (final(self)@, r) == old(self)@.feed::<E>(data@),
    {
        if data.is_empty() {
            return EventPoll::Failed(EventError::Closed);
        }
        let ghost before = self@;
        assert(before.partial.len() == self.len);
        let mut buf: [u8; 5] = self.buf;
        let from: usize = self.len as usize;
        let mut i: usize = 0;
        while i < data.len()
            invariant
                from == before.partial.len(),
                from + data@.len() <= MESSAGE_LEN,
                i <= data@.len(),
                buf@.take(from + i) == before.partial + data@.take(i as int),
            decreases data@.len() - i,
        {
            let ghost prior = buf@;
            buf[from + i] = data[i];
            proof {
                assert(buf@.take(from + i + 1) =~= prior.take(from + i).push(data@[i as int]));
                assert(data@.take(i + 1) =~= data@.take(i as int).push(data@[i as int]));
            }
            i += 1;
        }
        let new_len: usize = from + data.len();
        assert(data@.take(i as int) =~= data@);
        if new_len < MESSAGE_LEN {
            self.len = new_len as u8;
            self.buf = buf;
            return EventPoll::Read(MESSAGE_LEN - new_len);
        }
        self.len = 0;
        assert(self@.partial =~= Seq::empty());
        assert(buf@ =~= before.partial + data@);
        match decode(self.order, buf) {
            Notice::Event(Status::Continued) => {
                self.status = Status::Running;
                EventPoll::Ready(Status::Continued)
            },
            Notice::Event(event) => {
                self.status = event;
                EventPoll::Ready(event)
            },
            Notice::Error(errno) => EventPoll::Failed(EventError::Os(errno)),
            Notice::Unknown => EventPoll::Failed(EventError::InvalidData),
        }
    }

    /// Polls for the termination of the jailed process.
    ///
    /// After an event other than termination the poll goes on to the next
    /// one. For the steps of a poll see
    /// [`poll_next_event`](Self::poll_next_event).
    pub fn poll_wait<E>(&mut self, read: Option<ReadOutcome<E>>) -> (r: WaitPoll<E>)
        requires
            old(self).wf(),
            old(self)@.accepts(read),
        ensures
            final(self).wf(),
            final(self)@ == old(self)@.poll(read).0,
            match old(self)@.poll(read).1 {
                EventPoll::Read(n) => r == WaitPoll::<E>::Read(n),
                EventPoll::Pending => r == WaitPoll::<E>::Pending,
                EventPoll::Failed(err) => r == WaitPoll::<E>::Failed(err),
                EventPoll::Ready(status) => if status.terminal() {
                    r matches WaitPoll::Ready(exit) && exit@ == status
                } else {
                    r == WaitPoll::<E>::Read(MESSAGE_LEN)
                },
            },
    {
        match self.poll_next_event(read) {
            EventPoll::Read(n) => WaitPoll::Read(n),
            EventPoll::Pending => WaitPoll::Pending,
            EventPoll::Failed(err) => WaitPoll::Failed(err),
            EventPoll::Ready(status) => match ExitStatus::of(status) {
                Some(exit) => WaitPoll::Ready(exit),
                None => WaitPoll::Read(MESSAGE_LEN),
            },
        }
    }

    /// Gets the current status of the jailed process.
    ///
    /// An event that has arrived is given; without one, the latest status.
    /// For the steps see [`poll_next_event`](Self::poll_next_event).
    pub fn status<E>(&mut self, read: Option<ReadOutcome<E>>) -> (r: StatusPoll<E>)
        requires
            old(self).wf(),
            old(self)@.accepts(read),
        ensures
            final(self).wf(),
            final(self)@ == old(self)@.poll(read).0,
            r == (match old(self)@.poll(read).1 {
                EventPoll::Read(n) => StatusPoll::<E>::Read(n),
                EventPoll::Pending => StatusPoll::<E>::Ready(old(self)@.status),
                EventPoll::Failed(err) => StatusPoll::<E>::Failed(err),
                EventPoll::Ready(status) => StatusPoll::<E>::Ready(status),
            }),
    {
        match self.poll_next_event(read) {
            EventPoll::Read(n) => StatusPoll::Read(n),
            EventPoll::Pending => StatusPoll::Ready(self.status),
            EventPoll::Failed(err) => StatusPoll::Failed(err),
            EventPoll::Ready(status) => StatusPoll::Ready(status),
        }
    }

    /// The output of a terminated process, from what was read of its streams.
    ///
    /// A stream that was not piped has no data.
    pub fn wait_with_output(
        status: ExitStatus,
        stdout: Option<Vec<u8>>,
        stderr: Option<Vec<u8>>,
    ) -> (r: Output)
        ensures
            r.status == status,
            r.stdout@ == (match stdout {
                Some(data) => data@,
                None => Seq::empty(),
            }),
            r.stderr@ == (match stderr {
                Some(data) => data@,
                None => Seq::empty(),
            }),
    {
        let stdout = match stdout {
            Some(data) => data,
            None => Vec::new(),
        };
        let stderr = match stderr {
            Some(data) => data,
            None => Vec::new(),
        };
        Output { status, stdout, stderr }
    }
}

/// It does not matter in how many pieces a message arrives: bytes that do
/// not complete it only ask for more, and with the rest of it the result is
/// the one that all the bytes together give.
pub proof fn pieces_add_up<E>(child: ChildView, first: Seq<u8>, second: Seq<u8>)
    requires
        first.len() > 0,
        second.len() > 0,
        child.partial.len() + first.len() < MESSAGE_LEN,
        child.partial.len() + first.len() + second.len() <= MESSAGE_LEN,
    ensures
        child.feed::<E>(first).1 is Read,
        child.feed::<E>(first).0.feed::<E>(second) == child.feed::<E>(first + second),
{
    assert(child.partial + first + second =~= child.partial + (first + second));
}

/// A message that is sent whole is the next event that polling gives.
pub proof fn sent_is_received<E>(child: ChildView, notice: Notice)
    requires
        sendable(notice),
        child.partial.len() == 0,
    ensures
        child.feed::<E>(message(child.order, notice)).1 == notice_poll::<E>(notice),
        child.feed::<E>(message(child.order, notice)).0.status == status_after(
            child.status,
            notice,
        ),
{
    message_reads_back(child.order, notice);
    assert(child.partial + message(child.order, notice) =~= message(child.order, notice));
}

/// Once a process has terminated, every poll gives its final status and
/// nothing changes any more.
pub proof fn termination_is_final<E>(child: ChildView, read: Option<ReadOutcome<E>>)
    requires
        child.status.terminal(),
    ensures
        child.poll(read) == (child, EventPoll::<E>::Ready(child.status)),
{
}

/// An event that does not end a process leaves room for a whole message: the
/// handle is ready for the next one.
pub proof fn other_events_are_followed_by_more<E>(child: ChildView, read: Option<ReadOutcome<E>>)
    requires
        child.poll(read).1 matches EventPoll::Ready(status) && !status.terminal(),
    ensures
        child.poll(read).0.partial.len() == 0,
        !child.poll(read).0.status.terminal(),
        child.poll(read).0.poll::<E>(None).1 == EventPoll::<E>::Read(MESSAGE_LEN),
{
}

/// At the end of the stream every poll ends: with the final status of a
/// process that has terminated, and otherwise with an error. The handle stays
/// as it is, and no further bytes are asked for.
pub proof fn the_end_of_the_stream_ends_a_poll<E>(child: ChildView, data: Vec<u8>)
    requires
        data@.len() == 0,
    ensures
        child.poll(Some(ReadOutcome::<E>::Data(data))) == (
            child,
            if child.status.terminal() {
                EventPoll::<E>::Ready(child.status)
            } else {
                EventPoll::<E>::Failed(EventError::Closed)
            },
        ),
        !(child.poll(Some(ReadOutcome::<E>::Data(data))).1 is Read),
{
}

/// Whether a result is an event or an error.
pub open spec fn is_outcome<E>(poll: EventPoll<E>) -> bool {
    poll is Ready || poll is Failed
}

/// The handle after steps of polling, and the events and errors that they
/// gave, in order. Once the process has terminated there are no further ones.
pub open spec fn polled<E>(child: ChildView, steps: Seq<Option<ReadOutcome<E>>>) -> (
    ChildView,
    Seq<EventPoll<E>>,
)
    decreases steps.len(),
{
    if steps.len() == 0 || child.status.terminal() {
        (child, Seq::empty())
    } else {
        let (next, poll) = child.poll(steps[0]);
        let (last, rest) = polled(next, steps.skip(1));
        (
            last,
            if is_outcome(poll) {
                seq![poll] + rest
            } else {
                rest
            },
        )
    }
}

/// Whether steps of polling read an open stream: each begins a poll, finds
/// nothing to read, or reads at least one byte and no more than were asked
/// for.
pub open spec fn reads_open_stream<E>(
    child: ChildView,
    steps: Seq<Option<ReadOutcome<E>>>,
) -> bool
    decreases steps.len(),
{
    steps.len() == 0 || child.status.terminal() || {
        &&& child.accepts(steps[0])
        &&& !(steps[0] matches Some(ReadOutcome::Failed(_)))
        &&& steps[0] matches Some(ReadOutcome::Data(data)) ==> data@.len() > 0
        &&& reads_open_stream(child.poll(steps[0]).0, steps.skip(1))
    }
}

/// The bytes that a step of polling reads.
pub open spec fn bytes_read<E>(step: Option<ReadOutcome<E>>) -> Seq<u8> {
    match step {
        Some(ReadOutcome::Data(data)) => data@,
        _ => Seq::empty(),
    }
}

/// The bytes that steps of polling read, in order.
pub open spec fn all_read<E>(steps: Seq<Option<ReadOutcome<E>>>) -> Seq<u8>
    decreases steps.len(),
{
    if steps.len() == 0 {
        Seq::empty()
    } else {
        bytes_read(steps[0]) + all_read(steps.skip(1))
    }
}

/// The handle after a stream of bytes, and the events and errors of the
/// messages in it, in order. What follows the end of the process is not read.
pub open spec fn received<E>(child: ChildView, stream: Seq<u8>) -> (ChildView, Seq<EventPoll<E>>)
    decreases stream.len(),
{
    let missing = MESSAGE_LEN - child.partial.len();
    if child.status.terminal() {
        (child, Seq::empty())
    } else if missing <= 0 || stream.len() < missing {
        (ChildView { partial: child.partial + stream, ..child }, Seq::empty())
    } else {
        let (next, poll) = child.feed(stream.take(missing));
        let (last, rest) = received(next, stream.skip(missing));
        (last, seq![poll] + rest)
    }
}

/// A piece that does not complete a message only moves bytes to the handle.
proof fn lemma_received_after_piece<E>(child: ChildView, piece: Seq<u8>, stream: Seq<u8>)
    requires
        !child.status.terminal(),
        0 < piece.len(),
        child.partial.len() + piece.len() < MESSAGE_LEN,
    ensures
        received::<E>(child, piece + stream) == received::<E>(child.feed::<E>(piece).0, stream),
{
    let next = child.feed::<E>(piece).0;
    let all = piece + stream;
    let missing = MESSAGE_LEN - child.partial.len();
    let still = MESSAGE_LEN - next.partial.len();
    if stream.len() < still {
        assert(child.partial + all =~= next.partial + stream);
    } else {
        assert(all.take(missing) =~= piece + stream.take(still));
        assert(all.skip(missing) =~= stream.skip(still));
        pieces_add_up::<E>(child, piece, stream.take(still));
    }
}

/// Polling an open stream gives the events and errors of the messages in it,
/// each once and in order, and keeps what has arrived of the next one. It
/// does not matter how the bytes are cut into reads, and how often there is
/// nothing to read.
pub proof fn polling_gives_what_was_received<E>(
    child: ChildView,
    steps: Seq<Option<ReadOutcome<E>>>,
)
    requires
        child.partial.len() < MESSAGE_LEN,
        reads_open_stream(child, steps),
    ensures
        polled(child, steps) == received::<E>(child, all_read(steps)),
    decreases steps.len(),
{
    if child.status.terminal() {
    } else if steps.len() == 0 {
        assert(child.partial + all_read(steps) =~= child.partial);
    } else {
        let piece = bytes_read(steps[0]);
        let rest = all_read(steps.skip(1));
        let next = child.poll(steps[0]).0;
        polling_gives_what_was_received(next, steps.skip(1));
        if piece.len() == 0 {
            assert(all_read(steps) =~= rest);
        } else if child.partial.len() + piece.len() < MESSAGE_LEN {
            lemma_received_after_piece::<E>(child, piece, rest);
        } else {
            let missing = MESSAGE_LEN - child.partial.len();
            assert(all_read(steps).take(missing) =~= piece);
            assert(all_read(steps).skip(missing) =~= rest);
        }
    }
}

/// Two ways of cutting the same bytes into reads, with nothing to read at any
/// point in between, give the same events and errors in the same order and
/// leave equal handles.
pub proof fn cuts_do_not_matter<E>(
    child: ChildView,
    one: Seq<Option<ReadOutcome<E>>>,
    other: Seq<Option<ReadOutcome<E>>>,
)
    requires
        child.partial.len() < MESSAGE_LEN,
        reads_open_stream(child, one),
        reads_open_stream(child, other),
        all_read(one) == all_read(other),
    ensures
        polled(child, one) == polled(child, other),
{
    polling_gives_what_was_received(child, one);
    polling_gives_what_was_received(child, other);
}

/// While less than a message has arrived there is no event and no error, the
/// status stays as it was, and the handle keeps every byte.
pub proof fn part_of_a_message_is_kept<E>(child: ChildView, steps: Seq<Option<ReadOutcome<E>>>)
    requires
        !child.status.terminal(),
        reads_open_stream(child, steps),
        child.partial.len() + all_read(steps).len() < MESSAGE_LEN,
    ensures
        polled(child, steps) == (
            (ChildView { partial: child.partial + all_read(steps), ..child }),
            Seq::<EventPoll<E>>::empty(),
        ),
{
    polling_gives_what_was_received(child, steps);
}

/// A message about the process is the next event, as it was sent, and the
/// latest status after it, except that a process that was continued is
/// running. A message about an error is that error, and one of no known kind
/// is none at all; neither changes the status. The message is used up, and
/// whose handle it is does not change.
pub proof fn messages_are_events<E>(child: ChildView, status: Status, errno: i32, odd: Seq<u8>)
    requires
        child.partial.len() == 0,
        odd.len() == 5,
        odd[0] > 5,
    ensures
        !(status is Running) ==> {
            let (next, poll) = child.feed::<E>(message(child.order, Notice::Event(status)));
            &&& poll == EventPoll::<E>::Ready(status)
            &&& status is Continued ==> next.status is Running
            &&& !(status is Continued) ==> next.status == status
            &&& next.partial.len() == 0
            &&& next.pid == child.pid && next.child_pid == child.child_pid
            &&& next.order == child.order
        },
        ({
            let (next, poll) = child.feed::<E>(message(child.order, Notice::Error(errno)));
            &&& poll == EventPoll::<E>::Failed(EventError::Os(errno))
            &&& next.status == child.status && next.partial.len() == 0
            &&& next.pid == child.pid && next.child_pid == child.child_pid
            &&& next.order == child.order
        }),
        ({
            let (next, poll) = child.feed::<E>(odd);
            &&& poll == EventPoll::<E>::Failed(EventError::InvalidData)
            &&& next.status == child.status && next.partial.len() == 0
            &&& next.pid == child.pid && next.child_pid == child.child_pid
            &&& next.order == child.order
        }),
{
    if !(status is Running) {
        sent_is_received::<E>(child, Notice::Event(status));
    }
    sent_is_received::<E>(child, Notice::Error(errno));
    message_reads_back(child.order, Notice::Error(errno));
    assert(child.partial + odd =~= odd);
    messages_are_told_apart(child.order, odd, odd);
}

/// A poll that finds nothing to read, or fails to read, ends there and leaves
/// the handle as it is. One that has not read yet asks for what is missing of
/// a message.
pub proof fn polls_read_what_is_missing<E>(child: ChildView, err: E)
    requires
        !child.status.terminal(),
        child.partial.len() < 5,
    ensures
        child.poll(Some(ReadOutcome::<E>::Pending)) == (child, EventPoll::<E>::Pending),
        child.poll(Some(ReadOutcome::Failed(err))) == (
            child,
            EventPoll::Failed(EventError::Io(err)),
        ),
        child.poll::<E>(None).0 == child,
        child.poll::<E>(None).1 matches EventPoll::Read(n) && n + child.partial.len() == 5,
{
}

/// A process has ended exactly when it exited or was killed.
pub proof fn ended_is_exited_or_killed(status: Status)
    ensures
        status.terminal() <==> status is Exited || status is Signaled,
{
}

} // verus!
