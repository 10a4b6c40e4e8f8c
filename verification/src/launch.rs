//! The caller's side of starting a jailed process.
//!
//! The process that controls the jail is cloned first and waits. The caller
//! sets the IDs of the jail, lets the process go on, and reads its answer.
use crate::bytes::{copy, push_text};
use crate::child::{messages_are_events, Child, ChildView, EventPoll, ReadOutcome, Status};
use crate::command::{file_view, file_views, proc_file, proc_path, Command, FileWrite};
use crate::decimal::{
    as_i32, decimal, decimal_denotes, is_digit, parse_i32, push_signed_decimal, signed_decimal,
    signed_decimal_reads_back, signed_numbers_are_read_strictly,
};
use crate::monitor::{
    expected, monitor_next, reports_reach_the_caller, ActionView, MonitorEvent, MonitorState,
    WaitReport,
};
use crate::wire::{big_endian, big_endian_value, from_be_bytes, number_reads_back, ByteOrder};
use vstd::prelude::*;
use vstd::string::*;
use vstd::utf8::*;

verus! {

/// The byte that lets the process in the jail go on.
pub const GO: u8 = 0;

/// The byte that makes the process in the jail give up.
pub const GIVE_UP: u8 = 1;

/// Why the PID of a jailed process is not known.
#[derive(Debug, Clone, Copy, PartialEq, Eq, Structural)]
pub enum PidError {
    /// The list of children is not UTF-8.
    NotUtf8,
    /// The list of children is not one number.
    NotANumber,
}

/// Whether a character is white space, by the property `White_Space` of
/// Unicode.
pub open spec fn is_white_space(c: char) -> bool {
    let u = c as u32;
    ||| 0x09 <= u <= 0x0d
    ||| u == 0x20
    ||| u == 0x85
    ||| u == 0xa0
    ||| u == 0x1680
    ||| 0x2000 <= u <= 0x200a
    ||| u == 0x2028
    ||| u == 0x2029
    ||| u == 0x202f
    ||| u == 0x205f
    ||| u == 0x3000
}

/// A text without the white space at its beginning.
pub open spec fn trim_start(s: Seq<char>) -> Seq<char>
    decreases s.len(),
{
    if s.len() > 0 && is_white_space(s[0]) {
        trim_start(s.skip(1))
    } else {
        s
    }
}

/// A text without the white space at its end.
pub open spec fn trim_end(s: Seq<char>) -> Seq<char>
    decreases s.len(),
{
    if s.len() > 0 && is_white_space(s.last()) {
        trim_end(s.drop_last())
    } else {
        s
    }
}

/// The PID that a list of children holds: the only thing in it besides white
/// space around it.
pub open spec fn listed_pid(contents: Seq<u8>) -> Result<i32, PidError> {
    if !valid_utf8(contents) {
        Err(PidError::NotUtf8)
    } else {
        match as_i32(encode_utf8(trim_end(trim_start(decode_utf8(contents))))) {
            Some(pid) => Ok(pid),
            None => Err(PidError::NotANumber),
        }
    }
}

/// The path of the list of children of a process.
pub open spec fn children_file(pid: i32) -> Seq<u8> {
    proc_file(pid, "/task/".spec_bytes()) + signed_decimal(pid as int) + "/children".spec_bytes()
}

/// The text that bytes encode, by `String::from_utf8`: the decoded text where
/// the bytes are UTF-8, and nothing otherwise.
#[verifier::external_body]
fn utf8_text(bytes: Vec<u8>) -> (r: Option<String>)
    ensures
        match r {
            Some(text) => valid_utf8(bytes@) && text@ == decode_utf8(bytes@),
            None => !valid_utf8(bytes@),
        },
{
    String::from_utf8(bytes).ok()
}

fn is_space(c: char) -> (r: bool)
    ensures
        r == is_white_space(c),
{
    let u: u32 = c as u32;
    (0x09 <= u && u <= 0x0d) || u == 0x20 || u == 0x85 || u == 0xa0 || u == 0x1680 || (0x2000 <= u
        && u <= 0x200a) || u == 0x2028 || u == 0x2029 || u == 0x202f || u == 0x205f || u == 0x3000
}

/// The text without the white space around it.
fn trim(s: &str) -> (r: &str)
    ensures
        r@ == trim_end(trim_start(s@)),
{
    let n: usize = s.unicode_len();
    let mut from: usize = 0;
    assert(s@.skip(0) =~= s@);
    while from < n && is_space(s.get_char(from))
        invariant
            n == s@.len(),
            from <= n,
            trim_start(s@.skip(from as int)) == trim_start(s@),
        decreases n - from,
    {
        assert(s@.skip(from as int).skip(1) =~= s@.skip(from + 1));
        from += 1;
    }
    let mut to: usize = n;
    assert(trim_start(s@) == s@.skip(from as int));
    assert(s@.subrange(from as int, to as int) =~= s@.skip(from as int));
    while from < to && is_space(s.get_char(to - 1))
        invariant
            n == s@.len(),
            from <= to <= n,
            trim_end(s@.subrange(from as int, to as int)) == trim_end(trim_start(s@)),
        decreases to,
    {
        assert(s@.subrange(from as int, to as int).drop_last() =~= s@.subrange(
            from as int,
            to - 1,
        ));
        to -= 1;
    }
    s.substring_char(from, to)
}

/// The PID of the only child in a list of children.
pub fn get_child_pid(contents: Vec<u8>) -> (r: Result<i32, PidError>)
    ensures
        r == listed_pid(contents@),
{
    match utf8_text(contents) {
        None => Err(PidError::NotUtf8),
        Some(text) => {
            let trimmed = trim(text.as_str());
            match parse_i32(trimmed.as_bytes()) {
                Some(pid) => Ok(pid),
                None => Err(PidError::NotANumber),
            }
        },
    }
}

/// The path of the list of children of a process.
pub fn children_path(pid: i32) -> (r: Vec<u8>)
    ensures
        r@ == children_file(pid),
{
    let mut out = proc_path(pid, "/task/");
    push_signed_decimal(&mut out, pid);
    push_text(&mut out, "/children");
    out
}

/// Why a jailed process was not started.
#[derive(Debug)]
pub enum LaunchError<E> {
    /// An operation of the caller failed.
    Io(E),
    /// The process in the jail met this error of the system.
    Os(i32),
    /// The PID of the jailed process is not known.
    Pid(PidError),
}

/// What the caller does, between the steps of a launch.
#[derive(Debug)]
pub enum LaunchPhase<E> {
    /// It writes the file with this number.
    Writing(usize),
    /// It makes the process give up because of an error.
    GivingUp(E),
    /// It lets the process go on.
    Releasing,
    /// It waits for the answer of the process.
    AwaitingReply,
    /// It reads the list of children of the process.
    ReadingChildren,
    /// It is done.
    Ended,
}

/// What came of the last action of a launch.
#[derive(Debug)]
pub enum LaunchEvent<E> {
    /// It succeeded.
    Done,
    /// It failed.
    Failed(E),
    /// The answer of the process was read.
    Reply([u8; 4]),
    /// The file was read.
    Contents(Vec<u8>),
}

/// What the caller does next.
#[derive(Debug)]
pub enum LaunchAction<E> {
    /// It writes a file.
    WriteFile(FileWrite),
    /// It sends a byte to the process.
    SendByte(u8),
    /// It reads the answer of the process.
    ReadReply,
    /// It reads a file.
    ReadFile(Vec<u8>),
    /// The process was started.
    Finish(Child),
    /// The process was not started.
    Fail(LaunchError<E>),
}

/// What the caller does next, by contents.
pub enum LaunchActionView<E> {
    /// It writes a file.
    WriteFile((Seq<u8>, Seq<u8>)),
    /// It sends a byte to the process.
    SendByte(u8),
    /// It reads the answer of the process.
    ReadReply,
    /// It reads a file.
    ReadFile(Seq<u8>),
    /// The process was started.
    Finish(ChildView),
    /// The process was not started.
    Fail(LaunchError<E>),
}

impl<E> View for LaunchAction<E> {
    type V = LaunchActionView<E>;

    open spec fn view(&self) -> LaunchActionView<E> {
        match *self {
            LaunchAction::WriteFile(file) => LaunchActionView::WriteFile(file_view(file)),
            LaunchAction::SendByte(byte) => LaunchActionView::SendByte(byte),
            LaunchAction::ReadReply => LaunchActionView::ReadReply,
            LaunchAction::ReadFile(path) => LaunchActionView::ReadFile(path@),
            LaunchAction::Finish(child) => LaunchActionView::Finish(child@),
            LaunchAction::Fail(err) => LaunchActionView::Fail(err),
        }
    }
}

/// A launch of a jailed process, after the process was cloned.
#[derive(Debug)]
pub struct Launch<E> {
    pid: i32,
    order: ByteOrder,
    files: Vec<FileWrite>,
    phase: LaunchPhase<E>,
}

/// The contents of a [`Launch`].
pub struct LaunchView<E> {
    /// The host PID of the process that controls the jail.
    pub pid: i32,
    /// The byte order of its messages.
    pub order: ByteOrder,
    /// The files by which the IDs of the jail are set.
    pub files: Seq<(Seq<u8>, Seq<u8>)>,
    /// What the caller does.
    pub phase: LaunchPhase<E>,
}

impl<E> View for Launch<E> {
    type V = LaunchView<E>;

    closed spec fn view(&self) -> LaunchView<E> {
        LaunchView {
            pid: self.pid,
            order: self.order,
            files: file_views(self.files@),
            phase: self.phase,
        }
    }
}

impl<E> LaunchView<E> {
    /// Whether an event can follow the last action.
    pub open spec fn expects(self, event: LaunchEvent<E>) -> bool {
        match self.phase {
            LaunchPhase::Writing(i) => i < self.files.len() && (event is Done || event is Failed),
            LaunchPhase::GivingUp(_) => event is Done || event is Failed,
            LaunchPhase::Releasing => event is Done || event is Failed,
            LaunchPhase::AwaitingReply => event is Reply || event is Failed,
            LaunchPhase::ReadingChildren => event is Contents || event is Failed,
            LaunchPhase::Ended => false,
        }
    }

    /// The launch in a phase, with the action.
    pub open spec fn then_do(
        self,
        phase: LaunchPhase<E>,
        action: LaunchActionView<E>,
    ) -> (LaunchView<E>, LaunchActionView<E>) {
        (LaunchView { phase, ..self }, action)
    }

    /// The launch and the action once the first `n` files are written: the
    /// next file, or leave for the process to go on.
    pub open spec fn written(self, n: int) -> (LaunchView<E>, LaunchActionView<E>) {
        if n < self.files.len() {
            self.then_do(
                LaunchPhase::Writing(n as usize),
                LaunchActionView::WriteFile(self.files[n]),
            )
        } else {
            self.then_do(LaunchPhase::Releasing, LaunchActionView::SendByte(GO))
        }
    }

    /// The launch that failed.
    pub open spec fn failed(self, err: LaunchError<E>) -> (LaunchView<E>, LaunchActionView<E>) {
        self.then_do(LaunchPhase::Ended, LaunchActionView::Fail(err))
    }

    /// The launch and the action that follow an event. The last case is of
    /// events that are not expected, which do not occur.
    pub open spec fn next(self, event: LaunchEvent<E>) -> (LaunchView<E>, LaunchActionView<E>) {
        match (self.phase, event) {
            (LaunchPhase::Writing(i), LaunchEvent::Done) => self.written(i + 1),
            (LaunchPhase::Writing(_), LaunchEvent::Failed(err)) => self.then_do(
                LaunchPhase::GivingUp(err),
                LaunchActionView::SendByte(GIVE_UP),
            ),
            (LaunchPhase::GivingUp(err), _) => self.failed(LaunchError::Io(err)),
            (_, LaunchEvent::Failed(err)) => self.failed(LaunchError::Io(err)),
            (LaunchPhase::Releasing, _) => self.then_do(
                LaunchPhase::AwaitingReply,
                LaunchActionView::ReadReply,
            ),
            (_, LaunchEvent::Reply(reply)) => {
                let errno = big_endian_value(reply@);
                if errno != 0 {
                    self.failed(LaunchError::Os(errno))
                } else {
                    self.then_do(
                        LaunchPhase::ReadingChildren,
                        LaunchActionView::ReadFile(children_file(self.pid)),
                    )
                }
            },
            (_, LaunchEvent::Contents(contents)) => match listed_pid(contents@) {
                Ok(child_pid) => self.then_do(
                    LaunchPhase::Ended,
                    LaunchActionView::Finish(
                        ChildView {
                            pid: self.pid,
                            child_pid,
                            order: self.order,
                            partial: Seq::empty(),
                            status: Status::Running,
                        },
                    ),
                ),
                Err(err) => self.failed(LaunchError::Pid(err)),
            },
            _ => self.then_do(LaunchPhase::Ended, LaunchActionView::ReadReply),
        }
    }
}

impl<E> Launch<E> {
    /// Begins the launch of a command whose process was cloned.
    pub fn new(cmd: &Command, pid: i32, order: ByteOrder) -> (r: (Launch<E>, LaunchAction<E>))
        requires
            cmd@.maps_countable(),
        ensures
            r.0@.pid == pid,
            r.0@.order == order,
            r.0@.files == cmd@.id_files(pid),
            (r.0@, r.1@) == r.0@.written(0),
    {
        let files = cmd.write_ids_maps(pid);
        let launch = Launch { pid, order, files, phase: LaunchPhase::Ended };
        launch.after_writing(0)
    }

    fn after_writing(self, n: usize) -> (r: (Launch<E>, LaunchAction<E>))
        ensures
            (r.0@, r.1@) == self@.written(n as int),
    {
        let mut launch = self;
        if n < launch.files.len() {
            let file = FileWrite {
                path: copy(launch.files[n].path.as_slice()),
                contents: copy(launch.files[n].contents.as_slice()),
            };
            launch.phase = LaunchPhase::Writing(n);
            (launch, LaunchAction::WriteFile(file))
        } else {
            launch.phase = LaunchPhase::Releasing;
            (launch, LaunchAction::SendByte(GO))
        }
    }

    /// Takes the next step of the launch.
    pub fn step(self, event: LaunchEvent<E>) -> (r: (Launch<E>, LaunchAction<E>))
        requires
            self@.expects(event),
        ensures
            (r.0@, r.1@) == self@.next(event),
            r.1 matches LaunchAction::Finish(child) ==> child.wf(),
    {
        let Launch { pid, order, files, phase } = self;
        match (phase, event) {
            (LaunchPhase::Writing(i), LaunchEvent::Done) => {
                let count: usize = files.len();
                assert(i < count);
                let launch = Launch { pid, order, files, phase: LaunchPhase::Ended };
                launch.after_writing(i + 1)
            },
            (LaunchPhase::Writing(_), LaunchEvent::Failed(err)) => (
                Launch { pid, order, files, phase: LaunchPhase::GivingUp(err) },
                LaunchAction::SendByte(GIVE_UP),
            ),
            (LaunchPhase::GivingUp(err), _) => (
                Launch { pid, order, files, phase: LaunchPhase::Ended },
                LaunchAction::Fail(LaunchError::Io(err)),
            ),
            (_, LaunchEvent::Failed(err)) => (
                Launch { pid, order, files, phase: LaunchPhase::Ended },
                LaunchAction::Fail(LaunchError::Io(err)),
            ),
            (LaunchPhase::Releasing, _) => (
                Launch { pid, order, files, phase: LaunchPhase::AwaitingReply },
                LaunchAction::ReadReply,
            ),
            (_, LaunchEvent::Reply(reply)) => {
                let errno = from_be_bytes(reply);
                if errno != 0 {
                    (
                        Launch { pid, order, files, phase: LaunchPhase::Ended },
                        LaunchAction::Fail(LaunchError::Os(errno)),
                    )
                } else {
                    (
                        Launch { pid, order, files, phase: LaunchPhase::ReadingChildren },
                        LaunchAction::ReadFile(children_path(pid)),
                    )
                }
            },
            (_, LaunchEvent::Contents(contents)) => {
                let action = match get_child_pid(contents) {
                    Ok(child_pid) => LaunchAction::Finish(Child::new(pid, child_pid, order)),
                    Err(err) => LaunchAction::Fail(LaunchError::Pid(err)),
                };
                (Launch { pid, order, files, phase: LaunchPhase::Ended }, action)
            },
            _ => (
                Launch { pid, order, files, phase: LaunchPhase::Ended },
                LaunchAction::ReadReply,
            ),
        }
    }
}

/// A launch that has just begun and the action, after `n` writes succeeded.
pub open spec fn after_writes<E>(launch: LaunchView<E>, n: nat) -> (
    LaunchView<E>,
    LaunchActionView<E>,
)
    decreases n,
{
    if n == 0 {
        launch.written(0)
    } else {
        after_writes(launch, (n - 1) as nat).0.next(LaunchEvent::Done)
    }
}

/// As long as writing succeeds, the files are written one after the other,
/// each once and all of them, and then the process is let go on.
pub proof fn every_file_is_written_in_turn<E>(launch: LaunchView<E>, n: nat)
    requires
        n <= launch.files.len() <= usize::MAX,
    ensures
        n < launch.files.len() ==> after_writes(launch, n).1 == LaunchActionView::<E>::WriteFile(
            launch.files[n as int],
        ),
        n == launch.files.len() ==> after_writes(launch, n).1 == LaunchActionView::<E>::SendByte(
            GO,
        ),
        after_writes(launch, n) == launch.written(n as int),
    decreases n,
{
    if n > 0 {
        every_file_is_written_in_turn(launch, (n - 1) as nat);
    }
}

/// The process is let go on only after every file was written.
pub proof fn ids_are_set_before_the_process_goes_on<E>(
    launch: LaunchView<E>,
    event: LaunchEvent<E>,
)
    requires
        launch.expects(event),
        launch.next(event).1 == LaunchActionView::<E>::SendByte(GO),
    ensures
        launch.phase matches LaunchPhase::Writing(i) && i + 1 == launch.files.len(),
        event is Done,
{
}

/// Where a file could not be written, the process is made to give up, and
/// the launch fails with that error whether or not the process hears of it.
pub proof fn a_failed_write_fails_the_launch<E>(
    launch: LaunchView<E>,
    err: E,
    answer: LaunchEvent<E>,
)
    requires
        launch.phase is Writing,
        launch.expects(LaunchEvent::Failed(err)),
        answer is Done || answer is Failed,
    ensures
        launch.next(LaunchEvent::Failed(err)).1 == LaunchActionView::<E>::SendByte(GIVE_UP),
        launch.next(LaunchEvent::Failed(err)).0.expects(answer),
        launch.next(LaunchEvent::Failed(err)).0.next(answer).1 == LaunchActionView::Fail(
            LaunchError::Io(err),
        ),
{
}

/// An error of any operation after the files were written fails the launch
/// with that error.
pub proof fn a_failed_operation_fails_the_launch<E>(launch: LaunchView<E>, err: E)
    requires
        launch.expects(LaunchEvent::Failed(err)),
        launch.phase is Releasing || launch.phase is AwaitingReply
            || launch.phase is ReadingChildren,
    ensures
        launch.next(LaunchEvent::Failed(err)).1 == LaunchActionView::Fail(LaunchError::Io(err)),
{
}

/// The error number that the process in the jail answers with is the one
/// that the launch fails with, unless it is 0.
pub proof fn an_error_in_the_jail_fails_the_launch<E>(
    launch: LaunchView<E>,
    errno: i32,
    reply: [u8; 4],
)
    requires
        launch.phase is AwaitingReply,
        reply@ == big_endian(errno),
        errno != 0,
    ensures
        launch.next(LaunchEvent::Reply(reply)).1 == LaunchActionView::<E>::Fail(
            LaunchError::Os(errno),
        ),
{
    number_reads_back(ByteOrder::Big, errno);
}

/// The PID that a list of children holds with a blank after it, as the
/// system writes it, is read back.
pub proof fn a_listed_pid_is_read_back(pid: i32)
    ensures
        listed_pid(signed_decimal(pid as int) + " ".spec_bytes()) == Ok::<i32, PidError>(pid),
{
    signed_decimal_reads_back(pid);
    let digits = signed_decimal(pid as int);
    lemma_decimal_is_ascii(pid);
    reveal_strlit(" ");
    assert(" ".is_ascii());
    let contents = digits + " ".spec_bytes();
    let chars = Seq::new(contents.len(), |i: int| contents[i] as char);
    let kept = Seq::new(digits.len(), |i: int| digits[i] as char);
    assert(" ".spec_bytes() =~= seq![0x20u8]);
    is_ascii_chars_encode_utf8(chars);
    is_ascii_chars_encode_utf8(kept);
    assert(encode_utf8(chars) =~= contents);
    assert(encode_utf8(kept) =~= digits);
    encode_utf8_valid_utf8(chars);
    encode_utf8_decode_utf8(chars);
    assert(digits.len() >= 1);
    assert(!is_white_space(chars[0]));
    assert(trim_start(chars) == chars);
    assert(is_white_space(chars.last()));
    assert(chars.drop_last() =~= kept);
    assert(!is_white_space(kept.last()));
    assert(trim_end(kept) == kept);
}

proof fn lemma_decimal_is_ascii(pid: i32)
    ensures
        signed_decimal(pid as int).len() >= 1,
        forall|i: int|
            0 <= i < signed_decimal(pid as int).len() ==> 0x2d <= #[trigger] signed_decimal(
                pid as int,
            )[i] <= 0x39,
{
    let m: nat = if pid < 0 {
        (-pid) as nat
    } else {
        pid as nat
    };
    decimal_denotes(m);
    let d = decimal(m);
    assert forall|i: int| 0 <= i < signed_decimal(pid as int).len() implies 0x2d
        <= #[trigger] signed_decimal(pid as int)[i] <= 0x39 by {
        if pid < 0 {
            if i > 0 {
                assert(signed_decimal(pid as int)[i] == d[i - 1]);
                assert(is_digit(d[i - 1]));
            }
        } else {
            assert(is_digit(d[i]));
        }
    }
}

/// A launch is that of one process from its beginning to its end: the process,
/// the byte order of its messages and its files stay the same.
pub proof fn a_launch_is_of_one_process<E>(launch: LaunchView<E>, event: LaunchEvent<E>)
    requires
        launch.expects(event),
    ensures
        launch.next(event).0.pid == launch.pid,
        launch.next(event).0.order == launch.order,
        launch.next(event).0.files == launch.files,
{
}

/// The steps of a launch once the files are written: the process is let go
/// on, and then its answer is read. An answer of four zeros leads to the list
/// of its children, any other fails the launch with the number that its bytes
/// make, the most significant first.
pub proof fn a_launch_goes_by_its_answer<E>(launch: LaunchView<E>, reply: [u8; 4])
    ensures
        launch.phase is Releasing ==> {
            let (next, action) = launch.next(LaunchEvent::Done);
            next.phase is AwaitingReply && action is ReadReply
        },
        launch.phase is AwaitingReply ==> {
            let (next, action) = launch.next(LaunchEvent::Reply(reply));
            let weight = reply[0] * 0x100_0000 + reply[1] * 0x1_0000 + reply[2] * 0x100 + reply[3];
            let pid = signed_decimal(launch.pid as int);
            &&& weight == 0 ==> {
                &&& next.phase is ReadingChildren
                &&& action matches LaunchActionView::ReadFile(path)
                &&& path == "/proc/".spec_bytes() + pid + "/task/".spec_bytes() + pid
                    + "/children".spec_bytes()
            }
            &&& weight != 0 ==> {
                &&& next.phase is Ended
                &&& action matches LaunchActionView::Fail(LaunchError::Os(errno))
                &&& errno == if weight < 0x8000_0000 {
                    weight
                } else {
                    weight - 0x1_0000_0000
                }
            }
        },
{
    if launch.phase is AwaitingReply {
        let pid = signed_decimal(launch.pid as int);
        assert(children_file(launch.pid) =~= "/proc/".spec_bytes() + pid + "/task/".spec_bytes()
            + pid + "/children".spec_bytes());
    }
}

/// The handle that a launch ends with is that of its own process, with its
/// own byte order, and of the only child of that process. Nothing has been
/// heard of it yet. Where the list of children is no such PID, the launch
/// fails.
pub proof fn a_launch_ends_with_its_child<E>(launch: LaunchView<E>, contents: Vec<u8>)
    requires
        launch.phase is ReadingChildren,
    ensures
        match launch.next(LaunchEvent::Contents(contents)).1 {
            LaunchActionView::Finish(child) => {
                &&& child.pid == launch.pid
                &&& child.order == launch.order
                &&& listed_pid(contents@) == Ok::<_, PidError>(child.child_pid)
                &&& child.partial.len() == 0
                &&& child.status is Running
            },
            LaunchActionView::Fail(LaunchError::Pid(err)) => listed_pid(contents@) == Err::<
                i32,
                _,
            >(err),
            _ => false,
        },
{
}

/// From end to end: where a launch gives a handle, the message that the
/// monitor sends of the end of the command, in the byte order of the launch,
/// is that end to the handle: the code with which the command exited, or the
/// signal that killed it.
pub proof fn the_end_is_heard_by_the_child_of_the_launch<E>(
    launch: LaunchView<E>,
    contents: Vec<u8>,
    report: WaitReport,
    data: Vec<u8>,
)
    requires
        launch.phase is ReadingChildren,
        expected(MonitorState::Waiting, MonitorEvent::Waited(report)),
        report.code is Some || report.signal is Some,
        monitor_next(launch.order, MonitorState::Waiting, MonitorEvent::Waited(report)).1
            == ActionView::Send(data@),
    ensures
        launch.next(LaunchEvent::Contents(contents)).1 matches LaunchActionView::Finish(child) ==> {
            let (after, poll) = child.poll(Some(ReadOutcome::<E>::Data(data)));
            let end = match report.code {
                Some(code) => Status::Exited(code),
                None => Status::Signaled(report.signal.unwrap(), report.core_dumped),
            };
            &&& poll == EventPoll::<E>::Ready(end)
            &&& after.status == end
            &&& after.pid == launch.pid
        },
{
    a_launch_ends_with_its_child(launch, contents);
    if let LaunchActionView::Finish(child) = launch.next(LaunchEvent::Contents(contents)).1 {
        reports_reach_the_caller::<E>(child, report);
        let end = match report.code {
            Some(code) => Status::Exited(code),
            None => Status::Signaled(report.signal.unwrap(), report.core_dumped),
        };
        messages_are_events::<E>(child, end, 0, seq![6u8, 0, 0, 0, 0]);
    }
}

/// White space around a text does not count, and nothing else is dropped.
pub proof fn only_white_space_around_is_dropped(
    before: Seq<char>,
    text: Seq<char>,
    after: Seq<char>,
)
    requires
        forall|i: int| 0 <= i < before.len() ==> is_white_space(#[trigger] before[i]),
        forall|i: int| 0 <= i < after.len() ==> is_white_space(#[trigger] after[i]),
        text.len() > 0,
        !is_white_space(text[0]),
        !is_white_space(text.last()),
    ensures
        trim_end(trim_start(before + text + after)) == text,
    decreases before.len() + after.len(),
{
    let all = before + text + after;
    if before.len() > 0 {
        assert(all[0] == before[0]);
        assert(all.skip(1) =~= before.skip(1) + text + after);
        assert forall|i: int| 0 <= i < before.skip(1).len() implies is_white_space(
            #[trigger] before.skip(1)[i],
        ) by {
            assert(before.skip(1)[i] == before[i + 1]);
        }
        only_white_space_around_is_dropped(before.skip(1), text, after);
    } else {
        assert(all =~= text + after);
        assert(all[0] == text[0]);
        if after.len() > 0 {
            assert(all.last() == after.last());
            assert(is_white_space(after[after.len() - 1]));
            assert(all.drop_last() =~= before + text + after.drop_last());
            assert forall|i: int| 0 <= i < after.drop_last().len() implies is_white_space(
                #[trigger] after.drop_last()[i],
            ) by {
                assert(after.drop_last()[i] == after[i]);
            }
            only_white_space_around_is_dropped(before, text, after.drop_last());
            assert(all.drop_last()[0] == text[0]);
        } else {
            assert(all =~= text);
        }
    }
}

/// No character above U+3000 is white space.
pub proof fn white_space_is_below(c: char)
    ensures
        is_white_space(c) ==> c as u32 <= 0x3000,
{
}

/// The list of children is the text of one number with white space around it
/// and nothing else, in UTF-8.
pub proof fn a_list_of_children_is_one_number(
    before: Seq<char>,
    text: Seq<char>,
    after: Seq<char>,
    contents: Seq<u8>,
)
    requires
        forall|i: int| 0 <= i < before.len() ==> is_white_space(#[trigger] before[i]),
        forall|i: int| 0 <= i < after.len() ==> is_white_space(#[trigger] after[i]),
        text.len() > 0,
        !is_white_space(text[0]),
        !is_white_space(text.last()),
    ensures
        match listed_pid(encode_utf8(before + text + after)) {
            Ok(pid) => as_i32(encode_utf8(text)) == Some(pid),
            Err(err) => err is NotANumber && as_i32(encode_utf8(text)) is None,
        },
        listed_pid(encode_utf8(before)) matches Err(err) && err is NotANumber,
        !valid_utf8(contents) ==> (listed_pid(contents) matches Err(err) && err is NotUtf8),
{
    let all = before + text + after;
    only_white_space_around_is_dropped(before, text, after);
    encode_utf8_valid_utf8(all);
    encode_utf8_decode_utf8(all);
    encode_utf8_valid_utf8(before);
    encode_utf8_decode_utf8(before);
    lemma_blank(before);
    let none = Seq::<char>::empty();
    assert(trim_end(none) == none);
    assert(encode_utf8(none) =~= Seq::<u8>::empty());
    signed_numbers_are_read_strictly(Seq::empty(), 0, 0);
}

proof fn lemma_blank(s: Seq<char>)
    requires
        forall|i: int| 0 <= i < s.len() ==> is_white_space(#[trigger] s[i]),
    ensures
        trim_start(s) == Seq::<char>::empty(),
    decreases s.len(),
{
    if s.len() == 0 {
        assert(s =~= Seq::empty());
    } else {
        assert(is_white_space(s[0]));
        assert forall|i: int| 0 <= i < s.skip(1).len() implies is_white_space(
            #[trigger] s.skip(1)[i],
        ) by {
            assert(s.skip(1)[i] == s[i + 1]);
        }
        lemma_blank(s.skip(1));
    }
}

/// The actions of a launch are seen as they are.
pub proof fn launch_actions_are_seen_whole<E>(action: LaunchAction<E>)
    ensures
        match action {
            LaunchAction::WriteFile(file) => action@ == LaunchActionView::<E>::WriteFile(
                (file.path@, file.contents@),
            ),
            LaunchAction::SendByte(byte) => action@ == LaunchActionView::<E>::SendByte(byte),
            LaunchAction::ReadReply => action@ is ReadReply,
            LaunchAction::ReadFile(path) => action@ == LaunchActionView::<E>::ReadFile(path@),
            LaunchAction::Finish(child) => action@ == LaunchActionView::<E>::Finish(child@),
            LaunchAction::Fail(err) => action@ == LaunchActionView::Fail(err),
        },
{
}

} // verus!
