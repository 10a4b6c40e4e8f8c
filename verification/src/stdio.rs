//! Where the standard streams of a jailed process lead.
use vstd::prelude::*;

verus! {

/// One of the standard streams of a process.
#[derive(Debug, Clone, Copy, PartialEq, Eq, Structural)]
pub enum Stream {
    /// Standard input.
    Stdin,
    /// Standard output.
    Stdout,
    /// Standard error.
    Stderr,
}

/// An object representing the redirection of stdio for a jailed process.
#[derive(Debug)]
pub struct Stdio {
    /// The redirection.
    pub inner: StdioInner,
}

/// The redirection of a stream. File descriptors are given by their numbers.
#[derive(Debug, Clone, Copy, PartialEq, Eq, Structural)]
pub enum StdioInner {
    /// The stream of the parent is shared.
    Inherit,
    /// The stream leads to a pipe whose other end the caller holds.
    Pipe,
    /// The stream leads to `/dev/null`.
    Null,
    /// The stream leads to a file.
    Fd(i32),
    /// The stream leads to the writing end of a pipe of the caller.
    TxPipe(i32),
    /// The stream leads to the reading end of a pipe of the caller.
    RxPipe(i32),
}

/// What a stream of the jailed process is set to when it starts.
#[derive(Debug, Clone, Copy, PartialEq, Eq, Structural)]
pub enum StdioTarget {
    /// The end of the pipe that was made for the stream.
    Pipe,
    /// The stream of the parent.
    Inherit,
    /// `/dev/null`.
    Null,
    /// A file.
    Fd(i32),
    /// An end of a pipe of the caller, which is made to block first.
    BlockingFd(i32),
}

/// What a stream is set to that has no pipe of its own.
pub open spec fn target_of(inner: StdioInner) -> StdioTarget {
    match inner {
        StdioInner::Null => StdioTarget::Null,
        StdioInner::Pipe => StdioTarget::Null,
        StdioInner::Inherit => StdioTarget::Inherit,
        StdioInner::Fd(fd) => StdioTarget::Fd(fd),
        StdioInner::RxPipe(fd) => StdioTarget::BlockingFd(fd),
        StdioInner::TxPipe(fd) => StdioTarget::BlockingFd(fd),
    }
}

impl Stdio {
    /// Constructs a [`Stdio`] that will cause a jailed process to inherit stdio from the parent.
    ///
    /// In this case, stdio will not be redirected at all and the jailed process will share
    /// `stdin`, `stdout`, or `stderr`, respectively, with the parent process.
    pub fn inherit() -> (r: Stdio)
        ensures
            r.inner == StdioInner::Inherit,
    {
        Stdio { inner: StdioInner::Inherit }
    }

    /// Constructs a [`Stdio`] that will cause a jailed process redirect stdio to a pipe.
    ///
    /// In this case, stdio of the jailed process will become available to the caller.
    pub fn piped() -> (r: Stdio)
        ensures
            r.inner == StdioInner::Pipe,
    {
        Stdio { inner: StdioInner::Pipe }
    }

    /// Constructs a [`Stdio`] that will cause a jailed process to drop stdio input or output.
    ///
    /// In this case, stdio of the jailed process will become no-ops. The stream is effectively
    /// redirected to `/dev/null`.
    pub fn null() -> (r: Stdio)
        ensures
            r.inner == StdioInner::Null,
    {
        Stdio { inner: StdioInner::Null }
    }

    /// What the stream is set to, where it has no pipe of its own.
    pub fn into_stdio(&self) -> (r: StdioTarget)
        ensures
            r == target_of(self.inner),
    {
        match self.inner {
            StdioInner::Null | StdioInner::Pipe => StdioTarget::Null,
            StdioInner::Inherit => StdioTarget::Inherit,
            StdioInner::Fd(fd) => StdioTarget::Fd(fd),
            StdioInner::RxPipe(fd) => StdioTarget::BlockingFd(fd),
            StdioInner::TxPipe(fd) => StdioTarget::BlockingFd(fd),
        }
    }
}

} // verus!
