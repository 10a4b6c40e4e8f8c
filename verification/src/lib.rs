//! Linux namespace jailing.
//!
//! A [`Command`] describes a process that runs isolated by Linux namespaces,
//! with an interface similar to that of `std::process::Command`. The library
//! holds what is decided and computed on the way from the description to the
//! end of the process; whoever drives it performs the system calls it asks
//! for and hands back what came of them:
//!
//! * [`launch`] starts a process in its jail, from outside;
//! * [`jailed`] is the other side: what the new process does, up to the start
//!   of the command;
//! * [`root`] lists the steps by which the jail gets its root filesystem;
//! * [`monitor`] watches over the command and reports its changes, and
//!   [`child`] turns these reports into events;
//! * [`wire`] is the format of the reports;
//! * [`cli`] reads the command line of a program that runs a command in a
//!   jail.
//!
//! Paths, arguments and variables are byte strings.
pub mod bytes;
pub mod child;
pub mod cli;
pub mod command;
pub mod decimal;
pub mod environ;
pub mod id_range;
pub mod jailed;
pub mod launch;
pub mod monitor;
pub mod namespace;
pub mod options;
pub mod path;
pub mod root;
pub mod stdio;
pub mod usage;
pub mod wire;

pub use child::{Child, ExitStatus, Output, Status};
pub use command::Command;
pub use id_range::{Gid, GidRange, Id, IdRange, Uid, UidRange};
pub use namespace::Namespace;
pub use stdio::Stdio;
