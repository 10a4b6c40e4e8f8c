//! What can be wrong with a command line, and how that is said.
use crate::bytes::{push_bytes, push_text};
use crate::options::Opt;
use vstd::prelude::*;
use vstd::string::*;

verus! {

/// Whose IDs are mapped.
#[derive(Debug, Clone, Copy, PartialEq, Eq, Structural)]
pub enum IdKind {
    /// Those of users.
    User,
    /// Those of groups.
    Group,
}

/// What is wrong with a mapping of IDs.
#[derive(Debug, Clone, Copy, PartialEq, Eq, Structural)]
pub enum MapFault {
    /// There is no `:` between the host ID and the jail ID.
    NoSeparator,
    /// An ID is not a number.
    NotAnId,
    /// The length of the range is not a number.
    NotALength,
    /// The host range does not end within the IDs.
    HostRange,
    /// The jail range does not end within the IDs.
    JailRange,
}

/// What is wrong with a command line.
#[derive(Debug, Clone, Copy, PartialEq, Eq, Structural)]
pub enum UsageKind {
    /// There is no command.
    MissingCommand,
    /// There is no command after `--`.
    MissingCommandAfterSeparator,
    /// There is no value after an option.
    MissingValue(Opt),
    /// There is no such option.
    UnexpectedOption,
    /// A mapping of IDs is not valid.
    Mapping(IdKind, MapFault),
    /// There is no such namespace.
    UnknownNamespace,
    /// There is no `=` between a variable and its value.
    NoEquals,
}

/// An error of a command line.
#[derive(Debug)]
pub struct UsageError {
    /// What is wrong.
    pub kind: UsageKind,
    /// The argument that is wrong, or the part of it that is.
    pub arg: Vec<u8>,
}

impl View for UsageError {
    type V = (UsageKind, Seq<u8>);

    open spec fn view(&self) -> (UsageKind, Seq<u8>) {
        (self.kind, self.arg@)
    }
}

/// The words for the IDs of users or groups.
pub open spec fn id_label(kind: IdKind) -> Seq<u8> {
    match kind {
        IdKind::User => "UID".spec_bytes(),
        IdKind::Group => "GID".spec_bytes(),
    }
}

/// What an option expects to be followed by.
pub open spec fn expected_after(opt: Opt) -> Seq<u8> {
    match opt {
        Opt::Help | Opt::WritableRootfs | Opt::Rootfs | Opt::CurrentDir => "path".spec_bytes(),
        Opt::BindMount
        | Opt::RoBindMount
        | Opt::DevfsMount
        | Opt::ProcfsMount
        | Opt::SysfsMount
        | Opt::TmpfsMount => "path or a pair of paths".spec_bytes(),
        Opt::UidMap => "UID range mapping".spec_bytes(),
        Opt::GidMap => "GID range mapping".spec_bytes(),
        Opt::Unshare => "one of 'cgroup', 'uts', 'ipc', 'pid', or 'net'".spec_bytes(),
        Opt::Env => "an environment variable".spec_bytes(),
    }
}

/// What is said of a mapping that is not valid, up to the quoted mapping.
pub open spec fn mapping_complaint(kind: IdKind, fault: MapFault) -> Seq<u8> {
    let id = id_label(kind);
    let mapping = " in ".spec_bytes() + id + " mapping '".spec_bytes();
    match fault {
        MapFault::NoSeparator => "Expected ':' separating host and jail ".spec_bytes() + id
            + "s".spec_bytes() + mapping,
        MapFault::NotAnId => "Expected ".spec_bytes() + id + mapping,
        MapFault::NotALength => "Expected ".spec_bytes() + id + " range length".spec_bytes()
            + mapping,
        MapFault::HostRange => "Invalid host ".spec_bytes() + id + " range in '".spec_bytes(),
        MapFault::JailRange => "Invalid jail ".spec_bytes() + id + " range in '".spec_bytes(),
    }
}

/// What is said of a command line that is not valid.
pub open spec fn complaint(kind: UsageKind, arg: Seq<u8>) -> Seq<u8> {
    match kind {
        UsageKind::MissingCommand => "Expected command to execute inside of jail".spec_bytes(),
        UsageKind::MissingCommandAfterSeparator =>
            "Expected a command to run in the jail".spec_bytes(),
        UsageKind::MissingValue(opt) => "Expected ".spec_bytes() + expected_after(opt)
            + " following '".spec_bytes() + arg + "' flag".spec_bytes(),
        UsageKind::UnexpectedOption => "Unexpected option '".spec_bytes() + arg
            + "'".spec_bytes(),
        UsageKind::Mapping(ids, fault) => mapping_complaint(ids, fault) + arg + "'".spec_bytes(),
        UsageKind::UnknownNamespace =>
            "Expected one of 'cgroup', 'uts', 'ipc', 'pid', 'net', or 'all' instead of '".spec_bytes()
            + arg + "'".spec_bytes(),
        UsageKind::NoEquals => "Expected '=' to set environment variable value in '".spec_bytes()
            + arg + "'".spec_bytes(),
    }
}

fn expected_text(opt: Opt) -> (r: &'static str)
    ensures
        r.spec_bytes() == expected_after(opt),
{
    match opt {
        Opt::Help | Opt::WritableRootfs | Opt::Rootfs | Opt::CurrentDir => "path",
        Opt::BindMount
        | Opt::RoBindMount
        | Opt::DevfsMount
        | Opt::ProcfsMount
        | Opt::SysfsMount
        | Opt::TmpfsMount => "path or a pair of paths",
        Opt::UidMap => "UID range mapping",
        Opt::GidMap => "GID range mapping",
        Opt::Unshare => "one of 'cgroup', 'uts', 'ipc', 'pid', or 'net'",
        Opt::Env => "an environment variable",
    }
}

/// Appends what is said of a mapping that is not valid.
fn push_mapping_complaint(out: &mut Vec<u8>, kind: IdKind, fault: MapFault)
    ensures
        final(out)@ == old(out)@ + mapping_complaint(kind, fault),
{
    let id: &str = match kind {
        IdKind::User => "UID",
        IdKind::Group => "GID",
    };
    match fault {
        MapFault::NoSeparator => {
            push_text(out, "Expected ':' separating host and jail ");
            push_text(out, id);
            push_text(out, "s");
        },
        MapFault::NotAnId => {
            push_text(out, "Expected ");
            push_text(out, id);
        },
        MapFault::NotALength => {
            push_text(out, "Expected ");
            push_text(out, id);
            push_text(out, " range length");
        },
        MapFault::HostRange => {
            push_text(out, "Invalid host ");
        },
        MapFault::JailRange => {
            push_text(out, "Invalid jail ");
        },
    }
    match fault {
        MapFault::HostRange | MapFault::JailRange => {
            push_text(out, id);
            push_text(out, " range in '");
        },
        _ => {
            push_text(out, " in ");
            push_text(out, id);
            push_text(out, " mapping '");
        },
    }
    assert(out@ =~= old(out)@ + mapping_complaint(kind, fault));
}

impl UsageError {
    /// What is wrong, in words.
    pub fn message(&self) -> (r: Vec<u8>)
        ensures
            r@ == complaint(self.kind, self.arg@),
    {
        let mut out: Vec<u8> = Vec::new();
        match self.kind {
            UsageKind::MissingCommand => {
                push_text(&mut out, "Expected command to execute inside of jail");
            },
            UsageKind::MissingCommandAfterSeparator => {
                push_text(&mut out, "Expected a command to run in the jail");
            },
            UsageKind::MissingValue(opt) => {
                push_text(&mut out, "Expected ");
                push_text(&mut out, expected_text(opt));
                push_text(&mut out, " following '");
                push_bytes(&mut out, self.arg.as_slice());
                push_text(&mut out, "' flag");
            },
            UsageKind::UnexpectedOption => {
                push_text(&mut out, "Unexpected option '");
                push_bytes(&mut out, self.arg.as_slice());
                push_text(&mut out, "'");
            },
            UsageKind::Mapping(ids, fault) => {
                push_mapping_complaint(&mut out, ids, fault);
                push_bytes(&mut out, self.arg.as_slice());
                push_text(&mut out, "'");
            },
            UsageKind::UnknownNamespace => {
                push_text(
                    &mut out,
                    "Expected one of 'cgroup', 'uts', 'ipc', 'pid', 'net', or 'all' instead of '",
                );
                push_bytes(&mut out, self.arg.as_slice());
                push_text(&mut out, "'");
            },
            UsageKind::NoEquals => {
                push_text(&mut out, "Expected '=' to set environment variable value in '");
                push_bytes(&mut out, self.arg.as_slice());
                push_text(&mut out, "'");
            },
        }
        assert(out@ =~= complaint(self.kind, self.arg@));
        out
    }
}

/// Whether what is said quotes the argument, whole and as it is, between the
/// same words whatever the argument.
pub open spec fn quotes_argument(kind: UsageKind, before: Seq<u8>, after: Seq<u8>) -> bool {
    &&& before.len() > 0 && before.last() == 0x27
    &&& after.len() > 0 && after[0] == 0x27
    &&& forall|arg: Seq<u8>| #[trigger] complaint(kind, arg) == before + arg + after
}

/// What is said of a command line quotes what is wrong with it, unless it is
/// the command that is missing: then nothing is quoted.
pub proof fn complaints_quote_what_is_wrong(kind: UsageKind)
    ensures
        if kind is MissingCommand || kind is MissingCommandAfterSeparator {
            forall|a: Seq<u8>, b: Seq<u8>| #[trigger]
                complaint(kind, a) == #[trigger] complaint(kind, b)
        } else {
            exists|before: Seq<u8>, after: Seq<u8>| quotes_argument(kind, before, after)
        },
{
    lemma_quotes();
    let quote = "'".spec_bytes();
    match kind {
        UsageKind::MissingCommand | UsageKind::MissingCommandAfterSeparator => {},
        UsageKind::MissingValue(opt) => {
            let before = "Expected ".spec_bytes() + expected_after(opt)
                + " following '".spec_bytes();
            assert forall|arg: Seq<u8>| #[trigger] complaint(kind, arg) == before + arg
                + "' flag".spec_bytes() by {}
            assert(before.last() == " following '".spec_bytes().last());
            assert(quotes_argument(kind, before, "' flag".spec_bytes()));
        },
        UsageKind::UnexpectedOption => {
            assert(quotes_argument(kind, "Unexpected option '".spec_bytes(), quote));
        },
        UsageKind::Mapping(ids, fault) => {
            let before = mapping_complaint(ids, fault);
            assert(before.last() == 0x27);
            assert(quotes_argument(kind, before, quote));
        },
        UsageKind::UnknownNamespace => {
            assert(quotes_argument(
                kind,
                "Expected one of 'cgroup', 'uts', 'ipc', 'pid', 'net', or 'all' instead of '".spec_bytes(),
                quote,
            ));
        },
        UsageKind::NoEquals => {
            assert(quotes_argument(
                kind,
                "Expected '=' to set environment variable value in '".spec_bytes(),
                quote,
            ));
        },
    }
}

proof fn lemma_quotes()
    ensures
        "'".spec_bytes() == seq![0x27u8],
        "' flag".spec_bytes()[0] == 0x27,
        "' flag".spec_bytes().len() > 0,
        " following '".spec_bytes().len() > 0,
        " following '".spec_bytes().last() == 0x27,
        "Unexpected option '".spec_bytes().len() > 0,
        "Unexpected option '".spec_bytes().last() == 0x27,
        " mapping '".spec_bytes().len() > 0,
        " mapping '".spec_bytes().last() == 0x27,
        " range in '".spec_bytes().len() > 0,
        " range in '".spec_bytes().last() == 0x27,
        "Expected one of 'cgroup', 'uts', 'ipc', 'pid', 'net', or 'all' instead of '".spec_bytes().len()
            > 0,
        "Expected one of 'cgroup', 'uts', 'ipc', 'pid', 'net', or 'all' instead of '".spec_bytes().last()
            == 0x27,
        "Expected '=' to set environment variable value in '".spec_bytes().len() > 0,
        "Expected '=' to set environment variable value in '".spec_bytes().last() == 0x27,
{
    reveal_strlit("'");
    reveal_strlit("' flag");
    reveal_strlit(" following '");
    reveal_strlit("Unexpected option '");
    reveal_strlit(" mapping '");
    reveal_strlit(" range in '");
    reveal_strlit("Expected one of 'cgroup', 'uts', 'ipc', 'pid', 'net', or 'all' instead of '");
    reveal_strlit("Expected '=' to set environment variable value in '");
    assert("'".is_ascii());
    assert("' flag".is_ascii());
    assert(" following '".is_ascii());
    assert("Unexpected option '".is_ascii());
    assert(" mapping '".is_ascii());
    assert(" range in '".is_ascii());
    assert(
    "Expected one of 'cgroup', 'uts', 'ipc', 'pid', 'net', or 'all' instead of '".is_ascii());
    assert("Expected '=' to set environment variable value in '".is_ascii());
    assert("'".spec_bytes() =~= seq![0x27u8]);
}

/// Faults in mappings of users and of groups are said in the same words, but
/// for `UID` where the other has `GID`.
pub proof fn users_and_groups_are_told_apart(fault: MapFault)
    ensures
        ({
            let users = mapping_complaint(IdKind::User, fault);
            let groups = mapping_complaint(IdKind::Group, fault);
            &&& users.len() == groups.len()
            &&& users != groups
            &&& forall|i: int|
                0 <= i < users.len() ==> #[trigger] users[i] == groups[i] || users[i] == 0x55
                    && groups[i] == 0x47
        }),
{
    reveal_strlit("UID");
    reveal_strlit("GID");
    assert("UID".is_ascii());
    assert("GID".is_ascii());
    let u = "UID".spec_bytes();
    let g = "GID".spec_bytes();
    assert(u =~= seq![0x55u8, 0x49, 0x44]);
    assert(g =~= seq![0x47u8, 0x49, 0x44]);
    let users = mapping_complaint(IdKind::User, fault);
    let groups = mapping_complaint(IdKind::Group, fault);
    let at: int = match fault {
        MapFault::NoSeparator => "Expected ':' separating host and jail ".spec_bytes().len() as int,
        MapFault::NotAnId => "Expected ".spec_bytes().len() as int,
        MapFault::NotALength => "Expected ".spec_bytes().len() as int,
        MapFault::HostRange => "Invalid host ".spec_bytes().len() as int,
        MapFault::JailRange => "Invalid jail ".spec_bytes().len() as int,
    };
    assert(users[at] == 0x55);
    assert(groups[at] == 0x47);
}

} // verus!
