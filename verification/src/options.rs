//! The options of the command line.
use crate::bytes::{
    a_beginning_is_followed_by_the_rest, begins_with, has_prefix, opt_view, same, skip, DASH, EQUALS,
};
use vstd::prelude::*;
use vstd::string::*;

verus! {

/// The options of the program.
#[derive(Debug, Clone, Copy, PartialEq, Eq, Structural)]
pub enum Opt {
    /// Print the help.
    Help,
    /// Set the root filesystem.
    Rootfs,
    /// Make the root filesystem writable.
    WritableRootfs,
    /// Mount a directory that can be written to.
    BindMount,
    /// Mount a directory that can only be read.
    RoBindMount,
    /// Mount the common devices.
    DevfsMount,
    /// Mount a procfs.
    ProcfsMount,
    /// Mount a sysfs.
    SysfsMount,
    /// Mount a tmpfs.
    TmpfsMount,
    /// Map user IDs.
    UidMap,
    /// Map group IDs.
    GidMap,
    /// Unshare namespaces.
    Unshare,
    /// Define an environment variable.
    Env,
    /// Set the current directory.
    CurrentDir,
}

/// All options.
pub open spec fn options() -> Seq<Opt> {
    seq![
        Opt::Help,
        Opt::Rootfs,
        Opt::WritableRootfs,
        Opt::BindMount,
        Opt::RoBindMount,
        Opt::DevfsMount,
        Opt::ProcfsMount,
        Opt::SysfsMount,
        Opt::TmpfsMount,
        Opt::UidMap,
        Opt::GidMap,
        Opt::Unshare,
        Opt::Env,
        Opt::CurrentDir,
    ]
}

/// The short name of an option.
pub open spec fn short(opt: Opt) -> Seq<u8> {
    match opt {
        Opt::Help => "-h".spec_bytes(),
        Opt::Rootfs => "-R".spec_bytes(),
        Opt::WritableRootfs => "-w".spec_bytes(),
        Opt::BindMount => "-m".spec_bytes(),
        Opt::RoBindMount => "-r".spec_bytes(),
        Opt::DevfsMount => "-d".spec_bytes(),
        Opt::ProcfsMount => "-p".spec_bytes(),
        Opt::SysfsMount => "-s".spec_bytes(),
        Opt::TmpfsMount => "-t".spec_bytes(),
        Opt::UidMap => "-u".spec_bytes(),
        Opt::GidMap => "-g".spec_bytes(),
        Opt::Unshare => "-U".spec_bytes(),
        Opt::Env => "-e".spec_bytes(),
        Opt::CurrentDir => "-c".spec_bytes(),
    }
}

/// The long name of an option.
pub open spec fn long(opt: Opt) -> Seq<u8> {
    match opt {
        Opt::Help => "--help".spec_bytes(),
        Opt::Rootfs => "--rootfs".spec_bytes(),
        Opt::WritableRootfs => "--writable-rootfs".spec_bytes(),
        Opt::BindMount => "--bind-mount".spec_bytes(),
        Opt::RoBindMount => "--ro-bind-mount".spec_bytes(),
        Opt::DevfsMount => "--devfs-mount".spec_bytes(),
        Opt::ProcfsMount => "--procfs-mount".spec_bytes(),
        Opt::SysfsMount => "--sysfs-mount".spec_bytes(),
        Opt::TmpfsMount => "--tmpfs-mount".spec_bytes(),
        Opt::UidMap => "--uid-map".spec_bytes(),
        Opt::GidMap => "--gid-map".spec_bytes(),
        Opt::Unshare => "--unshare".spec_bytes(),
        Opt::Env => "--env".spec_bytes(),
        Opt::CurrentDir => "--current-dir".spec_bytes(),
    }
}

/// Whether an option has a value.
pub open spec fn takes_value(opt: Opt) -> bool {
    opt != Opt::Help && opt != Opt::WritableRootfs
}

/// How an argument gives an option: by its name alone, or with the value
/// after the short name, or after the long name and `=`.
pub open spec fn given(opt: Opt, arg: Seq<u8>) -> Option<Option<Seq<u8>>> {
    let name = long(opt);
    if arg == short(opt) || arg == name {
        Some(None)
    } else if takes_value(opt) && begins_with(arg, short(opt)) {
        Some(Some(arg.skip(short(opt).len() as int)))
    } else if takes_value(opt) && begins_with(arg, name) && arg.len() > name.len() && arg[
        name.len() as int] == EQUALS {
        Some(Some(arg.skip(name.len() as int + 1)))
    } else {
        None
    }
}

/// The first of the options that an argument gives.
pub open spec fn find_option(opts: Seq<Opt>, arg: Seq<u8>) -> Option<(Opt, Option<Seq<u8>>)>
    decreases opts.len(),
{
    if opts.len() == 0 {
        None
    } else {
        match given(opts[0], arg) {
            Some(value) => Some((opts[0], value)),
            None => find_option(opts.skip(1), arg),
        }
    }
}

/// What an argument is.
pub enum Token {
    /// An option, with its value if the argument holds it.
    Option(Opt, Option<Seq<u8>>),
    /// The mark that the program follows.
    Separator,
    /// Something that looks like an option and is none.
    Unexpected,
    /// The program.
    Program,
}

/// What an argument is.
pub open spec fn token(arg: Seq<u8>) -> Token {
    match find_option(options(), arg) {
        Some((opt, value)) => Token::Option(opt, value),
        None => if arg == "--".spec_bytes() {
            Token::Separator
        } else if begins_with(arg, "-".spec_bytes()) {
            Token::Unexpected
        } else {
            Token::Program
        },
    }
}

fn short_name(opt: Opt) -> (r: &'static str)
    ensures
        r.spec_bytes() == short(opt),
{
    match opt {
        Opt::Help => "-h",
        Opt::Rootfs => "-R",
        Opt::WritableRootfs => "-w",
        Opt::BindMount => "-m",
        Opt::RoBindMount => "-r",
        Opt::DevfsMount => "-d",
        Opt::ProcfsMount => "-p",
        Opt::SysfsMount => "-s",
        Opt::TmpfsMount => "-t",
        Opt::UidMap => "-u",
        Opt::GidMap => "-g",
        Opt::Unshare => "-U",
        Opt::Env => "-e",
        Opt::CurrentDir => "-c",
    }
}

fn long_name(opt: Opt) -> (r: &'static str)
    ensures
        r.spec_bytes() == long(opt),
{
    match opt {
        Opt::Help => "--help",
        Opt::Rootfs => "--rootfs",
        Opt::WritableRootfs => "--writable-rootfs",
        Opt::BindMount => "--bind-mount",
        Opt::RoBindMount => "--ro-bind-mount",
        Opt::DevfsMount => "--devfs-mount",
        Opt::ProcfsMount => "--procfs-mount",
        Opt::SysfsMount => "--sysfs-mount",
        Opt::TmpfsMount => "--tmpfs-mount",
        Opt::UidMap => "--uid-map",
        Opt::GidMap => "--gid-map",
        Opt::Unshare => "--unshare",
        Opt::Env => "--env",
        Opt::CurrentDir => "--current-dir",
    }
}

pub(crate) fn has_value(opt: Opt) -> (r: bool)
    ensures
        r == takes_value(opt),
{
    !matches!(opt, Opt::Help | Opt::WritableRootfs)
}

/// What `given` says of an argument, by contents.
pub open spec fn given_view(g: Option<Option<Vec<u8>>>) -> Option<Option<Seq<u8>>> {
    match g {
        Some(value) => Some(opt_view(value)),
        None => None,
    }
}

fn match_option(opt: Opt, arg: &[u8]) -> (r: Option<Option<Vec<u8>>>)
    ensures
        given_view(r) == given(opt, arg@),
{
    let short_text = short_name(opt).as_bytes();
    let long_text = long_name(opt).as_bytes();
    if same(arg, short_text) || same(arg, long_text) {
        return Some(None);
    }
    if has_value(opt) {
        if has_prefix(arg, short_text) {
            return Some(Some(skip(arg, short_text.len())));
        }
        if has_prefix(arg, long_text) && arg.len() > long_text.len() && arg[long_text.len()]
            == EQUALS {
            return Some(Some(skip(arg, long_text.len() + 1)));
        }
    }
    None
}

/// An option that was found, by contents.
pub open spec fn found_view(f: Option<(Opt, Option<Vec<u8>>)>) -> Option<(Opt, Option<Seq<u8>>)> {
    match f {
        Some((opt, value)) => Some((opt, opt_view(value))),
        None => None,
    }
}

pub(crate) fn lookup_option(arg: &[u8]) -> (r: Option<(Opt, Option<Vec<u8>>)>)
    ensures
        found_view(r) == find_option(options(), arg@),
{
    let opts: [Opt; 14] = [
        Opt::Help,
        Opt::Rootfs,
        Opt::WritableRootfs,
        Opt::BindMount,
        Opt::RoBindMount,
        Opt::DevfsMount,
        Opt::ProcfsMount,
        Opt::SysfsMount,
        Opt::TmpfsMount,
        Opt::UidMap,
        Opt::GidMap,
        Opt::Unshare,
        Opt::Env,
        Opt::CurrentDir,
    ];
    assert(opts@ =~= options());
    assert(opts@.skip(0) =~= options());
    let mut i: usize = 0;
    while i < 14
        invariant
            i <= 14,
            opts@.len() == 14,
            find_option(opts@.skip(i as int), arg@) == find_option(options(), arg@),
        decreases 14 - i,
    {
        assert(opts@.skip(i as int)[0] == opts@[i as int]);
        assert(opts@.skip(i as int).skip(1) =~= opts@.skip(i + 1));
        if let Some(value) = match_option(opts[i], arg) {
            return Some((opts[i], value));
        }
        i += 1;
    }
    None
}

/// The bytes that tell the names of options apart: the letter of the short
/// name, and the third, fourth and fifth byte of the long one.
spec fn marks(opt: Opt) -> (u8, u8, u8, u8) {
    match opt {
        Opt::Help => (0x68, 0x68, 0x65, 0x6c),
        Opt::Rootfs => (0x52, 0x72, 0x6f, 0x6f),
        Opt::WritableRootfs => (0x77, 0x77, 0x72, 0x69),
        Opt::BindMount => (0x6d, 0x62, 0x69, 0x6e),
        Opt::RoBindMount => (0x72, 0x72, 0x6f, 0x2d),
        Opt::DevfsMount => (0x64, 0x64, 0x65, 0x76),
        Opt::ProcfsMount => (0x70, 0x70, 0x72, 0x6f),
        Opt::SysfsMount => (0x73, 0x73, 0x79, 0x73),
        Opt::TmpfsMount => (0x74, 0x74, 0x6d, 0x70),
        Opt::UidMap => (0x75, 0x75, 0x69, 0x64),
        Opt::GidMap => (0x67, 0x67, 0x69, 0x64),
        Opt::Unshare => (0x55, 0x75, 0x6e, 0x73),
        Opt::Env => (0x65, 0x65, 0x6e, 0x76),
        Opt::CurrentDir => (0x63, 0x63, 0x75, 0x72),
    }
}

/// The names of an option are a dash and a letter, and two dashes and a word
/// without `=`.
#[verifier::spinoff_prover]
#[verifier::rlimit(60)]
proof fn lemma_names(opt: Opt)
    ensures
        short(opt).len() == 2,
        short(opt)[0] == DASH,
        short(opt)[1] == marks(opt).0,
        marks(opt).0 != DASH,
        long(opt).len() >= 5,
        long(opt)[0] == DASH,
        long(opt)[1] == DASH,
        long(opt)[2] == marks(opt).1,
        long(opt)[3] == marks(opt).2,
        long(opt)[4] == marks(opt).3,
        !long(opt).contains(EQUALS),
{
    match opt {
        Opt::Help => {
            reveal_strlit("-h");
            reveal_strlit("--help");
            assert(short(opt) =~= seq![0x2du8, 0x68]) by {
                assert("-h".is_ascii());
            }
            assert(long(opt) =~= seq![0x2du8, 0x2d, 0x68, 0x65, 0x6c, 0x70]) by {
                assert("--help".is_ascii());
            }
        },
        Opt::Rootfs => {
            reveal_strlit("-R");
            reveal_strlit("--rootfs");
            assert(short(opt) =~= seq![0x2du8, 0x52]) by {
                assert("-R".is_ascii());
            }
            assert(long(opt) =~= seq![0x2du8, 0x2d, 0x72, 0x6f, 0x6f, 0x74, 0x66, 0x73]) by {
                assert("--rootfs".is_ascii());
            }
        },
        Opt::WritableRootfs => {
            reveal_strlit("-w");
            reveal_strlit("--writable-rootfs");
            assert(short(opt) =~= seq![0x2du8, 0x77]) by {
                assert("-w".is_ascii());
            }
            assert(long(opt) =~= seq![0x2du8, 0x2d, 0x77, 0x72, 0x69, 0x74, 0x61, 0x62, 0x6c, 0x65, 0x2d, 0x72, 0x6f, 0x6f, 0x74, 0x66, 0x73]) by {
                assert("--writable-rootfs".is_ascii());
            }
        },
        Opt::BindMount => {
            reveal_strlit("-m");
            reveal_strlit("--bind-mount");
            assert(short(opt) =~= seq![0x2du8, 0x6d]) by {
                assert("-m".is_ascii());
            }
            assert(long(opt) =~= seq![0x2du8, 0x2d, 0x62, 0x69, 0x6e, 0x64, 0x2d, 0x6d, 0x6f, 0x75, 0x6e, 0x74]) by {
                assert("--bind-mount".is_ascii());
            }
        },
        Opt::RoBindMount => {
            reveal_strlit("-r");
            reveal_strlit("--ro-bind-mount");
            assert(short(opt) =~= seq![0x2du8, 0x72]) by {
                assert("-r".is_ascii());
            }
            assert(long(opt) =~= seq![0x2du8, 0x2d, 0x72, 0x6f, 0x2d, 0x62, 0x69, 0x6e, 0x64, 0x2d, 0x6d, 0x6f, 0x75, 0x6e, 0x74]) by {
                assert("--ro-bind-mount".is_ascii());
            }
        },
        Opt::DevfsMount => {
            reveal_strlit("-d");
            reveal_strlit("--devfs-mount");
            assert(short(opt) =~= seq![0x2du8, 0x64]) by {
                assert("-d".is_ascii());
            }
            assert(long(opt) =~= seq![0x2du8, 0x2d, 0x64, 0x65, 0x76, 0x66, 0x73, 0x2d, 0x6d, 0x6f, 0x75, 0x6e, 0x74]) by {
                assert("--devfs-mount".is_ascii());
            }
        },
        Opt::ProcfsMount => {
            reveal_strlit("-p");
            reveal_strlit("--procfs-mount");
            assert(short(opt) =~= seq![0x2du8, 0x70]) by {
                assert("-p".is_ascii());
            }
            assert(long(opt) =~= seq![0x2du8, 0x2d, 0x70, 0x72, 0x6f, 0x63, 0x66, 0x73, 0x2d, 0x6d, 0x6f, 0x75, 0x6e, 0x74]) by {
                assert("--procfs-mount".is_ascii());
            }
        },
        Opt::SysfsMount => {
            reveal_strlit("-s");
            reveal_strlit("--sysfs-mount");
            assert(short(opt) =~= seq![0x2du8, 0x73]) by {
                assert("-s".is_ascii());
            }
            assert(long(opt) =~= seq![0x2du8, 0x2d, 0x73, 0x79, 0x73, 0x66, 0x73, 0x2d, 0x6d, 0x6f, 0x75, 0x6e, 0x74]) by {
                assert("--sysfs-mount".is_ascii());
            }
        },
        Opt::TmpfsMount => {
            reveal_strlit("-t");
            reveal_strlit("--tmpfs-mount");
            assert(short(opt) =~= seq![0x2du8, 0x74]) by {
                assert("-t".is_ascii());
            }
            assert(long(opt) =~= seq![0x2du8, 0x2d, 0x74, 0x6d, 0x70, 0x66, 0x73, 0x2d, 0x6d, 0x6f, 0x75, 0x6e, 0x74]) by {
                assert("--tmpfs-mount".is_ascii());
            }
        },
        Opt::UidMap => {
            reveal_strlit("-u");
            reveal_strlit("--uid-map");
            assert(short(opt) =~= seq![0x2du8, 0x75]) by {
                assert("-u".is_ascii());
            }
            assert(long(opt) =~= seq![0x2du8, 0x2d, 0x75, 0x69, 0x64, 0x2d, 0x6d, 0x61, 0x70]) by {
                assert("--uid-map".is_ascii());
            }
        },
        Opt::GidMap => {
            reveal_strlit("-g");
            reveal_strlit("--gid-map");
            assert(short(opt) =~= seq![0x2du8, 0x67]) by {
                assert("-g".is_ascii());
            }
            assert(long(opt) =~= seq![0x2du8, 0x2d, 0x67, 0x69, 0x64, 0x2d, 0x6d, 0x61, 0x70]) by {
                assert("--gid-map".is_ascii());
            }
        },
        Opt::Unshare => {
            reveal_strlit("-U");
            reveal_strlit("--unshare");
            assert(short(opt) =~= seq![0x2du8, 0x55]) by {
                assert("-U".is_ascii());
            }
            assert(long(opt) =~= seq![0x2du8, 0x2d, 0x75, 0x6e, 0x73, 0x68, 0x61, 0x72, 0x65]) by {
                assert("--unshare".is_ascii());
            }
        },
        Opt::Env => {
            reveal_strlit("-e");
            reveal_strlit("--env");
            assert(short(opt) =~= seq![0x2du8, 0x65]) by {
                assert("-e".is_ascii());
            }
            assert(long(opt) =~= seq![0x2du8, 0x2d, 0x65, 0x6e, 0x76]) by {
                assert("--env".is_ascii());
            }
        },
        Opt::CurrentDir => {
            reveal_strlit("-c");
            reveal_strlit("--current-dir");
            assert(short(opt) =~= seq![0x2du8, 0x63]) by {
                assert("-c".is_ascii());
            }
            assert(long(opt) =~= seq![0x2du8, 0x2d, 0x63, 0x75, 0x72, 0x72, 0x65, 0x6e, 0x74, 0x2d, 0x64, 0x69, 0x72]) by {
                assert("--current-dir".is_ascii());
            }
        },
    }
}

proof fn lemma_given_apart(opt: Opt, other: Opt, arg: Seq<u8>)
    requires
        given(opt, arg) is Some,
        opt != other,
    ensures
        given(other, arg) is None,
{
    lemma_names(opt);
    lemma_names(other);
    let a = long(opt);
    let b = long(other);
    let x = arg.take(a.len() as int);
    let y = arg.take(b.len() as int);
    if given(other, arg) is Some {
        assert(arg.len() >= 2);
        assert(arg[0] == DASH);
        if arg[1] == DASH {
            assert(begins_with(arg, a)) by {
                assert(arg == a ==> x =~= a);
                assert(begins_with(arg, short(opt)) ==> arg.take(2)[1] == arg[1]);
            }
            assert(begins_with(arg, b)) by {
                assert(arg == b ==> y =~= b);
                assert(begins_with(arg, short(other)) ==> arg.take(2)[1] == arg[1]);
            }
            assert(a[2] == x[2] && a[3] == x[3] && a[4] == x[4]);
            assert(b[2] == y[2] && b[3] == y[3] && b[4] == y[4]);
        } else {
            assert(begins_with(arg, a) ==> x[1] == arg[1]);
            assert(begins_with(arg, b) ==> y[1] == arg[1]);
            assert(arg == short(opt) || begins_with(arg, short(opt)));
            assert(arg == short(other) || begins_with(arg, short(other)));
            assert(begins_with(arg, short(opt)) ==> arg.take(2)[1] == arg[1]);
            assert(begins_with(arg, short(other)) ==> arg.take(2)[1] == arg[1]);
        }
        assert(marks(opt) == marks(other) || marks(opt).0 == marks(other).0);
    }
}

proof fn lemma_find(opts: Seq<Opt>, opt: Opt, arg: Seq<u8>)
    requires
        opts.contains(opt),
        given(opt, arg) is Some,
    ensures
        find_option(opts, arg) == Some((opt, given(opt, arg).unwrap())),
    decreases opts.len(),
{
    if opts[0] != opt {
        lemma_given_apart(opt, opts[0], arg);
        let i = choose|i: int| 0 <= i < opts.len() && opts[i] == opt;
        assert(opts.skip(1)[i - 1] == opt);
        lemma_find(opts.skip(1), opt, arg);
    }
}

proof fn lemma_listed(opt: Opt)
    ensures
        options().contains(opt),
{
    let at: int = match opt {
        Opt::Help => 0,
        Opt::Rootfs => 1,
        Opt::WritableRootfs => 2,
        Opt::BindMount => 3,
        Opt::RoBindMount => 4,
        Opt::DevfsMount => 5,
        Opt::ProcfsMount => 6,
        Opt::SysfsMount => 7,
        Opt::TmpfsMount => 8,
        Opt::UidMap => 9,
        Opt::GidMap => 10,
        Opt::Unshare => 11,
        Opt::Env => 12,
        Opt::CurrentDir => 13,
    };
    assert(options()[at] == opt);
}

/// No argument gives two options: an argument that gives an option in any of
/// its forms is that option, whatever the order in which they are tried.
pub proof fn an_argument_gives_one_option(opt: Opt, arg: Seq<u8>)
    requires
        given(opt, arg) is Some,
    ensures
        token(arg) == Token::Option(opt, given(opt, arg).unwrap()),
        forall|other: Opt| other != opt ==> given(other, arg) is None,
{
    lemma_listed(opt);
    lemma_find(options(), opt, arg);
    assert forall|other: Opt| other != opt implies given(other, arg) is None by {
        lemma_given_apart(opt, other, arg);
    }
}

/// Each option can be given by its short or its long name, and its value, if
/// it has one, can be attached: to the short name unless it is empty, and to
/// the long name after `=`.
pub proof fn options_are_given_by_their_names(opt: Opt, value: Seq<u8>)
    ensures
        token(short(opt)) == Token::Option(opt, None),
        token(long(opt)) == Token::Option(opt, None),
        takes_value(opt) && value.len() > 0 ==> token(short(opt) + value) == Token::Option(
            opt,
            Some(value),
        ),
        takes_value(opt) ==> token(long(opt) + seq![EQUALS] + value) == Token::Option(
            opt,
            Some(value),
        ),
{
    lemma_names(opt);
    an_argument_gives_one_option(opt, short(opt));
    an_argument_gives_one_option(opt, long(opt));
    if takes_value(opt) {
        let attached = short(opt) + value;
        let assigned = long(opt) + seq![EQUALS] + value;
        let n = long(opt).len() as int;
        assert(attached.take(2) =~= short(opt));
        assert(attached.skip(2) =~= value);
        assert(assigned.take(n) =~= long(opt));
        assert(assigned.skip(n + 1) =~= value);
        assert(assigned[n] == EQUALS);
        assert(assigned[1] == DASH);
        assert(begins_with(assigned, short(opt)) ==> assigned.take(2)[1] == assigned[1]);
        assert(given(opt, assigned) == Some(Some(value)));
        an_argument_gives_one_option(opt, assigned);
        if value.len() > 0 {
            assert(attached[1] == marks(opt).0);
            assert(given(opt, attached) == Some(Some(value)));
            an_argument_gives_one_option(opt, attached);
        }
    }
}

proof fn lemma_not_found(opts: Seq<Opt>, arg: Seq<u8>)
    requires
        forall|opt: Opt| given(opt, arg) is None,
    ensures
        find_option(opts, arg) is None,
    decreases opts.len(),
{
    if opts.len() > 0 {
        assert(given(opts[0], arg) is None);
        lemma_not_found(opts.skip(1), arg);
    }
}

/// An argument that does not begin with a dash is the program.
pub proof fn only_dashed_arguments_are_options(arg: Seq<u8>)
    requires
        !begins_with(arg, "-".spec_bytes()),
    ensures
        token(arg) == Token::Program,
{
    reveal_strlit("-");
    reveal_strlit("--");
    assert("-".is_ascii());
    assert("--".is_ascii());
    assert("-".spec_bytes() =~= seq![DASH]);
    assert("--".spec_bytes() =~= seq![DASH, DASH]);
    assert(arg.len() > 0 && arg[0] == DASH ==> arg.take(1) =~= seq![DASH]);
    assert forall|opt: Opt| given(opt, arg) is None by {
        lemma_names(opt);
        assert(begins_with(arg, short(opt)) ==> arg.take(2)[0] == arg[0]);
        assert(begins_with(arg, long(opt)) ==> arg.take(long(opt).len() as int)[0] == arg[0]);
    }
    lemma_not_found(options(), arg);
}

/// The argument `--` is no option.
pub proof fn the_separator_is_no_option()
    ensures
        token("--".spec_bytes()) == Token::Separator,
{
    reveal_strlit("--");
    assert("--".is_ascii());
    let arg = "--".spec_bytes();
    assert(arg =~= seq![DASH, DASH]);
    assert forall|opt: Opt| given(opt, arg) is None by {
        lemma_names(opt);
        assert(begins_with(arg, short(opt)) ==> arg.take(2)[1] == arg[1]);
    }
    lemma_not_found(options(), arg);
}

proof fn lemma_found(opts: Seq<Opt>, arg: Seq<u8>)
    ensures
        find_option(opts, arg) matches Some((opt, value)) ==> given(opt, arg) == Some(value),
    decreases opts.len(),
{
    if opts.len() > 0 {
        lemma_found(opts.skip(1), arg);
    }
}

/// An argument is an option only if it gives that option.
pub proof fn an_option_was_given(arg: Seq<u8>)
    ensures
        token(arg) matches Token::Option(opt, value) ==> given(opt, arg) == Some(value),
{
    lemma_found(options(), arg);
}

/// The names under which each option is known.
pub proof fn options_have_their_names(opt: Opt)
    ensures
        match opt {
            Opt::Help => short(opt) == "-h".spec_bytes() && long(opt) == "--help".spec_bytes(),
            Opt::Rootfs => short(opt) == "-R".spec_bytes() && long(opt) == "--rootfs".spec_bytes(),
            Opt::WritableRootfs => short(opt) == "-w".spec_bytes() && long(opt) == "--writable-rootfs".spec_bytes(),
            Opt::BindMount => short(opt) == "-m".spec_bytes() && long(opt) == "--bind-mount".spec_bytes(),
            Opt::RoBindMount => short(opt) == "-r".spec_bytes() && long(opt) == "--ro-bind-mount".spec_bytes(),
            Opt::DevfsMount => short(opt) == "-d".spec_bytes() && long(opt) == "--devfs-mount".spec_bytes(),
            Opt::ProcfsMount => short(opt) == "-p".spec_bytes() && long(opt) == "--procfs-mount".spec_bytes(),
            Opt::SysfsMount => short(opt) == "-s".spec_bytes() && long(opt) == "--sysfs-mount".spec_bytes(),
            Opt::TmpfsMount => short(opt) == "-t".spec_bytes() && long(opt) == "--tmpfs-mount".spec_bytes(),
            Opt::UidMap => short(opt) == "-u".spec_bytes() && long(opt) == "--uid-map".spec_bytes(),
            Opt::GidMap => short(opt) == "-g".spec_bytes() && long(opt) == "--gid-map".spec_bytes(),
            Opt::Unshare => short(opt) == "-U".spec_bytes() && long(opt) == "--unshare".spec_bytes(),
            Opt::Env => short(opt) == "-e".spec_bytes() && long(opt) == "--env".spec_bytes(),
            Opt::CurrentDir => short(opt) == "-c".spec_bytes() && long(opt) == "--current-dir".spec_bytes(),
        },
        takes_value(opt) <==> !(opt is Help) && !(opt is WritableRootfs),
        options().contains(opt),
{
    lemma_listed(opt);
}

/// An argument gives an option exactly when it is one of its names, or where
/// the option has a value, its short name or its long name and `=` with the
/// value after that.
pub proof fn options_have_these_forms(opt: Opt, arg: Seq<u8>)
    ensures
        match given(opt, arg) {
            Some(None) => arg == short(opt) || arg == long(opt),
            Some(Some(value)) => !(opt is Help) && !(opt is WritableRootfs) && (arg == short(opt)
                + value || arg == long(opt) + seq![0x3du8] + value),
            None => arg != short(opt) && arg != long(opt) && (!(opt is Help) && !(opt
                is WritableRootfs) ==> !begins_with(arg, short(opt)) && !begins_with(
                arg,
                long(opt) + seq![0x3du8],
            )),
        },
{
    lemma_names(opt);
    let n = long(opt).len() as int;
    let assigned = long(opt) + seq![0x3du8];
    a_beginning_is_followed_by_the_rest(arg, short(opt), arg);
    a_beginning_is_followed_by_the_rest(arg, long(opt), arg);
    a_beginning_is_followed_by_the_rest(arg, assigned, arg);
    if begins_with(arg, long(opt)) && arg.len() > n && arg[n] == 0x3d {
        assert(arg =~= assigned + arg.skip(n + 1));
    }
    if begins_with(arg, assigned) {
        assert(arg.take(n) =~= long(opt)) by {
            assert forall|i: int| 0 <= i < n implies arg[i] == long(opt)[i] by {
                assert(arg.take(n + 1)[i] == assigned[i]);
            }
        }
        assert(arg[n] == assigned[n]);
    }
}

/// An argument is an option if it gives one; otherwise `--` is the mark that
/// the program follows, what else begins with a dash is refused, and what
/// does not is the program.
pub proof fn every_argument_is_something(arg: Seq<u8>)
    ensures
        match token(arg) {
            Token::Option(opt, value) => given(opt, arg) == Some(value),
            Token::Separator => arg == "--".spec_bytes(),
            Token::Unexpected => begins_with(arg, "-".spec_bytes()) && arg != "--".spec_bytes()
                && forall|opt: Opt| given(opt, arg) is None,
            Token::Program => !begins_with(arg, "-".spec_bytes()),
        },
{
    an_option_was_given(arg);
    assert forall|opt: Opt| !(token(arg) is Option) implies given(opt, arg) is None by {
        if given(opt, arg) is Some {
            an_argument_gives_one_option(opt, arg);
        }
    }
}

} // verus!
