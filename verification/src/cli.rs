//! The command line of the program that runs a command in a jail.
use crate::bytes::{
    ascii_lower, begins_with, copy, eq_ignore_ascii_case, has_prefix, is_text,
    lists_are_split_into_their_parts, opt_view, position, same_ignoring_case, skip, split,
    split_on, splitting_is_at_separators, take, views, COLON, COMMA, EQUALS,
};
use crate::child::{ExitStatus, Status};
use crate::command::{
    map_views, mount_views, root_is_one_user_and_one_group, Command, CommandView, IdMapView, Mount,
    MountSrc, MountView, SourceView,
};
use crate::decimal::{as_u32, decimal, decimal_denotes, decimal_reads_back, parse_u32};
use crate::environ::Environ;
use crate::id_range::{countable_range, ids_of, Gid, GidRange, Id, IdRange, Uid, UidRange};
use crate::monitor::{
    expected, monitor_next, reported_end, signal_code, MonitorEvent, MonitorState, WaitReport,
};
use crate::namespace::{
    Namespace, ALL_NAMESPACES, CLONE_NEWCGROUP, CLONE_NEWIPC, CLONE_NEWNET, CLONE_NEWPID,
    CLONE_NEWUTS,
};
use crate::options::{
    an_option_was_given, every_argument_is_something, given, has_value, long, lookup_option, only_dashed_arguments_are_options,
    options_are_given_by_their_names, short, takes_value, the_separator_is_no_option, token, Opt,
    Token,
};
use crate::stdio::{Stdio, StdioInner};
use crate::usage::{IdKind, MapFault, UsageError, UsageKind};
use crate::wire::ByteOrder;
use std::ops::Bound;
use vstd::prelude::*;
use vstd::string::*;

verus! {

/// The options and the command of a command line.
#[derive(Debug)]
pub struct Args {
    rootfs: Option<Vec<u8>>,
    writable_root: bool,
    mounts: Vec<Mount>,
    uid_map: Vec<(UidRange, UidRange)>,
    gid_map: Vec<(GidRange, GidRange)>,
    unshare: Namespace,
    program: Vec<u8>,
    args: Vec<Vec<u8>>,
    env: Environ,
    curr_dir: Option<Vec<u8>>,
}

/// The contents of [`Args`].
#[verifier::ext_equal]
pub struct ArgsView {
    /// The root filesystem.
    pub rootfs: Option<Seq<u8>>,
    /// Whether the root filesystem is writable.
    pub writable_root: bool,
    /// The mounts, in order.
    pub mounts: Seq<MountView>,
    /// The user IDs of the jail.
    pub uid_map: IdMapView,
    /// The group IDs of the jail.
    pub gid_map: IdMapView,
    /// The namespaces that are unshared.
    pub unshare: i32,
    /// The program.
    pub program: Seq<u8>,
    /// Its arguments.
    pub args: Seq<Seq<u8>>,
    /// Its environment.
    pub env: Map<Seq<u8>, Seq<u8>>,
    /// The directory in the jail where it starts.
    pub curr_dir: Option<Seq<u8>>,
}

/// What a command line asks for.
#[derive(Debug)]
pub enum Parsed {
    /// To run a command.
    Run(Args),
    /// To print the help.
    Help,
    /// Nothing: it is not valid.
    Usage(UsageError),
}

/// What a command line asks for, by contents.
pub enum ParsedView {
    /// To run a command.
    Run(ArgsView),
    /// To print the help.
    Help,
    /// Nothing: it is not valid.
    Usage(UsageKind, Seq<u8>),
}

impl View for Args {
    type V = ArgsView;

    closed spec fn view(&self) -> ArgsView {
        ArgsView {
            rootfs: opt_view(self.rootfs),
            writable_root: self.writable_root,
            mounts: mount_views(self.mounts@),
            uid_map: map_views(self.uid_map@),
            gid_map: map_views(self.gid_map@),
            unshare: self.unshare@,
            program: self.program@,
            args: views(self.args@),
            env: self.env@,
            curr_dir: opt_view(self.curr_dir),
        }
    }
}

impl View for Parsed {
    type V = ParsedView;

    open spec fn view(&self) -> ParsedView {
        match *self {
            Parsed::Run(args) => ParsedView::Run(args@),
            Parsed::Help => ParsedView::Help,
            Parsed::Usage(err) => ParsedView::Usage(err.kind, err.arg@),
        }
    }
}

/// The mount that the value of an option asks for: the part before the first
/// `:` is the path on the host, and the rest the path in the jail. Without a
/// `:` both are the same.
pub open spec fn bind_of(value: Seq<u8>, writable: bool) -> MountView {
    match value.index_of_first(COLON) {
        Some(i) => MountView {
            src: SourceView::Bind(value.take(i)),
            dst: value.skip(i + 1),
            writable,
        },
        None => MountView { src: SourceView::Bind(value), dst: value, writable },
    }
}

/// The range of `len` IDs from `first` on.
pub open spec fn run_of(first: u32, len: u32) -> Option<(u32, u32)> {
    Some((first, (first + len - 1) as u32))
}

/// The pair of ranges that a mapping asks for: `HOST:JAIL` maps one ID, and
/// `HOST:JAIL:LEN` as many as it says. A length of 0 maps none.
pub open spec fn mapping_of(text: Seq<u8>) -> Result<
    Option<(Option<(u32, u32)>, Option<(u32, u32)>)>,
    MapFault,
> {
    match text.index_of_first(COLON) {
        None => Err(MapFault::NoSeparator),
        Some(i) => {
            let host = as_u32(text.take(i));
            let rest = text.skip(i + 1);
            match rest.index_of_first(COLON) {
                None => match (host, as_u32(rest)) {
                    (Some(h), Some(j)) => Ok(Some((run_of(h, 1), run_of(j, 1)))),
                    _ => Err(MapFault::NotAnId),
                },
                Some(k) => match (host, as_u32(rest.take(k))) {
                    (Some(h), Some(j)) => match as_u32(rest.skip(k + 1)) {
                        None => Err(MapFault::NotALength),
                        Some(len) => if len == 0 {
                            Ok(None)
                        } else if h + len > u32::MAX {
                            Err(MapFault::HostRange)
                        } else if j + len > u32::MAX {
                            Err(MapFault::JailRange)
                        } else {
                            Ok(Some((run_of(h, len), run_of(j, len))))
                        },
                    },
                    _ => Err(MapFault::NotAnId),
                },
            }
        },
    }
}

/// A map with the mappings added that are given, in order. A mapping of no
/// IDs adds nothing.
pub open spec fn add_mappings(map: IdMapView, texts: Seq<Seq<u8>>) -> Result<
    IdMapView,
    (MapFault, Seq<u8>),
>
    decreases texts.len(),
{
    if texts.len() == 0 {
        Ok(map)
    } else {
        match mapping_of(texts[0]) {
            Err(fault) => Err((fault, texts[0])),
            Ok(None) => add_mappings(map, texts.skip(1)),
            Ok(Some(pair)) => add_mappings(map.push(pair), texts.skip(1)),
        }
    }
}

/// The flags of the namespaces that a name stands for, in any case.
pub open spec fn namespace_named(name: Seq<u8>) -> Option<i32> {
    if same_ignoring_case(name, "cgroup".spec_bytes()) {
        Some(CLONE_NEWCGROUP)
    } else if same_ignoring_case(name, "uts".spec_bytes()) {
        Some(CLONE_NEWUTS)
    } else if same_ignoring_case(name, "ipc".spec_bytes()) {
        Some(CLONE_NEWIPC)
    } else if same_ignoring_case(name, "pid".spec_bytes()) {
        Some(CLONE_NEWPID)
    } else if same_ignoring_case(name, "net".spec_bytes()) {
        Some(CLONE_NEWNET)
    } else if same_ignoring_case(name, "all".spec_bytes()) {
        Some(ALL_NAMESPACES)
    } else {
        None
    }
}

/// Namespaces with those added that are named, or the first name that stands
/// for none.
pub open spec fn add_namespaces(bits: i32, names: Seq<Seq<u8>>) -> Result<i32, Seq<u8>>
    decreases names.len(),
{
    if names.len() == 0 {
        Ok(bits)
    } else {
        match namespace_named(names[0]) {
            Some(flags) => add_namespaces(bits | flags, names.skip(1)),
            None => Err(names[0]),
        }
    }
}

/// The value of an option that the first argument gives, and how many
/// arguments the option takes with it. There is no value where it should be
/// in the next argument and there is none.
pub open spec fn value_of(opt: Opt, attached: Option<Seq<u8>>, argv: Seq<Seq<u8>>) -> Option<
    (Seq<u8>, int),
> {
    match attached {
        Some(value) => Some((value, 1)),
        None => if !takes_value(opt) {
            Some((Seq::empty(), 1))
        } else if argv.len() < 2 {
            None
        } else {
            Some((argv[1], 2))
        },
    }
}

impl ArgsView {
    /// What holds before any argument is read.
    pub open spec fn start() -> ArgsView {
        ArgsView {
            rootfs: None,
            writable_root: false,
            mounts: Seq::empty(),
            uid_map: Seq::empty(),
            gid_map: Seq::empty(),
            unshare: 0,
            program: Seq::empty(),
            args: Seq::empty(),
            env: Map::empty(),
            curr_dir: None,
        }
    }

    /// The arguments with a mount added.
    pub open spec fn with_mount(self, mount: MountView) -> ArgsView {
        ArgsView { mounts: self.mounts.push(mount), ..self }
    }

    /// The arguments with a mount added that is not of the host.
    pub open spec fn with_fresh(self, src: SourceView, dst: Seq<u8>) -> ArgsView {
        self.with_mount(MountView { src, dst, writable: true })
    }

    /// The arguments after an option with a value.
    pub open spec fn with_option(self, opt: Opt, value: Seq<u8>) -> Result<
        ArgsView,
        (UsageKind, Seq<u8>),
    > {
        match opt {
            Opt::Help => Ok(self),
            Opt::WritableRootfs => Ok(ArgsView { writable_root: true, ..self }),
            Opt::Rootfs => Ok(ArgsView { rootfs: Some(value), ..self }),
            Opt::BindMount => Ok(self.with_mount(bind_of(value, true))),
            Opt::RoBindMount => Ok(self.with_mount(bind_of(value, false))),
            Opt::DevfsMount => Ok(self.with_fresh(SourceView::DevFs, value)),
            Opt::ProcfsMount => Ok(self.with_fresh(SourceView::ProcFs, value)),
            Opt::SysfsMount => Ok(self.with_fresh(SourceView::SysFs, value)),
            Opt::TmpfsMount => Ok(self.with_fresh(SourceView::TmpFs, value)),
            Opt::UidMap => match add_mappings(self.uid_map, split(value, COMMA)) {
                Ok(uid_map) => Ok(ArgsView { uid_map, ..self }),
                Err((fault, text)) => Err((UsageKind::Mapping(IdKind::User, fault), text)),
            },
            Opt::GidMap => match add_mappings(self.gid_map, split(value, COMMA)) {
                Ok(gid_map) => Ok(ArgsView { gid_map, ..self }),
                Err((fault, text)) => Err((UsageKind::Mapping(IdKind::Group, fault), text)),
            },
            Opt::Unshare => match add_namespaces(self.unshare, split(value, COMMA)) {
                Ok(unshare) => Ok(ArgsView { unshare, ..self }),
                Err(name) => Err((UsageKind::UnknownNamespace, name)),
            },
            Opt::Env => match value.index_of_first(EQUALS) {
                Some(i) => Ok(
                    ArgsView { env: self.env.insert(value.take(i), value.skip(i + 1)), ..self },
                ),
                None => Err((UsageKind::NoEquals, value)),
            },
            Opt::CurrentDir => Ok(ArgsView { curr_dir: Some(value), ..self }),
        }
    }

    /// What the rest of a command line asks for, after the arguments so far.
    pub open spec fn parse_rest(self, argv: Seq<Seq<u8>>) -> ParsedView
        decreases argv.len(),
    {
        if argv.len() == 0 {
            ParsedView::Usage(UsageKind::MissingCommand, Seq::empty())
        } else {
            match token(argv[0]) {
                Token::Option(Opt::Help, _) => ParsedView::Help,
                Token::Option(opt, attached) => match value_of(opt, attached, argv) {
                    None => ParsedView::Usage(UsageKind::MissingValue(opt), argv[0]),
                    Some((value, taken)) => match self.with_option(opt, value) {
                        Err((kind, text)) => ParsedView::Usage(kind, text),
                        Ok(next) => next.parse_rest(argv.skip(taken)),
                    },
                },
                Token::Separator => if argv.len() < 2 {
                    ParsedView::Usage(UsageKind::MissingCommandAfterSeparator, Seq::empty())
                } else {
                    ParsedView::Run(ArgsView { program: argv[1], args: argv.skip(2), ..self })
                },
                Token::Unexpected => ParsedView::Usage(UsageKind::UnexpectedOption, argv[0]),
                Token::Program => ParsedView::Run(
                    ArgsView { program: argv[0], args: argv.skip(1), ..self },
                ),
            }
        }
    }
}

/// What a command line asks for. One without arguments asks for the help.
pub open spec fn parse_line(argv: Seq<Seq<u8>>) -> ParsedView {
    if argv.len() == 0 {
        ParsedView::Help
    } else {
        ArgsView::start().parse_rest(argv)
    }
}

/// The ranges of a mapping, by contents.
pub open spec fn ranges_of(m: Option<(u32, u32, u32)>) -> Option<
    (Option<(u32, u32)>, Option<(u32, u32)>),
> {
    match m {
        Some((host, jail, len)) => Some((run_of(host, len), run_of(jail, len))),
        None => None,
    }
}

/// Reads a mapping: the first ID of the host and of the jail, and how many
/// are mapped.
fn read_mapping(text: &[u8]) -> (r: Result<Option<(u32, u32, u32)>, MapFault>)
    ensures
        match r {
            Ok(m) => mapping_of(text@) == Ok::<_, MapFault>(ranges_of(m)),
            Err(fault) => mapping_of(text@) == Err::<
                Option<(Option<(u32, u32)>, Option<(u32, u32)>)>,
                _,
            >(fault),
        },
        r matches Ok(Some((host, jail, len))) ==> len > 0 && host + len - 1 <= u32::MAX && jail
            + len - 1 <= u32::MAX,
{
    let Some(pos) = position(text, COLON) else {
        return Err(MapFault::NoSeparator);
    };
    let len: usize = text.len();
    assert(pos < len);
    let rest = skip(text, pos + 1);
    let Some(host) = parse_u32(take(text, pos).as_slice()) else {
        return Err(MapFault::NotAnId);
    };
    let Some(pos) = position(rest.as_slice(), COLON) else {
        return match parse_u32(rest.as_slice()) {
            Some(jail) => Ok(Some((host, jail, 1))),
            None => Err(MapFault::NotAnId),
        };
    };
    let len: usize = rest.len();
    assert(pos < len);
    let Some(jail) = parse_u32(take(rest.as_slice(), pos).as_slice()) else {
        return Err(MapFault::NotAnId);
    };
    let Some(count) = parse_u32(skip(rest.as_slice(), pos + 1).as_slice()) else {
        return Err(MapFault::NotALength);
    };
    if count == 0 {
        return Ok(None);
    }
    if host.checked_add(count).is_none() {
        return Err(MapFault::HostRange);
    }
    if jail.checked_add(count).is_none() {
        return Err(MapFault::JailRange);
    }
    Ok(Some((host, jail, count)))
}

/// The range of `len` IDs from `first` on.
fn run<T: Id>(first: u32, len: u32) -> (r: IdRange<T>)
    requires
        len > 0,
        first + len - 1 <= u32::MAX,
    ensures
        r@ == run_of(first, len),
{
    IdRange::from_raw_range(Bound::Included(first), Bound::Included(first + (len - 1)))
}

/// Whether each mapping holds as many IDs of the host as of the jail, and at
/// least one, and can be counted.
pub open spec fn one_to_one(map: IdMapView) -> bool {
    forall|i: int|
        0 <= i < map.len() ==> {
            &&& (#[trigger] map[i]).0 is Some
            &&& map[i].1 is Some
            &&& 0 < ids_of(map[i].0).len() == ids_of(map[i].1).len()
            &&& countable_range(map[i].0)
            &&& countable_range(map[i].1)
        }
}

/// Whether all mounts that are not of the host are writable.
pub open spec fn fresh_writable(mounts: Seq<MountView>) -> bool {
    forall|i: int|
        0 <= i < mounts.len() ==> (#[trigger] mounts[i]).src is Bind || mounts[i].writable
}

/// Adds the mappings in `text`, which are separated by commas.
fn read_mappings<T: Id>(map: &mut Vec<(IdRange<T>, IdRange<T>)>, text: &[u8]) -> (r: Result<
    (),
    (MapFault, Vec<u8>),
>)
    requires
        one_to_one(map_views(old(map)@)),
    ensures
        match r {
            Ok(()) => add_mappings(map_views(old(map)@), split(text@, COMMA)) == Ok::<
                _,
                (MapFault, Seq<u8>),
            >(map_views(final(map)@)) && one_to_one(map_views(final(map)@)),
            Err((fault, piece)) => add_mappings(map_views(old(map)@), split(text@, COMMA)) == Err::<
                IdMapView,
                _,
            >((fault, piece@)) && final(map)@ == old(map)@,
        },
{
    let count: usize = map.len();
    let pieces = split_on(text, COMMA);
    let ghost all = views(pieces@);
    let ghost want = add_mappings(map_views(map@), all);
    assert(all.skip(0) =~= all);
    let mut i: usize = 0;
    while i < pieces.len()
        invariant
            i <= pieces@.len(),
            all == views(pieces@),
            all == split(text@, COMMA),
            one_to_one(map_views(map@)),
            count == old(map)@.len() <= map@.len(),
            map@.take(count as int) == old(map)@,
            want == add_mappings(map_views(old(map)@), all),
            add_mappings(map_views(map@), all.skip(i as int)) == want,
        decreases pieces@.len() - i,
    {
        proof {
            assert(all.skip(i as int)[0] == pieces@[i as int]@);
            assert(all.skip(i as int).skip(1) =~= all.skip(i + 1));
        }
        match read_mapping(pieces[i].as_slice()) {
            Err(fault) => {
                map.truncate(count);
                assert(map@ =~= old(map)@);
                return Err((fault, copy(pieces[i].as_slice())));
            },
            Ok(None) => {},
            Ok(Some((host, jail, len))) => {
                let ghost before = map@;
                map.push((run(host, len), run(jail, len)));
                assert(map_views(map@) =~= map_views(before).push(
                    (run_of(host, len), run_of(jail, len)),
                ));
            },
        }
        i += 1;
    }
    Ok(())
}

/// The namespaces that a name stands for.
fn read_namespace(name: &[u8]) -> (r: Option<Namespace>)
    ensures
        match r {
            Some(ns) => namespace_named(name@) == Some(ns@),
            None => namespace_named(name@) is None,
        },
{
    if eq_ignore_ascii_case(name, "cgroup".as_bytes()) {
        Some(Namespace::cgroup())
    } else if eq_ignore_ascii_case(name, "uts".as_bytes()) {
        Some(Namespace::uts())
    } else if eq_ignore_ascii_case(name, "ipc".as_bytes()) {
        Some(Namespace::ipc())
    } else if eq_ignore_ascii_case(name, "pid".as_bytes()) {
        Some(Namespace::pid())
    } else if eq_ignore_ascii_case(name, "net".as_bytes()) {
        Some(Namespace::net())
    } else if eq_ignore_ascii_case(name, "all".as_bytes()) {
        Some(Namespace::all())
    } else {
        None
    }
}

/// Adds the namespaces named in `text`, which are separated by commas.
fn read_namespaces(unshare: Namespace, text: &[u8]) -> (r: Result<Namespace, Vec<u8>>)
    ensures
        match r {
            Ok(ns) => add_namespaces(unshare@, split(text@, COMMA)) == Ok::<_, Seq<u8>>(ns@),
            Err(name) => add_namespaces(unshare@, split(text@, COMMA)) == Err::<i32, _>(name@),
        },
{
    let pieces = split_on(text, COMMA);
    let ghost all = views(pieces@);
    let mut out: Namespace = unshare;
    assert(all.skip(0) =~= all);
    let mut i: usize = 0;
    while i < pieces.len()
        invariant
            i <= pieces@.len(),
            all == views(pieces@),
            all == split(text@, COMMA),
            add_namespaces(out@, all.skip(i as int)) == add_namespaces(unshare@, all),
        decreases pieces@.len() - i,
    {
        proof {
            assert(all.skip(i as int)[0] == pieces@[i as int]@);
            assert(all.skip(i as int).skip(1) =~= all.skip(i + 1));
        }
        match read_namespace(pieces[i].as_slice()) {
            Some(ns) => {
                out = out.union(ns);
            },
            None => {
                return Err(copy(pieces[i].as_slice()));
            },
        }
        i += 1;
    }
    Ok(out)
}

/// The arguments after an option, or what is wrong with it.
pub open spec fn outcome(args: Args, r: Result<(), UsageError>) -> Result<
    ArgsView,
    (UsageKind, Seq<u8>),
> {
    match r {
        Ok(()) => Ok(args@),
        Err(err) => Err(err@),
    }
}

impl Args {
    /// Whether each variable is defined once, each mapping holds IDs, and
    /// only directories of the host are read-only.
    pub closed spec fn wf(self) -> bool {
        &&& self.env.wf()
        &&& fresh_writable(mount_views(self.mounts@))
        &&& one_to_one(map_views(self.uid_map@))
        &&& one_to_one(map_views(self.gid_map@))
    }

    fn new() -> (r: Args)
        ensures
            r.wf(),
            r@ == ArgsView::start(),
    {
        let r = Args {
            rootfs: None,
            writable_root: false,
            mounts: Vec::new(),
            uid_map: Vec::new(),
            gid_map: Vec::new(),
            unshare: Namespace::empty(),
            program: Vec::new(),
            args: Vec::new(),
            env: Environ::new(),
            curr_dir: None,
        };
        assert(r@ =~= ArgsView::start());
        r
    }

    fn mount(&mut self, src: MountSrc, dst: Vec<u8>, writable: bool)
        requires
            old(self).wf(),
            src is Bind || writable,
        ensures
            final(self).wf(),
            final(self)@ == old(self)@.with_mount((MountView { src: src@, dst: dst@, writable })),
    {
        let ghost mount = MountView { src: src@, dst: dst@, writable };
        self.mounts.push(Mount { src, dst, writable });
        assert(mount_views(self.mounts@) =~= mount_views(old(self).mounts@).push(mount));
    }

    /// Adds the mount of a directory of the host that a value asks for.
    pub fn bind_mount(&mut self, arg: &[u8], writable: bool)
        requires
            old(self).wf(),
        ensures
            final(self).wf(),
            final(self)@ == old(self)@.with_mount(bind_of(arg@, writable)),
    {
        match position(arg, COLON) {
            Some(pos) => {
                let len: usize = arg.len();
                assert(pos < len);
                self.mount(MountSrc::Bind(take(arg, pos)), skip(arg, pos + 1), writable);
            },
            None => {
                self.mount(MountSrc::Bind(copy(arg)), copy(arg), writable);
            },
        }
    }

    /// Maps the user IDs that a value asks for. Where it is not valid, nothing
    /// changes.
    pub fn uid_map(&mut self, arg: &[u8]) -> (r: Result<(), UsageError>)
        requires
            old(self).wf(),
        ensures
            final(self).wf(),
            outcome(*final(self), r) == old(self)@.with_option(Opt::UidMap, arg@),
            r is Err ==> final(self)@ == old(self)@,
            old(self)@.uid_map.is_prefix_of(final(self)@.uid_map),
            final(self)@ == (ArgsView { uid_map: final(self)@.uid_map, ..old(self)@ }),
            one_to_one(final(self)@.uid_map),
    {
        proof {
            mapping_users_only_adds(self@, arg@);
        }
        match read_mappings(&mut self.uid_map, arg) {
            Ok(()) => Ok(()),
            Err((fault, piece)) => Err(
                UsageError { kind: UsageKind::Mapping(IdKind::User, fault), arg: piece },
            ),
        }
    }

    /// Maps the group IDs that a value asks for. Where it is not valid,
    /// nothing changes.
    pub fn gid_map(&mut self, arg: &[u8]) -> (r: Result<(), UsageError>)
        requires
            old(self).wf(),
        ensures
            final(self).wf(),
            outcome(*final(self), r) == old(self)@.with_option(Opt::GidMap, arg@),
            r is Err ==> final(self)@ == old(self)@,
            old(self)@.gid_map.is_prefix_of(final(self)@.gid_map),
            final(self)@ == (ArgsView { gid_map: final(self)@.gid_map, ..old(self)@ }),
            one_to_one(final(self)@.gid_map),
    {
        proof {
            mapping_groups_only_adds(self@, arg@);
        }
        match read_mappings(&mut self.gid_map, arg) {
            Ok(()) => Ok(()),
            Err((fault, piece)) => Err(
                UsageError { kind: UsageKind::Mapping(IdKind::Group, fault), arg: piece },
            ),
        }
    }

    /// Unshares the namespaces that a value names. Where it is not valid,
    /// nothing changes.
    pub fn unshare(&mut self, arg: &[u8]) -> (r: Result<(), UsageError>)
        requires
            old(self).wf(),
        ensures
            final(self).wf(),
            outcome(*final(self), r) == old(self)@.with_option(Opt::Unshare, arg@),
            r is Err ==> final(self)@ == old(self)@,
    {
        match read_namespaces(self.unshare, arg) {
            Ok(namespaces) => {
                self.unshare = namespaces;
                Ok(())
            },
            Err(name) => Err(UsageError { kind: UsageKind::UnknownNamespace, arg: name }),
        }
    }

    /// Defines the variable that a value defines. Where it is not valid,
    /// nothing changes.
    pub fn env(&mut self, arg: &[u8]) -> (r: Result<(), UsageError>)
        requires
            old(self).wf(),
        ensures
            final(self).wf(),
            outcome(*final(self), r) == old(self)@.with_option(Opt::Env, arg@),
            r is Err ==> final(self)@ == old(self)@,
    {
        let Some(pos) = position(arg, EQUALS) else {
            return Err(UsageError { kind: UsageKind::NoEquals, arg: copy(arg) });
        };
        let len: usize = arg.len();
        assert(pos < len);
        self.env.insert(take(arg, pos).as_slice(), skip(arg, pos + 1).as_slice());
        Ok(())
    }

    fn apply(&mut self, opt: Opt, value: &[u8]) -> (r: Result<(), UsageError>)
        requires
            old(self).wf(),
        ensures
            outcome(*final(self), r) == old(self)@.with_option(opt, value@),
            r is Ok ==> final(self).wf(),
    {
        match opt {
            Opt::Help => {},
            Opt::WritableRootfs => {
                self.writable_root = true;
            },
            Opt::Rootfs => {
                self.rootfs = Some(copy(value));
            },
            Opt::BindMount => {
                self.bind_mount(value, true);
            },
            Opt::RoBindMount => {
                self.bind_mount(value, false);
            },
            Opt::DevfsMount => {
                self.mount(MountSrc::DevFs, copy(value), true);
            },
            Opt::ProcfsMount => {
                self.mount(MountSrc::ProcFs, copy(value), true);
            },
            Opt::SysfsMount => {
                self.mount(MountSrc::SysFs, copy(value), true);
            },
            Opt::TmpfsMount => {
                self.mount(MountSrc::TmpFs, copy(value), true);
            },
            Opt::UidMap => {
                return self.uid_map(value);
            },
            Opt::GidMap => {
                return self.gid_map(value);
            },
            Opt::Unshare => {
                return self.unshare(value);
            },
            Opt::Env => {
                return self.env(value);
            },
            Opt::CurrentDir => {
                self.curr_dir = Some(copy(value));
            },
        }
        Ok(())
    }

    fn with_command(self, argv: &Vec<Vec<u8>>, at: usize) -> (r: Args)
        requires
            self.wf(),
            at < argv@.len(),
        ensures
            r.wf(),
            r@ == (ArgsView {
                program: argv@[at as int]@,
                args: views(argv@).skip(at + 1),
                ..self@
            }),
    {
        let mut out = self;
        let len: usize = argv.len();
        let mut args: Vec<Vec<u8>> = Vec::new();
        let mut i: usize = at + 1;
        while i < len
            invariant
                at + 1 <= i <= len,
                len == argv@.len(),
                views(args@) == views(argv@).subrange(at + 1, i as int),
            decreases len - i,
        {
            let ghost before = args@;
            args.push(copy(argv[i].as_slice()));
            assert(views(args@) =~= views(before).push(argv@[i as int]@));
            assert(views(argv@).subrange(at + 1, i + 1) =~= views(argv@).subrange(
                at + 1,
                i as int,
            ).push(argv@[i as int]@));
            i += 1;
        }
        out.program = copy(argv[at].as_slice());
        out.args = args;
        assert(views(args@) =~= views(argv@).skip(at + 1));
        out
    }

    /// Reads the arguments of a command line, which do not include the name
    /// of the program.
    pub fn parse(argv: &Vec<Vec<u8>>) -> (r: Parsed)
        ensures
            r@ == parse_line(views(argv@)),
            r matches Parsed::Run(args) ==> args.wf(),
    {
        let len: usize = argv.len();
        if len == 0 {
            return Parsed::Help;
        }
        let ghost all = views(argv@);
        let mut out = Args::new();
        let mut i: usize = 0;
        assert(all.skip(0) =~= all);
        while i < len
            invariant
                0 < len == argv@.len(),
                i <= len,
                all == views(argv@),
                out.wf(),
                out@.parse_rest(all.skip(i as int)) == parse_line(all),
            decreases len - i,
        {
            let arg = argv[i].as_slice();
            let ghost rest = all.skip(i as int);
            proof {
                assert(rest[0] == arg@);
                assert(i + 1 < len ==> rest[1] == argv@[i + 1]@);
                assert(rest.skip(1) =~= all.skip(i + 1));
                assert(i + 1 < len ==> rest.skip(2) =~= all.skip(i + 2));
            }
            match lookup_option(arg) {
                Some((Opt::Help, _)) => {
                    return Parsed::Help;
                },
                Some((opt, Some(value))) => {
                    if let Err(err) = out.apply(opt, value.as_slice()) {
                        return Parsed::Usage(err);
                    }
                },
                Some((opt, None)) => {
                    if !has_value(opt) {
                        let none: Vec<u8> = Vec::new();
                        assert(none@ =~= Seq::<u8>::empty());
                        if let Err(err) = out.apply(opt, none.as_slice()) {
                            return Parsed::Usage(err);
                        }
                    } else if len - i < 2 {
                        return Parsed::Usage(
                            UsageError { kind: UsageKind::MissingValue(opt), arg: copy(arg) },
                        );
                    } else {
                        if let Err(err) = out.apply(opt, argv[i + 1].as_slice()) {
                            return Parsed::Usage(err);
                        }
                        i += 1;
                    }
                },
                None => {
                    if is_text(arg, "--") {
                        if len - i < 2 {
                            return Parsed::Usage(
                                UsageError {
                                    kind: UsageKind::MissingCommandAfterSeparator,
                                    arg: Vec::new(),
                                },
                            );
                        }
                        return Parsed::Run(out.with_command(argv, i + 1));
                    }
                    if has_prefix(arg, "-".as_bytes()) {
                        return Parsed::Usage(
                            UsageError { kind: UsageKind::UnexpectedOption, arg: copy(arg) },
                        );
                    }
                    return Parsed::Run(out.with_command(argv, i));
                },
            }
            i += 1;
        }
        Parsed::Usage(UsageError { kind: UsageKind::MissingCommand, arg: Vec::new() })
    }
}

impl ArgsView {
    /// The command that the arguments describe, without the IDs that are
    /// root where none are mapped.
    pub open spec fn plain_command(self) -> CommandView {
        CommandView {
            rootfs: self.rootfs,
            ro_root: !self.writable_root,
            mounts: self.mounts,
            uid_map: self.uid_map,
            gid_map: self.gid_map,
            unshare: self.unshare,
            program: self.program,
            args: seq![self.program] + self.args,
            env: self.env,
            curr_dir: self.curr_dir,
            stdin: Some(StdioInner::Inherit),
            stdout: Some(StdioInner::Inherit),
            stderr: Some(StdioInner::Inherit),
        }
    }

    /// Whether the arguments map no IDs.
    pub open spec fn maps_nothing(self) -> bool {
        self.uid_map.len() == 0 && self.gid_map.len() == 0
    }

    /// The command that the arguments describe, run by a user and a group.
    /// Where no IDs are mapped, the user and the group are root in the jail.
    pub open spec fn command(self, uid: u32, gid: u32) -> CommandView {
        if self.maps_nothing() {
            self.plain_command().with_root(uid, gid)
        } else {
            self.plain_command()
        }
    }
}

impl Args {
    fn add_mounts(&self, cmd: &mut Command)
        requires
            self.wf(),
            old(cmd).wf(),
            old(cmd)@.mounts.len() == 0,
        ensures
            final(cmd).wf(),
            final(cmd)@ == (CommandView { mounts: self@.mounts, ..old(cmd)@ }),
    {
        let ghost all = mount_views(self.mounts@);
        let mut i: usize = 0;
        assert(old(cmd)@.mounts =~= all.take(0));
        while i < self.mounts.len()
            invariant
                i <= self.mounts@.len(),
                all == mount_views(self.mounts@),
                fresh_writable(all),
                cmd.wf(),
                cmd@ == (CommandView { mounts: all.take(i as int), ..old(cmd)@ }),
            decreases self.mounts@.len() - i,
        {
            let mount = &self.mounts[i];
            let dst = mount.dst.as_slice();
            assert(all[i as int] == mount@);
            assert(all.take(i + 1) =~= all.take(i as int).push(mount@));
            match &mount.src {
                MountSrc::Bind(src) => {
                    cmd.bind_mount(src.as_slice(), dst, mount.writable);
                },
                MountSrc::DevFs => {
                    cmd.devfs_mount(dst);
                },
                MountSrc::ProcFs => {
                    cmd.procfs_mount(dst);
                },
                MountSrc::SysFs => {
                    cmd.sysfs_mount(dst);
                },
                MountSrc::TmpFs => {
                    cmd.tmpfs_mount(dst);
                },
            }
            i += 1;
        }
        assert(all.take(i as int) =~= all);
    }

    fn add_uids(&self, cmd: &mut Command)
        requires
            self.wf(),
            old(cmd).wf(),
            old(cmd)@.uid_map.len() == 0,
        ensures
            final(cmd).wf(),
            final(cmd)@ == (CommandView { uid_map: self@.uid_map, ..old(cmd)@ }),
    {
        let ghost all = map_views(self.uid_map@);
        let mut i: usize = 0;
        assert(old(cmd)@.uid_map =~= all.take(0));
        while i < self.uid_map.len()
            invariant
                i <= self.uid_map@.len(),
                all == map_views(self.uid_map@),
                one_to_one(all),
                cmd.wf(),
                cmd@ == (CommandView { uid_map: all.take(i as int), ..old(cmd)@ }),
            decreases self.uid_map@.len() - i,
        {
            let pair = &self.uid_map[i];
            assert(all[i as int] == (pair.0@, pair.1@));
            assert(all.take(i + 1) =~= all.take(i as int).push((pair.0@, pair.1@)));
            cmd.map_uids(pair.0, pair.1);
            i += 1;
        }
        assert(all.take(i as int) =~= all);
    }

    fn add_gids(&self, cmd: &mut Command)
        requires
            self.wf(),
            old(cmd).wf(),
            old(cmd)@.gid_map.len() == 0,
        ensures
            final(cmd).wf(),
            final(cmd)@ == (CommandView { gid_map: self@.gid_map, ..old(cmd)@ }),
    {
        let ghost all = map_views(self.gid_map@);
        let mut i: usize = 0;
        assert(old(cmd)@.gid_map =~= all.take(0));
        while i < self.gid_map.len()
            invariant
                i <= self.gid_map@.len(),
                all == map_views(self.gid_map@),
                one_to_one(all),
                cmd.wf(),
                cmd@ == (CommandView { gid_map: all.take(i as int), ..old(cmd)@ }),
            decreases self.gid_map@.len() - i,
        {
            let pair = &self.gid_map[i];
            assert(all[i as int] == (pair.0@, pair.1@));
            assert(all.take(i + 1) =~= all.take(i as int).push((pair.0@, pair.1@)));
            cmd.map_gids(pair.0, pair.1);
            i += 1;
        }
        assert(all.take(i as int) =~= all);
    }

    fn plain_command(&self) -> (r: Command)
        requires
            self.wf(),
        ensures
            r.wf(),
            r@.maps_countable(),
            r@ == self@.plain_command(),
    {
        let mut cmd = Command::new(self.program.as_slice());
        let vars = self.env.entries();
        cmd.args(&self.args);
        cmd.envs(&vars);
        cmd.writable_rootfs(self.writable_root);
        cmd.unshare(self.unshare);
        cmd.stdin(Some(Stdio::inherit()));
        cmd.stdout(Some(Stdio::inherit()));
        cmd.stderr(Some(Stdio::inherit()));
        if let Some(rootfs) = &self.rootfs {
            cmd.rootfs(rootfs.as_slice());
        }
        self.add_mounts(&mut cmd);
        self.add_uids(&mut cmd);
        self.add_gids(&mut cmd);
        if let Some(curr_dir) = &self.curr_dir {
            cmd.current_dir(curr_dir.as_slice());
        }
        cmd
    }

    fn is_map_empty(&self) -> (r: bool)
        ensures
            r == self@.maps_nothing(),
    {
        self.uid_map.len() == 0 && self.gid_map.len() == 0
    }

    /// The command that the arguments describe, run by the current user.
    /// Who that is, the system says.
    pub fn command(&self) -> (r: Command)
        requires
            self.wf(),
        ensures
            r.wf(),
            r@.maps_countable(),
            exists|uid: u32, gid: u32| r@ == #[trigger] self@.command(uid, gid),
    {
        let mut cmd = self.plain_command();
        if self.is_map_empty() {
            cmd.user_as_root();
            proof {
                let (uid, gid) = choose|uid: u32, gid: u32|
                    cmd@ == #[trigger] self@.plain_command().with_root(uid, gid);
                assert(cmd@ == self@.command(uid, gid));
            }
        } else {
            assert(cmd@ == self@.command(0, 0));
        }
        cmd
    }

    /// The command that the arguments describe, run by a user and a group.
    pub fn command_as(&self, uid: Uid, gid: Gid) -> (r: Command)
        requires
            self.wf(),
        ensures
            r.wf(),
            r@.maps_countable(),
            r@ == self@.command(uid.raw, gid.raw),
    {
        let mut cmd = self.plain_command();
        if self.is_map_empty() {
            cmd.ids_as_root(uid, gid);
        }
        cmd
    }
}

/// The code with which the program exits when the command has ended.
pub open spec fn exit_code_of(status: Status) -> int {
    match status {
        Status::Exited(code) => code as int,
        Status::Signaled(signal, _) => signal_code(signal),
        _ => 1,
    }
}

/// The code with which the program exits when the command has ended.
pub fn exit_code(status: &ExitStatus) -> (r: i32)
    requires
        exit_code_of(status@) <= i32::MAX,
    ensures
        r == exit_code_of(status@),
{
    if let Some(code) = status.code() {
        return code;
    }
    if let Some(signal) = status.signal() {
        return signal + 128;
    }
    1
}

/// An option means the same by each of its names, and with its value
/// attached or in the next argument. An empty value cannot be attached to a
/// short name.
pub proof fn the_form_of_an_option_does_not_matter(
    args: ArgsView,
    opt: Opt,
    value: Seq<u8>,
    rest: Seq<Seq<u8>>,
)
    requires
        takes_value(opt),
    ensures
        ({
            let apart = args.parse_rest(seq![short(opt), value] + rest);
            &&& args.parse_rest(seq![long(opt), value] + rest) == apart
            &&& args.parse_rest(seq![long(opt) + seq![EQUALS] + value] + rest) == apart
            &&& value.len() > 0 ==> args.parse_rest(seq![short(opt) + value] + rest) == apart
        }),
{
    options_are_given_by_their_names(opt, value);
    let a = seq![short(opt), value] + rest;
    let b = seq![long(opt), value] + rest;
    let c = seq![long(opt) + seq![EQUALS] + value] + rest;
    let d = seq![short(opt) + value] + rest;
    assert(a.skip(2) =~= rest);
    assert(b.skip(2) =~= rest);
    assert(c.skip(1) =~= rest);
    assert(d.skip(1) =~= rest);
}

/// The first argument that is no option is the command, and all that follows
/// it are the arguments of the command, whatever they look like. After `--`
/// any argument is the command.
pub proof fn what_follows_the_command_is_its_own(
    args: ArgsView,
    program: Seq<u8>,
    rest: Seq<Seq<u8>>,
)
    ensures
        !begins_with(program, "-".spec_bytes()) ==> args.parse_rest(seq![program] + rest)
            == ParsedView::Run((ArgsView { program, args: rest, ..args })),
        args.parse_rest(seq!["--".spec_bytes(), program] + rest) == ParsedView::Run(
            (ArgsView { program, args: rest, ..args }),
        ),
{
    let plain = seq![program] + rest;
    let marked = seq!["--".spec_bytes(), program] + rest;
    assert(plain.skip(1) =~= rest);
    assert(marked.skip(2) =~= rest);
    if !begins_with(program, "-".spec_bytes()) {
        only_dashed_arguments_are_options(program);
    }
    the_separator_is_no_option();
}

/// The names of namespaces are read without regard to case.
pub proof fn case_of_namespaces_does_not_matter(a: Seq<u8>, b: Seq<u8>)
    requires
        same_ignoring_case(a, b),
    ensures
        namespace_named(a) == namespace_named(b),
{
    assert forall|text: Seq<u8>| same_ignoring_case(a, text) == same_ignoring_case(b, text) by {
        if same_ignoring_case(a, text) {
            assert forall|i: int| 0 <= i < b.len() implies ascii_lower(#[trigger] b[i])
                == ascii_lower(text[i]) by {
                assert(ascii_lower(a[i]) == ascii_lower(b[i]));
            }
        }
        if same_ignoring_case(b, text) {
            assert forall|i: int| 0 <= i < a.len() implies ascii_lower(#[trigger] a[i])
                == ascii_lower(text[i]) by {
                assert(ascii_lower(b[i]) == ascii_lower(text[i]));
            }
        }
    }
}

/// A mapping maps as many IDs of the host as of the jail, and at least one:
/// as many as its length says, or one if it has none.
pub proof fn a_mapping_is_read_as_written(host: u32, jail: u32, len: u32)
    ensures
        ({
            let pair = decimal(host as nat) + seq![COLON] + decimal(jail as nat);
            let ranged = pair + seq![COLON] + decimal(len as nat);
            &&& mapping_of(pair) == Ok::<_, MapFault>(Some((run_of(host, 1), run_of(jail, 1))))
            &&& 0 < len && host + len <= u32::MAX && jail + len <= u32::MAX ==> {
                &&& mapping_of(ranged) == Ok::<_, MapFault>(
                    Some((run_of(host, len), run_of(jail, len))),
                )
                &&& ids_of(run_of(host, len)).len() == len
                &&& ids_of(run_of(jail, len)).len() == len
            }
        }),
{
    let h = decimal(host as nat);
    let j = decimal(jail as nat);
    let n = decimal(len as nat);
    decimal_denotes(host as nat);
    decimal_denotes(jail as nat);
    decimal_denotes(len as nat);
    decimal_reads_back(host);
    decimal_reads_back(jail);
    decimal_reads_back(len);
    let pair = h + seq![COLON] + j;
    let ranged = pair + seq![COLON] + n;
    let tail = j + seq![COLON] + n;
    lemma_first(h, j, COLON);
    lemma_first(h, tail, COLON);
    lemma_first(j, n, COLON);
    assert(ranged =~= h + seq![COLON] + tail);
    assert(!j.contains(COLON));
    j.index_of_first_ensures(COLON);
}

/// The first separator after a text without one.
proof fn lemma_first(before: Seq<u8>, after: Seq<u8>, sep: u8)
    requires
        !before.contains(sep),
    ensures
        ({
            let s = before + seq![sep] + after;
            &&& s.index_of_first(sep) == Some(before.len() as int)
            &&& s.take(before.len() as int) == before
            &&& s.skip(before.len() as int + 1) == after
        }),
{
    let s = before + seq![sep] + after;
    s.index_of_first_ensures(sep);
    assert(s[before.len() as int] == sep);
    assert(s.take(before.len() as int) =~= before);
    assert(s.skip(before.len() as int + 1) =~= after);
    let i = s.index_of_first(sep).unwrap();
    assert(i < before.len() ==> before[i] == s[i]);
}

proof fn lemma_mappings_added(map: IdMapView, texts: Seq<Seq<u8>>)
    requires
        one_to_one(map),
    ensures
        add_mappings(map, texts) matches Ok(next) ==> one_to_one(next),
    decreases texts.len(),
{
    if texts.len() > 0 {
        lemma_mappings_added(map, texts.skip(1));
        if let Ok(Some(pair)) = mapping_of(texts[0]) {
            lemma_mappings_added(map.push(pair), texts.skip(1));
        }
    }
}

proof fn lemma_mappings_appended(map: IdMapView, texts: Seq<Seq<u8>>)
    ensures
        add_mappings(map, texts) matches Ok(next) ==> map.is_prefix_of(next),
    decreases texts.len(),
{
    if texts.len() > 0 {
        lemma_mappings_appended(map, texts.skip(1));
        if let Ok(Some(pair)) = mapping_of(texts[0]) {
            let longer = map.push(pair);
            lemma_mappings_appended(longer, texts.skip(1));
            if let Ok(next) = add_mappings(longer, texts.skip(1)) {
                assert forall|i: int| 0 <= i < map.len() implies map[i] == next[i] by {
                    assert(longer[i] == next.subrange(0, longer.len() as int)[i]);
                }
            }
        }
    }
}

/// A mapping of no IDs adds nothing, wherever it stands in a list: the others
/// are read, and faults found, as if it were not there.
pub proof fn an_empty_mapping_adds_nothing(
    map: IdMapView,
    before: Seq<Seq<u8>>,
    empty: Seq<u8>,
    after: Seq<Seq<u8>>,
)
    requires
        mapping_of(empty) == Ok::<_, MapFault>(
            None::<(Option<(u32, u32)>, Option<(u32, u32)>)>,
        ),
    ensures
        add_mappings(map, before + seq![empty] + after) == add_mappings(map, before + after),
    decreases before.len(),
{
    let with = before + seq![empty] + after;
    let without = before + after;
    if before.len() == 0 {
        assert(with.skip(1) =~= after);
        assert(without =~= after);
    } else {
        assert(with.skip(1) =~= before.skip(1) + seq![empty] + after);
        assert(without.skip(1) =~= before.skip(1) + after);
        an_empty_mapping_adds_nothing(map, before.skip(1), empty, after);
        if let Ok(Some(pair)) = mapping_of(before[0]) {
            an_empty_mapping_adds_nothing(map.push(pair), before.skip(1), empty, after);
        }
    }
}

/// Mapping user IDs adds to the user IDs that were mapped before and changes
/// nothing else. Where each mapping so far has as many IDs of the host as of
/// the jail, and at least one, so has each mapping after it.
pub proof fn mapping_users_only_adds(args: ArgsView, value: Seq<u8>)
    ensures
        args.with_option(Opt::UidMap, value) matches Ok(next) ==> {
            &&& args.uid_map.is_prefix_of(next.uid_map)
            &&& next == (ArgsView { uid_map: next.uid_map, ..args })
            &&& one_to_one(args.uid_map) ==> one_to_one(next.uid_map)
        },
{
    lemma_mappings_appended(args.uid_map, split(value, COMMA));
    if one_to_one(args.uid_map) {
        lemma_mappings_added(args.uid_map, split(value, COMMA));
    }
}

/// Mapping group IDs adds to the group IDs that were mapped before and
/// changes nothing else. Where each mapping so far has as many IDs of the
/// host as of the jail, and at least one, so has each mapping after it.
pub proof fn mapping_groups_only_adds(args: ArgsView, value: Seq<u8>)
    ensures
        args.with_option(Opt::GidMap, value) matches Ok(next) ==> {
            &&& args.gid_map.is_prefix_of(next.gid_map)
            &&& next == (ArgsView { gid_map: next.gid_map, ..args })
            &&& one_to_one(args.gid_map) ==> one_to_one(next.gid_map)
        },
{
    lemma_mappings_appended(args.gid_map, split(value, COMMA));
    if one_to_one(args.gid_map) {
        lemma_mappings_added(args.gid_map, split(value, COMMA));
    }
}

/// Mappings of user and group IDs are read alike: from equal maps, the same
/// value is accepted for both or for neither, gives the same ranges in the
/// same order or the same fault, and leaves the other map as it was.
pub proof fn users_and_groups_are_mapped_alike(args: ArgsView, value: Seq<u8>)
    requires
        args.uid_map == args.gid_map,
    ensures
        match (args.with_option(Opt::UidMap, value), args.with_option(Opt::GidMap, value)) {
            (Ok(users), Ok(groups)) => {
                &&& users.uid_map == groups.gid_map
                &&& users.gid_map == args.gid_map
                &&& groups.uid_map == args.uid_map
            },
            (Err((users, a)), Err((groups, b))) => {
                &&& a == b
                &&& users matches UsageKind::Mapping(IdKind::User, fault)
                &&& groups == UsageKind::Mapping(IdKind::Group, fault)
            },
            _ => false,
        },
{
}

proof fn lemma_maps_kept(args: ArgsView, argv: Seq<Seq<u8>>)
    requires
        one_to_one(args.uid_map),
        one_to_one(args.gid_map),
    ensures
        args.parse_rest(argv) matches ParsedView::Run(r) ==> one_to_one(r.uid_map) && one_to_one(
            r.gid_map,
        ),
    decreases argv.len(),
{
    if argv.len() > 0 {
        if let Token::Option(opt, attached) = token(argv[0]) {
            if let Some((value, taken)) = value_of(opt, attached, argv) {
                lemma_mappings_added(args.uid_map, split(value, COMMA));
                lemma_mappings_added(args.gid_map, split(value, COMMA));
                if let Ok(next) = args.with_option(opt, value) {
                    lemma_maps_kept(next, argv.skip(taken));
                }
            }
        }
    }
}

/// Every mapping of a command line that is accepted maps as many IDs of the
/// host as of the jail, and its command can be launched: its ranges can be
/// counted.
pub proof fn accepted_mappings_are_one_to_one(argv: Seq<Seq<u8>>, uid: u32, gid: u32)
    ensures
        parse_line(argv) matches ParsedView::Run(args) ==> {
            &&& one_to_one(args.uid_map)
            &&& one_to_one(args.gid_map)
            &&& args.command(uid, gid).maps_countable()
        },
{
    lemma_maps_kept(ArgsView::start(), argv);
}

/// Whether a value defines a variable.
pub open spec fn defines(value: Seq<u8>, name: Seq<u8>) -> bool {
    match value.index_of_first(EQUALS) {
        Some(i) => value.take(i) == name,
        None => false,
    }
}

/// Whether an argument defines a variable, as the value of an option or with
/// the option attached.
pub open spec fn mentions(arg: Seq<u8>, name: Seq<u8>) -> bool {
    ||| defines(arg, name)
    ||| given(Opt::Env, arg) matches Some(Some(value)) && defines(value, name)
}

proof fn lemma_variables(args: ArgsView, argv: Seq<Seq<u8>>, name: Seq<u8>)
    requires
        args.parse_rest(argv) matches ParsedView::Run(r) && r.env.contains_key(name),
    ensures
        args.env.contains_key(name) || exists|i: int|
            0 <= i < argv.len() && mentions(#[trigger] argv[i], name),
    decreases argv.len(),
{
    if argv.len() > 0 {
        if let Token::Option(opt, attached) = token(argv[0]) {
            an_option_was_given(argv[0]);
            if let Some((value, taken)) = value_of(opt, attached, argv) {
                if let Ok(next) = args.with_option(opt, value) {
                    let rest = argv.skip(taken);
                    lemma_variables(next, rest, name);
                    if !next.env.contains_key(name) {
                        let i = choose|i: int|
                            0 <= i < rest.len() && mentions(#[trigger] rest[i], name);
                        assert(argv[i + taken] == rest[i]);
                    } else if !args.env.contains_key(name) {
                        assert(defines(value, name));
                        assert(mentions(argv[taken - 1], name));
                    }
                }
            }
        }
    }
}

/// No variable is set in the jail but those that an argument defines: none
/// comes from the environment of the program.
pub proof fn only_given_variables_are_set(argv: Seq<Seq<u8>>, name: Seq<u8>)
    requires
        parse_line(argv) matches ParsedView::Run(args) && args.env.contains_key(name),
    ensures
        exists|i: int| 0 <= i < argv.len() && mentions(#[trigger] argv[i], name),
{
    lemma_variables(ArgsView::start(), argv, name);
}

proof fn lemma_namespaces_stay(bits: i32, names: Seq<Seq<u8>>)
    ensures
        add_namespaces(bits, names) matches Ok(r) ==> r & bits == bits,
    decreases names.len(),
{
    assert(bits & bits == bits) by (bit_vector);
    if names.len() > 0 {
        if let Some(flags) = namespace_named(names[0]) {
            lemma_namespaces_stay(bits | flags, names.skip(1));
            if let Ok(r) = add_namespaces(bits, names) {
                assert(r & bits == bits) by (bit_vector)
                    requires
                        r & (bits | flags) == bits | flags,
                ;
            }
        }
    }
}

/// Naming namespaces unshares all that are named, and takes none back that
/// were named before.
pub proof fn named_namespaces_are_unshared(bits: i32, names: Seq<Seq<u8>>, i: int)
    requires
        0 <= i < names.len(),
        add_namespaces(bits, names) is Ok,
    ensures
        ({
            let r = add_namespaces(bits, names)->Ok_0;
            let named = namespace_named(names[i]).unwrap();
            &&& r & bits == bits
            &&& namespace_named(names[i]) is Some
            &&& r & named == named
        }),
    decreases names.len(),
{
    lemma_namespaces_stay(bits, names);
    let flags = namespace_named(names[0]).unwrap();
    lemma_namespaces_stay(bits | flags, names.skip(1));
    if i == 0 {
        let r = add_namespaces(bits, names)->Ok_0;
        assert(r & flags == flags) by (bit_vector)
            requires
                r & (bits | flags) == bits | flags,
        ;
    } else {
        assert(names.skip(1)[i - 1] == names[i]);
        named_namespaces_are_unshared(bits | flags, names.skip(1), i - 1);
    }
}

/// The program exits as the monitor of the command does.
pub proof fn the_program_ends_as_the_monitor(order: ByteOrder, report: WaitReport)
    requires
        expected(MonitorState::Waiting, MonitorEvent::Waited(report)),
        reported_end(report) is Some,
    ensures
        monitor_next(order, MonitorState::Waiting, MonitorEvent::Waited(report)).0
            == MonitorState::Ending(exit_code_of(reported_end(report).unwrap()) as isize),
{
}

/// Whether a name stands for a namespace: it is the name of that namespace
/// or `all`, in any case.
pub open spec fn stands_for(name: Seq<u8>, flag: i32) -> bool {
    ||| same_ignoring_case(name, "all".spec_bytes())
    ||| flag == CLONE_NEWCGROUP && same_ignoring_case(name, "cgroup".spec_bytes())
    ||| flag == CLONE_NEWUTS && same_ignoring_case(name, "uts".spec_bytes())
    ||| flag == CLONE_NEWIPC && same_ignoring_case(name, "ipc".spec_bytes())
    ||| flag == CLONE_NEWPID && same_ignoring_case(name, "pid".spec_bytes())
    ||| flag == CLONE_NEWNET && same_ignoring_case(name, "net".spec_bytes())
}

/// Whether a flag is that of a namespace that can be chosen.
pub open spec fn can_be_chosen(flag: i32) -> bool {
    ||| flag == CLONE_NEWCGROUP
    ||| flag == CLONE_NEWUTS
    ||| flag == CLONE_NEWIPC
    ||| flag == CLONE_NEWPID
    ||| flag == CLONE_NEWNET
}

proof fn lemma_namespace_names()
    ensures
        "cgroup".spec_bytes() == seq![0x63u8, 0x67, 0x72, 0x6f, 0x75, 0x70],
        "uts".spec_bytes() == seq![0x75u8, 0x74, 0x73],
        "ipc".spec_bytes() == seq![0x69u8, 0x70, 0x63],
        "pid".spec_bytes() == seq![0x70u8, 0x69, 0x64],
        "net".spec_bytes() == seq![0x6eu8, 0x65, 0x74],
        "all".spec_bytes() == seq![0x61u8, 0x6c, 0x6c],
{
    reveal_strlit("cgroup");
    reveal_strlit("uts");
    reveal_strlit("ipc");
    reveal_strlit("pid");
    reveal_strlit("net");
    reveal_strlit("all");
    assert("cgroup".is_ascii());
    assert("uts".is_ascii());
    assert("ipc".is_ascii());
    assert("pid".is_ascii());
    assert("net".is_ascii());
    assert("all".is_ascii());
    assert("cgroup".spec_bytes() =~= seq![0x63u8, 0x67, 0x72, 0x6f, 0x75, 0x70]);
    assert("uts".spec_bytes() =~= seq![0x75u8, 0x74, 0x73]);
    assert("ipc".spec_bytes() =~= seq![0x69u8, 0x70, 0x63]);
    assert("pid".spec_bytes() =~= seq![0x70u8, 0x69, 0x64]);
    assert("net".spec_bytes() =~= seq![0x6eu8, 0x65, 0x74]);
    assert("all".spec_bytes() =~= seq![0x61u8, 0x6c, 0x6c]);
}

/// Each name stands for its own namespace and no other, and `all` for all
/// five. No other text stands for any.
#[verifier::spinoff_prover]
#[verifier::rlimit(60)]
pub proof fn each_namespace_has_its_own_name(name: Seq<u8>, flag: i32)
    requires
        can_be_chosen(flag),
    ensures
        namespace_named(name) is Some <==> exists|chosen: i32|
            can_be_chosen(chosen) && #[trigger] stands_for(name, chosen),
        namespace_named(name) matches Some(bits) ==> {
            &&& bits & flag == flag <==> stands_for(name, flag)
            &&& bits & flag == 0 <==> !stands_for(name, flag)
            &&& bits & !ALL_NAMESPACES == 0
        },
{
    lemma_namespace_names();
    let f = flag;
    if let Some(bits) = namespace_named(name) {
        let g = bits;
        assert({
            &&& g & f == f <==> (g == f || g == 0x6e00_0000i32)
            &&& g & f == 0 <==> !(g == f || g == 0x6e00_0000i32)
            &&& g & !0x6e00_0000i32 == 0
        }) by (bit_vector)
            requires
                f == 0x0200_0000i32 || f == 0x0400_0000i32 || f == 0x0800_0000i32 || f
                    == 0x2000_0000i32 || f == 0x4000_0000i32,
                g == 0x0200_0000i32 || g == 0x0400_0000i32 || g == 0x0800_0000i32 || g
                    == 0x2000_0000i32 || g == 0x4000_0000i32 || g == 0x6e00_0000i32,
        ;
        if name.len() == 3 {
            let first = ascii_lower(name[0]);
            assert(same_ignoring_case(name, "uts".spec_bytes()) ==> first == 0x75);
            assert(same_ignoring_case(name, "ipc".spec_bytes()) ==> first == 0x69);
            assert(same_ignoring_case(name, "pid".spec_bytes()) ==> first == 0x70);
            assert(same_ignoring_case(name, "net".spec_bytes()) ==> first == 0x6e);
            assert(same_ignoring_case(name, "all".spec_bytes()) ==> first == 0x61);
        }
        let chosen: i32 = if g == ALL_NAMESPACES {
            CLONE_NEWNET
        } else {
            g
        };
        assert(can_be_chosen(chosen) && stands_for(name, chosen));
    }
}

/// After a list of names a namespace is unshared exactly when it was before,
/// or one of the names stands for it. Nothing but namespaces is added.
pub proof fn exactly_the_named_are_unshared(bits: i32, names: Seq<Seq<u8>>, flag: i32)
    requires
        can_be_chosen(flag),
    ensures
        add_namespaces(bits, names) matches Ok(r) ==> {
            &&& r & flag == flag <==> (bits & flag == flag || exists|i: int|
                0 <= i < names.len() && stands_for(#[trigger] names[i], flag))
            &&& r & !ALL_NAMESPACES == bits & !ALL_NAMESPACES
        },
    decreases names.len(),
{
    if names.len() > 0 {
        each_namespace_has_its_own_name(names[0], flag);
        if let Some(g) = namespace_named(names[0]) {
            let f = flag;
            let b = bits;
            assert({
                &&& (b | g) & f == f <==> (b & f == f || g & f == f)
                &&& (b | g) & !0x6e00_0000i32 == b & !0x6e00_0000i32
            }) by (bit_vector)
                requires
                    f == 0x0200_0000i32 || f == 0x0400_0000i32 || f == 0x0800_0000i32 || f
                        == 0x2000_0000i32 || f == 0x4000_0000i32,
                    g & !0x6e00_0000i32 == 0,
            ;
            let rest = names.skip(1);
            exactly_the_named_are_unshared(b | g, rest, flag);
            if exists|i: int| 0 <= i < rest.len() && stands_for(#[trigger] rest[i], flag) {
                let i = choose|i: int| 0 <= i < rest.len() && stands_for(#[trigger] rest[i], flag);
                assert(stands_for(names[i + 1], flag));
            }
            if exists|i: int| 0 <= i < names.len() && stands_for(#[trigger] names[i], flag) {
                let i = choose|i: int|
                    0 <= i < names.len() && stands_for(#[trigger] names[i], flag);
                if i > 0 {
                    assert(stands_for(rest[i - 1], flag));
                }
            }
        }
    }
}

/// Whether a name stands for any namespace.
pub open spec fn names_a_namespace(name: Seq<u8>) -> bool {
    exists|flag: i32| can_be_chosen(flag) && #[trigger] stands_for(name, flag)
}

/// Whether a name is the first in a list that stands for no namespace.
pub open spec fn is_first_unknown(names: Seq<Seq<u8>>, i: int) -> bool {
    &&& 0 <= i < names.len()
    &&& !names_a_namespace(names[i])
    &&& forall|j: int| 0 <= j < i ==> names_a_namespace(#[trigger] names[j])
}

/// A list of names is refused exactly when one of them stands for no
/// namespace, and it is the first such that is complained of.
pub proof fn the_first_unknown_namespace_is_refused(bits: i32, names: Seq<Seq<u8>>)
    ensures
        match add_namespaces(bits, names) {
            Ok(_) => forall|i: int|
                0 <= i < names.len() ==> names_a_namespace(#[trigger] names[i]),
            Err(name) => exists|i: int|
                #[trigger] is_first_unknown(names, i) && names[i] == name,
        },
    decreases names.len(),
{
    if names.len() > 0 {
        let rest = names.skip(1);
        each_namespace_has_its_own_name(names[0], CLONE_NEWNET);
        match namespace_named(names[0]) {
            Some(flags) => {
                the_first_unknown_namespace_is_refused(bits | flags, rest);
                assert forall|i: int| 0 < i < names.len() implies names[i] == rest[i - 1] by {}
                if let Err(name) = add_namespaces(bits | flags, rest) {
                    let i = choose|i: int|
                        #[trigger] is_first_unknown(rest, i) && rest[i] == name;
                    assert(names[i + 1] == rest[i]);
                    assert(is_first_unknown(names, i + 1));
                }
            },
            None => {
                assert(is_first_unknown(names, 0));
            },
        }
    }
}

/// A bind mount can be written to exactly where the option says so, whether
/// or not its value holds a `:`, and changes nothing but the mounts. Its
/// value is the path of the host, `:`, and the path in the jail; a value
/// without `:` is the same as twice that value with `:` between.
pub proof fn bind_mounts_are_read_as_written(
    args: ArgsView,
    host: Seq<u8>,
    jail: Seq<u8>,
    value: Seq<u8>,
)
    requires
        !host.contains(0x3a),
    ensures
        forall|opt: Opt|
            opt is BindMount || opt is RoBindMount ==> {
                &&& #[trigger] args.with_option(opt, value) matches Ok(next)
                &&& next == (ArgsView { mounts: next.mounts, ..args })
                &&& next.mounts.len() == args.mounts.len() + 1
                &&& next.mounts.drop_last() == args.mounts
                &&& next.mounts.last().src is Bind
                &&& next.mounts.last().writable == (opt is BindMount)
            },
        forall|opt: Opt|
            opt is BindMount || opt is RoBindMount ==> {
                &&& #[trigger] args.with_option(opt, host + seq![0x3au8] + jail) matches Ok(next)
                &&& next.mounts.last().src == SourceView::Bind(host)
                &&& next.mounts.last().dst == jail
            },
        forall|opt: Opt|
            opt is BindMount || opt is RoBindMount ==> #[trigger] args.with_option(opt, host)
                == args.with_option(opt, host + seq![0x3au8] + host),
{
    lemma_first(host, jail, COLON);
    lemma_first(host, host, COLON);
    host.index_of_first_ensures(COLON);
    assert forall|opt: Opt| opt is BindMount || opt is RoBindMount implies {
        &&& #[trigger] args.with_option(opt, value) matches Ok(next)
        &&& next == (ArgsView { mounts: next.mounts, ..args })
        &&& next.mounts.len() == args.mounts.len() + 1
        &&& next.mounts.drop_last() == args.mounts
        &&& next.mounts.last().src is Bind
        &&& next.mounts.last().writable == (opt is BindMount)
    } by {
        let m = bind_of(value, opt is BindMount);
        assert(args.mounts.push(m).drop_last() =~= args.mounts);
    }
}

/// The options that mount a filesystem of its own add a mount of that kind,
/// which can be written to, at the path that is their value, and change
/// nothing else.
pub proof fn fresh_mounts_are_of_their_kind(args: ArgsView, opt: Opt, value: Seq<u8>)
    requires
        opt is DevfsMount || opt is ProcfsMount || opt is SysfsMount || opt is TmpfsMount,
    ensures
        ({
            &&& args.with_option(opt, value) matches Ok(next)
            &&& next == (ArgsView { mounts: next.mounts, ..args })
            &&& next.mounts.len() == args.mounts.len() + 1
            &&& next.mounts.drop_last() == args.mounts
            &&& next.mounts.last().dst == value
            &&& next.mounts.last().writable
            &&& next.mounts.last().src is DevFs <==> opt is DevfsMount
            &&& next.mounts.last().src is ProcFs <==> opt is ProcfsMount
            &&& next.mounts.last().src is SysFs <==> opt is SysfsMount
            &&& next.mounts.last().src is TmpFs <==> opt is TmpfsMount
        }),
{
    let next = args.with_option(opt, value)->Ok_0;
    assert(next.mounts.drop_last() =~= args.mounts);
}

/// The root and the current directory are the values of their options, the
/// last of each counts, and the root can be written to once that is asked
/// for. Nothing else changes.
pub proof fn settings_are_the_values_given(args: ArgsView, value: Seq<u8>, again: Seq<u8>)
    ensures
        args.with_option(Opt::Rootfs, value) matches Ok(next) && next.rootfs == Some(value)
            && next.with_option(Opt::Rootfs, again) == args.with_option(Opt::Rootfs, again)
            && next == (ArgsView { rootfs: next.rootfs, ..args }),
        args.with_option(Opt::CurrentDir, value) matches Ok(next) && next.curr_dir == Some(value)
            && next.with_option(Opt::CurrentDir, again) == args.with_option(Opt::CurrentDir, again)
            && next == (ArgsView { curr_dir: next.curr_dir, ..args }),
        args.with_option(Opt::WritableRootfs, value) matches Ok(next) && next.writable_root && next
            == (ArgsView { writable_root: next.writable_root, ..args }),
{
}

/// A variable is what stands before the first `=` of a value, and what
/// follows is what it is set to, in place of what it was set to before. A
/// value without `=` is refused. Nothing else changes.
pub proof fn variables_are_read_as_written(
    args: ArgsView,
    name: Seq<u8>,
    text: Seq<u8>,
    other: Seq<u8>,
)
    requires
        !name.contains(0x3d),
    ensures
        ({
            &&& args.with_option(Opt::Env, name + seq![0x3du8] + text) matches Ok(next)
            &&& next == (ArgsView { env: next.env, ..args })
            &&& next.env.contains_key(name) && next.env[name] == text
            &&& other != name ==> {
                &&& next.env.contains_key(other) == args.env.contains_key(other)
                &&& args.env.contains_key(other) ==> next.env[other] == args.env[other]
            }
        }),
        args.with_option(Opt::Env, name) == Err::<ArgsView, _>((UsageKind::NoEquals, name)),
{
    lemma_first(name, text, EQUALS);
    name.index_of_first_ensures(EQUALS);
}

proof fn lemma_mappings_in_parts(map: IdMapView, a: Seq<Seq<u8>>, b: Seq<Seq<u8>>)
    ensures
        add_mappings(map, a + b) == match add_mappings(map, a) {
            Ok(next) => add_mappings(next, b),
            Err(fault) => Err(fault),
        },
    decreases a.len(),
{
    if a.len() == 0 {
        assert(a + b =~= b);
    } else {
        assert((a + b).skip(1) =~= a.skip(1) + b);
        lemma_mappings_in_parts(map, a.skip(1), b);
        if let Ok(Some(pair)) = mapping_of(a[0]) {
            lemma_mappings_in_parts(map.push(pair), a.skip(1), b);
        }
    }
}

proof fn lemma_namespaces_in_parts(bits: i32, a: Seq<Seq<u8>>, b: Seq<Seq<u8>>)
    ensures
        add_namespaces(bits, a + b) == match add_namespaces(bits, a) {
            Ok(next) => add_namespaces(next, b),
            Err(name) => Err(name),
        },
    decreases a.len(),
{
    if a.len() == 0 {
        assert(a + b =~= b);
    } else {
        assert((a + b).skip(1) =~= a.skip(1) + b);
        if let Some(flags) = namespace_named(a[0]) {
            lemma_namespaces_in_parts(bits | flags, a.skip(1), b);
        }
    }
}

/// Several mappings, or several namespaces, in one value with commas between
/// them are the same as the option given several times.
pub proof fn a_list_is_as_its_parts(args: ArgsView, opt: Opt, a: Seq<u8>, b: Seq<u8>)
    requires
        opt is UidMap || opt is GidMap || opt is Unshare,
    ensures
        args.with_option(opt, a + seq![0x2cu8] + b) == match args.with_option(opt, a) {
            Ok(next) => next.with_option(opt, b),
            Err(err) => Err(err),
        },
{
    lists_are_split_into_their_parts(a, b, COMMA);
    lemma_mappings_in_parts(args.uid_map, split(a, COMMA), split(b, COMMA));
    lemma_mappings_in_parts(args.gid_map, split(a, COMMA), split(b, COMMA));
    lemma_namespaces_in_parts(args.unshare, split(a, COMMA), split(b, COMMA));
}

/// A single mapping adds the pair of ranges that it stands for at the end of
/// its map, or nothing where it maps no IDs; one that is not valid is refused
/// with its fault. The other map stays, and so does all else.
pub proof fn a_mapping_goes_to_its_map(args: ArgsView, text: Seq<u8>)
    requires
        !text.contains(0x2c),
    ensures
        match mapping_of(text) {
            Ok(Some((host, jail))) => {
                &&& args.with_option(Opt::UidMap, text) matches Ok(users)
                &&& users == (ArgsView { uid_map: users.uid_map, ..args })
                &&& users.uid_map.len() == args.uid_map.len() + 1
                &&& users.uid_map.drop_last() == args.uid_map
                &&& users.uid_map.last().0 == host && users.uid_map.last().1 == jail
                &&& args.with_option(Opt::GidMap, text) matches Ok(groups)
                &&& groups == (ArgsView { gid_map: groups.gid_map, ..args })
                &&& groups.gid_map.len() == args.gid_map.len() + 1
                &&& groups.gid_map.drop_last() == args.gid_map
                &&& groups.gid_map.last().0 == host && groups.gid_map.last().1 == jail
            },
            Ok(None) => {
                &&& args.with_option(Opt::UidMap, text) == Ok::<_, (UsageKind, Seq<u8>)>(args)
                &&& args.with_option(Opt::GidMap, text) == Ok::<_, (UsageKind, Seq<u8>)>(args)
            },
            Err(fault) => {
                &&& args.with_option(Opt::UidMap, text) == Err::<ArgsView, _>(
                    (UsageKind::Mapping(IdKind::User, fault), text),
                )
                &&& args.with_option(Opt::GidMap, text) == Err::<ArgsView, _>(
                    (UsageKind::Mapping(IdKind::Group, fault), text),
                )
            },
        },
{
    splitting_is_at_separators(text, text, COMMA);
    let texts = seq![text];
    assert(texts.skip(1) =~= Seq::empty());
    reveal_with_fuel(add_mappings, 2);
    if let Ok(Some(pair)) = mapping_of(text) {
        assert(args.uid_map.push(pair).drop_last() =~= args.uid_map);
        assert(args.gid_map.push(pair).drop_last() =~= args.gid_map);
    }
}

/// A single name unshares what it stands for besides what was unshared
/// before, and nothing else changes.
pub proof fn a_name_is_added_to_the_namespaces(args: ArgsView, name: Seq<u8>, flag: i32)
    requires
        !name.contains(0x2c),
        can_be_chosen(flag),
    ensures
        match args.with_option(Opt::Unshare, name) {
            Ok(next) => {
                &&& next == (ArgsView { unshare: next.unshare, ..args })
                &&& next.unshare & flag == flag <==> (args.unshare & flag == flag || stands_for(
                    name,
                    flag,
                ))
                &&& next.unshare & !ALL_NAMESPACES == args.unshare & !ALL_NAMESPACES
            },
            Err((kind, text)) => kind is UnknownNamespace && text == name && !names_a_namespace(
                name,
            ),
        },
{
    splitting_is_at_separators(name, name, COMMA);
    let names = seq![name];
    exactly_the_named_are_unshared(args.unshare, names, flag);
    the_first_unknown_namespace_is_refused(args.unshare, names);
    assert(names[0] == name);
}

/// What is wrong with a mapping: without `:` it has no separator. Otherwise
/// both IDs must be numbers, and so must the length, if there is one. A
/// length of 0 maps nothing, and a range that the IDs do not hold is refused,
/// first that of the host.
#[verifier::spinoff_prover]
#[verifier::rlimit(60)]
pub proof fn mappings_are_judged_by_their_parts(host: Seq<u8>, jail: Seq<u8>, len: Seq<u8>)
    requires
        !host.contains(0x3a),
        !jail.contains(0x3a),
    ensures
        ({
            let one = mapping_of(host + seq![0x3au8] + jail);
            let many = mapping_of(host + seq![0x3au8] + jail + seq![0x3au8] + len);
            &&& mapping_of(host) matches Err(fault) && fault is NoSeparator
            &&& as_u32(host) is None || as_u32(jail) is None ==> {
                &&& one matches Err(fault) && fault is NotAnId
                &&& many matches Err(fault) && fault is NotAnId
            }
            &&& as_u32(host) matches Some(h) ==> as_u32(jail) matches Some(j) ==> {
                &&& one matches Ok(Some((hosts, jails)))
                &&& hosts == Some((h, h)) && jails == Some((j, j))
                &&& as_u32(len) is None ==> (many matches Err(fault) && fault is NotALength)
                &&& as_u32(len) matches Some(n) ==> {
                    &&& n == 0 ==> (many matches Ok(pair) && pair is None)
                    &&& n > 0 && h + n > u32::MAX ==> (many matches Err(fault) && fault
                        is HostRange)
                    &&& n > 0 && h + n <= u32::MAX < j + n ==> (many matches Err(fault)
                        && fault is JailRange)
                    &&& n > 0 && h + n <= u32::MAX && j + n <= u32::MAX ==> {
                        &&& many matches Ok(Some((hosts, jails)))
                        &&& hosts matches Some((a, b)) && a == h && b == h + n - 1
                        &&& jails matches Some((a, b)) && a == j && b == j + n - 1
                    }
                }
            }
        }),
{
    let tail = jail + seq![0x3au8] + len;
    lemma_first(host, jail, COLON);
    lemma_first(host, tail, COLON);
    lemma_first(jail, len, COLON);
    assert(host + seq![0x3au8] + jail + seq![0x3au8] + len =~= host + seq![0x3au8] + tail);
    host.index_of_first_ensures(COLON);
    jail.index_of_first_ensures(COLON);
}

/// Options are read in turn: after an option with its value, or after one
/// that has none, the rest is read with what the option changed; where the
/// value is not valid, that is complained of and nothing more is read.
pub proof fn options_are_read_in_turn(
    args: ArgsView,
    opt: Opt,
    value: Seq<u8>,
    rest: Seq<Seq<u8>>,
)
    ensures
        takes_value(opt) ==> args.parse_rest(seq![long(opt), value] + rest) == match args.with_option(
            opt,
            value,
        ) {
            Ok(next) => next.parse_rest(rest),
            Err((kind, text)) => ParsedView::Usage(kind, text),
        },
        takes_value(opt) ==> args.parse_rest(seq![short(opt)]) == ParsedView::Usage(
            UsageKind::MissingValue(opt),
            short(opt),
        ),
        takes_value(opt) ==> args.parse_rest(seq![long(opt)]) == ParsedView::Usage(
            UsageKind::MissingValue(opt),
            long(opt),
        ),
        args.parse_rest(seq![short(Opt::WritableRootfs)] + rest) == (ArgsView {
            writable_root: true,
            ..args
        }).parse_rest(rest),
        args.parse_rest(seq![long(Opt::WritableRootfs)] + rest) == (ArgsView {
            writable_root: true,
            ..args
        }).parse_rest(rest),
        args.parse_rest(seq![short(Opt::Help)] + rest) is Help,
        args.parse_rest(seq![long(Opt::Help)] + rest) is Help,
{
    options_are_given_by_their_names(opt, value);
    options_are_given_by_their_names(Opt::WritableRootfs, value);
    options_are_given_by_their_names(Opt::Help, value);
    assert((seq![long(opt), value] + rest).skip(2) =~= rest);
    assert((seq![short(Opt::WritableRootfs)] + rest).skip(1) =~= rest);
    assert((seq![long(Opt::WritableRootfs)] + rest).skip(1) =~= rest);
}

/// Reading begins with nothing set. Without any arguments the help is asked
/// for; with options but no command, or `--` but no command, the command is
/// missing; and what looks like an option and is none is refused.
pub proof fn a_command_is_needed(args: ArgsView, arg: Seq<u8>, rest: Seq<Seq<u8>>)
    ensures
        parse_line(Seq::empty()) is Help,
        parse_line(seq![arg] + rest) == ArgsView::start().parse_rest(seq![arg] + rest),
        args.parse_rest(Seq::empty()) matches ParsedView::Usage(kind, _) && kind
            is MissingCommand,
        args.parse_rest(seq!["--".spec_bytes()]) matches ParsedView::Usage(kind, _) && kind
            is MissingCommandAfterSeparator,
        begins_with(arg, "-".spec_bytes()) && arg != "--".spec_bytes() && (forall|opt: Opt|
            given(opt, arg) is None) ==> args.parse_rest(seq![arg] + rest) == ParsedView::Usage(
            UsageKind::UnexpectedOption,
            arg,
        ),
        ({
            let start = ArgsView::start();
            &&& start.rootfs is None && start.curr_dir is None && !start.writable_root
            &&& start.mounts.len() == 0 && start.uid_map.len() == 0 && start.gid_map.len() == 0
            &&& start.unshare == 0
            &&& forall|name: Seq<u8>| !start.env.contains_key(name)
        }),
{
    the_separator_is_no_option();
    every_argument_is_something(arg);
    assert((seq![arg] + rest)[0] == arg);
    if token(arg) is Program {
        assert(!begins_with(arg, "-".spec_bytes()));
    }
}

/// The command of a command line has what the command line gives: its root,
/// read-only unless asked otherwise, its mounts and IDs, its namespaces, its
/// program, which is also its first argument, and the other arguments, its
/// variables and its directory. Its streams are those of the program that
/// runs it. Where no IDs are mapped, the user and the group are root.
pub proof fn a_command_line_describes_its_command(args: ArgsView, uid: u32, gid: u32)
    ensures
        ({
            let cmd = args.command(uid, gid);
            let bare = args.uid_map.len() == 0 && args.gid_map.len() == 0;
            &&& cmd.rootfs == args.rootfs
            &&& cmd.ro_root == !args.writable_root
            &&& cmd.mounts == args.mounts
            &&& cmd.unshare == args.unshare
            &&& cmd.program == args.program
            &&& cmd.args.len() == args.args.len() + 1
            &&& cmd.args[0] == args.program
            &&& cmd.args.skip(1) == args.args
            &&& cmd.env == args.env
            &&& cmd.curr_dir == args.curr_dir
            &&& cmd.stdin == Some(StdioInner::Inherit)
            &&& cmd.stdout == Some(StdioInner::Inherit)
            &&& cmd.stderr == Some(StdioInner::Inherit)
            &&& !bare ==> cmd.uid_map == args.uid_map && cmd.gid_map == args.gid_map
            &&& bare ==> {
                &&& cmd.uid_map.len() == 1 && cmd.gid_map.len() == 1
                &&& ids_of(cmd.uid_map[0].0) == seq![uid as int]
                &&& ids_of(cmd.uid_map[0].1) == seq![0int]
                &&& ids_of(cmd.gid_map[0].0) == seq![gid as int]
                &&& ids_of(cmd.gid_map[0].1) == seq![0int]
            }
        }),
{
    let cmd = args.command(uid, gid);
    assert(cmd.args.skip(1) =~= args.args);
    root_is_one_user_and_one_group(args.plain_command(), uid, gid);
}

/// The program exits with the code of the command, or with 128 more than the
/// number of the signal that killed it.
pub proof fn the_program_ends_as_the_command_did(code: i32, signal: i32, dumped: bool)
    ensures
        exit_code_of(Status::Exited(code)) == code,
        exit_code_of(Status::Signaled(signal, dumped)) == signal + 128,
{
}

/// What was read from a command line is seen as it is.
pub proof fn results_are_seen_whole(parsed: Parsed)
    ensures
        match parsed {
            Parsed::Run(args) => parsed@ == ParsedView::Run(args@),
            Parsed::Help => parsed@ is Help,
            Parsed::Usage(err) => parsed@ == ParsedView::Usage(err.kind, err.arg@),
        },
{
}

} // verus!
