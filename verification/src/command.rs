//! The description of a process that runs in a jail.
use crate::bytes::{
    copy, copy_all, opt_view, push_text, split, split_then_join, splitting_is_at_separators, views,
    NEWLINE, SPACE,
};
use crate::decimal::{
    as_u32, decimal, decimal_reads_back, decimals_are_plain, push_decimal, push_signed_decimal,
    signed_decimal,
};
use crate::environ::{define_all, names_differ, var_views, Environ};
use crate::id_range::{
    countable_range, ids_of, what_can_be_counted, Gid, GidRange, Id, IdRange, Uid, UidRange,
};
use crate::namespace::{jail_flags, Namespace};
use crate::stdio::{target_of, Stdio, StdioInner, StdioTarget, Stream};
use vstd::prelude::*;
use vstd::string::*;

verus! {

/// What is mounted in a jail.
#[derive(Debug)]
pub enum MountSrc {
    /// A directory of the host.
    Bind(Vec<u8>),
    /// A filesystem with the common devices.
    DevFs,
    /// A procfs.
    ProcFs,
    /// A sysfs.
    SysFs,
    /// A tmpfs.
    TmpFs,
}

/// A mount in a jail.
#[derive(Debug)]
pub struct Mount {
    /// What is mounted.
    pub src: MountSrc,
    /// The path in the jail where it is mounted.
    pub dst: Vec<u8>,
    /// Whether it can be written to from within the jail.
    pub writable: bool,
}

/// Builder for constructing a jailed process.
///
/// A jailed process runs in an isolated environment, typically for the
/// purpose of protecting the host environment from effects of the
/// process to be jailed. It is also useful for running a command in
/// an easily reproduceable environment across distinct systems.
#[derive(Debug)]
pub struct Command {
    rootfs: Option<Vec<u8>>,
    ro_root: bool,
    mounts: Vec<Mount>,
    uid_map: Vec<(UidRange, UidRange)>,
    gid_map: Vec<(GidRange, GidRange)>,
    unshare: Namespace,
    program: Vec<u8>,
    args: Vec<Vec<u8>>,
    env: Environ,
    curr_dir: Option<Vec<u8>>,
    stdin: Option<Stdio>,
    stdout: Option<Stdio>,
    stderr: Option<Stdio>,
}

/// The contents of a [`MountSrc`].
pub enum SourceView {
    /// A directory of the host.
    Bind(Seq<u8>),
    /// A filesystem with the common devices.
    DevFs,
    /// A procfs.
    ProcFs,
    /// A sysfs.
    SysFs,
    /// A tmpfs.
    TmpFs,
}

/// The contents of a [`Mount`].
pub struct MountView {
    /// What is mounted.
    pub src: SourceView,
    /// The path in the jail where it is mounted.
    pub dst: Seq<u8>,
    /// Whether it can be written to from within the jail.
    pub writable: bool,
}

/// Pairs of a range of host IDs and the range of jail IDs that stand for them.
pub type IdMapView = Seq<(Option<(u32, u32)>, Option<(u32, u32)>)>;

/// The contents of a [`Command`].
#[verifier::ext_equal]
pub struct CommandView {
    /// The host directory that is the root of the jail; without one, the
    /// current directory.
    pub rootfs: Option<Seq<u8>>,
    /// Whether the root of the jail is read-only.
    pub ro_root: bool,
    /// The mounts, in order.
    pub mounts: Seq<MountView>,
    /// The user IDs of the jail.
    pub uid_map: IdMapView,
    /// The group IDs of the jail.
    pub gid_map: IdMapView,
    /// The namespaces that are unshared, besides those that always are.
    pub unshare: i32,
    /// The program.
    pub program: Seq<u8>,
    /// Its arguments, the first of which is its name.
    pub args: Seq<Seq<u8>>,
    /// Its environment.
    pub env: Map<Seq<u8>, Seq<u8>>,
    /// The directory in the jail where it starts.
    pub curr_dir: Option<Seq<u8>>,
    /// Where its standard input leads.
    pub stdin: Option<StdioInner>,
    /// Where its standard output leads.
    pub stdout: Option<StdioInner>,
    /// Where its standard error leads.
    pub stderr: Option<StdioInner>,
}

/// What is to be written to a file.
#[derive(Debug)]
pub struct FileWrite {
    /// The path of the file.
    pub path: Vec<u8>,
    /// The contents.
    pub contents: Vec<u8>,
}

/// What the program of a jail is started with.
#[derive(Debug)]
pub struct ExecPlan {
    /// The path of the program in the jail.
    pub program: Vec<u8>,
    /// The name that the program sees itself under.
    pub arg0: Vec<u8>,
    /// The arguments after the name.
    pub args: Vec<Vec<u8>>,
    /// The whole environment.
    pub env: Vec<(Vec<u8>, Vec<u8>)>,
    /// The directory in the jail where the program starts.
    pub curr_dir: Option<Vec<u8>>,
}

impl View for MountSrc {
    type V = SourceView;

    open spec fn view(&self) -> SourceView {
        match *self {
            MountSrc::Bind(path) => SourceView::Bind(path@),
            MountSrc::DevFs => SourceView::DevFs,
            MountSrc::ProcFs => SourceView::ProcFs,
            MountSrc::SysFs => SourceView::SysFs,
            MountSrc::TmpFs => SourceView::TmpFs,
        }
    }
}

impl View for Mount {
    type V = MountView;

    open spec fn view(&self) -> MountView {
        MountView { src: self.src@, dst: self.dst@, writable: self.writable }
    }
}

/// The contents of mounts.
pub open spec fn mount_views(mounts: Seq<Mount>) -> Seq<MountView> {
    mounts.map_values(|m: Mount| m@)
}

/// The contents of pairs of ranges.
pub open spec fn map_views<T: Id>(map: Seq<(IdRange<T>, IdRange<T>)>) -> IdMapView {
    map.map_values(|p: (IdRange<T>, IdRange<T>)| (p.0@, p.1@))
}

/// The redirection of a stream, if one was given.
pub open spec fn stdio_view(stdio: Option<Stdio>) -> Option<StdioInner> {
    match stdio {
        Some(stdio) => Some(stdio.inner),
        None => None,
    }
}

/// The path and the contents of a file to be written.
pub open spec fn file_view(file: FileWrite) -> (Seq<u8>, Seq<u8>) {
    (file.path@, file.contents@)
}

/// The paths and the contents of files to be written, in order.
pub open spec fn file_views(files: Seq<FileWrite>) -> Seq<(Seq<u8>, Seq<u8>)> {
    files.map_values(|f: FileWrite| file_view(f))
}

/// Whether every range that is to be counted can be.
pub open spec fn map_countable(map: IdMapView) -> bool {
    forall|i: int|
        0 <= i < map.len() && (#[trigger] map[i]).0 is Some && map[i].1 is Some
            ==> countable_range(map[i].0)
}

/// The line of an ID map file for a pair of ranges: the first ID in the
/// jail, the first ID on the host, and the number of IDs on the host. A pair
/// with an empty range has no line.
pub open spec fn map_line(pair: (Option<(u32, u32)>, Option<(u32, u32)>)) -> Seq<u8> {
    match pair {
        (Some(host), Some(jail)) => decimal(jail.0 as nat) + seq![SPACE] + decimal(host.0 as nat)
            + seq![SPACE] + decimal((host.1 - host.0 + 1) as nat) + seq![NEWLINE],
        _ => Seq::empty(),
    }
}

/// The contents of an ID map file.
pub open spec fn map_text(map: IdMapView) -> Seq<u8>
    decreases map.len(),
{
    if map.len() == 0 {
        Seq::empty()
    } else {
        map_text(map.drop_last()) + map_line(map.last())
    }
}

/// A file of a process below `/proc`.
pub open spec fn proc_file(pid: i32, name: Seq<u8>) -> Seq<u8> {
    "/proc/".spec_bytes() + signed_decimal(pid as int) + name
}

/// The files by which the user IDs of a jail are set: none where no IDs are
/// mapped.
pub open spec fn uid_files(map: IdMapView, pid: i32) -> Seq<(Seq<u8>, Seq<u8>)> {
    if map.len() == 0 {
        Seq::empty()
    } else {
        seq![(proc_file(pid, "/uid_map".spec_bytes()), map_text(map))]
    }
}

/// The files by which the group IDs of a jail are set: none where no IDs are
/// mapped. The jail is denied `setgroups` before its map is written.
pub open spec fn gid_files(map: IdMapView, pid: i32) -> Seq<(Seq<u8>, Seq<u8>)> {
    if map.len() == 0 {
        Seq::empty()
    } else {
        seq![
            (proc_file(pid, "/setgroups".spec_bytes()), "deny".spec_bytes()),
            (proc_file(pid, "/gid_map".spec_bytes()), map_text(map)),
        ]
    }
}

impl CommandView {
    /// A command that runs a program without any further setting.
    pub open spec fn of_program(program: Seq<u8>) -> CommandView {
        CommandView {
            rootfs: None,
            ro_root: true,
            mounts: Seq::empty(),
            uid_map: Seq::empty(),
            gid_map: Seq::empty(),
            unshare: 0,
            program,
            args: seq![program],
            env: Map::empty(),
            curr_dir: None,
            stdin: None,
            stdout: None,
            stderr: None,
        }
    }

    /// The command with a mount added.
    pub open spec fn with_mount(self, src: SourceView, dst: Seq<u8>, writable: bool) -> CommandView {
        CommandView { mounts: self.mounts.push(MountView { src, dst, writable }), ..self }
    }

    /// The command with user IDs mapped, unless the host range is empty.
    pub open spec fn with_uids(
        self,
        host: Option<(u32, u32)>,
        jail: Option<(u32, u32)>,
    ) -> CommandView {
        if host is None {
            self
        } else {
            CommandView { uid_map: self.uid_map.push((host, jail)), ..self }
        }
    }

    /// The command with group IDs mapped, unless the host range is empty.
    pub open spec fn with_gids(
        self,
        host: Option<(u32, u32)>,
        jail: Option<(u32, u32)>,
    ) -> CommandView {
        if host is None {
            self
        } else {
            CommandView { gid_map: self.gid_map.push((host, jail)), ..self }
        }
    }

    /// The command with one user and one group mapped to 0.
    pub open spec fn with_root(self, uid: u32, gid: u32) -> CommandView {
        self.with_uids(Some((uid, uid)), Some((0, 0))).with_gids(Some((gid, gid)), Some((0, 0)))
    }

    /// Where a stream leads.
    pub open spec fn stream(self, stream: Stream) -> Option<StdioInner> {
        match stream {
            Stream::Stdin => self.stdin,
            Stream::Stdout => self.stdout,
            Stream::Stderr => self.stderr,
        }
    }

    /// Whether a stream leads to a pipe of its own, where streams that were
    /// not set lead to `default`.
    pub open spec fn piped(self, stream: Stream, default: StdioInner) -> bool {
        match self.stream(stream) {
            Some(inner) => inner is Pipe,
            None => default is Pipe,
        }
    }

    /// What a stream is set to when the program starts.
    pub open spec fn target(self, stream: Stream, piped: bool) -> StdioTarget {
        if piped {
            StdioTarget::Pipe
        } else {
            match self.stream(stream) {
                Some(inner) => target_of(inner),
                None => StdioTarget::Inherit,
            }
        }
    }

    /// The stream by whose terminal the jail gets a console: the first of
    /// standard output, input and error that was set to be inherited.
    pub open spec fn console(self) -> Option<Stream> {
        if self.stdout == Some(StdioInner::Inherit) {
            Some(Stream::Stdout)
        } else if self.stdin == Some(StdioInner::Inherit) {
            Some(Stream::Stdin)
        } else if self.stderr == Some(StdioInner::Inherit) {
            Some(Stream::Stderr)
        } else {
            None
        }
    }

    /// The files by which the IDs of the jail are set, in order.
    pub open spec fn id_files(self, pid: i32) -> Seq<(Seq<u8>, Seq<u8>)> {
        uid_files(self.uid_map, pid) + gid_files(self.gid_map, pid)
    }

    /// Whether the ranges that are mapped can be counted.
    pub open spec fn maps_countable(self) -> bool {
        map_countable(self.uid_map) && map_countable(self.gid_map)
    }
}

impl View for Command {
    type V = CommandView;

    closed spec fn view(&self) -> CommandView {
        CommandView {
            rootfs: opt_view(self.rootfs),
            ro_root: self.ro_root,
            mounts: mount_views(self.mounts@),
            uid_map: map_views(self.uid_map@),
            gid_map: map_views(self.gid_map@),
            unshare: self.unshare@,
            program: self.program@,
            args: views(self.args@),
            env: self.env@,
            curr_dir: opt_view(self.curr_dir),
            stdin: stdio_view(self.stdin),
            stdout: stdio_view(self.stdout),
            stderr: stdio_view(self.stderr),
        }
    }
}

/// The effective user ID of the process, by `nix::unistd::Uid::effective`.
/// It is any number: it depends on who runs the process.
#[verifier::external_body]
fn effective_uid() -> (r: u32) {
    nix::unistd::Uid::effective().as_raw()
}

/// The effective group ID of the process, by `nix::unistd::Gid::effective`.
/// It is any number: it depends on who runs the process.
#[verifier::external_body]
fn effective_gid() -> (r: u32) {
    nix::unistd::Gid::effective().as_raw()
}

impl Command {
    /// Whether the arguments hold the name of the program and the variables
    /// are held once each.
    pub closed spec fn wf(self) -> bool {
        self.args@.len() >= 1 && self.env.wf()
    }

    /// Creates a new [`Command`] that will run `program` in the jail.
    ///
    /// `program` must correspond to an executable inside the jail.
    pub fn new(program: &[u8]) -> (r: Command)
        ensures
            r.wf(),
            r@ == CommandView::of_program(program@),
    {
        let mut args: Vec<Vec<u8>> = Vec::new();
        args.push(copy(program));
        let r = Command {
            rootfs: None,
            ro_root: true,
            mounts: Vec::new(),
            uid_map: Vec::new(),
            gid_map: Vec::new(),
            unshare: Namespace::empty(),
            program: copy(program),
            args,
            env: Environ::new(),
            curr_dir: None,
            stdin: None,
            stdout: None,
            stderr: None,
        };
        assert(r@ =~= CommandView::of_program(program@));
        r
    }

    /// Sets the root filesystem for the jail.
    ///
    /// `path` must be a host system path to a directory. If not provided,
    /// the current working directory will be used.
    pub fn rootfs(&mut self, path: &[u8]) -> (r: &mut Self)
        requires
            old(self).wf(),
        ensures
            r.wf(),
            r@ == (CommandView { rootfs: Some(path@), ..old(self)@ }),
            *final(self) == *final(r),
    {
        self.rootfs = Some(copy(path));
        self
    }

    /// Sets whether the root filesystem is writable.
    ///
    /// By default, the root filesystem is mounted in read-only mode.
    pub fn writable_rootfs(&mut self, writable: bool) -> (r: &mut Self)
        requires
            old(self).wf(),
        ensures
            r.wf(),
            r@ == (CommandView { ro_root: !writable, ..old(self)@ }),
            *final(self) == *final(r),
    {
        self.ro_root = !writable;
        self
    }

    /// Specifies a directory to be bind mounted in the jail.
    ///
    /// `host_path` must be a path to directory on the host system.
    /// `jail_path` will be created inside the jail if it doesn't already
    /// exist. `writable` specifies whether the mounted directory
    /// will be writable from within the jail.
    pub fn bind_mount(&mut self, host_path: &[u8], jail_path: &[u8], writable: bool) -> (r:
        &mut Self)
        requires
            old(self).wf(),
        ensures
            r.wf(),
            r@ == old(self)@.with_mount(SourceView::Bind(host_path@), jail_path@, writable),
            *final(self) == *final(r),
    {
        self.add_mount(MountSrc::Bind(copy(host_path)), jail_path, writable);
        self
    }

    /// Specifies a path within the jail to mount a pseudo-devfs filesystem.
    ///
    /// Note that the mounted devfs filesystem will not be a true `devfs` or
    /// `devtmpfs`. Instead, a mock devfs filesystem will be created including
    /// commonly needed utilities such as `/dev/null` and `/dev/urandom`.
    ///
    /// Full listing of the contents of the pseudo-devfs filesystem:
    /// * `null`
    /// * `full`
    /// * `zero`
    /// * `random`
    /// * `urandom`
    /// * `tty`
    /// * `stdin`
    /// * `stdout`
    /// * `stderr`
    /// * `fd`
    /// * `core`
    /// * `shm`
    /// * `pts`
    /// * `ptmx`
    /// * `console`*
    ///
    /// *`console` is only included if stdio is a TTY.
    ///
    /// Some resources in the pseudo-devfs may require a procfs mount to
    /// function properly.
    pub fn devfs_mount(&mut self, jail_path: &[u8]) -> (r: &mut Self)
        requires
            old(self).wf(),
        ensures
            r.wf(),
            r@ == old(self)@.with_mount(SourceView::DevFs, jail_path@, true),
            *final(self) == *final(r),
    {
        self.add_mount(MountSrc::DevFs, jail_path, true);
        self
    }

    /// Specifies a path within the jail to mount a procfs filesystem.
    pub fn procfs_mount(&mut self, jail_path: &[u8]) -> (r: &mut Self)
        requires
            old(self).wf(),
        ensures
            r.wf(),
            r@ == old(self)@.with_mount(SourceView::ProcFs, jail_path@, true),
            *final(self) == *final(r),
    {
        self.add_mount(MountSrc::ProcFs, jail_path, true);
        self
    }

    /// Specifies a path within the jail to mount a sysfs filesystem.
    pub fn sysfs_mount(&mut self, jail_path: &[u8]) -> (r: &mut Self)
        requires
            old(self).wf(),
        ensures
            r.wf(),
            r@ == old(self)@.with_mount(SourceView::SysFs, jail_path@, true),
            *final(self) == *final(r),
    {
        self.add_mount(MountSrc::SysFs, jail_path, true);
        self
    }

    /// Specifies a path within the jail to mount a tmpfs filesystem.
    pub fn tmpfs_mount(&mut self, jail_path: &[u8]) -> (r: &mut Self)
        requires
            old(self).wf(),
        ensures
            r.wf(),
            r@ == old(self)@.with_mount(SourceView::TmpFs, jail_path@, true),
            *final(self) == *final(r),
    {
        self.add_mount(MountSrc::TmpFs, jail_path, true);
        self
    }

    fn add_mount(&mut self, src: MountSrc, dst: &[u8], writable: bool)
        requires
            old(self).wf(),
        ensures
            final(self).wf(),
            final(self)@ == old(self)@.with_mount(src@, dst@, writable),
    {
        self.mounts.push(Mount { src, dst: copy(dst), writable });
        assert(self@ =~= old(self)@.with_mount(src@, dst@, writable));
    }

    /// Maps a range of jail UIDs to a range of host UIDs.
    ///
    /// Typically, it is desired to map the caller's UID to UID 0 (root),
    /// which allows the process operate as if it were running as root
    /// within the jail. However, any UID can be mapped to any other UID
    /// as desired.
    ///
    /// The `host_uids` range must be the same size as the `jail_uids`
    /// range.
    ///
    /// Multiple range pairs can be specified by calling this function
    /// multiple times, but it is required for no single host or jail
    /// UID to be specified more than once.
    pub fn map_uids(&mut self, host_uids: UidRange, jail_uids: UidRange) -> (r: &mut Self)
        requires
            old(self).wf(),
        ensures
            r.wf(),
            r@ == old(self)@.with_uids(host_uids@, jail_uids@),
            *final(self) == *final(r),
    {
        if !host_uids.is_empty() {
            self.uid_map.push((host_uids, jail_uids));
        }
        assert(self@ =~= old(self)@.with_uids(host_uids@, jail_uids@));
        self
    }

    /// Maps a range of jail GIDs to a range of host GIDs.
    ///
    /// Typically, it is desired to map the caller's GID to GID 0 (root).
    /// However, any GID can be mapped to any other GID as desired.
    ///
    /// The `host_gids` range must be the same size as the `jail_gids`
    /// range.
    ///
    /// Multiple range pairs can be specified by calling this function
    /// multiple times, but it is required for no single host or jail
    /// GID to be specified more than once.
    pub fn map_gids(&mut self, host_gids: GidRange, jail_gids: GidRange) -> (r: &mut Self)
        requires
            old(self).wf(),
        ensures
            r.wf(),
            r@ == old(self)@.with_gids(host_gids@, jail_gids@),
            *final(self) == *final(r),
    {
        if !host_gids.is_empty() {
            self.gid_map.push((host_gids, jail_gids));
        }
        assert(self@ =~= old(self)@.with_gids(host_gids@, jail_gids@));
        self
    }

    /// Maps a host UID and a host GID to 0 (root) in the jail.
    pub fn ids_as_root(&mut self, uid: Uid, gid: Gid) -> (r: &mut Self)
        requires
            old(self).wf(),
        ensures
            r.wf(),
            r@ == old(self)@.with_root(uid.raw, gid.raw),
            *final(self) == *final(r),
    {
        self.map_uids(UidRange::from(uid), UidRange::from(0u32));
        self.map_gids(GidRange::from(gid), GidRange::from(0u32));
        self
    }

    /// Maps the current host UID and GID to 0 (root) in the jail.
    ///
    /// This function is a convenience wrapper around
    /// [`map_uids`](Self::map_uids) and [`map_gids`](Self::map_gids)
    /// to map the current effective UID and GID to 0.
    pub fn user_as_root(&mut self) -> (r: &mut Self)
        requires
            old(self).wf(),
        ensures
            r.wf(),
            exists|uid: u32, gid: u32| r@ == #[trigger] old(self)@.with_root(uid, gid),
            *final(self) == *final(r),
    {
        let uid = Uid::from_raw(effective_uid());
        let gid = Gid::from_raw(effective_gid());
        self.ids_as_root(uid, gid)
    }

    /// Unshares a set of namespaces in the jail.
    ///
    /// See [`Namespace`] for the effect of unsharing each namespace.
    pub fn unshare(&mut self, namespaces: Namespace) -> (r: &mut Self)
        requires
            old(self).wf(),
        ensures
            r.wf(),
            r@ == (CommandView { unshare: namespaces@, ..old(self)@ }),
            *final(self) == *final(r),
    {
        self.unshare = namespaces;
        self
    }

    /// Appends an argument to be passed to the program executed in the jail
    pub fn arg(&mut self, arg: &[u8]) -> (r: &mut Self)
        requires
            old(self).wf(),
        ensures
            r.wf(),
            r@ == (CommandView { args: old(self)@.args.push(arg@), ..old(self)@ }),
            *final(self) == *final(r),
    {
        self.args.push(copy(arg));
        assert(self@.args =~= old(self)@.args.push(arg@));
        self
    }

    /// Appends multiple arguments to be passed to the program executed in the jail
    pub fn args(&mut self, args: &Vec<Vec<u8>>) -> (r: &mut Self)
        requires
            old(self).wf(),
        ensures
            r.wf(),
            r@ == (CommandView { args: old(self)@.args + views(args@), ..old(self)@ }),
            *final(self) == *final(r),
    {
        let mut more = copy_all(args);
        let ghost added = views(more@);
        self.args.append(&mut more);
        assert(self@.args =~= old(self)@.args + added);
        self
    }

    /// Defines an environment variable to be set in the jail.
    ///
    /// The host environment is not captured automatically, to ensure host
    /// information is not unintentionally leaked into the jail.
    pub fn env(&mut self, key: &[u8], val: &[u8]) -> (r: &mut Self)
        requires
            old(self).wf(),
        ensures
            r.wf(),
            r@ == (CommandView { env: old(self)@.env.insert(key@, val@), ..old(self)@ }),
            *final(self) == *final(r),
    {
        self.env.insert(key, val);
        self
    }

    /// Defines multiple environment variables to be set in the jail.
    ///
    /// The host environment is not captured automatically, to ensure host
    /// information is not unintentionally leaked into the jail.
    pub fn envs(&mut self, vars: &Vec<(Vec<u8>, Vec<u8>)>) -> (r: &mut Self)
        requires
            old(self).wf(),
        ensures
            r.wf(),
            r@ == (CommandView { env: define_all(old(self)@.env, var_views(vars@)), ..old(self)@ }),
            *final(self) == *final(r),
    {
        let ghost all = var_views(vars@);
        let mut i: usize = 0;
        assert(all.take(0) =~= Seq::empty());
        while i < vars.len()
            invariant
                i <= vars@.len(),
                all == var_views(vars@),
                self.wf(),
                self@ == (CommandView {
                    env: define_all(old(self)@.env, all.take(i as int)),
                    ..old(self)@
                }),
            decreases vars@.len() - i,
        {
            proof {
                assert(all.take(i + 1).drop_last() =~= all.take(i as int));
                assert(all.take(i + 1).last() == (vars@[i as int].0@, vars@[i as int].1@));
            }
            self.env.insert(vars[i].0.as_slice(), vars[i].1.as_slice());
            i += 1;
        }
        assert(all.take(i as int) =~= all);
        self
    }

    /// Specifies a directory within the jail to execute the program from.
    ///
    /// `path` must be an existing path within the jail. It will be the
    /// current working directory when the jailed process starts.
    pub fn current_dir(&mut self, path: &[u8]) -> (r: &mut Self)
        requires
            old(self).wf(),
        ensures
            r.wf(),
            r@ == (CommandView { curr_dir: Some(path@), ..old(self)@ }),
            *final(self) == *final(r),
    {
        self.curr_dir = Some(copy(path));
        self
    }

    /// Specifies the redirection of `stdin` for the jailed process.
    ///
    /// `stdin` can be redirected to an I/O object, piped, inherited
    /// from the host process, or redirected to `/dev/null`. If not set,
    /// `stdin` is inherited when the process is spawned or waited for, and
    /// is piped when its output is collected.
    pub fn stdin(&mut self, cfg: Option<Stdio>) -> (r: &mut Self)
        requires
            old(self).wf(),
        ensures
            r.wf(),
            r@ == (CommandView { stdin: stdio_view(cfg), ..old(self)@ }),
            *final(self) == *final(r),
    {
        self.stdin = cfg;
        self
    }

    /// Specifies the redirection of `stdout` for the jailed process.
    ///
    /// `stdout` can be redirected to an I/O object, piped, inherited
    /// from the host process, or redirected to `/dev/null`. If not set,
    /// `stdout` is inherited when the process is spawned or waited for, and
    /// is piped when its output is collected.
    pub fn stdout(&mut self, cfg: Option<Stdio>) -> (r: &mut Self)
        requires
            old(self).wf(),
        ensures
            r.wf(),
            r@ == (CommandView { stdout: stdio_view(cfg), ..old(self)@ }),
            *final(self) == *final(r),
    {
        self.stdout = cfg;
        self
    }

    /// Specifies the redirection of `stderr` for the jailed process.
    ///
    /// `stderr` can be redirected to an I/O object, piped, inherited
    /// from the host process, or redirected to `/dev/null`. If not set,
    /// `stderr` is inherited when the process is spawned or waited for, and
    /// is piped when its output is collected.
    pub fn stderr(&mut self, cfg: Option<Stdio>) -> (r: &mut Self)
        requires
            old(self).wf(),
        ensures
            r.wf(),
            r@ == (CommandView { stderr: stdio_view(cfg), ..old(self)@ }),
            *final(self) == *final(r),
    {
        self.stderr = cfg;
        self
    }

    /// Overrides the first argument as seen by the program.
    pub fn arg0(&mut self, arg: &[u8]) -> (r: &mut Self)
        requires
            old(self).wf(),
        ensures
            r.wf(),
            r@ == (CommandView { args: old(self)@.args.update(0, arg@), ..old(self)@ }),
            *final(self) == *final(r),
    {
        self.args[0] = copy(arg);
        assert(self@.args =~= old(self)@.args.update(0, arg@));
        self
    }
}

/// Appends the contents of an ID map file.
fn push_map_text<T: Id>(out: &mut Vec<u8>, map: &Vec<(IdRange<T>, IdRange<T>)>)
    requires
        map_countable(map_views(map@)),
    ensures
        final(out)@ == old(out)@ + map_text(map_views(map@)),
{
    let ghost all = map_views(map@);
    let mut i: usize = 0;
    assert(all.take(0) =~= Seq::empty());
    assert(out@ + map_text(all.take(0)) =~= out@);
    while i < map.len()
        invariant
            i <= map@.len(),
            all == map_views(map@),
            map_countable(all),
            out@ == old(out)@ + map_text(all.take(i as int)),
        decreases map@.len() - i,
    {
        let (host_range, jail_range) = map[i];
        let ghost before = out@;
        proof {
            assert(all[i as int] == (host_range@, jail_range@));
            assert(all.take(i + 1).drop_last() =~= all.take(i as int));
            assert(all.take(i + 1).last() == all[i as int]);
        }
        if let (Some(host), Some(jail)) = (host_range.start(), jail_range.start()) {
            push_decimal(out, jail.as_raw() as u64);
            out.push(SPACE);
            push_decimal(out, host.as_raw() as u64);
            out.push(SPACE);
            push_decimal(out, host_range.len() as u64);
            out.push(NEWLINE);
        }
        assert(out@ =~= before + map_line(all[i as int]));
        assert(out@ =~= old(out)@ + map_text(all.take(i + 1)));
        i += 1;
    }
    assert(all.take(i as int) =~= all);
}

/// Whether the ranges of a map that are to be counted can be.
fn is_map_countable<T: Id>(map: &Vec<(IdRange<T>, IdRange<T>)>) -> (r: bool)
    ensures
        r == map_countable(map_views(map@)),
{
    let ghost all = map_views(map@);
    let mut i: usize = 0;
    while i < map.len()
        invariant
            i <= map@.len(),
            all == map_views(map@),
            forall|j: int|
                0 <= j < i && (#[trigger] all[j]).0 is Some && all[j].1 is Some
                    ==> countable_range(all[j].0),
        decreases map@.len() - i,
    {
        let (host_range, jail_range) = map[i];
        assert(all[i as int] == (host_range@, jail_range@));
        if !host_range.is_empty() && !jail_range.is_empty() && !host_range.is_countable() {
            return false;
        }
        i += 1;
    }
    true
}

/// The path of a file of a process below `/proc`.
pub(crate) fn proc_path(pid: i32, name: &str) -> (r: Vec<u8>)
    ensures
        r@ == proc_file(pid, name.spec_bytes()),
{
    let mut out: Vec<u8> = Vec::new();
    push_text(&mut out, "/proc/");
    push_signed_decimal(&mut out, pid);
    push_text(&mut out, name);
    assert(out@ =~= proc_file(pid, name.spec_bytes()));
    out
}

impl Command {
    /// Whether the ranges that are mapped can be counted: in each pair of
    /// ranges that are not empty, the first host ID is not after the last,
    /// and the number of host IDs fits in 32 bits.
    pub fn are_maps_countable(&self) -> (r: bool)
        ensures
            r == self@.maps_countable(),
    {
        is_map_countable(&self.uid_map) && is_map_countable(&self.gid_map)
    }

    /// The file by which the user IDs of a jail are set, if any are mapped.
    pub fn write_uid_map(&self, pid: i32) -> (r: Vec<FileWrite>)
        requires
            map_countable(self@.uid_map),
        ensures
            file_views(r@) == uid_files(self@.uid_map, pid),
    {
        let mut files: Vec<FileWrite> = Vec::new();
        if self.uid_map.is_empty() {
            assert(file_views(files@) =~= Seq::empty());
            return files;
        }
        let mut text: Vec<u8> = Vec::new();
        push_map_text(&mut text, &self.uid_map);
        assert(text@ =~= map_text(self@.uid_map));
        files.push(FileWrite { path: proc_path(pid, "/uid_map"), contents: text });
        assert(file_views(files@) =~= uid_files(self@.uid_map, pid));
        files
    }

    /// The files by which the group IDs of a jail are set, if any are mapped.
    pub fn write_gid_map(&self, pid: i32) -> (r: Vec<FileWrite>)
        requires
            map_countable(self@.gid_map),
        ensures
            file_views(r@) == gid_files(self@.gid_map, pid),
    {
        let mut files: Vec<FileWrite> = Vec::new();
        if self.gid_map.is_empty() {
            assert(file_views(files@) =~= Seq::empty());
            return files;
        }
        let mut text: Vec<u8> = Vec::new();
        push_map_text(&mut text, &self.gid_map);
        assert(text@ =~= map_text(self@.gid_map));
        let mut deny: Vec<u8> = Vec::new();
        push_text(&mut deny, "deny");
        assert(deny@ =~= "deny".spec_bytes());
        files.push(FileWrite { path: proc_path(pid, "/setgroups"), contents: deny });
        files.push(FileWrite { path: proc_path(pid, "/gid_map"), contents: text });
        assert(file_views(files@) =~= gid_files(self@.gid_map, pid));
        files
    }

    /// The files by which the IDs of a jail are set, in order.
    pub fn write_ids_maps(&self, pid: i32) -> (r: Vec<FileWrite>)
        requires
            self@.maps_countable(),
        ensures
            file_views(r@) == self@.id_files(pid),
    {
        let mut files = self.write_uid_map(pid);
        let mut more = self.write_gid_map(pid);
        let ghost a = files@;
        let ghost b = more@;
        files.append(&mut more);
        assert(file_views(files@) =~= file_views(a) + file_views(b));
        files
    }

    /// Whether a stream leads to a pipe of its own, where streams that were
    /// not set lead to `default_stdio`.
    pub fn child_stdio(&self, stream: Stream, default_stdio: &Stdio) -> (r: bool)
        ensures
            r == self@.piped(stream, default_stdio.inner),
    {
        let cfg = match stream {
            Stream::Stdin => &self.stdin,
            Stream::Stdout => &self.stdout,
            Stream::Stderr => &self.stderr,
        };
        match cfg {
            Some(stdio) => matches!(stdio.inner, StdioInner::Pipe),
            None => matches!(default_stdio.inner, StdioInner::Pipe),
        }
    }

    /// What a stream is set to when the program starts, `piped` if a pipe
    /// was made for it.
    pub fn stdio_target(&self, stream: Stream, piped: bool) -> (r: StdioTarget)
        ensures
            r == self@.target(stream, piped),
    {
        if piped {
            return StdioTarget::Pipe;
        }
        let cfg = match stream {
            Stream::Stdin => &self.stdin,
            Stream::Stdout => &self.stdout,
            Stream::Stderr => &self.stderr,
        };
        match cfg {
            Some(stdio) => stdio.into_stdio(),
            None => StdioTarget::Inherit,
        }
    }

    /// The stream by whose terminal the jail gets a console.
    pub fn console_stream(&self) -> (r: Option<Stream>)
        ensures
            r == self@.console(),
    {
        if is_inherited(&self.stdout) {
            Some(Stream::Stdout)
        } else if is_inherited(&self.stdin) {
            Some(Stream::Stdin)
        } else if is_inherited(&self.stderr) {
            Some(Stream::Stderr)
        } else {
            None
        }
    }

    /// The mounts, in order.
    pub fn mounts(&self) -> (r: &Vec<Mount>)
        ensures
            mount_views(r@) == self@.mounts,
    {
        &self.mounts
    }

    /// Whether the root of the jail is read-only.
    pub fn is_root_read_only(&self) -> (r: bool)
        ensures
            r == self@.ro_root,
    {
        self.ro_root
    }

    /// The host directory that is the root of the jail. Without one it is
    /// the current directory.
    pub fn rootfs_path(&self) -> (r: Option<Vec<u8>>)
        ensures
            opt_view(r) == self@.rootfs,
    {
        match &self.rootfs {
            Some(path) => Some(copy(path.as_slice())),
            None => None,
        }
    }

    /// The flags by which the process is cloned into its jail.
    pub fn clone_flags(&self) -> (r: i32)
        ensures
            r == jail_flags(self@.unshare),
    {
        self.unshare.clone_flags()
    }

    /// What the program is started with. Its environment holds the variables
    /// that were defined and no others.
    pub fn exec_plan(&self) -> (r: ExecPlan)
        requires
            self.wf(),
        ensures
            r.program@ == self@.program,
            seq![r.arg0@] + views(r.args@) == self@.args,
            names_differ(var_views(r.env@)),
            define_all(Map::empty(), var_views(r.env@)) == self@.env,
            opt_view(r.curr_dir) == self@.curr_dir,
    {
        let mut rest: Vec<Vec<u8>> = Vec::new();
        let mut i: usize = 1;
        while i < self.args.len()
            invariant
                1 <= i <= self.args@.len(),
                rest@.len() == i - 1,
                forall|j: int| 0 <= j < i - 1 ==> (#[trigger] rest@[j])@ == self.args@[j + 1]@,
            decreases self.args@.len() - i,
        {
            rest.push(copy(self.args[i].as_slice()));
            i += 1;
        }
        let arg0 = copy(self.args[0].as_slice());
        assert(seq![arg0@] + views(rest@) =~= self@.args);
        let curr_dir = match &self.curr_dir {
            Some(path) => Some(copy(path.as_slice())),
            None => None,
        };
        ExecPlan {
            program: copy(self.program.as_slice()),
            arg0,
            args: rest,
            env: self.env.entries(),
            curr_dir,
        }
    }
}

/// Whether a stream was set to be inherited.
fn is_inherited(cfg: &Option<Stdio>) -> (r: bool)
    ensures
        r == (stdio_view(*cfg) == Some(StdioInner::Inherit)),
{
    match cfg {
        Some(stdio) => matches!(stdio.inner, StdioInner::Inherit),
        None => false,
    }
}

/// A stream that was not set follows the default: it is inherited, or leads
/// to a pipe. One that was set does not depend on the default.
pub proof fn the_default_is_for_streams_that_were_not_set(
    cmd: CommandView,
    stream: Stream,
    default: StdioInner,
)
    ensures
        cmd.stream(stream) is None ==> {
            &&& !cmd.piped(stream, StdioInner::Inherit)
            &&& cmd.target(stream, false) == StdioTarget::Inherit
            &&& cmd.piped(stream, StdioInner::Pipe)
            &&& cmd.target(stream, true) == StdioTarget::Pipe
        },
        cmd.stream(stream) is Some ==> {
            &&& cmd.piped(stream, default) == (cmd.stream(stream) == Some(StdioInner::Pipe))
            &&& cmd.target(stream, cmd.piped(stream, default)) == if cmd.piped(stream, default) {
                StdioTarget::Pipe
            } else {
                target_of(cmd.stream(stream).unwrap())
            }
        },
{
}

/// The pairs of ranges of a map neither of which is empty, in order.
pub open spec fn mapped_pairs(map: IdMapView) -> Seq<((u32, u32), (u32, u32))>
    decreases map.len(),
{
    if map.len() == 0 {
        Seq::empty()
    } else {
        let init = mapped_pairs(map.drop_last());
        match map.last() {
            (Some(host), Some(jail)) => init.push((host, jail)),
            _ => init,
        }
    }
}

/// Whether a line says that the IDs of a range of the jail, from its first
/// on, stand for as many as a range of the host has, from its first on.
pub open spec fn line_says(line: Seq<u8>, host: (u32, u32), jail: (u32, u32)) -> bool {
    let words = split(line, 0x20);
    &&& words.len() == 3
    &&& as_u32(words[0]) == Some(jail.0)
    &&& as_u32(words[1]) == Some(host.0)
    &&& as_u32(words[2]) matches Some(n) && n == ids_of(Some(host)).len()
}

proof fn lemma_split_after_end(s: Seq<u8>, t: Seq<u8>, sep: u8)
    requires
        split(s, sep).last().len() == 0,
    ensures
        split(s + t, sep) == split(s, sep).drop_last() + split(t, sep),
    decreases s.len(),
{
    s.index_of_first_ensures(sep);
    match s.index_of_first(sep) {
        None => {
            assert(s =~= Seq::empty());
            assert(s + t =~= t);
            assert(split(s, sep).drop_last() + split(t, sep) =~= split(t, sep));
        },
        Some(i) => {
            let p = s.take(i);
            let r = s.skip(i + 1);
            assert forall|k: int| 0 <= k < i implies p[k] != sep by {
                assert(p[k] == s[k]);
            }
            split_then_join(r, sep);
            assert(split(s, sep) =~= seq![p] + split(r, sep));
            assert(split(s, sep).last() == split(r, sep).last());
            lemma_split_after_end(r, t, sep);
            splitting_is_at_separators(p, r + t, sep);
            assert(s + t =~= p + seq![sep] + (r + t));
            assert(split(s, sep).drop_last() + split(t, sep) =~= seq![p] + (split(
                r,
                sep,
            ).drop_last() + split(t, sep)));
        },
    }
}

proof fn lemma_line_reads_back(host: (u32, u32), jail: (u32, u32))
    requires
        countable_range(Some(host)),
    ensures
        ({
            let line = map_line((Some(host), Some(jail)));
            &&& line.len() > 0
            &&& line.last() == 0x0a
            &&& !line.drop_last().contains(0x0a)
            &&& line_says(line.drop_last(), host, jail)
        }),
{
    let n: u32 = (host.1 - host.0 + 1) as u32;
    let a = decimal(jail.0 as nat);
    let b = decimal(host.0 as nat);
    let c = decimal(n as nat);
    decimals_are_plain(jail.0 as nat);
    decimals_are_plain(host.0 as nat);
    decimals_are_plain(n as nat);
    decimal_reads_back(jail.0);
    decimal_reads_back(host.0);
    decimal_reads_back(n);
    let line = map_line((Some(host), Some(jail)));
    let body = a + seq![0x20u8] + (b + seq![0x20u8] + c);
    assert(line.drop_last() =~= body);
    splitting_is_at_separators(a, b + seq![0x20u8] + c, 0x20);
    splitting_is_at_separators(b, c, 0x20);
    splitting_is_at_separators(c, c, 0x20);
    assert(split(body, 0x20) =~= seq![a, b, c]);
    assert(as_u32(c) == Some(n));
    assert forall|i: int| 0 <= i < body.len() implies body[i] != 0x0a by {
        if i < a.len() {
            assert(body[i] == a[i]);
        } else if a.len() < i < a.len() + 1 + b.len() {
            assert(body[i] == b[i - a.len() - 1]);
        } else if i > a.len() + 1 + b.len() {
            assert(body[i] == c[i - a.len() - b.len() - 2]);
        }
    }
}

/// An ID map file reads back: it has one line for each pair of ranges that
/// are not empty, in order. Each line holds three numbers: the first ID of
/// the jail, the first ID of the host, and how many IDs the host range has.
pub proof fn an_id_map_reads_back(map: IdMapView)
    requires
        map_countable(map),
    ensures
        ({
            let lines = split(map_text(map), 0x0a);
            let pairs = mapped_pairs(map);
            &&& lines.len() == pairs.len() + 1
            &&& lines.last().len() == 0
            &&& forall|k: int|
                0 <= k < pairs.len() ==> line_says(
                    lines[k],
                    (#[trigger] pairs[k]).0,
                    pairs[k].1,
                )
        }),
    decreases map.len(),
{
    let none = Seq::<u8>::empty();
    splitting_is_at_separators(none, none, 0x0a);
    if map.len() > 0 {
        let init = map.drop_last();
        assert forall|i: int|
            0 <= i < init.len() && (#[trigger] init[i]).0 is Some && init[i].1
                is Some implies countable_range(init[i].0) by {
            assert(init[i] == map[i]);
        }
        an_id_map_reads_back(init);
        let text = map_text(init);
        let lines = split(text, 0x0a);
        match map.last() {
            (Some(host), Some(jail)) => {
                assert(map[map.len() - 1] == map.last());
                lemma_line_reads_back(host, jail);
                let line = map_line(map.last());
                let body = line.drop_last();
                assert(line =~= body + seq![0x0au8] + none);
                splitting_is_at_separators(body, none, 0x0a);
                lemma_split_after_end(text, line, 0x0a);
                let all = split(map_text(map), 0x0a);
                assert(all =~= lines.drop_last() + seq![body, none]);
                let pairs = mapped_pairs(map);
                assert forall|k: int| 0 <= k < pairs.len() implies line_says(
                    all[k],
                    (#[trigger] pairs[k]).0,
                    pairs[k].1,
                ) by {
                    if k < pairs.len() - 1 {
                        assert(pairs[k] == mapped_pairs(init)[k]);
                        assert(all[k] == lines[k]);
                    }
                }
            },
            _ => {
                assert(map_text(map) =~= text);
            },
        }
    }
}

/// The ID map files of a process: `uid_map` where user IDs are mapped, and
/// where group IDs are, first `deny` to `setgroups` and then `gid_map`.
pub proof fn id_files_are_those_of_the_process(cmd: CommandView, pid: i32)
    ensures
        ({
            let files = cmd.id_files(pid);
            let dir = "/proc/".spec_bytes() + signed_decimal(pid as int);
            let users: int = if cmd.uid_map.len() > 0 {
                1
            } else {
                0
            };
            &&& cmd.uid_map.len() > 0 ==> files.len() > 0 && files[0].0 == dir
                + "/uid_map".spec_bytes() && files[0].1 == map_text(cmd.uid_map)
            &&& cmd.gid_map.len() == 0 ==> files.len() == users
            &&& cmd.gid_map.len() > 0 ==> {
                &&& files.len() == users + 2
                &&& files[users].0 == dir + "/setgroups".spec_bytes()
                &&& files[users].1 == "deny".spec_bytes()
                &&& files[users + 1].0 == dir + "/gid_map".spec_bytes()
                &&& files[users + 1].1 == map_text(cmd.gid_map)
            }
        }),
{
}

/// A new command has a root that cannot be written to, its program as its
/// only argument, and nothing else: no mounts, no mapped IDs, no namespaces,
/// no variables, and no redirections.
pub proof fn a_new_command_is_bare(program: Seq<u8>)
    ensures
        ({
            let cmd = CommandView::of_program(program);
            &&& cmd.ro_root
            &&& cmd.program == program
            &&& cmd.args.len() == 1 && cmd.args[0] == program
            &&& cmd.rootfs is None && cmd.curr_dir is None
            &&& cmd.mounts.len() == 0 && cmd.uid_map.len() == 0 && cmd.gid_map.len() == 0
            &&& cmd.unshare == 0
            &&& forall|name: Seq<u8>| !cmd.env.contains_key(name)
            &&& cmd.stdin is None && cmd.stdout is None && cmd.stderr is None
        }),
{
}

/// Mapping IDs adds a pair at the end, unless the host range is empty, and
/// changes nothing else; so does adding a mount.
pub proof fn additions_come_last(
    cmd: CommandView,
    host: Option<(u32, u32)>,
    jail: Option<(u32, u32)>,
    src: SourceView,
    dst: Seq<u8>,
    writable: bool,
)
    ensures
        ({
            let (uids, gids) = (cmd.with_uids(host, jail), cmd.with_gids(host, jail));
            let mounted = cmd.with_mount(src, dst, writable);
            &&& host is None ==> uids == cmd && gids == cmd
            &&& host is Some ==> {
                &&& uids.uid_map.len() == cmd.uid_map.len() + 1
                &&& uids.uid_map.drop_last() == cmd.uid_map
                &&& uids.uid_map.last().0 == host && uids.uid_map.last().1 == jail
                &&& gids.gid_map.len() == cmd.gid_map.len() + 1
                &&& gids.gid_map.drop_last() == cmd.gid_map
                &&& gids.gid_map.last().0 == host && gids.gid_map.last().1 == jail
            }
            &&& uids == (CommandView { uid_map: uids.uid_map, ..cmd })
            &&& gids == (CommandView { gid_map: gids.gid_map, ..cmd })
            &&& mounted == (CommandView { mounts: mounted.mounts, ..cmd })
            &&& mounted.mounts.len() == cmd.mounts.len() + 1
            &&& mounted.mounts.drop_last() == cmd.mounts
            &&& mounted.mounts.last().src == src
            &&& mounted.mounts.last().dst == dst
            &&& mounted.mounts.last().writable == writable
        }),
{
    if host is Some {
        assert(cmd.uid_map.push((host, jail)).drop_last() =~= cmd.uid_map);
        assert(cmd.gid_map.push((host, jail)).drop_last() =~= cmd.gid_map);
    }
    assert(cmd.mounts.push(MountView { src, dst, writable }).drop_last() =~= cmd.mounts);
}

/// Where a user and a group become root, exactly the one user ID and the one
/// group ID are mapped to 0, after what was mapped before.
pub proof fn root_is_one_user_and_one_group(cmd: CommandView, uid: u32, gid: u32)
    ensures
        ({
            let root = cmd.with_root(uid, gid);
            &&& root == (CommandView { uid_map: root.uid_map, gid_map: root.gid_map, ..cmd })
            &&& root.uid_map.len() == cmd.uid_map.len() + 1
            &&& root.gid_map.len() == cmd.gid_map.len() + 1
            &&& root.uid_map.drop_last() == cmd.uid_map
            &&& root.gid_map.drop_last() == cmd.gid_map
            &&& ids_of(root.uid_map.last().0) == seq![uid as int]
            &&& ids_of(root.uid_map.last().1) == seq![0int]
            &&& ids_of(root.gid_map.last().0) == seq![gid as int]
            &&& ids_of(root.gid_map.last().1) == seq![0int]
        }),
{
    let root = cmd.with_root(uid, gid);
    assert(root.uid_map.drop_last() =~= cmd.uid_map);
    assert(root.gid_map.drop_last() =~= cmd.gid_map);
    assert(ids_of(root.uid_map.last().0) =~= seq![uid as int]);
    assert(ids_of(root.uid_map.last().1) =~= seq![0int]);
    assert(ids_of(root.gid_map.last().0) =~= seq![gid as int]);
    assert(ids_of(root.gid_map.last().1) =~= seq![0int]);
}

/// Each stream leads where it was set to lead: to a pipe of its own if it is
/// piped, and otherwise to the parent's stream, to nowhere, or to the file
/// given. One that was not set is piped where that is the default, and is
/// otherwise the parent's.
pub proof fn streams_lead_where_they_were_set(
    cmd: CommandView,
    stream: Stream,
    default: StdioInner,
)
    ensures
        ({
            let setting = match stream {
                Stream::Stdin => cmd.stdin,
                Stream::Stdout => cmd.stdout,
                Stream::Stderr => cmd.stderr,
            };
            let target = cmd.target(stream, false);
            &&& cmd.target(stream, true) is Pipe
            &&& setting is None ==> target is Inherit && cmd.piped(stream, default) == (default
                is Pipe)
            &&& setting matches Some(inner) ==> {
                &&& cmd.piped(stream, default) == (inner is Pipe)
                &&& inner is Inherit ==> target is Inherit
                &&& inner is Null || inner is Pipe ==> target is Null
                &&& inner matches StdioInner::Fd(fd) ==> target == StdioTarget::Fd(fd)
                &&& inner matches StdioInner::TxPipe(fd) ==> target == StdioTarget::BlockingFd(fd)
                &&& inner matches StdioInner::RxPipe(fd) ==> target == StdioTarget::BlockingFd(fd)
            }
        }),
{
}

/// The console is that of a stream that was set to be inherited, and there is
/// none only where no stream was. Standard output comes before standard
/// input, and that before standard error.
pub proof fn the_console_is_inherited(cmd: CommandView)
    ensures
        ({
            let shared = |stdio: Option<StdioInner>| stdio matches Some(inner) && inner is Inherit;
            match cmd.console() {
                Some(Stream::Stdout) => shared(cmd.stdout),
                Some(Stream::Stdin) => shared(cmd.stdin) && !shared(cmd.stdout),
                Some(Stream::Stderr) => shared(cmd.stderr) && !shared(cmd.stdin) && !shared(
                    cmd.stdout,
                ),
                None => !shared(cmd.stdin) && !shared(cmd.stdout) && !shared(cmd.stderr),
            }
        }),
{
}

/// The ranges of a map can be counted exactly when each host range that is
/// mapped to IDs has at least one ID and no more than 32 bits can count.
pub proof fn maps_are_counted_by_the_host_ranges(map: IdMapView)
    ensures
        map_countable(map) <==> forall|i: int|
            0 <= i < map.len() && (#[trigger] map[i]).0 is Some && map[i].1 is Some ==> 0 < ids_of(
                map[i].0,
            ).len() <= 0xffff_ffff,
{
    assert forall|i: int| 0 <= i < map.len() && (#[trigger] map[i]).0 is Some implies (
    countable_range(map[i].0) <==> 0 < ids_of(map[i].0).len() <= 0xffff_ffff) by {
        what_can_be_counted(map[i].0.unwrap());
    }
}

/// Mounts and files are seen as they are.
pub proof fn mounts_and_files_are_seen_whole(mount: Mount, file: FileWrite)
    ensures
        mount@.dst == mount.dst@,
        mount@.writable == mount.writable,
        match mount.src {
            MountSrc::Bind(path) => mount@.src == SourceView::Bind(path@),
            MountSrc::DevFs => mount@.src is DevFs,
            MountSrc::ProcFs => mount@.src is ProcFs,
            MountSrc::SysFs => mount@.src is SysFs,
            MountSrc::TmpFs => mount@.src is TmpFs,
        },
        file_view(file).0 == file.path@,
        file_view(file).1 == file.contents@,
        file_views(seq![file]) == seq![file_view(file)],
        mount_views(seq![mount]) == seq![mount@],
{
    assert(file_views(seq![file]) =~= seq![file_view(file)]);
    assert(mount_views(seq![mount]) =~= seq![mount@]);
}

} // verus!
