//! The steps by which the root filesystem of a jail is set up.
use crate::bytes::{begins_with, copy, opt_view};
use crate::command::{mount_views, Command, CommandView, Mount, MountSrc, MountView, SourceView};
use crate::path::{join_name, joined, rebase, rebased};
use vstd::prelude::*;
use vstd::string::*;

verus! {

/// The flags of a mount.
#[derive(Debug, Clone, Copy, PartialEq, Eq, Structural)]
pub struct MountFlags {
    /// It applies to the mounts below, too.
    pub rec: bool,
    /// It is not shared with other namespaces.
    pub private: bool,
    /// It makes a directory or a file visible in another place.
    pub bind: bool,
    /// It changes the flags of an existing mount.
    pub remount: bool,
    /// It cannot be written to.
    pub rdonly: bool,
    /// It ignores the set-user-ID bits of programs.
    pub nosuid: bool,
    /// It does not let programs be executed.
    pub noexec: bool,
}

/// A step of setting up a root filesystem.
#[derive(Debug)]
pub enum RootStep {
    /// Mounts a filesystem.
    Mount {
        /// What is mounted.
        source: Option<Vec<u8>>,
        /// Where it is mounted.
        target: Vec<u8>,
        /// The type of the filesystem.
        fstype: Option<Vec<u8>>,
        /// The flags of the mount.
        flags: MountFlags,
        /// The options of the filesystem.
        data: Option<Vec<u8>>,
    },
    /// Creates a directory and those above it, unless the path exists.
    EnsureDir(Vec<u8>),
    /// Creates a directory and those above it where they do not exist.
    CreateDirAll(Vec<u8>),
    /// Makes a directory the root, and the former root visible in another.
    PivotRoot {
        /// The new root.
        new_root: Vec<u8>,
        /// Where the former root becomes visible.
        put_old: Vec<u8>,
    },
    /// Changes the current directory.
    Chdir(Vec<u8>),
    /// Creates an empty file.
    Touch(Vec<u8>),
    /// Creates a symbolic link.
    Symlink {
        /// Where the link leads.
        target: Vec<u8>,
        /// The path of the link.
        link: Vec<u8>,
    },
    /// Unmounts a filesystem as soon as it is no longer in use.
    Detach(Vec<u8>),
    /// Removes an empty directory.
    RemoveDir(Vec<u8>),
}

/// The contents of a [`RootStep`].
pub enum StepView {
    /// Mounts a filesystem.
    Mount {
        /// What is mounted.
        source: Option<Seq<u8>>,
        /// Where it is mounted.
        target: Seq<u8>,
        /// The type of the filesystem.
        fstype: Option<Seq<u8>>,
        /// The flags of the mount.
        flags: MountFlags,
        /// The options of the filesystem.
        data: Option<Seq<u8>>,
    },
    /// Creates a directory and those above it, unless the path exists.
    EnsureDir(Seq<u8>),
    /// Creates a directory and those above it where they do not exist.
    CreateDirAll(Seq<u8>),
    /// Makes a directory the root, and the former root visible in another.
    PivotRoot {
        /// The new root.
        new_root: Seq<u8>,
        /// Where the former root becomes visible.
        put_old: Seq<u8>,
    },
    /// Changes the current directory.
    Chdir(Seq<u8>),
    /// Creates an empty file.
    Touch(Seq<u8>),
    /// Creates a symbolic link.
    Symlink {
        /// Where the link leads.
        target: Seq<u8>,
        /// The path of the link.
        link: Seq<u8>,
    },
    /// Unmounts a filesystem as soon as it is no longer in use.
    Detach(Seq<u8>),
    /// Removes an empty directory.
    RemoveDir(Seq<u8>),
}

impl View for RootStep {
    type V = StepView;

    open spec fn view(&self) -> StepView {
        match *self {
            RootStep::Mount { source, target, fstype, flags, data } => StepView::Mount {
                source: opt_view(source),
                target: target@,
                fstype: opt_view(fstype),
                flags,
                data: opt_view(data),
            },
            RootStep::EnsureDir(path) => StepView::EnsureDir(path@),
            RootStep::CreateDirAll(path) => StepView::CreateDirAll(path@),
            RootStep::PivotRoot { new_root, put_old } => StepView::PivotRoot {
                new_root: new_root@,
                put_old: put_old@,
            },
            RootStep::Chdir(path) => StepView::Chdir(path@),
            RootStep::Touch(path) => StepView::Touch(path@),
            RootStep::Symlink { target, link } => StepView::Symlink { target: target@, link: link@ },
            RootStep::Detach(path) => StepView::Detach(path@),
            RootStep::RemoveDir(path) => StepView::RemoveDir(path@),
        }
    }
}

/// The contents of steps.
pub open spec fn step_views(steps: Seq<RootStep>) -> Seq<StepView> {
    steps.map_values(|s: RootStep| s@)
}

/// No flags.
pub open spec fn plain() -> MountFlags {
    MountFlags {
        rec: false,
        private: false,
        bind: false,
        remount: false,
        rdonly: false,
        nosuid: false,
        noexec: false,
    }
}

/// Makes the mounts of the jail its own: no change of them reaches the host.
pub open spec fn isolate() -> StepView {
    StepView::Mount {
        source: None,
        target: "/".spec_bytes(),
        fstype: None,
        flags: MountFlags { rec: true, private: true, ..plain() },
        data: None,
    }
}

/// Makes a directory visible in another place.
pub open spec fn bind(source: Seq<u8>, target: Seq<u8>, flags: MountFlags) -> StepView {
    StepView::Mount {
        source: Some(source),
        target,
        fstype: None,
        flags: MountFlags { bind: true, ..flags },
        data: None,
    }
}

/// Mounts a filesystem of its own.
pub open spec fn fresh(fstype: Seq<u8>, target: Seq<u8>, flags: MountFlags) -> StepView {
    StepView::Mount { source: None, target, fstype: Some(fstype), flags, data: None }
}

/// Changes whether an existing mount can be written to.
pub open spec fn remount(path: Seq<u8>, rdonly: bool) -> StepView {
    bind(path, path, MountFlags { remount: true, rdonly, ..plain() })
}

/// The steps for a mount while the host is still visible: its place is made,
/// and a directory of the host is bound to it.
pub open spec fn place(rootfs: Seq<u8>, mount: MountView) -> Seq<StepView> {
    let dst = rebased(rootfs, mount.dst);
    let ensure = seq![StepView::EnsureDir(dst)];
    match mount.src {
        SourceView::Bind(src) => ensure + seq![
            bind(src, dst, MountFlags { private: true, rdonly: !mount.writable, ..plain() }),
        ],
        _ => ensure,
    }
}

/// The steps for mounts while the host is still visible, in order.
pub open spec fn place_all(rootfs: Seq<u8>, mounts: Seq<MountView>) -> Seq<StepView>
    decreases mounts.len(),
{
    if mounts.len() == 0 {
        Seq::empty()
    } else {
        place_all(rootfs, mounts.drop_last()) + place(rootfs, mounts.last())
    }
}

/// The steps for a mount once the jail has its own root: what is not of the
/// host is mounted, and what is gets its final flags.
pub open spec fn settle(mount: MountView, console: Option<Seq<u8>>) -> Seq<StepView> {
    match mount.src {
        SourceView::DevFs => devfs_plan(mount.dst, console),
        SourceView::ProcFs => seq![fresh("proc".spec_bytes(), mount.dst, plain())],
        SourceView::SysFs => seq![fresh("sysfs".spec_bytes(), mount.dst, plain())],
        SourceView::TmpFs => seq![fresh("tmpfs".spec_bytes(), mount.dst, plain())],
        SourceView::Bind(_) => seq![remount(mount.dst, !mount.writable)],
    }
}

/// The steps for mounts once the jail has its own root, in order.
pub open spec fn settle_all(mounts: Seq<MountView>, console: Option<Seq<u8>>) -> Seq<StepView>
    decreases mounts.len(),
{
    if mounts.len() == 0 {
        Seq::empty()
    } else {
        settle_all(mounts.drop_last(), console) + settle(mounts.last(), console)
    }
}

/// A device of the host, made visible in the jail.
pub open spec fn device(dst: Seq<u8>, name: Seq<u8>) -> Seq<StepView> {
    let path = joined(dst, name);
    seq![
        StepView::Touch(path),
        bind(
            joined("/old_root/dev".spec_bytes(), name),
            path,
            MountFlags { nosuid: true, ..plain() },
        ),
    ]
}

/// The devices of the host that are visible in the jail.
pub open spec fn devices(dst: Seq<u8>) -> Seq<StepView> {
    device(dst, "null".spec_bytes()) + device(dst, "full".spec_bytes()) + device(
        dst,
        "zero".spec_bytes(),
    ) + device(dst, "random".spec_bytes()) + device(dst, "urandom".spec_bytes()) + device(
        dst,
        "tty".spec_bytes(),
    )
}

/// A symbolic link among the devices.
pub open spec fn device_link(dst: Seq<u8>, target: Seq<u8>, name: Seq<u8>) -> StepView {
    StepView::Symlink { target, link: joined(dst, name) }
}

/// The terminal of the host as the console of the jail.
pub open spec fn console_plan(dst: Seq<u8>, console: Option<Seq<u8>>) -> Seq<StepView> {
    match console {
        None => Seq::empty(),
        Some(tty) => {
            let path = joined(dst, "console".spec_bytes());
            seq![
                StepView::Touch(path),
                bind(
                    rebased("/old_root".spec_bytes(), tty),
                    path,
                    MountFlags { nosuid: true, noexec: true, ..plain() },
                ),
            ]
        },
    }
}

/// What stands among the devices besides the devices of the host.
pub open spec fn device_extras(dst: Seq<u8>) -> Seq<StepView> {
    seq![
        device_link(dst, "/proc/self/fd/0".spec_bytes(), "stdin".spec_bytes()),
        device_link(dst, "/proc/self/fd/1".spec_bytes(), "stdout".spec_bytes()),
        device_link(dst, "/proc/self/fd/2".spec_bytes(), "stderr".spec_bytes()),
        device_link(dst, "/proc/self/fd".spec_bytes(), "fd".spec_bytes()),
        device_link(dst, "/proc/kcore".spec_bytes(), "core".spec_bytes()),
        StepView::CreateDirAll(joined(dst, "shm".spec_bytes())),
        StepView::CreateDirAll(joined(dst, "pts".spec_bytes())),
        StepView::Mount {
            source: None,
            target: joined(dst, "pts".spec_bytes()),
            fstype: Some("devpts".spec_bytes()),
            flags: MountFlags { nosuid: true, noexec: true, ..plain() },
            data: Some("newinstance,ptmxmode=0666,mode=620".spec_bytes()),
        },
        device_link(dst, "pts/ptmx".spec_bytes(), "ptmx".spec_bytes()),
    ]
}

/// The steps that mount a filesystem with the common devices.
pub open spec fn devfs_plan(dst: Seq<u8>, console: Option<Seq<u8>>) -> Seq<StepView> {
    seq![fresh("tmpfs".spec_bytes(), dst, MountFlags { nosuid: true, ..plain() })] + devices(dst)
        + device_extras(dst) + console_plan(dst, console)
}

/// The steps that make a directory the root of the jail.
pub open spec fn pivot(rootfs: Seq<u8>) -> Seq<StepView> {
    let old_root = joined(rootfs, "old_root".spec_bytes());
    seq![
        StepView::CreateDirAll(old_root),
        StepView::PivotRoot { new_root: rootfs, put_old: old_root },
        StepView::Chdir("/".spec_bytes()),
    ]
}

/// The steps that take the host out of the jail.
pub open spec fn leave_host() -> Seq<StepView> {
    seq![StepView::Detach("/old_root".spec_bytes()), StepView::RemoveDir("/old_root".spec_bytes())]
}

/// The steps that protect the root of the jail, if it is read-only.
pub open spec fn protect(ro_root: bool) -> Seq<StepView> {
    if ro_root {
        seq![remount("/".spec_bytes(), true)]
    } else {
        Seq::empty()
    }
}

/// The steps that set up the root filesystem of a jail, after its mounts
/// were isolated from the host.
pub open spec fn root_plan(
    cmd: CommandView,
    rootfs: Seq<u8>,
    console: Option<Seq<u8>>,
) -> Seq<StepView> {
    seq![bind(rootfs, rootfs, plain())] + place_all(rootfs, cmd.mounts) + pivot(rootfs)
        + settle_all(cmd.mounts, console) + leave_host() + protect(cmd.ro_root)
}

fn no_flags() -> (r: MountFlags)
    ensures
        r == plain(),
{
    MountFlags {
        rec: false,
        private: false,
        bind: false,
        remount: false,
        rdonly: false,
        nosuid: false,
        noexec: false,
    }
}

fn text(s: &str) -> (r: Vec<u8>)
    ensures
        r@ == s.spec_bytes(),
{
    copy(s.as_bytes())
}

fn push_step(steps: &mut Vec<RootStep>, step: RootStep)
    ensures
        step_views(final(steps)@) == step_views(old(steps)@).push(step@),
{
    steps.push(step);
    assert(step_views(steps@) =~= step_views(old(steps)@).push(step@));
}

fn push_bind(steps: &mut Vec<RootStep>, source: &[u8], target: &[u8], flags: MountFlags)
    ensures
        step_views(final(steps)@) == step_views(old(steps)@).push(bind(source@, target@, flags)),
{
    let mut flags = flags;
    flags.bind = true;
    push_step(
        steps,
        RootStep::Mount {
            source: Some(copy(source)),
            target: copy(target),
            fstype: None,
            flags,
            data: None,
        },
    );
}

fn push_fresh(steps: &mut Vec<RootStep>, fstype: &str, target: &[u8], flags: MountFlags)
    ensures
        step_views(final(steps)@) == step_views(old(steps)@).push(
            fresh(fstype.spec_bytes(), target@, flags),
        ),
{
    push_step(
        steps,
        RootStep::Mount {
            source: None,
            target: copy(target),
            fstype: Some(text(fstype)),
            flags,
            data: None,
        },
    );
}

fn push_remount(steps: &mut Vec<RootStep>, path: &[u8], rdonly: bool)
    ensures
        step_views(final(steps)@) == step_views(old(steps)@).push(remount(path@, rdonly)),
{
    let mut flags = no_flags();
    flags.remount = true;
    flags.rdonly = rdonly;
    push_bind(steps, path, path, flags);
}

fn push_place(steps: &mut Vec<RootStep>, rootfs: &[u8], mount: &Mount)
    ensures
        step_views(final(steps)@) == step_views(old(steps)@) + place(rootfs@, mount@),
{
    let dst = rebase(rootfs, mount.dst.as_slice());
    push_step(steps, RootStep::EnsureDir(copy(dst.as_slice())));
    if let MountSrc::Bind(src) = &mount.src {
        let mut flags = no_flags();
        flags.private = true;
        flags.rdonly = !mount.writable;
        push_bind(steps, src.as_slice(), dst.as_slice(), flags);
    }
    assert(step_views(steps@) =~= step_views(old(steps)@) + place(rootfs@, mount@));
}

fn push_device(steps: &mut Vec<RootStep>, dst: &[u8], name: &str)
    ensures
        step_views(final(steps)@) == step_views(old(steps)@) + device(dst@, name.spec_bytes()),
{
    let src_path = join_name("/old_root/dev".as_bytes(), name);
    let dst_path = join_name(dst, name);
    push_step(steps, RootStep::Touch(copy(dst_path.as_slice())));
    let mut flags = no_flags();
    flags.nosuid = true;
    push_bind(steps, src_path.as_slice(), dst_path.as_slice(), flags);
    assert(step_views(steps@) =~= step_views(old(steps)@) + device(dst@, name.spec_bytes()));
}

fn push_device_link(steps: &mut Vec<RootStep>, dst: &[u8], target: &str, name: &str)
    ensures
        step_views(final(steps)@) == step_views(old(steps)@).push(
            device_link(dst@, target.spec_bytes(), name.spec_bytes()),
        ),
{
    push_step(steps, RootStep::Symlink { target: text(target), link: join_name(dst, name) });
}

fn push_device_extras(steps: &mut Vec<RootStep>, dst: &[u8])
    ensures
        step_views(final(steps)@) == step_views(old(steps)@) + device_extras(dst@),
{
    push_device_link(steps, dst, "/proc/self/fd/0", "stdin");
    push_device_link(steps, dst, "/proc/self/fd/1", "stdout");
    push_device_link(steps, dst, "/proc/self/fd/2", "stderr");
    push_device_link(steps, dst, "/proc/self/fd", "fd");
    push_device_link(steps, dst, "/proc/kcore", "core");
    push_step(steps, RootStep::CreateDirAll(join_name(dst, "shm")));
    push_step(steps, RootStep::CreateDirAll(join_name(dst, "pts")));
    let mut flags = no_flags();
    flags.nosuid = true;
    flags.noexec = true;
    push_step(
        steps,
        RootStep::Mount {
            source: None,
            target: join_name(dst, "pts"),
            fstype: Some(text("devpts")),
            flags,
            data: Some(text("newinstance,ptmxmode=0666,mode=620")),
        },
    );
    push_device_link(steps, dst, "pts/ptmx", "ptmx");
    assert(step_views(steps@) =~= step_views(old(steps)@) + device_extras(dst@));
}

/// Appends the steps that mount a filesystem with the common devices.
fn mount_devfs(steps: &mut Vec<RootStep>, dst: &[u8], console: &Option<Vec<u8>>)
    ensures
        step_views(final(steps)@) == step_views(old(steps)@) + devfs_plan(dst@, opt_view(*console)),
{
    let mut flags = no_flags();
    flags.nosuid = true;
    push_fresh(steps, "tmpfs", dst, flags);
    push_device(steps, dst, "null");
    push_device(steps, dst, "full");
    push_device(steps, dst, "zero");
    push_device(steps, dst, "random");
    push_device(steps, dst, "urandom");
    push_device(steps, dst, "tty");
    push_device_extras(steps, dst);
    if let Some(tty) = console {
        let path = join_name(dst, "console");
        let src = rebase("/old_root".as_bytes(), tty.as_slice());
        push_step(steps, RootStep::Touch(copy(path.as_slice())));
        let mut flags = no_flags();
        flags.nosuid = true;
        flags.noexec = true;
        push_bind(steps, src.as_slice(), path.as_slice(), flags);
    }
    assert(step_views(steps@) =~= step_views(old(steps)@) + devfs_plan(dst@, opt_view(*console)));
}

fn push_settle(steps: &mut Vec<RootStep>, mount: &Mount, console: &Option<Vec<u8>>)
    ensures
        step_views(final(steps)@) == step_views(old(steps)@) + settle(mount@, opt_view(*console)),
{
    match &mount.src {
        MountSrc::DevFs => mount_devfs(steps, mount.dst.as_slice(), console),
        MountSrc::ProcFs => push_fresh(steps, "proc", mount.dst.as_slice(), no_flags()),
        MountSrc::SysFs => push_fresh(steps, "sysfs", mount.dst.as_slice(), no_flags()),
        MountSrc::TmpFs => push_fresh(steps, "tmpfs", mount.dst.as_slice(), no_flags()),
        MountSrc::Bind(_) => push_remount(steps, mount.dst.as_slice(), !mount.writable),
    }
    assert(step_views(steps@) =~= step_views(old(steps)@) + settle(mount@, opt_view(*console)));
}

fn push_place_all(steps: &mut Vec<RootStep>, rootfs: &[u8], mounts: &Vec<Mount>)
    ensures
        step_views(final(steps)@) == step_views(old(steps)@) + place_all(
            rootfs@,
            mount_views(mounts@),
        ),
{
    let ghost all = mount_views(mounts@);
    let mut i: usize = 0;
    assert(all.take(0) =~= Seq::empty());
    assert(step_views(steps@) + place_all(rootfs@, all.take(0)) =~= step_views(steps@));
    while i < mounts.len()
        invariant
            i <= mounts@.len(),
            all == mount_views(mounts@),
            step_views(steps@) == step_views(old(steps)@) + place_all(
                rootfs@,
                all.take(i as int),
            ),
        decreases mounts@.len() - i,
    {
        push_place(steps, rootfs, &mounts[i]);
        proof {
            assert(all.take(i + 1).drop_last() =~= all.take(i as int));
            assert(all.take(i + 1).last() == mounts@[i as int]@);
            assert(step_views(steps@) =~= step_views(old(steps)@) + place_all(
                rootfs@,
                all.take(i + 1),
            ));
        }
        i += 1;
    }
    assert(all.take(i as int) =~= all);
}

fn push_settle_all(steps: &mut Vec<RootStep>, mounts: &Vec<Mount>, console: &Option<Vec<u8>>)
    ensures
        step_views(final(steps)@) == step_views(old(steps)@) + settle_all(
            mount_views(mounts@),
            opt_view(*console),
        ),
{
    let ghost all = mount_views(mounts@);
    let ghost tty = opt_view(*console);
    let mut i: usize = 0;
    assert(all.take(0) =~= Seq::empty());
    assert(step_views(steps@) + settle_all(all.take(0), tty) =~= step_views(steps@));
    while i < mounts.len()
        invariant
            i <= mounts@.len(),
            all == mount_views(mounts@),
            tty == opt_view(*console),
            step_views(steps@) == step_views(old(steps)@) + settle_all(all.take(i as int), tty),
        decreases mounts@.len() - i,
    {
        push_settle(steps, &mounts[i], console);
        proof {
            assert(all.take(i + 1).drop_last() =~= all.take(i as int));
            assert(all.take(i + 1).last() == mounts@[i as int]@);
            assert(step_views(steps@) =~= step_views(old(steps)@) + settle_all(
                all.take(i + 1),
                tty,
            ));
        }
        i += 1;
    }
    assert(all.take(i as int) =~= all);
}

/// The step that isolates the mounts of the jail from the host.
pub fn isolate_mounts() -> (r: RootStep)
    ensures
        r@ == isolate(),
{
    let mut flags = no_flags();
    flags.rec = true;
    flags.private = true;
    RootStep::Mount { source: None, target: text("/"), fstype: None, flags, data: None }
}

impl Command {
    /// The steps that set up the root filesystem of the jail, in order. The
    /// first isolates its mounts from the host.
    ///
    /// `rootfs` is the directory of the host that becomes the root, and
    /// `console` the path of the terminal on the host, if there is one. Each
    /// step is taken only if those before it succeeded.
    pub fn new_root(&self, rootfs: &[u8], console: &Option<Vec<u8>>) -> (r: Vec<RootStep>)
        ensures
            step_views(r@) == seq![isolate()] + root_plan(self@, rootfs@, opt_view(*console)),
    {
        let mut steps: Vec<RootStep> = Vec::new();
        assert(step_views(steps@) =~= Seq::empty());
        push_step(&mut steps, isolate_mounts());
        push_bind(&mut steps, rootfs, rootfs, no_flags());
        push_place_all(&mut steps, rootfs, self.mounts());
        let old_root = join_name(rootfs, "old_root");
        push_step(&mut steps, RootStep::CreateDirAll(copy(old_root.as_slice())));
        push_step(&mut steps, RootStep::PivotRoot { new_root: copy(rootfs), put_old: old_root });
        push_step(&mut steps, RootStep::Chdir(text("/")));
        push_settle_all(&mut steps, self.mounts(), console);
        push_step(&mut steps, RootStep::Detach(text("/old_root")));
        push_step(&mut steps, RootStep::RemoveDir(text("/old_root")));
        if self.is_root_read_only() {
            push_remount(&mut steps, "/".as_bytes(), true);
        }
        assert(step_views(steps@) =~= seq![isolate()] + root_plan(
            self@,
            rootfs@,
            opt_view(*console),
        ));
        steps
    }
}

/// The path that a step creates, if any.
pub open spec fn made(step: StepView) -> Seq<Seq<u8>> {
    match step {
        StepView::Touch(path) => seq![path],
        StepView::CreateDirAll(path) => seq![path],
        StepView::EnsureDir(path) => seq![path],
        StepView::Symlink { link, .. } => seq![link],
        _ => Seq::empty(),
    }
}

/// The paths that steps create.
pub open spec fn created(steps: Seq<StepView>) -> Seq<Seq<u8>>
    decreases steps.len(),
{
    if steps.len() == 0 {
        Seq::empty()
    } else {
        created(steps.drop_last()) + made(steps.last())
    }
}

proof fn lemma_created_push(steps: Seq<StepView>, step: StepView)
    ensures
        created(steps.push(step)) == created(steps) + made(step),
{
    assert(steps.push(step).drop_last() =~= steps);
}

proof fn lemma_created_append(a: Seq<StepView>, b: Seq<StepView>)
    ensures
        created(a + b) == created(a) + created(b),
    decreases b.len(),
{
    if b.len() == 0 {
        assert(a + b =~= a);
        assert(created(a) + created(b) =~= created(a));
    } else {
        lemma_created_append(a, b.drop_last());
        assert((a + b).drop_last() =~= a + b.drop_last());
        assert((a + b).last() == b.last());
        assert(created(a + b) =~= created(a) + created(b));
    }
}

proof fn lemma_created_device(dst: Seq<u8>, name: Seq<u8>)
    ensures
        created(device(dst, name)) == seq![joined(dst, name)],
{
    let steps = device(dst, name);
    let none = Seq::<StepView>::empty();
    lemma_created_push(none, steps[0]);
    lemma_created_push(none.push(steps[0]), steps[1]);
    assert(none.push(steps[0]).push(steps[1]) =~= steps);
    assert(created(steps) =~= seq![joined(dst, name)]);
}

/// The names that the documentation of the devices lists, without the
/// console.
pub open spec fn listed_devices() -> Seq<Seq<u8>> {
    seq![
        "null".spec_bytes(),
        "full".spec_bytes(),
        "zero".spec_bytes(),
        "random".spec_bytes(),
        "urandom".spec_bytes(),
        "tty".spec_bytes(),
        "stdin".spec_bytes(),
        "stdout".spec_bytes(),
        "stderr".spec_bytes(),
        "fd".spec_bytes(),
        "core".spec_bytes(),
        "shm".spec_bytes(),
        "pts".spec_bytes(),
        "ptmx".spec_bytes(),
    ]
}

#[verifier::spinoff_prover]
#[verifier::rlimit(60)]
proof fn lemma_created_extras(dst: Seq<u8>)
    ensures
        created(device_extras(dst)) == seq![
            joined(dst, "stdin".spec_bytes()),
            joined(dst, "stdout".spec_bytes()),
            joined(dst, "stderr".spec_bytes()),
            joined(dst, "fd".spec_bytes()),
            joined(dst, "core".spec_bytes()),
            joined(dst, "shm".spec_bytes()),
            joined(dst, "pts".spec_bytes()),
            joined(dst, "ptmx".spec_bytes()),
        ],
{
    let s = device_extras(dst);
    let e0 = Seq::<StepView>::empty();
    let e1 = e0.push(s[0]);
    let e2 = e1.push(s[1]);
    let e3 = e2.push(s[2]);
    let e4 = e3.push(s[3]);
    let e5 = e4.push(s[4]);
    let e6 = e5.push(s[5]);
    let e7 = e6.push(s[6]);
    let e8 = e7.push(s[7]);
    let e9 = e8.push(s[8]);
    lemma_created_push(e0, s[0]);
    lemma_created_push(e1, s[1]);
    lemma_created_push(e2, s[2]);
    lemma_created_push(e3, s[3]);
    lemma_created_push(e4, s[4]);
    lemma_created_push(e5, s[5]);
    lemma_created_push(e6, s[6]);
    lemma_created_push(e7, s[7]);
    lemma_created_push(e8, s[8]);
    assert(e9 =~= s);
    assert(created(e4) =~= seq![
        joined(dst, "stdin".spec_bytes()),
        joined(dst, "stdout".spec_bytes()),
        joined(dst, "stderr".spec_bytes()),
        joined(dst, "fd".spec_bytes()),
    ]);
    assert(created(s) =~= seq![
        joined(dst, "stdin".spec_bytes()),
        joined(dst, "stdout".spec_bytes()),
        joined(dst, "stderr".spec_bytes()),
        joined(dst, "fd".spec_bytes()),
        joined(dst, "core".spec_bytes()),
        joined(dst, "shm".spec_bytes()),
        joined(dst, "pts".spec_bytes()),
        joined(dst, "ptmx".spec_bytes()),
    ]);
}

#[verifier::spinoff_prover]
#[verifier::rlimit(60)]
proof fn lemma_created_devices(dst: Seq<u8>)
    ensures
        created(devices(dst)) == seq![
            joined(dst, "null".spec_bytes()),
            joined(dst, "full".spec_bytes()),
            joined(dst, "zero".spec_bytes()),
            joined(dst, "random".spec_bytes()),
            joined(dst, "urandom".spec_bytes()),
            joined(dst, "tty".spec_bytes()),
        ],
{
    let d1 = device(dst, "null".spec_bytes());
    let d2 = device(dst, "full".spec_bytes());
    let d3 = device(dst, "zero".spec_bytes());
    let d4 = device(dst, "random".spec_bytes());
    let d5 = device(dst, "urandom".spec_bytes());
    let d6 = device(dst, "tty".spec_bytes());
    lemma_created_device(dst, "null".spec_bytes());
    lemma_created_device(dst, "full".spec_bytes());
    lemma_created_device(dst, "zero".spec_bytes());
    lemma_created_device(dst, "random".spec_bytes());
    lemma_created_device(dst, "urandom".spec_bytes());
    lemma_created_device(dst, "tty".spec_bytes());
    lemma_created_append(d1, d2);
    lemma_created_append(d1 + d2, d3);
    lemma_created_append(d1 + d2 + d3, d4);
    lemma_created_append(d1 + d2 + d3 + d4, d5);
    lemma_created_append(d1 + d2 + d3 + d4 + d5, d6);
    assert(created(devices(dst)) =~= seq![
        joined(dst, "null".spec_bytes()),
        joined(dst, "full".spec_bytes()),
        joined(dst, "zero".spec_bytes()),
        joined(dst, "random".spec_bytes()),
        joined(dst, "urandom".spec_bytes()),
        joined(dst, "tty".spec_bytes()),
    ]);
}

/// The filesystem with the common devices holds exactly what its
/// documentation lists, and a console exactly where there is a terminal.
#[verifier::spinoff_prover]
#[verifier::rlimit(60)]
pub proof fn devices_are_as_listed(dst: Seq<u8>, console: Option<Seq<u8>>)
    ensures
        created(devfs_plan(dst, console)) == listed_devices().map_values(
            |name: Seq<u8>| joined(dst, name),
        ) + (if console is Some {
            seq![joined(dst, "console".spec_bytes())]
        } else {
            Seq::empty()
        }),
{
    let head = seq![fresh("tmpfs".spec_bytes(), dst, MountFlags { nosuid: true, ..plain() })];
    let none = Seq::<StepView>::empty();
    let tail = console_plan(dst, console);
    lemma_created_devices(dst);
    lemma_created_extras(dst);
    lemma_created_push(none, head[0]);
    assert(none.push(head[0]) =~= head);
    assert(created(head) =~= Seq::empty());
    if console is Some {
        lemma_created_push(none, tail[0]);
        lemma_created_push(none.push(tail[0]), tail[1]);
        assert(none.push(tail[0]).push(tail[1]) =~= tail);
        assert(created(tail) =~= seq![joined(dst, "console".spec_bytes())]);
    }
    lemma_created_append(head, devices(dst));
    lemma_created_append(head + devices(dst), device_extras(dst));
    lemma_created_append(head + devices(dst) + device_extras(dst), tail);
    let listed = listed_devices().map_values(|name: Seq<u8>| joined(dst, name));
    assert(created(devices(dst)) + created(device_extras(dst)) =~= listed);
    assert(created(devfs_plan(dst, console)) =~= listed + created(tail));
}

proof fn lemma_place_all(rootfs: Seq<u8>, mounts: Seq<MountView>, i: int)
    requires
        0 <= i < mounts.len(),
    ensures
        forall|step: StepView|
            place(rootfs, mounts[i]).contains(step) ==> #[trigger] place_all(
                rootfs,
                mounts,
            ).contains(step),
    decreases mounts.len(),
{
    let init = place_all(rootfs, mounts.drop_last());
    let last = place(rootfs, mounts.last());
    let all = place_all(rootfs, mounts);
    if i < mounts.len() - 1 {
        lemma_place_all(rootfs, mounts.drop_last(), i);
        assert(mounts.drop_last()[i] == mounts[i]);
    }
    assert forall|step: StepView| place(rootfs, mounts[i]).contains(step) implies all.contains(
        step,
    ) by {
        if i < mounts.len() - 1 {
            assert(init.contains(step));
            let k = choose|k: int| 0 <= k < init.len() && init[k] == step;
            assert(all[k] == step);
        } else {
            let k = choose|k: int| 0 <= k < last.len() && last[k] == step;
            assert(all[init.len() + k] == step);
        }
    }
}

proof fn lemma_settle_all(mounts: Seq<MountView>, console: Option<Seq<u8>>, i: int)
    requires
        0 <= i < mounts.len(),
    ensures
        forall|step: StepView|
            settle(mounts[i], console).contains(step) ==> #[trigger] settle_all(
                mounts,
                console,
            ).contains(step),
    decreases mounts.len(),
{
    let init = settle_all(mounts.drop_last(), console);
    let last = settle(mounts.last(), console);
    let all = settle_all(mounts, console);
    if i < mounts.len() - 1 {
        lemma_settle_all(mounts.drop_last(), console, i);
        assert(mounts.drop_last()[i] == mounts[i]);
    }
    assert forall|step: StepView| settle(mounts[i], console).contains(step) implies all.contains(
        step,
    ) by {
        if i < mounts.len() - 1 {
            assert(init.contains(step));
            let k = choose|k: int| 0 <= k < init.len() && init[k] == step;
            assert(all[k] == step);
        } else {
            let k = choose|k: int| 0 <= k < last.len() && last[k] == step;
            assert(all[init.len() + k] == step);
        }
    }
}

/// The part of the plan before the root of the jail is entered.
pub open spec fn outside_plan(cmd: CommandView, rootfs: Seq<u8>) -> Seq<StepView> {
    seq![bind(rootfs, rootfs, plain())] + place_all(rootfs, cmd.mounts)
}

/// For every mount its place below the root is made before the root of the
/// jail is entered, and a directory of the host is bound to it there.
pub proof fn every_mount_has_its_place(
    cmd: CommandView,
    rootfs: Seq<u8>,
    console: Option<Seq<u8>>,
    i: int,
)
    requires
        0 <= i < cmd.mounts.len(),
    ensures
        root_plan(cmd, rootfs, console).take(outside_plan(cmd, rootfs).len() as int)
            == outside_plan(cmd, rootfs),
        outside_plan(cmd, rootfs).contains(
            StepView::EnsureDir(rebased(rootfs, cmd.mounts[i].dst)),
        ),
        cmd.mounts[i].src matches SourceView::Bind(src) ==> outside_plan(cmd, rootfs).contains(
            bind(
                src,
                rebased(rootfs, cmd.mounts[i].dst),
                MountFlags { private: true, rdonly: !cmd.mounts[i].writable, ..plain() },
            ),
        ),
{
    let outside = outside_plan(cmd, rootfs);
    let placed = place_all(rootfs, cmd.mounts);
    let m = cmd.mounts[i];
    assert(root_plan(cmd, rootfs, console).take(outside.len() as int) =~= outside);
    lemma_place_all(rootfs, cmd.mounts, i);
    let here = place(rootfs, m);
    assert(here[0] == StepView::EnsureDir(rebased(rootfs, m.dst)));
    assert(here.contains(here[0]));
    assert(placed.contains(here[0]));
    let k = choose|k: int| 0 <= k < placed.len() && placed[k] == here[0];
    assert(outside[1 + k] == here[0]);
    if m.src is Bind {
        assert(here.contains(here[1]));
        assert(placed.contains(here[1]));
        let k = choose|k: int| 0 <= k < placed.len() && placed[k] == here[1];
        assert(outside[1 + k] == here[1]);
    }
}

/// Inside the jail, a directory of the host is made read-only exactly where
/// it was not asked to be writable.
pub proof fn bind_mounts_are_as_writable_as_asked(
    cmd: CommandView,
    rootfs: Seq<u8>,
    console: Option<Seq<u8>>,
    i: int,
)
    requires
        0 <= i < cmd.mounts.len(),
        cmd.mounts[i].src is Bind,
    ensures
        root_plan(cmd, rootfs, console).contains(
            remount(cmd.mounts[i].dst, !cmd.mounts[i].writable),
        ),
{
    let step = remount(cmd.mounts[i].dst, !cmd.mounts[i].writable);
    let settled = settle_all(cmd.mounts, console);
    lemma_settle_all(cmd.mounts, console, i);
    let here = settle(cmd.mounts[i], console);
    assert(here[0] == step);
    assert(here.contains(step));
    assert(settled.contains(step));
    let k = choose|k: int| 0 <= k < settled.len() && settled[k] == step;
    let before = outside_plan(cmd, rootfs) + pivot(rootfs);
    let plan = root_plan(cmd, rootfs, console);
    assert(plan =~= before + settled + leave_host() + protect(cmd.ro_root));
    assert(plan[before.len() + k] == step);
}

/// The host is taken out of the jail before the program starts, and nothing
/// follows but the protection of a read-only root.
pub proof fn the_host_is_left_behind(
    cmd: CommandView,
    rootfs: Seq<u8>,
    console: Option<Seq<u8>>,
)
    ensures
        ({
            let plan = root_plan(cmd, rootfs, console);
            let end = leave_host() + protect(cmd.ro_root);
            &&& plan.skip(plan.len() - end.len()) == end
            &&& cmd.ro_root ==> plan.last() == remount("/".spec_bytes(), true)
            &&& !cmd.ro_root ==> plan.last() == StepView::RemoveDir("/old_root".spec_bytes())
        }),
{
    let plan = root_plan(cmd, rootfs, console);
    let end = leave_host() + protect(cmd.ro_root);
    assert(plan.skip(plan.len() - end.len()) =~= end);
    assert(plan.last() == end.last());
}

/// Flags of a mount that is not recursive.
pub open spec fn flags_of(
    bind: bool,
    private: bool,
    remount: bool,
    rdonly: bool,
    nosuid: bool,
    noexec: bool,
) -> MountFlags {
    MountFlags { rec: false, private, bind, remount, rdonly, nosuid, noexec }
}

/// Whether a step mounts something on a path, or changes what is mounted.
pub open spec fn mounts_on(step: StepView, path: Seq<u8>) -> bool {
    step matches StepView::Mount { target, .. } && target == path
}

/// The last of the steps that mounts something on a path, or changes what is
/// mounted there: it decides what is seen there in the end.
pub open spec fn last_on(steps: Seq<StepView>, path: Seq<u8>) -> Option<StepView>
    decreases steps.len(),
{
    if steps.len() == 0 {
        None
    } else if mounts_on(steps.last(), path) {
        Some(steps.last())
    } else {
        last_on(steps.drop_last(), path)
    }
}

/// The steps before the root of the jail is entered.
pub open spec fn before_pivot(steps: Seq<StepView>) -> Seq<StepView>
    decreases steps.len(),
{
    if steps.len() == 0 || steps[0] is PivotRoot {
        Seq::empty()
    } else {
        seq![steps[0]] + before_pivot(steps.skip(1))
    }
}

/// The steps once the root of the jail was entered.
pub open spec fn after_pivot(steps: Seq<StepView>) -> Seq<StepView>
    decreases steps.len(),
{
    if steps.len() == 0 {
        Seq::empty()
    } else if steps[0] is PivotRoot {
        steps.skip(1)
    } else {
        after_pivot(steps.skip(1))
    }
}

proof fn lemma_around_pivot(before: Seq<StepView>, pivot: StepView, after: Seq<StepView>)
    requires
        forall|i: int| 0 <= i < before.len() ==> !(#[trigger] before[i] is PivotRoot),
        pivot is PivotRoot,
    ensures
        before_pivot(before + seq![pivot] + after) == before,
        after_pivot(before + seq![pivot] + after) == after,
    decreases before.len(),
{
    let all = before + seq![pivot] + after;
    if before.len() == 0 {
        assert(all[0] == pivot);
        assert(all.skip(1) =~= after);
        assert(before_pivot(all) =~= before);
    } else {
        assert(all[0] == before[0]);
        assert(all.skip(1) =~= before.skip(1) + seq![pivot] + after);
        assert forall|i: int| 0 <= i < before.skip(1).len() implies !(#[trigger] before.skip(
            1,
        )[i] is PivotRoot) by {
            assert(before.skip(1)[i] == before[i + 1]);
        }
        lemma_around_pivot(before.skip(1), pivot, after);
        assert(seq![before[0]] + before.skip(1) =~= before);
    }
}

proof fn lemma_last_on_append(a: Seq<StepView>, b: Seq<StepView>, path: Seq<u8>)
    ensures
        last_on(a + b, path) == match last_on(b, path) {
            Some(step) => Some(step),
            None => last_on(a, path),
        },
    decreases b.len(),
{
    if b.len() == 0 {
        assert(a + b =~= a);
    } else {
        assert((a + b).last() == b.last());
        assert((a + b).drop_last() =~= a + b.drop_last());
        lemma_last_on_append(a, b.drop_last(), path);
    }
}

proof fn lemma_last_on_none(steps: Seq<StepView>, path: Seq<u8>)
    requires
        forall|i: int| 0 <= i < steps.len() ==> !mounts_on(#[trigger] steps[i], path),
    ensures
        last_on(steps, path) is None,
    decreases steps.len(),
{
    if steps.len() > 0 {
        assert(steps[steps.len() - 1] == steps.last());
        assert forall|i: int| 0 <= i < steps.drop_last().len() implies !mounts_on(
            #[trigger] steps.drop_last()[i],
            path,
        ) by {
            assert(steps.drop_last()[i] == steps[i]);
        }
        lemma_last_on_none(steps.drop_last(), path);
    }
}

/// What a mount takes while the host is still visible: its place is made, and
/// a directory of the host is bound to it, not shared, and read-only exactly
/// where it was not asked to be writable. Nothing else is done.
pub proof fn placing_a_mount(rootfs: Seq<u8>, mount: MountView)
    ensures
        ({
            let steps = place(rootfs, mount);
            let there = rebased(rootfs, mount.dst);
            &&& steps.len() > 0 && steps[0] == StepView::EnsureDir(there)
            &&& !(mount.src is Bind) ==> steps.len() == 1
            &&& mount.src matches SourceView::Bind(src) ==> {
                &&& steps.len() == 2
                &&& steps[1] == (StepView::Mount {
                    source: Some(src),
                    target: there,
                    fstype: None,
                    flags: flags_of(true, true, false, !mount.writable, false, false),
                    data: None,
                })
            }
        }),
{
}

/// What a mount takes inside the jail, where it is not of devices: a single
/// step. A directory of the host is remounted in its place, read-only exactly
/// where it was not asked to be writable; a filesystem of its own is mounted
/// at its path, with its type and without any flags.
pub proof fn settling_a_mount(mount: MountView, console: Option<Seq<u8>>)
    requires
        !(mount.src is DevFs),
    ensures
        ({
            let steps = settle(mount, console);
            &&& steps.len() == 1
            &&& steps[0] matches StepView::Mount { source, target, fstype, flags, data }
            &&& target == mount.dst
            &&& data is None
            &&& mount.src is Bind ==> {
                &&& source == Some(mount.dst)
                &&& fstype is None
                &&& flags == flags_of(true, false, true, !mount.writable, false, false)
            }
            &&& !(mount.src is Bind) ==> {
                &&& source is None
                &&& flags == flags_of(false, false, false, false, false, false)
                &&& fstype == Some(
                    match mount.src {
                        SourceView::ProcFs => "proc".spec_bytes(),
                        SourceView::SysFs => "sysfs".spec_bytes(),
                        _ => "tmpfs".spec_bytes(),
                    },
                )
            }
        }),
{
}

/// The whole plan: first the mounts are isolated from the host, recursively,
/// then the root is bound to itself. The root is entered exactly once, when
/// the place of the former root was made, and the root becomes the current
/// directory at once. In the end the former root is detached and its place
/// removed, and only then a root that is not writable is made read-only.
#[verifier::spinoff_prover]
#[verifier::rlimit(60)]
pub proof fn the_plan_has_its_frame(cmd: CommandView, rootfs: Seq<u8>, console: Option<Seq<u8>>)
    ensures
        ({
            let plan = seq![isolate()] + root_plan(cmd, rootfs, console);
            let before = before_pivot(plan);
            let after = after_pivot(plan);
            let old_root = joined(rootfs, "old_root".spec_bytes());
            let tail = if cmd.ro_root {
                after.len() - 1
            } else {
                after.len() as int
            };
            &&& plan == before + seq![
                StepView::PivotRoot { new_root: rootfs, put_old: old_root },
            ] + after
            &&& forall|i: int| 0 <= i < after.len() ==> !(#[trigger] after[i] is PivotRoot)
            &&& before.len() >= 3
            &&& before[0] == (StepView::Mount {
                source: None,
                target: "/".spec_bytes(),
                fstype: None,
                flags: MountFlags {
                    rec: true,
                    ..flags_of(false, true, false, false, false, false)
                },
                data: None,
            })
            &&& before[1] == (StepView::Mount {
                source: Some(rootfs),
                target: rootfs,
                fstype: None,
                flags: flags_of(true, false, false, false, false, false),
                data: None,
            })
            &&& before.last() == StepView::CreateDirAll(old_root)
            &&& tail >= 3
            &&& after[0] == StepView::Chdir("/".spec_bytes())
            &&& after[tail - 2] == StepView::Detach("/old_root".spec_bytes())
            &&& after[tail - 1] == StepView::RemoveDir("/old_root".spec_bytes())
            &&& cmd.ro_root ==> after.last() == (StepView::Mount {
                source: Some("/".spec_bytes()),
                target: "/".spec_bytes(),
                fstype: None,
                flags: flags_of(true, false, true, true, false, false),
                data: None,
            })
            &&& after == after.take(1) + settle_all(cmd.mounts, console) + after.skip(tail - 2)
            &&& before == before.take(2) + place_all(rootfs, cmd.mounts) + seq![before.last()]
        }),
{
    lemma_plan_parts(cmd, rootfs, console);
    let settled = settle_all(cmd.mounts, console);
    let after = after_pivot(seq![isolate()] + root_plan(cmd, rootfs, console));
    let before = before_pivot(seq![isolate()] + root_plan(cmd, rootfs, console));
    let tail = if cmd.ro_root {
        after.len() - 1
    } else {
        after.len() as int
    };
    assert(after =~= after.take(1) + settled + after.skip(tail - 2));
    assert(before =~= before.take(2) + place_all(rootfs, cmd.mounts) + seq![before.last()]);
    lemma_settled_steps(cmd.mounts, console);
    assert forall|i: int| 0 <= i < after.len() implies !(#[trigger] after[i] is PivotRoot) by {
        if 1 <= i < 1 + settled.len() {
            assert(after[i] == settled[i - 1]);
        }
    }
}

#[verifier::spinoff_prover]
#[verifier::rlimit(60)]
proof fn lemma_plan_parts(cmd: CommandView, rootfs: Seq<u8>, console: Option<Seq<u8>>)
    ensures
        ({
            let plan = seq![isolate()] + root_plan(cmd, rootfs, console);
            let old_root = joined(rootfs, "old_root".spec_bytes());
            let before = seq![isolate()] + outside_plan(cmd, rootfs) + seq![
                StepView::CreateDirAll(old_root),
            ];
            let after = seq![StepView::Chdir("/".spec_bytes())] + settle_all(cmd.mounts, console)
                + leave_host() + protect(cmd.ro_root);
            &&& before_pivot(plan) == before
            &&& after_pivot(plan) == after
            &&& plan == before + seq![
                StepView::PivotRoot { new_root: rootfs, put_old: old_root },
            ] + after
        }),
{
    let plan = seq![isolate()] + root_plan(cmd, rootfs, console);
    let old_root = joined(rootfs, "old_root".spec_bytes());
    let pivot_step = StepView::PivotRoot { new_root: rootfs, put_old: old_root };
    let outside = outside_plan(cmd, rootfs);
    let before = seq![isolate()] + outside + seq![StepView::CreateDirAll(old_root)];
    let after = seq![StepView::Chdir("/".spec_bytes())] + settle_all(cmd.mounts, console)
        + leave_host() + protect(cmd.ro_root);
    assert(plan =~= before + seq![pivot_step] + after);
    lemma_placed_steps(rootfs, cmd.mounts);
    assert forall|i: int| 0 <= i < before.len() implies !(#[trigger] before[i] is PivotRoot) by {
        if 2 <= i < before.len() - 1 {
            assert(before[i] == place_all(rootfs, cmd.mounts)[i - 2]);
        }
    }
    lemma_around_pivot(before, pivot_step, after);
}

/// Every step of placing mounts is a step of placing one of them.
proof fn lemma_placed_steps(rootfs: Seq<u8>, mounts: Seq<MountView>)
    ensures
        forall|k: int|
            0 <= k < place_all(rootfs, mounts).len() ==> {
                let step = #[trigger] place_all(rootfs, mounts)[k];
                &&& step is EnsureDir || step is Mount
                &&& exists|i: int|
                    0 <= i < mounts.len() && place(rootfs, #[trigger] mounts[i]).contains(step)
            },
    decreases mounts.len(),
{
    if mounts.len() > 0 {
        let init = place_all(rootfs, mounts.drop_last());
        let last = place(rootfs, mounts.last());
        lemma_placed_steps(rootfs, mounts.drop_last());
        assert forall|k: int| 0 <= k < place_all(rootfs, mounts).len() implies {
            let step = #[trigger] place_all(rootfs, mounts)[k];
            &&& step is EnsureDir || step is Mount
            &&& exists|i: int|
                0 <= i < mounts.len() && place(rootfs, #[trigger] mounts[i]).contains(step)
        } by {
            let step = place_all(rootfs, mounts)[k];
            if k < init.len() {
                assert(step == init[k]);
                let i = choose|i: int|
                    0 <= i < mounts.drop_last().len() && place(
                        rootfs,
                        #[trigger] mounts.drop_last()[i],
                    ).contains(step);
                assert(mounts[i] == mounts.drop_last()[i]);
            } else {
                assert(step == last[k - init.len()]);
                assert(mounts[mounts.len() - 1] == mounts.last());
                assert(last.contains(step));
            }
        }
    }
}

/// Every step of settling mounts is a step of settling one of them.
#[verifier::spinoff_prover]
#[verifier::rlimit(60)]
proof fn lemma_settled_steps(mounts: Seq<MountView>, console: Option<Seq<u8>>)
    ensures
        forall|k: int|
            0 <= k < settle_all(mounts, console).len() ==> {
                let step = #[trigger] settle_all(mounts, console)[k];
                &&& step is CreateDirAll || step is Mount || step is Touch || step is Symlink
                &&& exists|i: int|
                    0 <= i < mounts.len() && settle(#[trigger] mounts[i], console).contains(step)
            },
    decreases mounts.len(),
{
    if mounts.len() > 0 {
        let init = settle_all(mounts.drop_last(), console);
        let last = settle(mounts.last(), console);
        lemma_settled_steps(mounts.drop_last(), console);
        assert forall|k: int| 0 <= k < settle_all(mounts, console).len() implies {
            let step = #[trigger] settle_all(mounts, console)[k];
            &&& step is CreateDirAll || step is Mount || step is Touch || step is Symlink
            &&& exists|i: int|
                0 <= i < mounts.len() && settle(#[trigger] mounts[i], console).contains(step)
        } by {
            let step = settle_all(mounts, console)[k];
            if k < init.len() {
                assert(step == init[k]);
                let i = choose|i: int|
                    0 <= i < mounts.drop_last().len() && settle(
                        #[trigger] mounts.drop_last()[i],
                        console,
                    ).contains(step);
                assert(mounts[i] == mounts.drop_last()[i]);
            } else {
                assert(step == last[k - init.len()]);
                assert(mounts[mounts.len() - 1] == mounts.last());
                assert(last.contains(step));
                if mounts.last().src is DevFs {
                    lemma_device_steps(mounts.last().dst, console);
                }
            }
        }
    }
}

/// The steps of a filesystem with the common devices, and what they mount on.
#[verifier::spinoff_prover]
#[verifier::rlimit(60)]
proof fn lemma_device_steps(dst: Seq<u8>, console: Option<Seq<u8>>)
    ensures
        forall|k: int|
            0 <= k < devfs_plan(dst, console).len() ==> {
                let step = #[trigger] devfs_plan(dst, console)[k];
                &&& step is CreateDirAll || step is Mount || step is Touch || step is Symlink
                &&& step matches StepView::Mount { target, flags, .. } ==> {
                    &&& begins_with(target, dst)
                    &&& !flags.remount
                    &&& k > 0 ==> target.len() > dst.len()
                }
            },
{
    lemma_device_names();
    let plan = devfs_plan(dst, console);
    assert forall|k: int| 0 <= k < plan.len() implies {
        let step = #[trigger] plan[k];
        &&& step is CreateDirAll || step is Mount || step is Touch || step is Symlink
        &&& step matches StepView::Mount { target, flags, .. } ==> {
            &&& begins_with(target, dst)
            &&& !flags.remount
            &&& k > 0 ==> target.len() > dst.len()
        }
    } by {
        let step = plan[k];
        if let StepView::Mount { target, .. } = step {
            assert(target.take(dst.len() as int) =~= dst);
        }
    }
}

proof fn lemma_device_names()
    ensures
        "null".spec_bytes() == seq![0x6eu8, 0x75, 0x6c, 0x6c],
        "full".spec_bytes() == seq![0x66u8, 0x75, 0x6c, 0x6c],
        "zero".spec_bytes() == seq![0x7au8, 0x65, 0x72, 0x6f],
        "random".spec_bytes() == seq![0x72u8, 0x61, 0x6e, 0x64, 0x6f, 0x6d],
        "urandom".spec_bytes() == seq![0x75u8, 0x72, 0x61, 0x6e, 0x64, 0x6f, 0x6d],
        "tty".spec_bytes() == seq![0x74u8, 0x74, 0x79],
        "pts".spec_bytes() == seq![0x70u8, 0x74, 0x73],
        "console".spec_bytes() == seq![0x63u8, 0x6f, 0x6e, 0x73, 0x6f, 0x6c, 0x65],
{
    reveal_strlit("null");
    reveal_strlit("full");
    reveal_strlit("zero");
    reveal_strlit("random");
    reveal_strlit("urandom");
    reveal_strlit("tty");
    reveal_strlit("pts");
    reveal_strlit("console");
    assert("null".is_ascii());
    assert("full".is_ascii());
    assert("zero".is_ascii());
    assert("random".is_ascii());
    assert("urandom".is_ascii());
    assert("tty".is_ascii());
    assert("pts".is_ascii());
    assert("console".is_ascii());
    assert("null".spec_bytes() =~= seq![0x6eu8, 0x75, 0x6c, 0x6c]);
    assert("full".spec_bytes() =~= seq![0x66u8, 0x75, 0x6c, 0x6c]);
    assert("zero".spec_bytes() =~= seq![0x7au8, 0x65, 0x72, 0x6f]);
    assert("random".spec_bytes() =~= seq![0x72u8, 0x61, 0x6e, 0x64, 0x6f, 0x6d]);
    assert("urandom".spec_bytes() =~= seq![0x75u8, 0x72, 0x61, 0x6e, 0x64, 0x6f, 0x6d]);
    assert("tty".spec_bytes() =~= seq![0x74u8, 0x74, 0x79]);
    assert("pts".spec_bytes() =~= seq![0x70u8, 0x74, 0x73]);
    assert("console".spec_bytes() =~= seq![0x63u8, 0x6f, 0x6e, 0x73, 0x6f, 0x6c, 0x65]);
}

/// Whether a later mount can cover a path: it has the same path, or it is of
/// devices that stand on the way to it.
pub open spec fn covers(later: MountView, path: Seq<u8>) -> bool {
    later.dst == path || (later.src is DevFs && begins_with(path, later.dst))
}

proof fn lemma_settled_last(mounts: Seq<MountView>, console: Option<Seq<u8>>, i: int)
    requires
        0 <= i < mounts.len(),
        forall|j: int| i < j < mounts.len() ==> !covers(#[trigger] mounts[j], mounts[i].dst),
    ensures
        last_on(settle_all(mounts, console), mounts[i].dst) == Some(
            settle(mounts[i], console)[0],
        ),
    decreases mounts.len(),
{
    let path = mounts[i].dst;
    let init = mounts.drop_last();
    let last = mounts.last();
    let steps = settle(last, console);
    assert(mounts[mounts.len() - 1] == last);
    lemma_last_on_append(settle_all(init, console), steps, path);
    if i < mounts.len() - 1 {
        assert forall|j: int| i < j < init.len() implies !covers(#[trigger] init[j], init[i].dst) by {
            assert(init[j] == mounts[j]);
        }
        assert(init[i] == mounts[i]);
        lemma_settled_last(init, console, i);
        assert(!covers(mounts[mounts.len() - 1], path));
        if last.src is DevFs {
            lemma_device_steps(last.dst, console);
        }
        lemma_last_on_none(steps, path);
    } else {
        let rest = steps.skip(1);
        if last.src is DevFs {
            lemma_device_steps(last.dst, console);
        }
        assert forall|k: int| 0 <= k < rest.len() implies !mounts_on(#[trigger] rest[k], path) by {
            assert(rest[k] == steps[k + 1]);
        }
        lemma_last_on_none(rest, path);
        lemma_last_on_append(steps.take(1), rest, path);
        assert(steps.take(1) + rest =~= steps);
        assert(steps.take(1).last() == steps[0]);
    }
}

/// What is seen in the end at the path of a mount that no later mount covers:
/// a directory of the host, read-only exactly where it was not asked to be
/// writable, or a filesystem of the kind that was asked for. The path `/` is
/// left out where the root is made read-only.
#[verifier::spinoff_prover]
#[verifier::rlimit(60)]
pub proof fn each_path_has_its_mount(
    cmd: CommandView,
    rootfs: Seq<u8>,
    console: Option<Seq<u8>>,
    i: int,
)
    requires
        0 <= i < cmd.mounts.len(),
        forall|j: int|
            i < j < cmd.mounts.len() ==> !covers(#[trigger] cmd.mounts[j], cmd.mounts[i].dst),
        cmd.ro_root ==> cmd.mounts[i].dst != "/".spec_bytes(),
    ensures
        ({
            let plan = seq![isolate()] + root_plan(cmd, rootfs, console);
            let mount = cmd.mounts[i];
            &&& last_on(after_pivot(plan), mount.dst) matches Some(step)
            &&& step matches StepView::Mount { source, target, fstype, flags, data }
            &&& flags.rdonly == (mount.src is Bind && !mount.writable)
            &&& flags.remount == (mount.src is Bind)
            &&& flags.bind == (mount.src is Bind)
            &&& flags.nosuid == (mount.src is DevFs)
            &&& !flags.noexec && !flags.rec && !flags.private
            &&& data is None
            &&& source == if mount.src is Bind {
                Some(mount.dst)
            } else {
                None
            }
            &&& fstype == match mount.src {
                SourceView::Bind(_) => None,
                SourceView::ProcFs => Some("proc".spec_bytes()),
                SourceView::SysFs => Some("sysfs".spec_bytes()),
                SourceView::TmpFs => Some("tmpfs".spec_bytes()),
                SourceView::DevFs => Some("tmpfs".spec_bytes()),
            }
        }),
{
    lemma_plan_parts(cmd, rootfs, console);
    let path = cmd.mounts[i].dst;
    let head = seq![StepView::Chdir("/".spec_bytes())];
    let settled = settle_all(cmd.mounts, console);
    let tail = leave_host() + protect(cmd.ro_root);
    let after = head + settled + leave_host() + protect(cmd.ro_root);
    assert(after =~= (head + settled) + tail);
    lemma_last_on_none(tail, path);
    lemma_last_on_append(head + settled, tail, path);
    lemma_settled_last(cmd.mounts, console, i);
    lemma_last_on_append(head, settled, path);
}

/// Nothing is made writable that was not asked to be, nor read-only that was:
/// where a mount is changed, it is by a step that says read-only exactly
/// where a directory of the host with that path was not asked to be writable,
/// or by the last step, which makes the root read-only where it should be.
#[verifier::spinoff_prover]
#[verifier::rlimit(60)]
pub proof fn nothing_else_is_remounted(
    cmd: CommandView,
    rootfs: Seq<u8>,
    console: Option<Seq<u8>>,
    k: int,
)
    requires
        0 <= k < (seq![isolate()] + root_plan(cmd, rootfs, console)).len(),
    ensures
        ({
            let plan = seq![isolate()] + root_plan(cmd, rootfs, console);
            plan[k] matches StepView::Mount { source, target, flags, .. } ==> flags.remount ==> {
                ||| {
                    &&& cmd.ro_root && k == plan.len() - 1
                    &&& flags.rdonly && target == "/".spec_bytes()
                }
                ||| exists|i: int|
                    {
                        &&& 0 <= i < cmd.mounts.len()
                        &&& (#[trigger] cmd.mounts[i]).src is Bind
                        &&& cmd.mounts[i].dst == target
                        &&& flags.rdonly == !cmd.mounts[i].writable
                    }
            }
        }),
{
    let plan = seq![isolate()] + root_plan(cmd, rootfs, console);
    let placed = place_all(rootfs, cmd.mounts);
    let settled = settle_all(cmd.mounts, console);
    let from = 2 + placed.len() + 3;
    lemma_placed_steps(rootfs, cmd.mounts);
    lemma_settled_steps(cmd.mounts, console);
    if 2 <= k < 2 + placed.len() {
        assert(plan[k] == placed[k - 2]);
        let i = choose|i: int|
            0 <= i < cmd.mounts.len() && place(rootfs, #[trigger] cmd.mounts[i]).contains(plan[k]);
        let here = place(rootfs, cmd.mounts[i]);
        let n = choose|n: int| 0 <= n < here.len() && here[n] == plan[k];
        assert(n == 0 || n == 1);
    } else if from <= k < from + settled.len() {
        assert(plan[k] == settled[k - from]);
        let i = choose|i: int|
            0 <= i < cmd.mounts.len() && settle(#[trigger] cmd.mounts[i], console).contains(
                plan[k],
            );
        let here = settle(cmd.mounts[i], console);
        let n = choose|n: int| 0 <= n < here.len() && here[n] == plan[k];
        if cmd.mounts[i].src is DevFs {
            lemma_device_steps(cmd.mounts[i].dst, console);
        } else {
            assert(n == 0);
        }
    }
}

/// Inside the jail nothing is done but to settle the mounts, to leave the
/// host, and to protect the root; and a filesystem is mounted only where one
/// of its kind was asked for, or for the devices of one that was.
pub proof fn only_what_was_asked_for_is_mounted(
    cmd: CommandView,
    rootfs: Seq<u8>,
    console: Option<Seq<u8>>,
    k: int,
)
    ensures
        ({
            let steps = settle_all(cmd.mounts, console);
            0 <= k < steps.len() ==> exists|i: int|
                {
                    &&& 0 <= i < cmd.mounts.len()
                    &&& {
                        ||| (#[trigger] cmd.mounts[i]).src is DevFs
                        ||| mounts_on(steps[k], cmd.mounts[i].dst)
                    }
                    &&& settle(cmd.mounts[i], console).contains(steps[k])
                }
        }),
        ({
            let steps = place_all(rootfs, cmd.mounts);
            0 <= k < steps.len() ==> exists|i: int|
                {
                    &&& 0 <= i < cmd.mounts.len()
                    &&& place(rootfs, #[trigger] cmd.mounts[i]).contains(steps[k])
                }
        }),
{
    lemma_settled_steps(cmd.mounts, console);
    lemma_placed_steps(rootfs, cmd.mounts);
    let steps = settle_all(cmd.mounts, console);
    if 0 <= k < steps.len() {
        let i = choose|i: int|
            0 <= i < cmd.mounts.len() && settle(#[trigger] cmd.mounts[i], console).contains(
                steps[k],
            );
        let here = settle(cmd.mounts[i], console);
        let n = choose|n: int| 0 <= n < here.len() && here[n] == steps[k];
        assert(cmd.mounts[i].src is DevFs || n == 0);
    }
}

proof fn lemma_placed_last(rootfs: Seq<u8>, mounts: Seq<MountView>, i: int)
    requires
        0 <= i < mounts.len(),
        mounts[i].src is Bind,
        forall|j: int|
            i < j < mounts.len() ==> rebased(rootfs, (#[trigger] mounts[j]).dst) != rebased(
                rootfs,
                mounts[i].dst,
            ),
    ensures
        last_on(place_all(rootfs, mounts), rebased(rootfs, mounts[i].dst)) == Some(
            place(rootfs, mounts[i])[1],
        ),
    decreases mounts.len(),
{
    let path = rebased(rootfs, mounts[i].dst);
    let init = mounts.drop_last();
    let steps = place(rootfs, mounts.last());
    assert(mounts[mounts.len() - 1] == mounts.last());
    lemma_last_on_append(place_all(rootfs, init), steps, path);
    if i < mounts.len() - 1 {
        assert forall|j: int| i < j < init.len() implies rebased(rootfs, (#[trigger] init[j]).dst)
            != rebased(rootfs, init[i].dst) by {
            assert(init[j] == mounts[j]);
        }
        assert(init[i] == mounts[i]);
        lemma_placed_last(rootfs, init, i);
        lemma_last_on_none(steps, path);
    } else {
        assert(steps.last() == steps[1]);
    }
}

/// What is bound to a place below the root before it is entered: the
/// directory of the host that was asked for, not shared, and read-only
/// exactly where it was not asked to be writable, unless a later mount has
/// the same place.
pub proof fn each_place_has_its_directory(
    cmd: CommandView,
    rootfs: Seq<u8>,
    console: Option<Seq<u8>>,
    i: int,
)
    requires
        0 <= i < cmd.mounts.len(),
        forall|j: int|
            i < j < cmd.mounts.len() ==> rebased(rootfs, (#[trigger] cmd.mounts[j]).dst)
                != rebased(rootfs, cmd.mounts[i].dst),
    ensures
        ({
            let plan = seq![isolate()] + root_plan(cmd, rootfs, console);
            let there = rebased(rootfs, cmd.mounts[i].dst);
            cmd.mounts[i].src matches SourceView::Bind(src) ==> last_on(before_pivot(plan), there)
                == Some(
                StepView::Mount {
                    source: Some(src),
                    target: there,
                    fstype: None,
                    flags: flags_of(true, true, false, !cmd.mounts[i].writable, false, false),
                    data: None,
                },
            )
        }),
{
    if cmd.mounts[i].src is Bind {
        lemma_plan_parts(cmd, rootfs, console);
        let there = rebased(rootfs, cmd.mounts[i].dst);
        let head = seq![isolate(), bind(rootfs, rootfs, plain())];
        let placed = place_all(rootfs, cmd.mounts);
        let tail = seq![StepView::CreateDirAll(joined(rootfs, "old_root".spec_bytes()))];
        assert(seq![isolate()] + outside_plan(cmd, rootfs) + tail =~= (head + placed) + tail);
        lemma_last_on_none(tail, there);
        lemma_last_on_append(head + placed, tail, there);
        lemma_placed_last(rootfs, cmd.mounts, i);
        lemma_last_on_append(head, placed, there);
    }
}

/// The last step of a plan on a path that is met only once.
proof fn lemma_only_on(steps: Seq<StepView>, path: Seq<u8>, k: int)
    requires
        0 <= k < steps.len(),
        mounts_on(steps[k], path),
        forall|i: int| 0 <= i < steps.len() && i != k ==> !mounts_on(#[trigger] steps[i], path),
    ensures
        last_on(steps, path) == Some(steps[k]),
    decreases steps.len(),
{
    let init = steps.drop_last();
    assert(steps[steps.len() - 1] == steps.last());
    if k < steps.len() - 1 {
        assert forall|i: int| 0 <= i < init.len() && i != k implies !mounts_on(
            #[trigger] init[i],
            path,
        ) by {
            assert(init[i] == steps[i]);
        }
        assert(init[k] == steps[k]);
        lemma_only_on(init, path, k);
    }
}

/// The name of what the steps of a filesystem with devices mount on, by the
/// place of the step; none where it mounts on nothing below.
spec fn name_mounted(k: int) -> Option<Seq<u8>> {
    if k == 2 {
        Some("null".spec_bytes())
    } else if k == 4 {
        Some("full".spec_bytes())
    } else if k == 6 {
        Some("zero".spec_bytes())
    } else if k == 8 {
        Some("random".spec_bytes())
    } else if k == 10 {
        Some("urandom".spec_bytes())
    } else if k == 12 {
        Some("tty".spec_bytes())
    } else if k == 20 {
        Some("pts".spec_bytes())
    } else if k == 23 {
        Some("console".spec_bytes())
    } else {
        None
    }
}

#[verifier::spinoff_prover]
#[verifier::rlimit(60)]
proof fn lemma_names_mounted(dst: Seq<u8>, console: Option<Seq<u8>>)
    ensures
        devfs_plan(dst, console).len() == if console is Some {
            24int
        } else {
            22
        },
        forall|k: int|
            0 < k < devfs_plan(dst, console).len() ==> {
                let step = #[trigger] devfs_plan(dst, console)[k];
                match name_mounted(k) {
                    Some(name) => mounts_on(step, joined(dst, name)),
                    None => !(step is Mount),
                }
            },
{
}

proof fn lemma_names_mounted_once(j: int, k: int)
    requires
        name_mounted(j) is Some,
        name_mounted(j) == name_mounted(k),
    ensures
        j == k,
{
    lemma_device_names();
    let a = name_mounted(j).unwrap();
    let b = name_mounted(k).unwrap();
    assert(a[0] == b[0]);
}

proof fn lemma_joined_apart(dst: Seq<u8>, a: Seq<u8>, b: Seq<u8>)
    requires
        joined(dst, a) == joined(dst, b),
    ensures
        a == b,
{
    let (p, q) = (joined(dst, a), joined(dst, b));
    let off = p.len() - a.len();
    assert(a =~= p.skip(off));
    assert(b =~= q.skip(off));
}

/// What is mounted on a name among the devices is mounted by one step.
proof fn lemma_name_has_one_step(dst: Seq<u8>, console: Option<Seq<u8>>, k: int)
    requires
        name_mounted(k) is Some,
    ensures
        last_on(devfs_plan(dst, console), joined(dst, name_mounted(k).unwrap())) == if k
            < devfs_plan(dst, console).len() {
            Some(devfs_plan(dst, console)[k])
        } else {
            None
        },
{
    lemma_device_names();
    lemma_names_mounted(dst, console);
    lemma_device_steps(dst, console);
    let steps = devfs_plan(dst, console);
    let name = name_mounted(k).unwrap();
    let path = joined(dst, name);
    assert(name.len() > 0);
    assert(path.len() > dst.len());
    assert forall|i: int| 0 <= i < steps.len() && i != k implies !mounts_on(
        #[trigger] steps[i],
        path,
    ) by {
        if mounts_on(steps[i], path) {
            if i > 0 {
                assert(mounts_on(steps[i], joined(dst, name_mounted(i).unwrap())));
                lemma_joined_apart(dst, name, name_mounted(i).unwrap());
                lemma_names_mounted_once(i, k);
            }
        }
    }
    if k < steps.len() {
        assert(mounts_on(steps[k], path));
        lemma_only_on(steps, path, k);
    } else {
        lemma_last_on_none(steps, path);
    }
}

/// Whether a name is that of a device that the jail shares with the host.
pub open spec fn is_host_device(name: Seq<u8>) -> bool {
    ||| name == "null".spec_bytes()
    ||| name == "full".spec_bytes()
    ||| name == "zero".spec_bytes()
    ||| name == "random".spec_bytes()
    ||| name == "urandom".spec_bytes()
    ||| name == "tty".spec_bytes()
}

/// The devices are a filesystem of their own, in which set-user-ID bits do
/// not count. Each device that the jail shares with the host is the device of
/// that name.
#[verifier::spinoff_prover]
#[verifier::rlimit(60)]
pub proof fn devices_are_those_of_the_host(
    mount: MountView,
    console: Option<Seq<u8>>,
    name: Seq<u8>,
)
    requires
        mount.src is DevFs,
    ensures
        settle(mount, console)[0] == (StepView::Mount {
            source: None,
            target: mount.dst,
            fstype: Some("tmpfs".spec_bytes()),
            flags: flags_of(false, false, false, false, true, false),
            data: None,
        }),
        is_host_device(name) ==> last_on(settle(mount, console), joined(mount.dst, name)) == Some(
            StepView::Mount {
                source: Some("/old_root/dev/".spec_bytes() + name),
                target: joined(mount.dst, name),
                fstype: None,
                flags: flags_of(true, false, false, false, true, false),
                data: None,
            },
        ),
{
    let dst = mount.dst;
    lemma_old_root_dev(name);
    if is_host_device(name) {
        let k: int = if name == "null".spec_bytes() {
            2
        } else if name == "full".spec_bytes() {
            4
        } else if name == "zero".spec_bytes() {
            6
        } else if name == "random".spec_bytes() {
            8
        } else if name == "urandom".spec_bytes() {
            10
        } else {
            12
        };
        assert(name_mounted(k) == Some(name));
        lemma_names_mounted(dst, console);
        lemma_name_has_one_step(dst, console, k);
        assert(devfs_plan(dst, console)[k] == device(dst, name)[1]);
    }
}

/// The pseudo-terminals of the devices are an instance of their own, and the
/// console is the terminal of the host, where there is one.
#[verifier::spinoff_prover]
#[verifier::rlimit(60)]
pub proof fn terminals_are_set_up(mount: MountView, console: Option<Seq<u8>>)
    requires
        mount.src is DevFs,
    ensures
        last_on(settle(mount, console), joined(mount.dst, "pts".spec_bytes())) == Some(
            StepView::Mount {
                source: None,
                target: joined(mount.dst, "pts".spec_bytes()),
                fstype: Some("devpts".spec_bytes()),
                flags: flags_of(false, false, false, false, true, true),
                data: Some("newinstance,ptmxmode=0666,mode=620".spec_bytes()),
            },
        ),
        last_on(settle(mount, console), joined(mount.dst, "console".spec_bytes()))
            == match console {
            Some(tty) => Some(
                StepView::Mount {
                    source: Some(rebased("/old_root".spec_bytes(), tty)),
                    target: joined(mount.dst, "console".spec_bytes()),
                    fstype: None,
                    flags: flags_of(true, false, false, false, true, true),
                    data: None,
                },
            ),
            None => None,
        },
{
    let dst = mount.dst;
    assert(name_mounted(20) == Some("pts".spec_bytes()));
    assert(name_mounted(23) == Some("console".spec_bytes()));
    lemma_names_mounted(dst, console);
    lemma_name_has_one_step(dst, console, 20);
    lemma_name_has_one_step(dst, console, 23);
    assert(devfs_plan(dst, console)[20] == device_extras(dst)[7]);
    if console is Some {
        assert(devfs_plan(dst, console)[23] == console_plan(dst, console)[1]);
    }
}

/// The links among the devices lead to the streams of the process that
/// follows them, to its files, to the memory of the kernel, and to the
/// pseudo-terminals.
#[verifier::spinoff_prover]
#[verifier::rlimit(60)]
pub proof fn links_lead_to_the_process(mount: MountView, console: Option<Seq<u8>>)
    requires
        mount.src is DevFs,
    ensures
        ({
            let steps = settle(mount, console);
            let link = |name: Seq<u8>, target: Seq<u8>|
                steps.contains(StepView::Symlink { target, link: joined(mount.dst, name) });
            &&& link("stdin".spec_bytes(), "/proc/self/fd/0".spec_bytes())
            &&& link("stdout".spec_bytes(), "/proc/self/fd/1".spec_bytes())
            &&& link("stderr".spec_bytes(), "/proc/self/fd/2".spec_bytes())
            &&& link("fd".spec_bytes(), "/proc/self/fd".spec_bytes())
            &&& link("core".spec_bytes(), "/proc/kcore".spec_bytes())
            &&& link("ptmx".spec_bytes(), "pts/ptmx".spec_bytes())
        }),
{
    let dst = mount.dst;
    let steps = devfs_plan(dst, console);
    lemma_names_mounted(dst, console);
    assert(steps[13] == device_extras(dst)[0]);
    assert(steps[14] == device_extras(dst)[1]);
    assert(steps[15] == device_extras(dst)[2]);
    assert(steps[16] == device_extras(dst)[3]);
    assert(steps[17] == device_extras(dst)[4]);
    assert(steps[21] == device_extras(dst)[8]);
}

proof fn lemma_old_root_dev(name: Seq<u8>)
    ensures
        joined("/old_root/dev".spec_bytes(), name) == "/old_root/dev/".spec_bytes() + name,
{
    reveal_strlit("/old_root/dev");
    reveal_strlit("/old_root/dev/");
    reveal_strlit("/");
    assert("/old_root/dev".is_ascii());
    assert("/old_root/dev/".is_ascii());
    assert("/".is_ascii());
    assert("/".spec_bytes() =~= seq![0x2fu8]);
    assert("/old_root/dev".spec_bytes().last() == 0x76);
    assert("/old_root/dev".spec_bytes() + seq![0x2fu8] =~= "/old_root/dev/".spec_bytes());
    assert(joined("/old_root/dev".spec_bytes(), name) =~= "/old_root/dev/".spec_bytes() + name);
}

/// Steps are seen as they are.
pub proof fn steps_are_seen_whole(step: RootStep)
    ensures
        match step {
            RootStep::Mount { source, target, fstype, flags, data } => step@ == (StepView::Mount {
                source: match source {
                    Some(path) => Some(path@),
                    None => None,
                },
                target: target@,
                fstype: match fstype {
                    Some(name) => Some(name@),
                    None => None,
                },
                flags,
                data: match data {
                    Some(text) => Some(text@),
                    None => None,
                },
            }),
            RootStep::EnsureDir(path) => step@ == StepView::EnsureDir(path@),
            RootStep::CreateDirAll(path) => step@ == StepView::CreateDirAll(path@),
            RootStep::PivotRoot { new_root, put_old } => step@ == (StepView::PivotRoot {
                new_root: new_root@,
                put_old: put_old@,
            }),
            RootStep::Chdir(path) => step@ == StepView::Chdir(path@),
            RootStep::Touch(path) => step@ == StepView::Touch(path@),
            RootStep::Symlink { target, link } => step@ == (StepView::Symlink {
                target: target@,
                link: link@,
            }),
            RootStep::Detach(path) => step@ == StepView::Detach(path@),
            RootStep::RemoveDir(path) => step@ == StepView::RemoveDir(path@),
        },
        step_views(seq![step]) == seq![step@],
{
    assert(step_views(seq![step]) =~= seq![step@]);
}

/// The steps for devices are no more than these: the filesystem, a file and a
/// mount for each device of the host, the links and directories, and the
/// pseudo-terminals; with a console there is a file and a mount more. A file
/// is made right before something is mounted on it.
#[verifier::spinoff_prover]
#[verifier::rlimit(60)]
pub proof fn files_are_made_before_they_are_covered(
    mount: MountView,
    console: Option<Seq<u8>>,
    k: int,
)
    requires
        mount.src is DevFs,
    ensures
        settle(mount, console).len() == 22 + (if console is Some {
            2int
        } else {
            0
        }),
        0 < k < settle(mount, console).len() ==> (settle(mount, console)[k] matches StepView::Mount {
            target,
            ..
        } ==> {
            ||| settle(mount, console)[k - 1] == StepView::Touch(target)
            ||| settle(mount, console)[k - 1] == StepView::CreateDirAll(target)
        }),
        0 <= k < settle(mount, console).len() ==> (settle(mount, console)[k] matches StepView::Touch(
            path,
        ) ==> k + 1 < settle(mount, console).len() && mounts_on(
            settle(mount, console)[k + 1],
            path,
        )),
{
    lemma_names_mounted(mount.dst, console);
    let steps = devfs_plan(mount.dst, console);
    if 0 < k < steps.len() && steps[k] is Mount {
        assert(name_mounted(k) is Some);
    }
}

} // verus!
