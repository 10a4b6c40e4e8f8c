use nix::sched::CloneFlags;
use tokio_ns_jail::command::MountSrc;
use tokio_ns_jail::stdio::{StdioInner, StdioTarget, Stream};
use tokio_ns_jail::{Command, Gid, GidRange, Namespace, Stdio, Uid, UidRange};

fn fd(fd: i32) -> Stdio {
    Stdio { inner: StdioInner::Fd(fd) }
}

fn files(cmd: &Command, pid: i32) -> Vec<(String, String)> {
    assert!(cmd.are_maps_countable());
    let text = |bytes: Vec<u8>| String::from_utf8(bytes).unwrap();
    cmd.write_ids_maps(pid)
        .into_iter()
        .map(|file| (text(file.path), text(file.contents)))
        .collect()
}

fn file(path: &str, contents: &str) -> (String, String) {
    (path.to_string(), contents.to_string())
}

#[test]
fn namespaces_are_those_of_the_system() {
    assert_eq!(Namespace::cgroup().bits(), CloneFlags::CLONE_NEWCGROUP.bits());
    assert_eq!(Namespace::uts().bits(), CloneFlags::CLONE_NEWUTS.bits());
    assert_eq!(Namespace::ipc().bits(), CloneFlags::CLONE_NEWIPC.bits());
    assert_eq!(Namespace::pid().bits(), CloneFlags::CLONE_NEWPID.bits());
    assert_eq!(Namespace::net().bits(), CloneFlags::CLONE_NEWNET.bits());
    let five = Namespace::cgroup()
        .union(Namespace::uts())
        .union(Namespace::ipc())
        .union(Namespace::pid())
        .union(Namespace::net());
    assert_eq!(five, Namespace::all());
    assert_eq!(Namespace::empty(), Namespace::default());
    assert_eq!(Namespace::empty().bits(), 0);
}

#[test]
fn mount_and_user_are_always_unshared() {
    let always = CloneFlags::CLONE_NEWNS | CloneFlags::CLONE_NEWUSER;
    assert_eq!(Namespace::empty().clone_flags(), always.bits());
    assert_eq!(
        Namespace::pid().clone_flags(),
        (always | CloneFlags::CLONE_NEWPID).bits()
    );
    let mut cmd = Command::new(b"/bin/sh");
    assert_eq!(cmd.clone_flags(), always.bits());
    cmd.unshare(Namespace::all());
    assert_eq!(cmd.clone_flags(), always.bits() | Namespace::all().bits());
    cmd.unshare(Namespace::net());
    assert_eq!(cmd.clone_flags(), (always | CloneFlags::CLONE_NEWNET).bits());
}

#[test]
fn a_new_command_runs_its_program() {
    let cmd = Command::new(b"/bin/true");
    let plan = cmd.exec_plan();
    assert_eq!(plan.program, b"/bin/true");
    assert_eq!(plan.arg0, b"/bin/true");
    assert!(plan.args.is_empty());
    assert!(plan.env.is_empty());
    assert_eq!(plan.curr_dir, None);
    assert!(cmd.is_root_read_only());
    assert_eq!(cmd.rootfs_path(), None);
    assert!(cmd.mounts().is_empty());
    assert_eq!(cmd.console_stream(), None);
    assert!(files(&cmd, 1).is_empty());
}

#[test]
fn arguments_are_appended() {
    let mut cmd = Command::new(b"prog");
    cmd.arg(b"a").args(&vec![b"b".to_vec(), b"c".to_vec()]).arg0(b"name");
    let plan = cmd.exec_plan();
    assert_eq!(plan.program, b"prog");
    assert_eq!(plan.arg0, b"name");
    assert_eq!(plan.args, vec![b"a".to_vec(), b"b".to_vec(), b"c".to_vec()]);
}

#[test]
fn the_last_definition_of_a_variable_counts() {
    let mut cmd = Command::new(b"prog");
    cmd.env(b"A", b"1").env(b"B", b"2").envs(&vec![
        (b"A".to_vec(), b"3".to_vec()),
        (b"C".to_vec(), b"4".to_vec()),
        (b"C".to_vec(), b"5".to_vec()),
    ]);
    let mut env = cmd.exec_plan().env;
    env.sort();
    assert_eq!(
        env,
        vec![
            (b"A".to_vec(), b"3".to_vec()),
            (b"B".to_vec(), b"2".to_vec()),
            (b"C".to_vec(), b"5".to_vec()),
        ]
    );
}

#[test]
fn settings_are_kept() {
    let mut cmd = Command::new(b"prog");
    cmd.rootfs(b"/jail").writable_rootfs(true).current_dir(b"/tmp");
    assert_eq!(cmd.rootfs_path(), Some(b"/jail".to_vec()));
    assert!(!cmd.is_root_read_only());
    assert_eq!(cmd.exec_plan().curr_dir, Some(b"/tmp".to_vec()));
    cmd.writable_rootfs(false);
    assert!(cmd.is_root_read_only());
}

#[test]
fn mounts_are_kept_in_order() {
    let mut cmd = Command::new(b"prog");
    cmd.bind_mount(b"/a", b"/b", false)
        .bind_mount(b"/c", b"/d", true)
        .devfs_mount(b"/dev")
        .procfs_mount(b"/proc")
        .sysfs_mount(b"/sys")
        .tmpfs_mount(b"/tmp");
    let mounts = cmd.mounts();
    assert_eq!(mounts.len(), 6);
    assert!(matches!(&mounts[0].src, MountSrc::Bind(path) if path == b"/a"));
    assert_eq!((mounts[0].dst.as_slice(), mounts[0].writable), (&b"/b"[..], false));
    assert!(matches!(&mounts[1].src, MountSrc::Bind(path) if path == b"/c"));
    assert!(mounts[1].writable);
    assert!(matches!(mounts[2].src, MountSrc::DevFs));
    assert!(matches!(mounts[3].src, MountSrc::ProcFs));
    assert!(matches!(mounts[4].src, MountSrc::SysFs));
    assert!(matches!(mounts[5].src, MountSrc::TmpFs));
    assert_eq!(mounts[5].dst, b"/tmp");
    assert!(mounts[2].writable && mounts[3].writable && mounts[4].writable && mounts[5].writable);
}

#[test]
fn id_maps_list_jail_host_and_length() {
    let mut cmd = Command::new(b"prog");
    cmd.map_uids(UidRange::from(1000u32..=1009), UidRange::from(0u32..=9))
        .map_uids(UidRange::from(5u32), UidRange::from(70u32))
        .map_gids(GidRange::from(100u32..103), GidRange::from(7u32..10));
    assert_eq!(
        files(&cmd, 42),
        vec![
            file("/proc/42/uid_map", "0 1000 10\n70 5 1\n"),
            file("/proc/42/setgroups", "deny"),
            file("/proc/42/gid_map", "7 100 3\n"),
        ]
    );
    assert_eq!(cmd.write_uid_map(42).len(), 1);
    assert_eq!(cmd.write_gid_map(42).len(), 2);
}

#[test]
fn empty_host_ranges_are_not_mapped() {
    let mut cmd = Command::new(b"prog");
    cmd.map_uids(UidRange::empty(), UidRange::from(0u32));
    cmd.map_gids(GidRange::empty(), GidRange::from(0u32));
    assert!(files(&cmd, 1).is_empty());
    cmd.map_uids(UidRange::from(1u32), UidRange::empty());
    assert_eq!(files(&cmd, 1), vec![file("/proc/1/uid_map", "")]);
}

#[test]
fn ranges_that_cannot_be_counted_are_noticed() {
    let mut cmd = Command::new(b"prog");
    cmd.map_uids(UidRange::from(0u32..=u32::MAX), UidRange::from(0u32));
    assert!(!cmd.are_maps_countable());
    let mut cmd = Command::new(b"prog");
    cmd.map_gids(GidRange::from(0u32..), GidRange::from(0u32));
    assert!(!cmd.are_maps_countable());
}

#[test]
fn users_become_root() {
    let mut cmd = Command::new(b"prog");
    cmd.ids_as_root(Uid { raw: 1000 }, Gid { raw: 100 });
    assert_eq!(
        files(&cmd, 7),
        vec![
            file("/proc/7/uid_map", "0 1000 1\n"),
            file("/proc/7/setgroups", "deny"),
            file("/proc/7/gid_map", "0 100 1\n"),
        ]
    );
    let mut cmd = Command::new(b"prog");
    cmd.user_as_root();
    let uid = nix::unistd::Uid::effective().as_raw();
    let gid = nix::unistd::Gid::effective().as_raw();
    assert_eq!(
        files(&cmd, 7),
        vec![
            file("/proc/7/uid_map", &format!("0 {} 1\n", uid)),
            file("/proc/7/setgroups", "deny"),
            file("/proc/7/gid_map", &format!("0 {} 1\n", gid)),
        ]
    );
}

#[test]
fn streams_that_were_not_set_follow_the_default() {
    let cmd = Command::new(b"prog");
    for stream in [Stream::Stdin, Stream::Stdout, Stream::Stderr] {
        assert!(!cmd.child_stdio(stream, &Stdio::inherit()));
        assert!(cmd.child_stdio(stream, &Stdio::piped()));
        assert_eq!(cmd.stdio_target(stream, false), StdioTarget::Inherit);
        assert_eq!(cmd.stdio_target(stream, true), StdioTarget::Pipe);
    }
}

#[test]
fn each_stream_has_its_own_setting() {
    let mut cmd = Command::new(b"prog");
    cmd.stdin(Some(Stdio::null()))
        .stdout(Some(Stdio::piped()))
        .stderr(Some(fd(5)));
    let default = Stdio::piped();
    assert!(!cmd.child_stdio(Stream::Stdin, &default));
    assert!(cmd.child_stdio(Stream::Stdout, &default));
    assert!(!cmd.child_stdio(Stream::Stderr, &default));
    assert!(cmd.child_stdio(Stream::Stdout, &Stdio::inherit()));
    assert_eq!(cmd.stdio_target(Stream::Stdin, false), StdioTarget::Null);
    assert_eq!(cmd.stdio_target(Stream::Stdout, true), StdioTarget::Pipe);
    assert_eq!(cmd.stdio_target(Stream::Stderr, false), StdioTarget::Fd(5));
    cmd.stderr(None);
    assert!(cmd.child_stdio(Stream::Stderr, &default));
}

#[test]
fn redirections_have_their_targets() {
    assert_eq!(Stdio::null().into_stdio(), StdioTarget::Null);
    assert_eq!(Stdio::piped().into_stdio(), StdioTarget::Null);
    assert_eq!(Stdio::inherit().into_stdio(), StdioTarget::Inherit);
    assert_eq!(fd(3).into_stdio(), StdioTarget::Fd(3));
    let tx = Stdio { inner: StdioInner::TxPipe(4) };
    let rx = Stdio { inner: StdioInner::RxPipe(6) };
    assert_eq!(tx.into_stdio(), StdioTarget::BlockingFd(4));
    assert_eq!(rx.into_stdio(), StdioTarget::BlockingFd(6));
}

#[test]
fn the_console_is_that_of_an_inherited_stream() {
    let mut cmd = Command::new(b"prog");
    cmd.stderr(Some(Stdio::inherit()));
    assert_eq!(cmd.console_stream(), Some(Stream::Stderr));
    cmd.stdin(Some(Stdio::inherit()));
    assert_eq!(cmd.console_stream(), Some(Stream::Stdin));
    cmd.stdout(Some(Stdio::inherit()));
    assert_eq!(cmd.console_stream(), Some(Stream::Stdout));
    cmd.stdout(Some(Stdio::piped()));
    assert_eq!(cmd.console_stream(), Some(Stream::Stdin));
}
