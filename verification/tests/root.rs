use tokio_ns_jail::root::{isolate_mounts, RootStep};
use tokio_ns_jail::Command;

fn text(bytes: &[u8]) -> String {
    String::from_utf8(bytes.to_vec()).unwrap()
}

fn show(step: &RootStep) -> String {
    match step {
        RootStep::Mount { source, target, fstype, flags, data } => {
            let mut out = format!("mount {}", text(target));
            if let Some(source) = source {
                out += &format!(" from {}", text(source));
            }
            if let Some(fstype) = fstype {
                out += &format!(" type {}", text(fstype));
            }
            for (set, name) in [
                (flags.rec, "rec"),
                (flags.private, "private"),
                (flags.bind, "bind"),
                (flags.remount, "remount"),
                (flags.rdonly, "rdonly"),
                (flags.nosuid, "nosuid"),
                (flags.noexec, "noexec"),
            ] {
                if set {
                    out += &format!(" {}", name);
                }
            }
            if let Some(data) = data {
                out += &format!(" with {}", text(data));
            }
            out
        }
        RootStep::EnsureDir(path) => format!("ensure {}", text(path)),
        RootStep::CreateDirAll(path) => format!("create {}", text(path)),
        RootStep::PivotRoot { new_root, put_old } => {
            format!("pivot {} {}", text(new_root), text(put_old))
        }
        RootStep::Chdir(path) => format!("chdir {}", text(path)),
        RootStep::Touch(path) => format!("touch {}", text(path)),
        RootStep::Symlink { target, link } => format!("link {} to {}", text(link), text(target)),
        RootStep::Detach(path) => format!("detach {}", text(path)),
        RootStep::RemoveDir(path) => format!("remove {}", text(path)),
    }
}

fn plan(cmd: &Command, rootfs: &[u8], console: Option<&[u8]>) -> Vec<String> {
    let console = console.map(|path| path.to_vec());
    cmd.new_root(rootfs, &console).iter().map(show).collect()
}

#[test]
fn mounts_are_isolated_first() {
    assert_eq!(show(&isolate_mounts()), "mount / rec private");
    let mut cmd = Command::new(b"prog");
    cmd.bind_mount(b"/a", b"/b", true).devfs_mount(b"/dev");
    assert_eq!(plan(&cmd, b"/jail", None)[0], "mount / rec private");
}

#[test]
fn a_plain_root_is_read_only() {
    let cmd = Command::new(b"prog");
    assert_eq!(
        plan(&cmd, b"/jail", None),
        vec![
            "mount / rec private",
            "mount /jail from /jail bind",
            "create /jail/old_root",
            "pivot /jail /jail/old_root",
            "chdir /",
            "detach /old_root",
            "remove /old_root",
            "mount / from / bind remount rdonly",
        ]
    );
}

#[test]
fn a_writable_root_is_not_remounted() {
    let mut cmd = Command::new(b"prog");
    cmd.writable_rootfs(true);
    assert_eq!(
        plan(&cmd, b"/jail/", None),
        vec![
            "mount / rec private",
            "mount /jail/ from /jail/ bind",
            "create /jail/old_root",
            "pivot /jail/ /jail/old_root",
            "chdir /",
            "detach /old_root",
            "remove /old_root",
        ]
    );
}

#[test]
fn mounts_get_their_places() {
    let mut cmd = Command::new(b"prog");
    cmd.writable_rootfs(true)
        .bind_mount(b"/data", b"/mnt//x/./y", true)
        .bind_mount(b"/ro", b"./rel", false)
        .procfs_mount(b"/proc")
        .sysfs_mount(b"/sys")
        .tmpfs_mount(b"/");
    assert_eq!(
        plan(&cmd, b"/jail", None),
        vec![
            "mount / rec private",
            "mount /jail from /jail bind",
            "ensure /jail/mnt/x/y",
            "mount /jail/mnt/x/y from /data private bind",
            "ensure /jail/./rel",
            "mount /jail/./rel from /ro private bind rdonly",
            "ensure /jail/proc",
            "ensure /jail/sys",
            "ensure /jail",
            "create /jail/old_root",
            "pivot /jail /jail/old_root",
            "chdir /",
            "mount /mnt//x/./y from /mnt//x/./y bind remount",
            "mount ./rel from ./rel bind remount rdonly",
            "mount /proc type proc",
            "mount /sys type sysfs",
            "mount / type tmpfs",
            "detach /old_root",
            "remove /old_root",
        ]
    );
}

#[test]
fn devices_are_as_listed() {
    let mut cmd = Command::new(b"prog");
    cmd.writable_rootfs(true).devfs_mount(b"/dev");
    let steps = plan(&cmd, b"/jail", Some(b"/dev/pts/3"));
    let from = steps.iter().position(|step| step == "chdir /").unwrap() + 1;
    let to = steps.iter().position(|step| step == "detach /old_root").unwrap();
    assert_eq!(
        steps[from..to].to_vec(),
        vec![
            "mount /dev type tmpfs nosuid",
            "touch /dev/null",
            "mount /dev/null from /old_root/dev/null bind nosuid",
            "touch /dev/full",
            "mount /dev/full from /old_root/dev/full bind nosuid",
            "touch /dev/zero",
            "mount /dev/zero from /old_root/dev/zero bind nosuid",
            "touch /dev/random",
            "mount /dev/random from /old_root/dev/random bind nosuid",
            "touch /dev/urandom",
            "mount /dev/urandom from /old_root/dev/urandom bind nosuid",
            "touch /dev/tty",
            "mount /dev/tty from /old_root/dev/tty bind nosuid",
            "link /dev/stdin to /proc/self/fd/0",
            "link /dev/stdout to /proc/self/fd/1",
            "link /dev/stderr to /proc/self/fd/2",
            "link /dev/fd to /proc/self/fd",
            "link /dev/core to /proc/kcore",
            "create /dev/shm",
            "create /dev/pts",
            "mount /dev/pts type devpts nosuid noexec with newinstance,ptmxmode=0666,mode=620",
            "link /dev/ptmx to pts/ptmx",
            "touch /dev/console",
            "mount /dev/console from /old_root/dev/pts/3 bind nosuid noexec",
        ]
    );
}

#[test]
fn there_is_no_console_without_a_terminal() {
    let mut cmd = Command::new(b"prog");
    cmd.devfs_mount(b"/dev");
    let steps = plan(&cmd, b"/jail", None);
    assert!(steps.contains(&"link /dev/ptmx to pts/ptmx".to_string()));
    assert!(!steps.iter().any(|step| step.contains("console")));
}

#[test]
fn places_agree_with_paths() {
    for dst in ["/a/b", "a/b", "//a///b/", "/a/./b", "./a", "/", "", "..", "/x/../y", "/./a/."] {
        let mut want = std::path::PathBuf::from("/jail");
        want.extend(std::path::Path::new(dst).components().filter(|part| {
            !matches!(part, std::path::Component::Prefix(_) | std::path::Component::RootDir)
        }));
        let mut cmd = Command::new(b"prog");
        cmd.tmpfs_mount(dst.as_bytes());
        let steps = plan(&cmd, b"/jail", None);
        assert_eq!(steps[2], format!("ensure {}", want.to_str().unwrap()));
    }
}
