use tokio_ns_jail::child::{ReadOutcome, WaitPoll};
use tokio_ns_jail::cli::{exit_code, Args, Parsed};
use tokio_ns_jail::command::MountSrc;
use tokio_ns_jail::options::Opt;
use tokio_ns_jail::stdio::Stream;
use tokio_ns_jail::usage::{IdKind, MapFault, UsageError, UsageKind};
use tokio_ns_jail::wire::ByteOrder;
use tokio_ns_jail::{Child, Command, Gid, Namespace, Stdio, Uid};

fn parse(argv: &[&str]) -> Parsed {
    Args::parse(&argv.iter().map(|arg| arg.as_bytes().to_vec()).collect())
}

fn command(argv: &[&str]) -> Command {
    match parse(argv) {
        Parsed::Run(args) => args.command_as(Uid { raw: 1000 }, Gid { raw: 100 }),
        other => panic!("{:?}", other),
    }
}

fn usage(argv: &[&str]) -> UsageError {
    match parse(argv) {
        Parsed::Usage(err) => err,
        other => panic!("{:?}", other),
    }
}

fn message(argv: &[&str]) -> String {
    String::from_utf8(usage(argv).message()).unwrap()
}

fn map_text(cmd: &Command, name: &str) -> Option<String> {
    cmd.write_ids_maps(1)
        .into_iter()
        .find(|file| file.path == format!("/proc/1/{}", name).as_bytes())
        .map(|file| String::from_utf8(file.contents).unwrap())
}

fn uid_text(value: &str) -> String {
    map_text(&command(&["-u", value, "x"]), "uid_map").unwrap()
}

#[test]
fn help_is_asked_for() {
    assert!(matches!(parse(&[]), Parsed::Help));
    assert!(matches!(parse(&["-h"]), Parsed::Help));
    assert!(matches!(parse(&["--help", "--nonsense"]), Parsed::Help));
    assert!(matches!(parse(&["-w", "-h"]), Parsed::Help));
    assert!(matches!(parse(&["x", "-h"]), Parsed::Run(_)));
}

#[test]
fn the_command_and_its_arguments() {
    let plan = command(&["prog", "-R", "--", "-h"]).exec_plan();
    assert_eq!(plan.program, b"prog");
    assert_eq!(plan.arg0, b"prog");
    assert_eq!(plan.args, vec![b"-R".to_vec(), b"--".to_vec(), b"-h".to_vec()]);
    let plan = command(&["--", "-h", "y"]).exec_plan();
    assert_eq!(plan.program, b"-h");
    assert_eq!(plan.args, vec![b"y".to_vec()]);
    assert_eq!(command(&[""]).exec_plan().program, b"");
}

#[test]
fn values_are_attached_or_apart() {
    for argv in [
        &["-R", "/jail", "x"][..],
        &["-R/jail", "x"],
        &["--rootfs", "/jail", "x"],
        &["--rootfs=/jail", "x"],
    ] {
        assert_eq!(command(argv).rootfs_path(), Some(b"/jail".to_vec()));
    }
    assert_eq!(command(&["--rootfs=", "x"]).rootfs_path(), Some(b"".to_vec()));
    assert_eq!(command(&["-R", "-h", "x"]).rootfs_path(), Some(b"-h".to_vec()));
    assert_eq!(command(&["-R", "a", "-R", "b", "x"]).rootfs_path(), Some(b"b".to_vec()));
}

#[test]
fn the_root_can_be_writable() {
    assert!(command(&["x"]).is_root_read_only());
    assert!(!command(&["-w", "x"]).is_root_read_only());
    assert!(!command(&["--writable-rootfs", "x"]).is_root_read_only());
}

#[test]
fn mounts_are_read_in_order() {
    let cmd = command(&[
        "-m/a:/b", "-r", "/c", "--ro-bind-mount=/d:/e:f", "--bind-mount", "/g:", "-d/dev",
        "--procfs-mount=/proc", "-s", "/sys", "--tmpfs-mount", "/tmp", "x",
    ]);
    let mounts: Vec<(String, String, bool)> = cmd
        .mounts()
        .iter()
        .map(|mount| {
            let src = match &mount.src {
                MountSrc::Bind(path) => String::from_utf8(path.clone()).unwrap(),
                other => format!("{:?}", other),
            };
            (src, String::from_utf8(mount.dst.clone()).unwrap(), mount.writable)
        })
        .collect();
    let want = [
        ("/a", "/b", true),
        ("/c", "/c", false),
        ("/d", "/e:f", false),
        ("/g", "", true),
        ("DevFs", "/dev", true),
        ("ProcFs", "/proc", true),
        ("SysFs", "/sys", true),
        ("TmpFs", "/tmp", true),
    ];
    assert_eq!(mounts.len(), want.len());
    for (mount, (src, dst, writable)) in mounts.iter().zip(want) {
        assert_eq!((mount.0.as_str(), mount.1.as_str(), mount.2), (src, dst, writable));
    }
}

#[test]
fn mappings_map_as_many_ids_as_they_say() {
    assert_eq!(uid_text("1000:0"), "0 1000 1\n");
    assert_eq!(uid_text("1000:0:10"), "0 1000 10\n");
    assert_eq!(uid_text("1000:0:1"), "0 1000 1\n");
    assert_eq!(uid_text("1:2,3:4:5"), "2 1 1\n4 3 5\n");
    assert_eq!(uid_text("+1:2"), "2 1 1\n");
    assert_eq!(uid_text("4294967295:0"), "0 4294967295 1\n");
    assert_eq!(uid_text("4294967294:0:1"), "0 4294967294 1\n");
    let cmd = command(&["-g", "7:8:2", "x"]);
    assert_eq!(map_text(&cmd, "gid_map"), Some("8 7 2\n".to_string()));
    assert_eq!(map_text(&cmd, "uid_map"), None);
    let cmd = command(&["-u1:2", "--uid-map=3:4", "x"]);
    assert_eq!(map_text(&cmd, "uid_map"), Some("2 1 1\n4 3 1\n".to_string()));
}

#[test]
fn a_mapping_of_no_ids_adds_nothing() {
    assert_eq!(uid_text("7:8:0,1000:0"), "0 1000 1\n");
    assert_eq!(uid_text("1:2,3:4:0,5:6:2"), "2 1 1\n6 5 2\n");
    assert_eq!(usage(&["-u", "1:2,3:4:0,nonsense", "x"]).arg, b"nonsense");
    let cmd = command(&["-g", "7:8:0,1000:0", "x"]);
    assert_eq!(map_text(&cmd, "gid_map"), Some("0 1000 1\n".to_string()));
    let cmd = command(&["-u", "3:4:0", "x"]);
    assert_eq!(map_text(&cmd, "uid_map"), Some("0 1000 1\n".to_string()));
}

#[test]
fn users_and_groups_are_mapped_alike() {
    for value in ["1:2", "1:2:3,4:5", "9:8:0,7:6", "4294967294:0:1"] {
        let users = command(&["-u", value, "x"]);
        let groups = command(&["-g", value, "x"]);
        assert_eq!(map_text(&users, "uid_map"), map_text(&groups, "gid_map"));
        assert_eq!(map_text(&users, "gid_map"), None);
        assert_eq!(map_text(&groups, "uid_map"), None);
    }
}

#[test]
fn readers_add_or_leave_things_as_they_were() {
    let mut args = match parse(&["-u1:2", "-g1:2", "-Upid", "-eA=1", "x"]) {
        Parsed::Run(args) => args,
        other => panic!("{:?}", other),
    };
    assert!(args.uid_map(b"3:4:5,6:7").is_ok());
    assert!(args.gid_map(b"3:4:5,6:7").is_ok());
    assert_eq!(args.uid_map(b"8:9,bad").unwrap_err().arg, b"bad");
    assert_eq!(args.gid_map(b"8:9,1:2:z").unwrap_err().arg, b"1:2:z");
    assert!(args.unshare(b"net").is_ok());
    assert_eq!(args.unshare(b"uts,bad").unwrap_err().arg, b"bad");
    assert!(args.env(b"B=2").is_ok());
    assert_eq!(args.env(b"C").unwrap_err().arg, b"C");
    args.bind_mount(b"/a:/b", false);
    let cmd = args.command_as(Uid { raw: 1000 }, Gid { raw: 100 });
    assert_eq!(map_text(&cmd, "uid_map"), Some("2 1 1\n4 3 5\n7 6 1\n".to_string()));
    assert_eq!(map_text(&cmd, "gid_map"), map_text(&cmd, "uid_map"));
    assert_eq!(cmd.clone_flags(), Namespace::pid().union(Namespace::net()).clone_flags());
    assert_eq!(cmd.exec_plan().env.len(), 2);
    assert_eq!(cmd.mounts().len(), 1);
    assert!(!cmd.mounts()[0].writable);
}

#[test]
fn without_mappings_the_user_is_root() {
    let cmd = command(&["x"]);
    assert_eq!(map_text(&cmd, "uid_map"), Some("0 1000 1\n".to_string()));
    assert_eq!(map_text(&cmd, "gid_map"), Some("0 100 1\n".to_string()));
    match parse(&["x"]) {
        Parsed::Run(args) => {
            let uid = nix::unistd::Uid::effective().as_raw();
            let want = format!("0 {} 1\n", uid);
            assert_eq!(map_text(&args.command(), "uid_map"), Some(want));
        }
        other => panic!("{:?}", other),
    }
}

#[test]
fn namespaces_are_named_in_any_case() {
    let bits = |value: &str| command(&["-U", value, "x"]).clone_flags();
    let none = Namespace::empty().clone_flags();
    assert_eq!(command(&["x"]).clone_flags(), none);
    assert_eq!(bits("pid"), Namespace::pid().clone_flags());
    assert_eq!(bits("PiD"), Namespace::pid().clone_flags());
    assert_eq!(bits("net,UTS"), Namespace::net().union(Namespace::uts()).clone_flags());
    assert_eq!(bits("ipc,cgroup"), Namespace::ipc().union(Namespace::cgroup()).clone_flags());
    assert_eq!(bits("all"), Namespace::all().clone_flags());
    assert_eq!(bits("pid,all"), Namespace::all().clone_flags());
    assert_eq!(bits("all,pid"), Namespace::all().clone_flags());
    assert_eq!(
        command(&["-Upid", "--unshare=net", "x"]).clone_flags(),
        Namespace::pid().union(Namespace::net()).clone_flags()
    );
}

#[test]
fn only_given_variables_are_set() {
    assert!(command(&["x"]).exec_plan().env.is_empty());
    let mut env = command(&["-eA=1", "--env=B=x=y", "-e", "A=2", "-e", "=", "x"]).exec_plan().env;
    env.sort();
    assert_eq!(
        env,
        vec![
            (b"".to_vec(), b"".to_vec()),
            (b"A".to_vec(), b"2".to_vec()),
            (b"B".to_vec(), b"x=y".to_vec()),
        ]
    );
}

#[test]
fn the_current_directory_and_streams() {
    let cmd = command(&["-c/tmp", "x"]);
    assert_eq!(cmd.exec_plan().curr_dir, Some(b"/tmp".to_vec()));
    assert_eq!(cmd.console_stream(), Some(Stream::Stdout));
    assert!(!cmd.child_stdio(Stream::Stderr, &Stdio::piped()));
}

#[test]
fn faults_have_their_kinds() {
    assert_eq!(usage(&["-w"]).kind, UsageKind::MissingCommand);
    assert_eq!(usage(&["--"]).kind, UsageKind::MissingCommandAfterSeparator);
    assert_eq!(usage(&["-w", "-R"]).kind, UsageKind::MissingValue(Opt::Rootfs));
    assert_eq!(usage(&["--nope", "x"]).kind, UsageKind::UnexpectedOption);
    assert_eq!(usage(&["-", "x"]).kind, UsageKind::UnexpectedOption);
    assert_eq!(usage(&["-wx", "x"]).kind, UsageKind::UnexpectedOption);
    assert_eq!(usage(&["--help=x"]).kind, UsageKind::UnexpectedOption);
    assert_eq!(usage(&["--rootfsx", "x"]).kind, UsageKind::UnexpectedOption);
    assert_eq!(usage(&["-Ubad", "x"]).kind, UsageKind::UnknownNamespace);
    assert_eq!(usage(&["-eA", "x"]).kind, UsageKind::NoEquals);
    let fault = |value: &str| usage(&["-u", value, "x"]).kind;
    let user = |fault: MapFault| UsageKind::Mapping(IdKind::User, fault);
    assert_eq!(fault("1"), user(MapFault::NoSeparator));
    assert_eq!(fault(""), user(MapFault::NoSeparator));
    assert_eq!(fault("a:1"), user(MapFault::NotAnId));
    assert_eq!(fault("1:a"), user(MapFault::NotAnId));
    assert_eq!(fault("1:"), user(MapFault::NotAnId));
    assert_eq!(fault("1:a:1"), user(MapFault::NotAnId));
    assert_eq!(fault("4294967296:1"), user(MapFault::NotAnId));
    assert_eq!(fault("1:1:x"), user(MapFault::NotALength));
    assert_eq!(fault("1:1:"), user(MapFault::NotALength));
    assert_eq!(fault("4294967295:1:1"), user(MapFault::HostRange));
    assert_eq!(fault("1:4294967295:1"), user(MapFault::JailRange));
    assert_eq!(
        usage(&["-g", "1", "x"]).kind,
        UsageKind::Mapping(IdKind::Group, MapFault::NoSeparator)
    );
}

#[test]
fn faults_are_said_in_words() {
    assert_eq!(message(&["-w"]), "Expected command to execute inside of jail");
    assert_eq!(message(&["--"]), "Expected a command to run in the jail");
    assert_eq!(message(&["-R"]), "Expected path following '-R' flag");
    assert_eq!(message(&["--current-dir"]), "Expected path following '--current-dir' flag");
    for flag in ["-m", "--ro-bind-mount", "-d", "-p", "-s", "--tmpfs-mount"] {
        assert_eq!(
            message(&[flag]),
            format!("Expected path or a pair of paths following '{}' flag", flag)
        );
    }
    assert_eq!(message(&["-u"]), "Expected UID range mapping following '-u' flag");
    assert_eq!(message(&["--gid-map"]), "Expected GID range mapping following '--gid-map' flag");
    assert_eq!(
        message(&["-U"]),
        "Expected one of 'cgroup', 'uts', 'ipc', 'pid', or 'net' following '-U' flag"
    );
    assert_eq!(message(&["-e"]), "Expected an environment variable following '-e' flag");
    assert_eq!(message(&["-x", "y"]), "Unexpected option '-x'");
    assert_eq!(
        message(&["-Upid,x,net", "y"]),
        "Expected one of 'cgroup', 'uts', 'ipc', 'pid', 'net', or 'all' instead of 'x'"
    );
    assert_eq!(
        message(&["-e", "A", "y"]),
        "Expected '=' to set environment variable value in 'A'"
    );
    assert_eq!(
        message(&["-u1:2,3", "y"]),
        "Expected ':' separating host and jail UIDs in UID mapping '3'"
    );
    assert_eq!(message(&["-gx:2", "y"]), "Expected GID in GID mapping 'x:2'");
    assert_eq!(message(&["-u1:2:z", "y"]), "Expected UID range length in UID mapping '1:2:z'");
    assert_eq!(
        message(&["-u4294967295:2:3", "y"]),
        "Invalid host UID range in '4294967295:2:3'"
    );
    assert_eq!(
        message(&["-g2:4294967295:3", "y"]),
        "Invalid jail GID range in '2:4294967295:3'"
    );
}

#[test]
fn the_program_exits_as_the_command_did() {
    let code = |message: [u8; 5]| {
        let mut child = Child::new(1, 2, ByteOrder::Big);
        match child.poll_wait::<u8>(Some(ReadOutcome::Data(message.to_vec()))) {
            WaitPoll::Ready(status) => exit_code(&status),
            other => panic!("{:?}", other),
        }
    };
    assert_eq!(code([0, 0, 0, 0, 5]), 5);
    assert_eq!(code([1, 0, 0, 0, 9]), 137);
    assert_eq!(code([2, 0, 0, 0, 11]), 139);
}
