use bsdkrun::host::Arch;
use bsdkrun::boot::{
    linux_boot_plan, LinuxBootError, LinuxRoot,
    member_mac, net_plan, osv_arch_check, osv_root, NetError, NetPlan,
    agent_exited_error, agent_timeout_error, bsd_exec_after, ensure_net_for_exec, freebsd_cmdline,
    legacy_rootfs_error, netbsd_cmdline, parse_mount_spec, progress_line, repo_clone_argv, repo_dir_name,
    restart_plan, shell_squote, AgentWait, MountSpecError, Probe, RestartFacts, Resume, RootDisk, WaitAction,
    FREEBSD_CMDLINE,
};

#[test]
fn quoting_closes_and_reopens_around_a_quote() {
    assert_eq!(shell_squote("plain"), "'plain'");
    assert_eq!(shell_squote("it's"), "'it'\\''s'");
    assert_eq!(shell_squote("a\\b"), "'a\\b'");
}

#[test]
fn repo_dirs_are_the_last_segment_without_git() {
    assert_eq!(repo_dir_name("https://github.com/u/proj.git"), "proj");
    assert_eq!(repo_dir_name("git@github.com:u/proj"), "proj");
    assert_eq!(repo_dir_name("https://example.com/u/proj///"), "proj");
    assert_eq!(repo_dir_name("host:we!rd name"), "werdname");
    assert_eq!(repo_dir_name("https://example.com/"), "example.com");
    assert_eq!(repo_dir_name("x/.git"), "repo");
    assert_eq!(repo_dir_name(""), "repo");
}

#[test]
fn a_repo_clone_quotes_the_url_and_lands_in_home() {
    assert!(repo_clone_argv("   ").is_none());
    let argv = repo_clone_argv(" https://github.com/u/it's.git ").unwrap();
    assert_eq!(argv.len(), 3);
    assert_eq!(argv[0], "sh");
    assert_eq!(argv[1], "-lc");
    let script = &argv[2];
    assert!(script.starts_with("set -e; export PATH="), "{script}");
    assert!(script.contains("git clone --depth=1 'https://github.com/u/it'\\''s.git' \"$H/its\";"), "{script}");
    assert!(script.contains("echo '==> cloning its';"), "{script}");
    assert!(script.contains("printf '%s\\n' \"$H/its\" > /etc/bsdkrun-cwd"), "{script}");
    assert!(script.ends_with("echo '==> cloned into '\"$H/its\""), "{script}");
    assert!(script.contains("has() { command -v \"$1\" >/dev/null 2>&1; };"), "{script}");
}

#[test]
fn a_bare_foreground_bsd_boot_gets_an_interactive_shell() {
    assert_eq!(bsd_exec_after(&vec![], false, false), (vec!["/bin/sh".to_string()], true));
    assert_eq!(bsd_exec_after(&vec![], true, false), (vec![], false));
    assert_eq!(bsd_exec_after(&vec![], false, true), (vec![], false));
    let cmd = vec!["uname".to_string(), "-a".to_string()];
    assert_eq!(bsd_exec_after(&cmd, false, false), (cmd.clone(), false));
}

#[test]
fn a_guest_command_needs_networking() {
    assert!(ensure_net_for_exec(true, &vec![]).is_ok());
    assert!(ensure_net_for_exec(false, &vec!["ls".into()]).is_ok());
    let e = ensure_net_for_exec(true, &vec!["ls".into()]).unwrap_err();
    assert_eq!(
        e,
        "running a command in the guest needs networking (the agent talks over the guest NIC), but --no-net was given"
    );
}

#[test]
fn mount_specs_split_into_host_guest_and_mode() {
    assert_eq!(parse_mount_spec("/src:/app"), Ok(("/src".into(), "/app".into(), false)));
    assert_eq!(parse_mount_spec("/src:/app:ro"), Ok(("/src".into(), "/app".into(), true)));
    assert_eq!(parse_mount_spec("/src:/app:rw"), Ok(("/src".into(), "/app".into(), false)));
    assert_eq!(parse_mount_spec("/src"), Err(MountSpecError::Shape));
    assert_eq!(parse_mount_spec("/src:/app:rx"), Err(MountSpecError::Shape));
    assert_eq!(parse_mount_spec("a:b:c:d"), Err(MountSpecError::Shape));
    assert_eq!(parse_mount_spec(":/app"), Err(MountSpecError::EmptySide));
    assert_eq!(parse_mount_spec("/src:app"), Err(MountSpecError::RelativeGuest));
}

#[test]
fn kernel_command_lines_take_a_non_empty_override() {
    assert_eq!(netbsd_cmdline(None, true), "root=ld0a console=com");
    assert_eq!(netbsd_cmdline(Some(""), false), "root=dk1");
    assert_eq!(netbsd_cmdline(Some("root=x"), true), "root=x");
    assert_eq!(freebsd_cmdline(None), FREEBSD_CMDLINE);
    assert!(FREEBSD_CMDLINE.starts_with("vfs.root.mountfrom=ufs:/dev/vtbd0 console=comconsole hw.uart.console=io:0x3f8 hint.uart.0.at=isa"));
    assert_eq!(freebsd_cmdline(Some("y")), "y");
}

fn facts(kind: &str, image: &str) -> RestartFacts {
    RestartFacts {
        status: "exited".into(),
        pid_alive: false,
        kind: kind.into(),
        image: image.into(),
        cpus: 2,
        mem: 1024,
        has_volume: false,
        root_disks: (false, false, false),
        legacy_rootfs: false,
        rootfs_moved: false,
        rootfs_intact: false,
    }
}

#[test]
fn a_running_machine_is_left_alone() {
    let mut f = facts("linux", "alpine");
    f.status = "running".into();
    f.pid_alive = true;
    assert_eq!(restart_plan(&f).resume, Resume::Running);
    f.pid_alive = false;
    assert_eq!(restart_plan(&f).resume, Resume::Linux { own_rootfs: false });
}

#[test]
fn restart_resources_are_clamped() {
    let mut f = facts("linux", "alpine");
    f.cpus = 0;
    f.mem = 10;
    let p = restart_plan(&f);
    assert_eq!((p.cpus, p.mem), (1, 64));
    f.cpus = 1000;
    f.mem = 4096;
    let p = restart_plan(&f);
    assert_eq!((p.cpus, p.mem), (255, 4096));
}

#[test]
fn a_linux_machine_resumes_its_own_rootfs() {
    let mut f = facts("linux", "alpine");
    f.rootfs_intact = true;
    assert_eq!(restart_plan(&f).resume, Resume::Linux { own_rootfs: true });
    f.has_volume = true;
    assert_eq!(restart_plan(&f).resume, Resume::Linux { own_rootfs: false });
    let mut f = facts("linux", "alpine");
    f.legacy_rootfs = true;
    f.rootfs_moved = true;
    assert_eq!(restart_plan(&f).resume, Resume::LegacyRootfs);
    f.rootfs_moved = false;
    assert_eq!(restart_plan(&f).resume, Resume::Linux { own_rootfs: false });
}

#[test]
fn bsd_and_unikernel_machines_boot_their_own_disk() {
    let mut f = facts("firmware", "disk.img");
    f.root_disks = (false, true, true);
    assert_eq!(restart_plan(&f).resume, Resume::FreeBsd { disk: Some(RootDisk::Img) });
    let mut f = facts("kernel", "x");
    f.root_disks = (true, true, false);
    assert_eq!(restart_plan(&f).resume, Resume::NetBsd { disk: Some(RootDisk::Raw) });
    f.has_volume = true;
    assert_eq!(restart_plan(&f).resume, Resume::NetBsd { disk: None });
    let f = facts("mystery", "FreeBSD-14.iso");
    assert_eq!(restart_plan(&f).resume, Resume::FreeBsd { disk: None });
    let mut f = facts("nanos", "x");
    f.root_disks = (false, false, true);
    assert_eq!(restart_plan(&f).resume, Resume::Nanos { disk: Some(RootDisk::Qcow2) });
    assert_eq!(restart_plan(&facts("osv", "x")).resume, Resume::Osv { disk: None });
    assert_eq!(restart_plan(&facts("unikraft", "x")).resume, Resume::Unikraft);
    assert_eq!(restart_plan(&facts("mystery", "thing")).resume, Resume::Unknown);
    assert_eq!(RootDisk::Qcow2.file_name(), "root.qcow2");
}

#[test]
fn the_legacy_rootfs_refusal_names_the_fix() {
    let m = legacy_rootfs_error("abc");
    assert!(m.starts_with("Linux machine abc uses a rootfs created before the case-sensitive macOS store;"), "{m}");
    assert!(m.ends_with("remove and recreate it with `bsdkrun rm abc` to avoid resuming corrupted storage"), "{m}");
}

#[test]
fn the_agent_wait_polls_twice_a_second_and_times_out() {
    let mut w = AgentWait::new(1_000, true);
    assert!(w.poll_due(1_000));
    let a = w.step(1_000, Probe::Booting);
    assert_eq!(a, WaitAction::Wait { tick_ms: 80, spinner: Some('\u{280b}'), elapsed_secs: 0 });
    assert!(!w.poll_due(1_400));
    let a = w.step(1_400, Probe::Skipped);
    assert_eq!(a, WaitAction::Wait { tick_ms: 80, spinner: Some('\u{2819}'), elapsed_secs: 0 });
    assert!(w.poll_due(1_500));
    assert_eq!(w.step(3_500, Probe::Ready(2222)), WaitAction::Ready(2222));
    assert_eq!(w.step(3_600, Probe::Exited), WaitAction::Exited);
    assert_eq!(w.step(181_000, Probe::Booting), WaitAction::TimedOut);
    let mut quiet = AgentWait::new(0, false);
    assert_eq!(quiet.step(5_000, Probe::Booting), WaitAction::Wait { tick_ms: 250, spinner: None, elapsed_secs: 5 });
}

#[test]
fn wait_messages_name_the_machine() {
    assert_eq!(
        progress_line('x', "freebsd", 7),
        "\r\x1b[K\x1b[36mx\x1b[0m booting freebsd microVM \u{2014} waiting for the guest agent (7s)\u{2026}"
    );
    assert_eq!(agent_exited_error("m1"), "machine m1 exited before its agent came up \u{2014} see `bsdkrun logs m1`");
    assert_eq!(
        agent_timeout_error("m1"),
        "timed out after 180s waiting for the guest agent on machine m1 (still booting? try `bsdkrun logs m1`)"
    );
}

#[test]
fn networking_degrades_unless_ports_need_it() {
    assert_eq!(net_plan(true, false, true, false), Ok(NetPlan::Disabled));
    assert_eq!(net_plan(true, true, true, false), Err(NetError::PortsWithoutNet));
    assert_eq!(net_plan(false, false, false, true), Ok(NetPlan::Disabled));
    assert_eq!(net_plan(false, true, false, false), Err(NetError::PortsNeedGvproxy));
    assert_eq!(net_plan(false, true, true, true), Ok(NetPlan::Shared));
    assert_eq!(net_plan(false, false, true, false), Ok(NetPlan::Own));
    assert_eq!(NetError::PortsWithoutNet.message(), "--port cannot be combined with --no-net");
    assert_eq!(NetError::PortsNeedGvproxy.message(), "--port requires gvproxy");
}

#[test]
fn shared_network_members_get_distinct_macs() {
    let default = [0x5a, 0x94, 0xef, 0xe4, 0x0c, 0xee];
    assert_eq!(member_mac(Some([1, 2, 3, 4, 5, 6]), Some("10.0.0.7"), default), [1, 2, 3, 4, 5, 6]);
    assert_eq!(member_mac(None, Some("192.168.127.9"), default), [0x5a, 0x94, 0xef, 0xe4, 0x0c, 9]);
    assert_eq!(member_mac(None, Some("192.168.127.300"), default), [0x5a, 0x94, 0xef, 0xe4, 0x0c, 2]);
    assert_eq!(member_mac(None, Some("17"), default), [0x5a, 0x94, 0xef, 0xe4, 0x0c, 17]);
    assert_eq!(member_mac(None, None, default), default);
}

#[test]
fn osv_images_must_match_the_host() {
    assert!(osv_arch_check(true, Arch::Aarch64).is_ok());
    assert!(osv_arch_check(false, Arch::X86_64).is_ok());
    assert!(osv_arch_check(true, Arch::X86_64).unwrap_err().starts_with("this is an OSv aarch64 image"));
    assert!(osv_arch_check(false, Arch::Aarch64).unwrap_err().ends_with("(e.g. osv-loader-microvm.qemu.aarch64) instead"));
    assert_eq!(osv_root(false, true, "/app"), (true, false));
    assert_eq!(osv_root(true, true, "/app"), (false, true));
    assert_eq!(osv_root(false, false, "--nomount /app"), (false, false));
}

fn strs(v: &[&str]) -> Vec<String> {
    v.iter().map(|s| s.to_string()).collect()
}

#[test]
fn linux_boot_plan_overrides_env_by_key_and_appends() {
    let env = strs(&["PATH=/usr/bin", "DOCKER_TLS_CERTDIR=/certs", "LANG=C"]);
    let plan = linux_boot_plan(env, &strs(&["DOCKER_TLS_CERTDIR=", "EXTRA=1", "LANG=C.UTF-8"]), false, false, true, true, true, "hvc0")
        .unwrap();
    assert_eq!(plan.env, strs(&["PATH=/usr/bin", "DOCKER_TLS_CERTDIR=", "EXTRA=1", "LANG=C.UTF-8"]));
    assert!(plan.persistent);
    assert_eq!(plan.root, LinuxRoot::Virtiofs);
    assert!(!plan.stdio_serial);
}

#[test]
fn linux_boot_plan_picks_the_root_and_console() {
    let p = linux_boot_plan(vec![], &vec![], true, false, true, false, true, "ttyS0").unwrap();
    assert_eq!(p.root, LinuxRoot::Volume);
    assert!(!p.persistent);
    assert!(p.stdio_serial);
    let p = linux_boot_plan(vec![], &vec![], false, true, false, true, false, "hvc0").unwrap();
    assert_eq!(p.root, LinuxRoot::Initramfs);
    assert!(!p.persistent);
}

#[test]
fn linux_boot_plan_refuses_a_volume_on_an_initramfs() {
    let e = linux_boot_plan(vec![], &vec![], true, true, false, false, true, "hvc0").unwrap_err();
    assert_eq!(e, LinuxBootError::VolumeNeedsVirtiofs);
    assert_eq!(e.message(), "--volume needs virtio-fs; it can't persist an --initramfs (RAM) rootfs");
}
