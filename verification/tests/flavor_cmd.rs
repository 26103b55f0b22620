use bsdkrun::flavor_cmd::{
    flavors_listing,
    add_flavor, flavor_build_volume, flavor_provision_argv, flavor_run_plan, no_such_flavor, remove_flavor,
    resolve_linux_flavor, safe_label, AddFlavorError, FlavorAddArgs, FlavorRun, FlavorRunError, Removed,
    RemoveFlavorError, SavedFlavor, SnapshotDisk, NIX_INSTALL,
};
use bsdkrun::flavors::{find, FlavorFileError, UserFlavor};

fn user(name: &str, base: &str) -> UserFlavor {
    UserFlavor {
        name: name.into(),
        category: "custom".into(),
        description: String::new(),
        base: base.into(),
        ports: vec!["8080:80".into()],
        env: vec!["K=V".into()],
        nix: vec![],
        provision: vec!["echo hi".into()],
    }
}

fn args(name: &str, base: &str) -> FlavorAddArgs {
    FlavorAddArgs {
        name: name.into(),
        category: String::new(),
        description: "d".into(),
        base: base.into(),
        ports: vec![],
        env: vec![],
        nix: vec!["jq".into()],
        provision: vec![],
    }
}

#[test]
fn build_volumes_and_labels() {
    assert_eq!(flavor_build_volume("0123abcd"), "bsdkrun-build-0123abcd");
    assert_eq!(safe_label("my flavor/v2!"), "myflavorv2");
}

#[test]
fn nothing_to_provision_means_no_command() {
    assert!(flavor_provision_argv("x", &vec![], &vec![]).is_none());
}

#[test]
fn provisioning_installs_nix_then_runs_the_steps() {
    let argv = flavor_provision_argv("py dev", &vec!["python3".into(), "uv".into()], &vec!["pip --version".into()])
        .unwrap();
    assert_eq!(argv[0], "sh");
    assert_eq!(argv[1], "-lc");
    let lines: Vec<&str> = argv[2].split('\n').collect();
    assert_eq!(lines[0], "echo '==> provisioning pydev'");
    assert_eq!(lines[1], "echo '==> installing Nix (Determinate Systems)'");
    assert_eq!(lines[2], NIX_INSTALL);
    assert_eq!(lines[4], "nix profile install nixpkgs#python3 nixpkgs#uv");
    assert_eq!(lines[5], "pip --version");
    assert_eq!(lines[6], "echo '==> pydev ready'");
    assert_eq!(lines.len(), 7);
    let argv = flavor_provision_argv("s", &vec![], &vec!["a".into(), "b".into()]).unwrap();
    assert_eq!(argv[2], "echo '==> provisioning s'\na\nb\necho '==> s ready'");
}

#[test]
fn linux_flavors_resolve_from_the_catalog_then_the_user_file() {
    let node = resolve_linux_flavor("node", vec![]).unwrap();
    assert_eq!(node.image, find("node").unwrap().image());
    assert!(resolve_linux_flavor("freebsd", vec![]).is_none());
    let mine = resolve_linux_flavor("mine", vec![user("mine", "alpine:3")]).unwrap();
    assert_eq!(mine.image, "alpine:3");
    assert_eq!(mine.provision, vec!["echo hi".to_string()]);
    assert!(resolve_linux_flavor("bsd", vec![user("bsd", "netbsd")]).is_none());
    assert!(resolve_linux_flavor("nothing", vec![]).is_none());
}

#[test]
fn adding_a_flavor_checks_its_name_and_base() {
    assert_eq!(add_flavor(args("bad name", "alpine"), vec![]).unwrap_err(), AddFlavorError::InvalidName);
    assert_eq!(add_flavor(args("", "alpine"), vec![]).unwrap_err(), AddFlavorError::InvalidName);
    assert_eq!(add_flavor(args("ok", "  "), vec![]).unwrap_err(), AddFlavorError::BaseRequired);
    assert_eq!(
        add_flavor(args("node", "alpine"), vec![]).unwrap_err(),
        AddFlavorError::File(FlavorFileError::BuiltinName)
    );
    let list = add_flavor(args("b-1", "alpine"), vec![user("c", "x"), user("a", "y")]).unwrap();
    let names: Vec<&str> = list.iter().map(|f| f.name.as_str()).collect();
    assert_eq!(names, vec!["a", "b-1", "c"]);
    assert_eq!(list[1].category, "custom");
    assert_eq!(list[1].nix, vec!["jq".to_string()]);
}

#[test]
fn removing_a_flavor_prefers_a_snapshot_and_refuses_the_catalog() {
    assert!(matches!(remove_flavor("node", false, vec![]), Err(RemoveFlavorError::Builtin)));
    assert!(matches!(remove_flavor("snap", true, vec![user("snap", "x")]), Ok(Removed::Snapshot)));
    match remove_flavor("mine", false, vec![user("mine", "x"), user("other", "y")]) {
        Ok(Removed::User(v)) => assert_eq!(v.len(), 1),
        _ => panic!("expected the user flavor to go"),
    }
    assert!(matches!(remove_flavor("ghost", false, vec![user("mine", "x")]), Err(RemoveFlavorError::NoSuchFlavor)));
    assert_eq!(no_such_flavor("ghost"), "no such flavor: ghost");
}

fn saved(kind: &str, base: &str, rootfs: bool, disks: (bool, bool)) -> Option<SavedFlavor> {
    Some(SavedFlavor { kind: kind.into(), base: base.into(), has_rootfs: rootfs, disks })
}

#[test]
fn a_saved_snapshot_wins_and_needs_its_data() {
    assert!(matches!(flavor_run_plan("node", &saved("linux", "alpine", true, (false, false)), vec![]), Ok(FlavorRun::SnapshotLinux)));
    assert!(matches!(
        flavor_run_plan("s", &saved("linux", "alpine", false, (true, true)), vec![]),
        Err(FlavorRunError::MissingRootfs)
    ));
    assert!(matches!(
        flavor_run_plan("s", &saved("kernel", "netbsd-10", false, (false, true)), vec![]),
        Ok(FlavorRun::SnapshotBsd { netbsd: true, disk: SnapshotDisk::Img })
    ));
    assert!(matches!(
        flavor_run_plan("s", &saved("firmware", "x", false, (true, true)), vec![]),
        Ok(FlavorRun::SnapshotBsd { netbsd: false, disk: SnapshotDisk::Raw })
    ));
    assert!(matches!(
        flavor_run_plan("s", &saved("freebsd", "x", true, (false, false)), vec![]),
        Err(FlavorRunError::MissingDisk)
    ));
}

#[test]
fn catalog_and_user_flavors_boot_by_kind() {
    match flavor_run_plan("mine", &None, vec![user("mine", "alpine")]).unwrap() {
        FlavorRun::Linux { spec, provisioned } => {
            assert_eq!(spec.image, "alpine");
            assert!(provisioned);
        }
        _ => panic!("expected a Linux flavor"),
    }
    match flavor_run_plan("node", &None, vec![]).unwrap() {
        FlavorRun::Linux { provisioned, .. } => assert!(!provisioned),
        _ => panic!("expected a Linux flavor"),
    }
    assert!(matches!(flavor_run_plan("netbsd", &None, vec![]), Ok(FlavorRun::Bsd { netbsd: true, .. })));
    assert!(matches!(flavor_run_plan("freebsd", &None, vec![]), Ok(FlavorRun::Bsd { netbsd: false, .. })));
    assert!(matches!(flavor_run_plan("bsd-user", &None, vec![user("bsd-user", "freebsd")]), Err(FlavorRunError::NoSuchFlavor)));
    assert!(matches!(flavor_run_plan("zzz", &None, vec![]), Err(FlavorRunError::NoSuchFlavor)));
}

#[test]
fn flavors_listing_is_the_catalog_when_nothing_is_saved() {
    let lines = flavors_listing(&vec![], &vec![]);
    let header = format!("  {:<14}  {:<9}  {:<8}  {}", "NAME", "CATEGORY", "METHOD", "DESCRIPTION");
    assert_eq!(lines[0], "Catalog:");
    assert_eq!(lines[1], header);
    let cat = bsdkrun::flavors::catalog();
    assert_eq!(lines.len(), 2 + cat.len());
    for (line, c) in lines[2..].iter().zip(cat.iter()) {
        assert_eq!(*line, format!("  {:<14}  {:<9}  {:<8}  {}", c.name, c.category, c.method(), c.description));
    }
}

#[test]
fn flavors_listing_puts_snapshots_and_user_flavors_first() {
    let snap = bsdkrun::db::FlavorRow {
        name: "dev-box".to_string(),
        kind: "linux".to_string(),
        base: "alpine".to_string(),
        path: "/s/flavors/dev-box".to_string(),
        description: "my tools".to_string(),
        created_at: "2024-01-01 00:00:00".to_string(),
    };
    let user = bsdkrun::flavors::UserFlavor {
        name: "ruby".to_string(),
        category: "custom".to_string(),
        description: "Ruby".to_string(),
        base: "ruby:3".to_string(),
        ports: vec![],
        env: vec![],
        nix: vec![],
        provision: vec![],
    };
    let lines = flavors_listing(&vec![snap], &vec![user]);
    assert_eq!(lines[0], "Your snapshots:");
    assert_eq!(lines[1], format!("  {:<18}  {:<9}  {}", "dev-box", "linux", "my tools"));
    assert_eq!(lines[2], "");
    assert_eq!(lines[3], "Your flavors (flavors.toml):");
    assert_eq!(lines[5], format!("  {:<14}  {:<9}  {:<8}  {}", "ruby", "custom", "docker", "Ruby"));
    assert_eq!(lines[6], "");
    assert_eq!(lines[7], "Catalog:");
}
