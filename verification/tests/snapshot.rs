use bsdkrun::snapshot::PayloadKind;
use bsdkrun::snapshot::{auto_name, restore_check, rollback_target, short, valid_name, RestoreRefusal, SnapshotRow};

#[test]
fn snapshot_names_are_plain() {
    assert!(valid_name("before-upgrade_1.0"));
    assert!(!valid_name(""));
    assert!(!valid_name("a b"));
    assert!(!valid_name("x/y"));
}

#[test]
fn ids_shorten_like_docker() {
    assert_eq!(short("0123456789abcdef"), "0123456789ab");
    assert_eq!(short("abc"), "abc");
}

#[test]
fn auto_names_take_the_first_free_number() {
    assert_eq!(auto_name(&Some("web".into()), "0123456789abcdef", "", &vec![]), "web-1");
    let taken = vec!["web-1".to_string(), "web-2".to_string(), "web-4".to_string()];
    assert_eq!(auto_name(&Some("web".into()), "x", "", &taken), "web-3");
    assert_eq!(auto_name(&None, "0123456789abcdef", "-pre-restore", &vec![]), "0123456789ab-pre-restore-1");
    assert_eq!(auto_name(&Some("!!".into()), "x", "", &vec![]), "snapshot-1");
}

#[test]
fn a_restore_needs_a_matching_guest_and_a_stopped_machine() {
    assert_eq!(
        restore_check("snap", "freebsd", "0123456789abcdef", "linux", false, false),
        Err(RestoreRefusal::KindMismatch {
            snapshot: "snap".into(),
            snapshot_kind: "freebsd".into(),
            machine: "0123456789ab".into(),
            machine_kind: "linux".into()
        })
    );
    assert_eq!(
        restore_check("snap", "linux", "0123456789abcdef", "linux", true, false),
        Err(RestoreRefusal::Running { machine: "0123456789ab".into() })
    );
    assert_eq!(restore_check("snap", "linux", "m", "linux", true, true), Ok(true));
    assert_eq!(restore_check("snap", "linux", "m", "linux", false, false), Ok(false));
}

fn snap(id: &str) -> SnapshotRow {
    SnapshotRow {
        id: id.into(),
        name: format!("n-{id}"),
        machine_id: "m".into(),
        machine_name: String::new(),
        kind: "linux".into(),
        image: "alpine".into(),
        path: "/p".into(),
        parent: None,
        description: String::new(),
        cpus: 1,
        mem: 512,
        ports: None,
        created_at: "0".into(),
    }
}

#[test]
fn a_rollback_takes_the_newest_snapshot() {
    assert_eq!(rollback_target(&vec![snap("new"), snap("old")], "m"), Ok("new".to_string()));
    assert_eq!(
        rollback_target(&vec![], "0123456789abcdef"),
        Err("machine 0123456789ab has no snapshots to roll back to (take one with `bsdkrun snapshot 0123456789ab`)"
            .to_string())
    );
}

#[test]
fn a_snapshot_captures_what_the_guest_writes_to() {
    assert_eq!(bsdkrun::snapshot::payload_kind("linux", "alpine"), PayloadKind::Rootfs);
    assert_eq!(bsdkrun::snapshot::payload_kind("firmware", "disk.img"), PayloadKind::Disk);
    assert_eq!(bsdkrun::snapshot::payload_kind("unikraft", "x"), PayloadKind::Unikernel);
    assert_eq!(bsdkrun::snapshot::payload_kind("nanos", "x"), PayloadKind::Disk);
    assert_eq!(
        bsdkrun::snapshot::nothing_to_snapshot("0123456789abcdef", PayloadKind::Disk),
        "machine 0123456789ab has no disk to snapshot"
    );
}

#[test]
fn disks_keep_their_names_both_ways() {
    assert_eq!(bsdkrun::snapshot::machine_disk(true, true), Some("root.raw"));
    assert_eq!(bsdkrun::snapshot::machine_disk(false, true), Some("root.img"));
    assert_eq!(bsdkrun::snapshot::machine_disk(false, false), None);
    assert_eq!(bsdkrun::snapshot::snapshot_disk_file(Some("raw")), "disk.raw");
    assert_eq!(bsdkrun::snapshot::snapshot_disk_file(None), "disk.img");
    assert_eq!(bsdkrun::snapshot::write_back_disk(false, true, Some("raw")), "root.img");
    assert_eq!(bsdkrun::snapshot::write_back_disk(false, false, Some("raw")), "root.raw");
    assert_eq!(bsdkrun::snapshot::write_back_disk(false, false, None), "root.img");
}

#[test]
fn snapshots_go_next_to_the_data_they_clone() {
    assert_eq!(bsdkrun::snapshot::snapshot_dir_choice(&vec![false, true, true]), 1);
    assert_eq!(bsdkrun::snapshot::snapshot_dir_choice(&vec![false, false]), 1);
    assert_eq!(bsdkrun::snapshot::snapshot_dir_choice(&vec![true]), 0);
}
