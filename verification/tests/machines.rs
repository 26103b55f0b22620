use bsdkrun::db::ImageRow;
use bsdkrun::machines::{
    image_users, is_bsd_machine, machine_mounts, mount_host, not_running, remove_image, removal_check,
    removal_of_image, stop_exit_code, truncate, update, volume_name_ok, ImageUse,
};

#[test]
fn update_clamps_and_needs_something_to_change() {
    assert_eq!(update(Some(0), None, 4, 2048), Ok((1, 2048)));
    assert_eq!(update(None, Some(32), 4, 2048), Ok((4, 64)));
    assert_eq!(update(None, Some(8192), 300, 2048), Ok((255, 8192)));
    assert_eq!(update(None, None, 4, 2048), Err("nothing to update \u{2014} pass --cpus and/or --mem".to_string()));
}

#[test]
fn bsd_guests_are_known_by_kind_or_image() {
    assert!(is_bsd_machine("firmware", "disk.img"));
    assert!(is_bsd_machine("linux", "FreeBSD-14.2"));
    assert!(is_bsd_machine("x", "netbsd-10"));
    assert!(!is_bsd_machine("linux", "alpine"));
}

#[test]
fn a_stopped_machine_shows_an_exit_code() {
    assert_eq!(stop_exit_code(true, Some(3)), Some(0));
    assert_eq!(stop_exit_code(false, Some(3)), Some(3));
    assert_eq!(stop_exit_code(false, None), Some(143));
    assert_eq!(not_running("web"), "web is not running");
}

#[test]
fn rm_refuses_a_running_machine_unless_forced() {
    assert_eq!(removal_check("web", true, false), Err("machine web is running (stop it first, or use -f)".to_string()));
    assert_eq!(removal_check("web", true, true), Ok(true));
    assert_eq!(removal_check("web", false, false), Ok(false));
}

fn uses() -> Vec<ImageUse> {
    vec![
        ImageUse { id: "m1".into(), name: Some("web".into()), image: "alpine:3".into() },
        ImageUse { id: "m2".into(), name: None, image: "sha-1".into() },
        ImageUse { id: "m3".into(), name: Some("db".into()), image: "postgres".into() },
    ]
}

#[test]
fn an_image_in_use_is_refused_with_its_users() {
    let users = image_users(&uses(), "alpine:3", "sha-1");
    assert_eq!(users, vec!["web".to_string(), "m2".to_string()]);
    assert_eq!(
        removal_of_image("alpine:3", &users),
        Err("alpine:3 is in use by 2 (web, m2) \u{2014} remove those machines first".to_string())
    );
    assert_eq!(removal_of_image("alpine:3", &vec![]), Ok(()));
}

fn row(rootfs: &str) -> ImageRow {
    ImageRow {
        id: "sha-1".into(),
        reference: "alpine:3".into(),
        digest: "sha256:x".into(),
        size: 1,
        rootfs: rootfs.into(),
        created_at: "0".into(),
    }
}

#[test]
fn removing_an_image_reports_its_reference() {
    assert_eq!(remove_image("nope", &None, &vec![], false), Err("no such image: nope".to_string()));
    assert_eq!(remove_image("sha-1", &Some(row("/c/x/rootfs")), &vec![], false), Ok(("alpine:3".to_string(), true)));
    assert_eq!(remove_image("sha-1", &Some(row("")), &vec![], false), Ok(("alpine:3".to_string(), false)));
    assert!(remove_image("sha-1", &Some(row("/r")), &vec!["web".into()], false).is_err());
}

#[test]
fn truncation_adds_an_ellipsis() {
    assert_eq!(truncate("short", 10), "short");
    assert_eq!(truncate("a-long-name", 5), "a-lo\u{2026}");
    assert_eq!(truncate("\u{e9}\u{e9}\u{e9}", 2), "\u{e9}\u{2026}");
}

#[test]
fn volume_names_cannot_escape() {
    assert!(volume_name_ok("data-1.v_2"));
    assert!(!volume_name_ok(""));
    assert!(!volume_name_ok("."));
    assert!(!volume_name_ok(".."));
    assert!(!volume_name_ok("../etc"));
    assert!(!volume_name_ok("a b"));
}

#[test]
fn recorded_mounts_keep_those_whose_host_is_there() {
    assert_eq!(mount_host("/src:/app:ro"), "/src:/app");
    assert_eq!(mount_host("/src:/app"), "/src");
    assert_eq!(mount_host("plain"), "plain");
    let recorded = vec![("/a:/x".to_string(), true), ("/gone:/y".to_string(), false), ("/b:/z:ro".to_string(), true)];
    assert_eq!(machine_mounts(&recorded), vec!["/a:/x".to_string(), "/b:/z:ro".to_string()]);
}

#[test]
fn an_image_in_use_is_kept_even_when_forced() {
    let img = ImageRow {
        id: "sha-1".to_string(),
        reference: "alpine:3".to_string(),
        digest: "sha256:1".to_string(),
        size: 1,
        rootfs: "/c/x/rootfs".to_string(),
        created_at: "".to_string(),
    };
    assert_eq!(
        remove_image("sha-1", &Some(img), &vec!["web".into(), "db".into()], true),
        Err("alpine:3 is in use by 2 (web, db) \u{2014} remove those machines first".to_string())
    );
}
