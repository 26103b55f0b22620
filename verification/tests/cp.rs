use bsdkrun::cp::{
    basename, download_argv, download_target, guest_failure, parse_endpoint, plan_copy, sh, upload_argv, Transfer,
    Endpoint, GET_DIR, GET_FILE, PUT_DIR, PUT_FILE,
};

#[test]
fn a_machine_reference_needs_a_colon_before_any_slash() {
    assert_eq!(
        parse_endpoint("web:/app/main.py"),
        Endpoint::Guest { id: "web".into(), path: "/app/main.py".into() }
    );
    assert_eq!(
        parse_endpoint("6449536bd129:/etc/hosts"),
        Endpoint::Guest { id: "6449536bd129".into(), path: "/etc/hosts".into() }
    );
}

#[test]
fn host_paths_win_the_colon_ambiguity() {
    for s in ["./notes:2026.txt", "/tmp/a:b", "../x:y", "~/notes:1", ".", "/app"] {
        assert!(matches!(parse_endpoint(s), Endpoint::Host(_)), "{s:?} should be a host path");
    }
}

#[test]
fn dash_is_stdio() {
    assert_eq!(parse_endpoint("-"), Endpoint::Stdio);
}

#[test]
fn bare_relative_paths_are_local() {
    assert!(matches!(parse_endpoint("src/main.rs"), Endpoint::Host(_)));
    assert!(matches!(parse_endpoint("main.py"), Endpoint::Host(_)));
}

#[test]
fn paths_reach_the_shell_as_parameters_not_as_text() {
    let argv = sh(PUT_FILE, &["/tmp/a b'c".to_string(), "x".to_string()]);
    assert_eq!(argv[0], "/bin/sh");
    assert_eq!(argv[1], "-c");
    assert_eq!(argv[3], "sh", "argv[3] becomes $0, so paths start at $1");
    assert_eq!(argv[4], "/tmp/a b'c");
    assert!(!argv[2].contains("/tmp/a b'c"), "the path must not be interpolated into the script");
}

#[test]
fn a_missing_tar_is_reported_as_such_only_for_directory_copies() {
    let msg = guest_failure("web", "/app", 127, "", true);
    assert!(msg.contains("no usable `tar`"), "{msg}");
    let msg = guest_failure("web", "/app/x", 127, "sh: cat: not found", false);
    assert!(msg.contains("cat: not found"), "{msg}");
}

#[test]
fn guest_failure_names_the_exit_code() {
    assert_eq!(
        guest_failure("web", "/app/x", 1, "", false),
        "copying /app/x in machine web failed (guest exit 1)"
    );
    assert_eq!(
        guest_failure("web", "/app/x", -2, "boom", true),
        "copying /app/x in machine web failed (guest exit -2): boom"
    );
}

#[test]
fn an_empty_id_is_not_a_machine() {
    assert!(matches!(parse_endpoint(":/x"), Endpoint::Host(_)));
}

#[test]
fn a_copy_needs_exactly_one_machine_side() {
    match plan_copy("web:/a", "./b").unwrap() {
        Transfer::Download { id, path, to } => {
            assert_eq!(id, "web");
            assert_eq!(path, "/a");
            assert_eq!(to, Endpoint::Host("./b".into()));
        }
        other => panic!("{other:?}"),
    }
    match plan_copy("-", "web:/a").unwrap() {
        Transfer::Upload { from, id, path } => {
            assert_eq!(from, Endpoint::Stdio);
            assert_eq!(id, "web");
            assert_eq!(path, "/a");
        }
        other => panic!("{other:?}"),
    }
    let e = plan_copy("a:/x", "b:/y").unwrap_err();
    assert!(e.starts_with("cannot copy from one machine directly to another"), "{e}");
    let e = plan_copy("./a", "./b").unwrap_err();
    assert!(e.contains("neither ./a nor ./b does."), "{e}");
}

#[test]
fn uploads_pick_the_script_and_refuse_mismatched_kinds() {
    let a = upload_argv(&Endpoint::Host("/src/main.py".into()), "/app", false, false).unwrap();
    assert_eq!(a, vec!["/bin/sh", "-c", PUT_FILE, "sh", "/app", "main.py"]);
    let a = upload_argv(&Endpoint::Stdio, "/app/x", false, false).unwrap();
    assert_eq!(a, vec!["/bin/sh", "-c", PUT_FILE, "sh", "/app/x", "stdin"]);
    let a = upload_argv(&Endpoint::Host("/src".into()), "/app", true, true).unwrap();
    assert_eq!(a, vec!["/bin/sh", "-c", PUT_DIR, "sh", "/app"]);
    assert_eq!(
        upload_argv(&Endpoint::Host("/src".into()), "/app", false, true).unwrap_err(),
        "/src is a directory (use -r to copy it)"
    );
    assert_eq!(
        upload_argv(&Endpoint::Host("/f".into()), "/app", true, false).unwrap_err(),
        "/f is not a directory (drop -r to copy a file)"
    );
    assert_eq!(
        upload_argv(&Endpoint::Stdio, "/app", true, false).unwrap_err(),
        "-r needs a directory to read; stdin is a single stream"
    );
}

#[test]
fn downloads_pick_the_script() {
    assert_eq!(download_argv("/etc/hosts", false), vec!["/bin/sh", "-c", GET_FILE, "sh", "/etc/hosts"]);
    assert_eq!(download_argv("/etc", true), vec!["/bin/sh", "-c", GET_DIR, "sh", "/etc"]);
}

#[test]
fn basename_is_the_last_named_component() {
    assert_eq!(basename("/a/b/c.txt"), "c.txt");
    assert_eq!(basename("/a/b/"), "b");
    assert_eq!(basename("./x/."), "x");
    assert_eq!(basename("/"), "file");
    assert_eq!(basename("a/.."), "file");
}

#[test]
fn a_download_into_a_directory_keeps_the_name() {
    assert_eq!(download_target("/tmp", "/var/log/app.log", true), "/tmp/app.log");
    assert_eq!(download_target("/tmp/out.log", "/var/log/app.log", false), "/tmp/out.log");
}
