use bsdkrun::doctor::{
    any_failed, cache_backend, gather, networking, platform, signature, store, tool, which_path, writable,
    CacheBackend, Facts, Signature, State, WriteProbe,
};
use bsdkrun::host::Arch;

fn probe(ok: bool) -> WriteProbe {
    if ok {
        WriteProbe { dir: Ok("/home/u/.local/share/bsdkrun".into()), create: Ok(()), write: Ok(()) }
    } else {
        WriteProbe { dir: Ok("/dev/null/nope".into()), create: Err("Not a directory".into()), write: Ok(()) }
    }
}

fn facts(macos: bool, healthy: bool) -> Facts {
    let found = |p: &str| if healthy { Some(format!("/usr/bin/{p}")) } else { None };
    Facts {
        macos,
        curl: found("curl"),
        tar: found("tar"),
        gzip: found("gzip"),
        boot: healthy,
        kvm: if healthy { Ok(()) } else { Err("no /dev/kvm".into()) },
        vm_context: if healthy { Ok(()) } else { Err("EINVAL".into()) },
        signature: if healthy {
            Signature::Printed("com.apple.security.hypervisor".into(), String::new())
        } else {
            Signature::Printed(String::new(), String::new())
        },
        gvproxy: if healthy { Ok("/usr/libexec/gvproxy".into()) } else { Err("gvproxy not found".into()) },
        state_dir: probe(healthy),
        cache_dir: probe(healthy),
        store: if healthy { Ok("APFS, case-sensitive".into()) } else { Ok("APFS, case-INSENSITIVE".into()) },
        cache: if healthy {
            CacheBackend::Disk("disk at ~/.cache".into())
        } else {
            CacheBackend::Remote("s3://bucket".into(), Err("no credentials".into()))
        },
    }
}

#[test]
fn every_failing_or_warning_check_offers_something_to_do() {
    for macos in [false, true] {
        for healthy in [false, true] {
            for c in gather(facts(macos, healthy)) {
                if c.state == State::Good {
                    continue;
                }
                assert!(c.fix.is_some(), "check {:?} is {:?} but suggests nothing", c.name, c.state);
            }
        }
    }
}

#[test]
fn a_missing_required_tool_is_fatal_and_an_optional_one_is_not() {
    let missing = tool("definitely-not-a-real-tool", true, "why", None);
    assert_eq!(missing.state, State::Fail);
    assert!(missing.fix.unwrap().contains("brew install"));

    let optional = tool("definitely-not-a-real-tool", false, "why", None);
    assert_eq!(optional.state, State::Warn);
}

#[test]
fn a_found_tool_reports_where() {
    let c = tool("curl", true, "why", Some("/usr/bin/curl".into()));
    assert_eq!(c.state, State::Good);
    assert_eq!(c.detail, "/usr/bin/curl");
    assert!(c.fix.is_none());
    let c = tool("tar", true, "unpacking", None);
    assert_eq!(c.detail, "not on PATH \u{2014} unpacking");
    assert_eq!(c.fix.unwrap(), "brew install tar (macOS), or your distribution's package");
}

#[test]
fn which_output_is_trimmed_and_empty_means_missing() {
    assert_eq!(which_path(true, "/usr/bin/curl\n"), Some("/usr/bin/curl".to_string()));
    assert_eq!(which_path(true, "  \n"), None);
    assert_eq!(which_path(false, "/usr/bin/curl"), None);
}

#[test]
fn the_checks_come_in_report_order() {
    let names: Vec<&str> = gather(facts(false, true)).iter().map(|c| c.name).collect();
    assert_eq!(
        names,
        vec!["curl", "tar", "gzip", "hypervisor", "networking", "state directory", "cache directory", "cache"]
    );
    let names: Vec<&str> = gather(facts(true, true)).iter().map(|c| c.name).collect();
    assert_eq!(
        names,
        vec![
            "curl",
            "tar",
            "gzip",
            "hypervisor",
            "code signature",
            "networking",
            "state directory",
            "cache directory",
            "store",
            "cache"
        ]
    );
}

#[test]
fn a_healthy_host_fails_nothing_and_a_broken_one_does() {
    assert!(!any_failed(&gather(facts(true, true))));
    assert!(any_failed(&gather(facts(false, false))));
}

#[test]
fn a_directory_that_cannot_be_made_or_written_fails() {
    assert_eq!(writable("t", probe(true)).state, State::Good);
    let c = writable("t", probe(false));
    assert_eq!(c.state, State::Fail);
    assert_eq!(c.detail, "/dev/null/nope is not usable: Not a directory");
    let c = writable("t", WriteProbe { dir: Ok("/ro".into()), create: Ok(()), write: Err("Read-only file system".into()) });
    assert_eq!(c.state, State::Fail);
    assert_eq!(c.detail, "/ro is not writable: Read-only file system");
    let c = writable("t", WriteProbe { dir: Err("no HOME".into()), create: Ok(()), write: Ok(()) });
    assert_eq!(c.fix.unwrap(), "set HOME");
}

#[test]
fn an_unentitled_signature_fails() {
    assert_eq!(signature(Signature::Printed("x".into(), "com.apple.security.hypervisor".into())).state, State::Good);
    assert_eq!(signature(Signature::Printed("x".into(), "y".into())).state, State::Fail);
    assert_eq!(signature(Signature::NoExe("gone".into())).detail, "cannot locate this binary: gone");
}

#[test]
fn a_case_insensitive_store_warns() {
    assert_eq!(store(Ok("APFS, case-INSENSITIVE".into())).state, State::Warn);
    assert_eq!(store(Ok("APFS, case-sensitive".into())).state, State::Good);
}

#[test]
fn a_remote_cache_needs_credentials() {
    let c = cache_backend(CacheBackend::Remote("s3://b".into(), Ok(())));
    assert_eq!(c.detail, "s3://b (credentials present)");
    let c = cache_backend(CacheBackend::Remote("s3://b".into(), Err("no key".into())));
    assert_eq!(c.state, State::Warn);
    assert_eq!(c.detail, "s3://b: no key");
}

#[test]
fn networking_names_gvproxy() {
    assert_eq!(networking(Ok("/opt/gvproxy".into())).detail, "gvproxy at /opt/gvproxy");
    assert_eq!(networking(Err("missing".into())).state, State::Warn);
}

#[test]
fn platform_names_os_and_arch() {
    assert_eq!(platform("linux", Some(Arch::X86_64)), "linux/x86_64");
    assert_eq!(platform("macos", None), "macos/unknown");
}

#[test]
fn markers_line_up() {
    assert_eq!(State::Good.marker(), "ok  ");
    assert_eq!(State::Warn.marker(), "warn");
    assert_eq!(State::Fail.marker(), "FAIL");
}
