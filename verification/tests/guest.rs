use bsdkrun::guest::{
    agent_candidates, agent_install, guest_os_kind, interactive_shell_argv, interactive_shell_env, interactive_term,
    is_bsd, reject_unikraft, update_script, ELF_CHECK,
    is_public_key_file, public_keys, ssh_argv, ssh_env, ssh_key_values,
};
use bsdkrun::host::GuestOs;

#[test]
fn guest_kinds_normalize() {
    assert_eq!(guest_os_kind("firmware", "disk.img"), "freebsd");
    assert_eq!(guest_os_kind("kernel", "x"), "netbsd");
    assert_eq!(guest_os_kind("linux", "NetBSD-10"), "netbsd");
    assert_eq!(guest_os_kind("unikraft", "freebsd"), "unikraft");
    assert_eq!(guest_os_kind("linux", "alpine"), "linux");
}

#[test]
fn bsd_guests_get_a_terminal_type() {
    assert!(is_bsd("freebsd"));
    assert!(!is_bsd("linux"));
    assert_eq!(interactive_term("netbsd"), Some("TERM=xterm".to_string()));
    assert_eq!(interactive_term("linux"), None);
    assert_eq!(interactive_shell_env("linux"), Vec::<String>::new());
    let argv = interactive_shell_argv();
    assert_eq!(&argv[..2], &["/bin/sh".to_string(), "-c".to_string()]);
    assert!(argv[2].ends_with("then exec bash; else exec /bin/sh; fi"));
}

#[test]
fn unikernels_refuse_shells_and_snapshots() {
    assert!(reject_unikraft("linux", "m", "exec into").is_ok());
    let e = reject_unikraft("osv", "m1", "snapshot").unwrap_err();
    assert!(e.starts_with("cannot snapshot m1 \u{2014} it is an OSv unikernel"), "{e}");
}

#[test]
fn the_agent_lives_where_the_guest_keeps_it() {
    assert_eq!(agent_candidates("linux"), vec!["/sbin/bsdkrun-agent", "/usr/local/sbin/bsdkrun-agent"]);
    assert_eq!(agent_candidates("freebsd")[0], "/usr/local/sbin/bsdkrun-agent");
    let i = agent_install("netbsd");
    assert_eq!(i.os, GuestOs::Netbsd);
    assert_eq!(i.fetch_cmd, "ftp -o");
    assert_eq!(agent_install("linux").interp, "");
}

#[test]
fn an_agent_update_is_verified_before_it_replaces_anything() {
    let s = update_script("curl -fL -o", "https://x/a", "/sbin/bsdkrun-agent", "", "linux");
    assert_eq!(
        s,
        format!(
            "set -e; tmp=/tmp/bsdkrun-agent.new; curl -fL -o \"$tmp\" 'https://x/a'; {ELF_CHECK}chmod +x \"$tmp\"; mv \"$tmp\" '/sbin/bsdkrun-agent'; echo \"updated /sbin/bsdkrun-agent\"; echo \"from https://x/a\""
        )
    );
    let s = update_script("ftp -o", "u", "/d", "/usr/libexec/ld.elf_so", "netbsd");
    let check = s.find("grep -aq '/usr/libexec/ld.elf_so'").unwrap();
    assert!(check < s.find("mv ").unwrap());
}

fn strs(v: &[&str]) -> Vec<String> {
    v.iter().map(|s| s.to_string()).collect()
}

#[test]
fn ssh_key_values_follow_each_key_flag() {
    assert_eq!(ssh_key_values(&strs(&["add-key", "--key", "k.pub", "x"])), (vec![2], true));
    assert_eq!(ssh_key_values(&strs(&["setup"])), (vec![], false));
    // A `--key` that is itself the value of a `--key` is not a flag.
    assert_eq!(ssh_key_values(&strs(&["--key", "--key", "v"])), (vec![1], true));
    assert_eq!(ssh_key_values(&strs(&["setup", "--key"])), (vec![], true));
}

#[test]
fn ssh_argv_reads_key_files_only_for_key_values() {
    let args = strs(&["add-key", "--key", "id.pub", "id.pub"]);
    let files = vec![None, None, Some("ssh-ed25519 AAAA me\n".to_string()), Some("ignored".to_string())];
    assert_eq!(ssh_argv(&args, &files), strs(&["add-key", "--key", "ssh-ed25519 AAAA me", "id.pub"]));
    let literal = vec![None, None, None, None];
    assert_eq!(ssh_argv(&args, &literal), args);
}

#[test]
fn ssh_env_offers_local_keys_without_an_explicit_key() {
    let keys = strs(&["ssh-ed25519 A", "ssh-rsa B"]);
    assert_eq!(ssh_env(&strs(&["setup"]), &keys), strs(&["BSDKRUN_SSH_KEYS=ssh-ed25519 A\nssh-rsa B"]));
    assert_eq!(ssh_env(&strs(&["add-key"]), &keys).len(), 1);
    assert!(ssh_env(&strs(&["setup", "--key", "k"]), &keys).is_empty());
    assert!(ssh_env(&strs(&["status"]), &keys).is_empty());
    assert!(ssh_env(&strs(&["setup"]), &vec![]).is_empty());
}

#[test]
fn public_keys_are_the_id_pub_files_sorted() {
    let files = vec![
        ("known_hosts".to_string(), "host key".to_string()),
        ("id_rsa.pub".to_string(), "ssh-rsa BBB u@h\n".to_string()),
        ("id_rsa".to_string(), "PRIVATE".to_string()),
        ("id_ed25519.pub".to_string(), "  ssh-ed25519 AAA u@h  ".to_string()),
        ("id_empty.pub".to_string(), " \n".to_string()),
        ("id_ecdsa.pub".to_string(), "ecdsa-sha2 CCC u@h".to_string()),
    ];
    assert_eq!(public_keys(&files), strs(&["ecdsa-sha2 CCC u@h", "ssh-ed25519 AAA u@h", "ssh-rsa BBB u@h"]));
    assert!(public_keys(&vec![]).is_empty());
    assert!(is_public_key_file("id_ed25519.pub"));
    assert!(!is_public_key_file("id_ed25519"));
    assert!(!is_public_key_file("authorized_keys.pub"));
}
