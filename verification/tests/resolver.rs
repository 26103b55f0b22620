use bsdkrun::resolver::{
    admin_applescript, dropin, gui_escalation_available, linux_setup_script, location, macos_setup_script,
    resolved_available, resolver_file, resolver_ok,
};

#[test]
fn the_wiring_lives_per_tld_on_macos() {
    assert_eq!(location("bsdk", true), "/etc/resolver/bsdk");
    assert_eq!(resolver_file(5343), "nameserver 127.0.0.1\nport 5343\n");
}

#[test]
fn the_dropin_routes_only_the_tld() {
    let d = dropin("bsdk", 5343);
    assert!(d.contains("DNS=127.0.0.1:5343\nDomains=~bsdk\n"), "{d}");
    assert!(resolver_ok(false, &d, "bsdk", 5343));
    assert!(!resolver_ok(false, &d, "bsdk", 99));
    assert!(!resolver_ok(false, &d, "test", 5343));
    assert!(resolver_ok(true, &resolver_file(5343), "bsdk", 5343));
    assert!(!resolver_ok(true, "nameserver 127.0.0.1\nport 53\n", "bsdk", 5343));
}

#[test]
fn the_admin_dialog_needs_a_local_gui_session() {
    assert!(gui_escalation_available(true, false, &Some("alice".into())));
    assert!(!gui_escalation_available(true, false, &Some("root".into())));
    assert!(!gui_escalation_available(true, true, &Some("alice".into())));
    assert!(!gui_escalation_available(false, false, &Some("alice".into())));
    assert!(!gui_escalation_available(true, false, &None));
}

#[test]
fn resolved_counts_unless_masked() {
    assert!(resolved_available("enabled\n"));
    assert!(!resolved_available("masked\n"));
    assert!(!resolved_available(""));
}

#[test]
fn scripts_escape_what_they_embed() {
    assert_eq!(admin_applescript("echo \"a\\b\""), "do shell script \"echo \\\"a\\\\b\\\"\" with administrator privileges");
    let m = macos_setup_script("bsdk", 5343);
    assert!(m.starts_with("mkdir -p /etc/resolver && printf 'nameserver 127.0.0.1\\nport 5343\\n' > /etc/resolver/bsdk"), "{m}");
    let l = linux_setup_script("bsdk", 5343);
    assert!(l.contains("printf '%s' '# Generated by bsdkrun"), "{l}");
}
