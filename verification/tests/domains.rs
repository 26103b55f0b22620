use bsdkrun::domains::{
    dns_label, dns_labels, list, machine_url, status, valid_tld, Machine, PortForward, RawSettings, Settings,
};

#[test]
fn labels_normalize_underscores_and_junk() {
    assert_eq!(dns_label("tidy_turing"), "tidy-turing");
    assert_eq!(dns_label("My App!"), "myapp");
    assert_eq!(dns_label("__x__"), "x");
    assert_eq!(dns_label("---"), "");
    let long = "a".repeat(80);
    assert_eq!(dns_label(&long).len(), 63);
}

fn machine(id: &str, name: &str, created: &str) -> Machine {
    Machine {
        id: id.into(),
        name: Some(name.into()),
        created_at: Some(created.into()),
        running: true,
        ports: vec![PortForward::loopback(18080, 80)],
    }
}

#[test]
fn label_collisions_keep_oldest_bare() {
    let ms = vec![machine("bbbb1111", "foo-bar", "2026-01-02"), machine("aaaa2222", "foo_bar", "2026-01-01")];
    let labels = dns_labels(&ms);
    assert_eq!(labels[0].0, "foo-bar");
    assert_eq!(labels[0].1.id, "aaaa2222");
    assert_eq!(labels[1].0, "foo-bar-bbbb");
}

fn settings() -> Settings {
    Settings { enabled: true, tld: "bsdk".into(), https_port: 443, http_port: 80, dns_port: 5343 }
}

#[test]
fn urls_only_when_enabled_and_forwarded() {
    let s = settings();
    let m = machine("abcd", "tidy_turing", "2026-01-01");
    assert_eq!(machine_url(&m, &s).as_deref(), Some("https://tidy-turing.bsdk"));
    let mut no_ports = m.clone();
    no_ports.ports.clear();
    assert_eq!(machine_url(&no_ports, &s), None);
    let alt = Settings { https_port: 8443, ..s.clone() };
    assert_eq!(machine_url(&m, &alt).as_deref(), Some("https://tidy-turing.bsdk:8443"));
    let off = Settings { enabled: false, ..s };
    assert_eq!(machine_url(&m, &off), None);
}

#[test]
fn tld_validation() {
    assert!(valid_tld("bsdk"));
    assert!(valid_tld("bsdk.test"));
    assert!(!valid_tld(""));
    assert!(!valid_tld(".bsdk"));
    assert!(!valid_tld("bsdk."));
    assert!(!valid_tld("BSDK"));
    assert!(!valid_tld("b sdk"));
}

#[test]
fn a_nameless_or_unlabellable_machine_gets_no_label() {
    let m = Machine { id: "abcdef12".into(), name: None, created_at: None, running: false, ports: vec![] };
    let junk = machine("ffff0000", "!!!", "2026-01-01");
    let ms = [m, junk];
    let labels = dns_labels(&ms);
    assert!(labels.is_empty());
}

#[test]
fn every_label_is_distinct() {
    let ms = vec![
        machine("aaaa0001", "web", "2026-01-03"),
        machine("bbbb0002", "web", "2026-01-01"),
        machine("cccc0003", "Web!", "2026-01-02"),
    ];
    let labels: Vec<String> = dns_labels(&ms).into_iter().map(|(l, _)| l).collect();
    let mut sorted = labels.clone();
    sorted.sort();
    sorted.dedup();
    assert_eq!(sorted.len(), labels.len(), "{labels:?}");
    assert_eq!(labels[0], "web");
}

#[test]
fn rows_show_the_upstream_or_why_not() {
    let s = settings();
    let mut bare = machine("bbbb", "api", "2026-01-02");
    bare.ports.clear();
    let rows = list(&s, &[machine("aaaa", "web", "2026-01-01"), bare]);
    assert_eq!(rows[0].url.as_deref(), Some("https://web.bsdk"));
    assert_eq!(rows[0].upstream, "127.0.0.1:18080");
    assert_eq!(rows[1].url, None);
    assert_eq!(rows[1].upstream, "no --port forward");
    let st = status(&s, true, true, true, "/etc/resolver/bsdk".into(), false, &rows);
    assert_eq!(st.domains, 1);
    assert!(st.enabled && st.dns_running && !st.ca_trusted);
}

#[test]
fn settings_default_and_round_trip() {
    let raw = RawSettings { enabled: None, tld: None, https_port: Some("x".into()), http_port: None, dns_port: None };
    let s = Settings::load(&raw);
    assert!(!s.enabled);
    assert_eq!(s.tld, "bsdk");
    assert_eq!(s.https_port, 443);
    assert_eq!(s.http_port, 80);
    let e = settings().entries();
    assert_eq!(e[0], ("domains.enabled".to_string(), "1".to_string()));
    assert_eq!(e[4], ("domains.dns_port".to_string(), "5343".to_string()));
    let raw = RawSettings {
        enabled: Some("1".into()),
        tld: Some("test".into()),
        https_port: Some("8443".into()),
        http_port: Some("8080".into()),
        dns_port: Some("53".into()),
    };
    let s = Settings::load(&raw);
    assert!(s.enabled);
    assert_eq!((s.tld.as_str(), s.https_port, s.http_port, s.dns_port), ("test", 8443, 8080, 53));
}

#[test]
fn dns_labels_are_their_own_label() {
    for name in ["My_App!", "__x__", "tidy_turing", "UPPER-case_9", ""] {
        let l = dns_label(name);
        assert_eq!(dns_label(&l), l);
    }
}
