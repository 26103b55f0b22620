use bsdkrun::docker::{
    context_argv, docker_cli, ensure_proxy, port_changes, status, EngineMachine, ProxyAction, StatusFacts,
    api_reply, container_row, published, PortEntry, RawContainer,
    api_port, container_action, container_logs, data_disk, dechunk, demux_logs, docker_dir, engine_running,
    log_path, request, socket_path, urlencode,
    context_line, no_containers, not_running_hint, ps_header, ps_row, Container, Status, HINT_NO_VM, HINT_STOPPED,
    HINT_WARMING,
};

#[test]
fn dechunk_reassembles_a_chunked_body() {
    assert_eq!(dechunk("4\r\n[{}]\r\n0\r\n\r\n"), "[{}]");
    assert_eq!(dechunk("2\r\nab\r\n2\r\ncd\r\n0\r\n\r\n"), "abcd");
}

#[test]
fn dechunk_stops_at_a_short_chunk_and_reads_extensions() {
    assert_eq!(dechunk("a\r\nabc"), "");
    assert_eq!(dechunk("3;ext=1\r\nabc\r\n0\r\n\r\n"), "abc");
    assert_eq!(dechunk("A\r\n0123456789\r\n0\r\n\r\n"), "0123456789");
    assert_eq!(dechunk("no framing at all"), "");
}

#[test]
fn demux_strips_docker_log_frames_but_leaves_tty_output() {
    let mut framed = vec![1u8, 0, 0, 0, 0, 0, 0, 5];
    framed.extend_from_slice(b"hello");
    let framed = String::from_utf8_lossy(&framed).into_owned();
    assert_eq!(demux_logs(&framed), "hello");
    assert_eq!(demux_logs("plain tty output\n"), "plain tty output\n");
}

#[test]
fn demux_joins_frames_and_cuts_a_short_one() {
    let mut framed = vec![1u8, 0, 0, 0, 0, 0, 0, 3];
    framed.extend_from_slice(b"out");
    framed.extend_from_slice(&[2u8, 0, 0, 0, 0, 0, 0, 9]);
    framed.extend_from_slice(b"err");
    let framed = String::from_utf8(framed).unwrap();
    assert_eq!(demux_logs(&framed), "outerr");
}

#[test]
fn urlencode_keeps_unreserved_and_escapes_the_rest() {
    assert_eq!(urlencode("web-1_a.b~"), "web-1_a.b~");
    assert_eq!(urlencode("a b/c"), "a%20b%2Fc");
    assert_eq!(urlencode("\u{e9}"), "%E9");
    assert_eq!(urlencode("\u{263a}"), "%263A");
}

#[test]
fn container_actions_map_onto_the_api() {
    let (m, p) = container_action("web", "stop").unwrap();
    assert_eq!((m, p.as_str()), ("POST", "/containers/web/stop"));
    let (m, p) = container_action("my app", "rm").unwrap();
    assert_eq!((m, p.as_str()), ("DELETE", "/containers/my%20app?force=1&v=1"));
    assert!(container_action("web", "explode").is_none());
    assert_eq!(container_logs("web", 100), "/containers/web/logs?stdout=1&stderr=1&tail=100");
}

#[test]
fn requests_count_body_bytes() {
    let r = request("POST", "/x", "\u{e9}");
    assert!(r.starts_with("POST /x HTTP/1.1\r\nHost: docker\r\n"), "{r}");
    assert!(r.contains("Content-Length: 2\r\nConnection: close\r\n\r\n\u{e9}"), "{r}");
}

#[test]
fn the_api_port_is_the_forward_to_dockerd() {
    assert_eq!(api_port(&Some("8080:80,23750:2375".to_string())), Some(23750));
    assert_eq!(api_port(&Some("8080:80".to_string())), None);
    assert_eq!(api_port(&None), None);
}

#[test]
fn the_engine_runs_only_when_recorded_running_and_alive() {
    assert!(engine_running(&Some(("running".to_string(), true))));
    assert!(!engine_running(&Some(("running".to_string(), false))));
    assert!(!engine_running(&Some(("exited".to_string(), true))));
    assert!(!engine_running(&None));
}

#[test]
fn engine_files_live_under_the_state_dir() {
    assert_eq!(docker_dir("/s"), "/s/docker");
    assert_eq!(socket_path("/s"), "/s/docker/docker.sock");
    assert_eq!(log_path("/s/"), "/s/docker/proxy.log");
    assert_eq!(data_disk("/s"), "/s/docker/data.img");
}

fn port(ip: Option<&str>, private: Option<u64>, public: Option<u64>, kind: Option<&str>) -> PortEntry {
    PortEntry {
        ip: ip.map(|s| s.to_string()),
        private_port: private,
        public_port: public,
        kind: kind.map(|s| s.to_string()),
    }
}

#[test]
fn published_skips_udp_and_unpublished_ports() {
    let ports = published(&vec![
        port(Some("0.0.0.0"), Some(80), Some(8080), Some("tcp")),
        port(None, Some(9000), None, Some("tcp")),
        port(Some("0.0.0.0"), Some(53), Some(5353), Some("udp")),
    ]);
    assert_eq!(ports.len(), 1);
    assert_eq!(ports[0], ("0.0.0.0".to_string(), 8080, 80, "tcp".to_string()));
    let ports = published(&vec![port(None, None, Some(81), None)]);
    assert_eq!(ports, vec![(String::new(), 81, 0, "tcp".to_string())]);
}

#[test]
fn container_rows_trim_ids_names_and_repeated_ports() {
    let raw = RawContainer {
        id: Some("0123456789abcdef0123".into()),
        first_name: Some("/web".into()),
        image: Some("nginx".into()),
        command: None,
        state: Some("running".into()),
        status: Some("Up 3 minutes".into()),
        ports: vec![
            port(Some("0.0.0.0"), Some(80), Some(18081), Some("tcp")),
            port(Some("::"), Some(80), Some(18081), Some("tcp")),
            port(Some("0.0.0.0"), Some(443), Some(1443), Some("tcp")),
        ],
        created: Some(1_700_000_000),
    };
    let c = container_row(&raw);
    assert_eq!(c.id, "0123456789ab");
    assert_eq!(c.name, "web");
    assert_eq!(c.command, "");
    assert_eq!(c.ports, vec!["1443:443/tcp".to_string(), "18081:80/tcp".to_string()]);
    assert_eq!(c.created, 1_700_000_000);
    let empty = RawContainer {
        id: None,
        first_name: None,
        image: None,
        command: None,
        state: None,
        status: None,
        ports: vec![],
        created: None,
    };
    let c = container_row(&empty);
    assert_eq!((c.id.as_str(), c.name.as_str(), c.created), ("", "", 0));
}

#[test]
fn api_replies_split_head_from_body() {
    assert_eq!(api_reply("HTTP/1.1 200 OK\r\nContent-Type: application/json\r\n\r\n{\"a\":1}"), Ok("{\"a\":1}".to_string()));
    assert_eq!(
        api_reply("HTTP/1.1 200 OK\r\nTransfer-Encoding: chunked\r\n\r\n4\r\n[{}]\r\n0\r\n\r\n"),
        Ok("[{}]".to_string())
    );
    assert_eq!(
        api_reply("HTTP/1.1 404 Not Found\r\n\r\n  {\"message\":\"no such container\"}\n"),
        Err("the Docker API answered HTTP/1.1 404 Not Found: {\"message\":\"no such container\"}".to_string())
    );
    assert_eq!(api_reply("HTTP/1.1 200 OK\r\n"), Err("the Docker API sent a truncated response".to_string()));
    assert_eq!(api_reply("HTTP/1.1 204 No Content\r\n\r\n"), Ok(String::new()));
}

#[test]
fn the_proxy_is_respawned_only_for_a_live_vm_with_a_forward() {
    let vm = |status: &str, alive: bool, ports: Option<&str>| Some((status.to_string(), alive, ports.map(|p| p.to_string())));
    assert_eq!(ensure_proxy(true, true, &None), ProxyAction::Keep);
    assert_eq!(ensure_proxy(true, false, &None), ProxyAction::Idle);
    assert_eq!(ensure_proxy(false, true, &vm("exited", true, Some("1:2375"))), ProxyAction::Idle);
    assert_eq!(ensure_proxy(false, true, &vm("running", false, Some("1:2375"))), ProxyAction::Idle);
    assert_eq!(ensure_proxy(false, true, &vm("running", true, Some("8080:80"))), ProxyAction::Idle);
    assert_eq!(ensure_proxy(false, false, &vm("running", true, Some("8080:80,23750:2375"))), ProxyAction::Spawn(23750));
}

#[test]
fn port_changes_are_the_two_differences() {
    let a = |ip: &str, p: u16| (ip.to_string(), p);
    let want = vec![a("0.0.0.0", 8080), a("127.0.0.1", 9000)];
    let exposed = vec![a("0.0.0.0", 8080), a("0.0.0.0", 7000)];
    let (add, drop) = port_changes(&want, &exposed);
    assert_eq!(add, vec![a("127.0.0.1", 9000)]);
    assert_eq!(drop, vec![a("0.0.0.0", 7000)]);
    let (add, drop) = port_changes(&want, &want);
    assert!(add.is_empty() && drop.is_empty());
}

fn facts() -> StatusFacts {
    StatusFacts {
        machine: Some(EngineMachine {
            id: "m1".into(),
            status: "running".into(),
            pid_alive: true,
            ports: Some("23750:2375".into()),
        }),
        socket: "/s/docker/docker.sock".into(),
        socket_exists: true,
        proxy_pid: Some(42),
        info: Some((Some("27.1".into()), Some(3), Some(5))),
        mounts: vec!["/src:/src".into()],
        context: true,
        context_active: false,
        system_socket: false,
        disk: None,
        disk_size: None,
    }
}

#[test]
fn the_engine_runs_when_the_api_answers() {
    let s = status(facts());
    assert!(s.running && s.machine_running && s.socket_ready);
    assert_eq!(s.api_port, Some(23750));
    assert_eq!(s.version.as_deref(), Some("27.1"));
    assert_eq!((s.containers, s.images), (Some(3), Some(5)));
    let mut f = facts();
    f.info = None;
    f.proxy_pid = None;
    let s = status(f);
    assert!(!s.running && s.machine_running && !s.socket_ready);
    let mut f = facts();
    f.machine = None;
    let s = status(f);
    assert!(!s.running && !s.machine_running);
    assert_eq!(s.api_port, None);
}

#[test]
fn the_context_points_at_our_socket() {
    assert_eq!(
        context_argv("/s/d.sock", true),
        vec!["context", "update", "bsdkrun", "--docker", "host=unix:///s/d.sock"]
    );
    assert_eq!(
        context_argv("/s/d.sock", false),
        vec![
            "context",
            "create",
            "bsdkrun",
            "--docker",
            "host=unix:///s/d.sock",
            "--description",
            "bsdkrun microVM Docker engine"
        ]
    );
}

#[test]
fn the_cli_is_looked_for_along_path() {
    assert_eq!(docker_cli("/usr/bin:/opt/x/"), vec!["/usr/bin/docker", "/opt/x/docker"]);
    assert_eq!(docker_cli(""), vec!["docker"]);
}

fn idle_status() -> Status {
    Status {
        running: false,
        machine_id: None,
        machine_running: false,
        socket: "/home/u/.bsdkrun/docker/docker.sock".to_string(),
        socket_ready: false,
        api_port: None,
        proxy_pid: None,
        version: None,
        containers: None,
        images: None,
        mounts: vec![],
        context: false,
        context_active: false,
        system_socket: false,
        disk: None,
        disk_size: None,
    }
}

#[test]
fn status_hint_follows_what_is_missing() {
    let s = idle_status();
    assert_eq!(not_running_hint(&s), HINT_NO_VM);
    let stopped = Status { machine_id: Some("abc".to_string()), ..idle_status() };
    assert_eq!(not_running_hint(&stopped), HINT_STOPPED);
    let warming = Status { machine_id: Some("abc".to_string()), machine_running: true, ..idle_status() };
    assert_eq!(not_running_hint(&warming), HINT_WARMING);
    assert_eq!(HINT_STOPPED, "the VM exists but is stopped \u{2014} `bsdkrun docker start` resumes it");
}

#[test]
fn status_context_line_covers_the_three_setups() {
    let none = idle_status();
    assert_eq!(
        context_line(&none),
        "not configured \u{2014} export DOCKER_HOST=unix:///home/u/.bsdkrun/docker/docker.sock"
    );
    let present = Status { context: true, ..idle_status() };
    assert_eq!(context_line(&present), "bsdkrun (run `docker context use bsdkrun`)");
    let active = Status { context: true, context_active: true, ..idle_status() };
    assert_eq!(context_line(&active), "bsdkrun (active)");
}

#[test]
fn ps_lists_containers_in_columns() {
    assert_eq!(no_containers(false), "No running containers. Run one with `docker run`.");
    assert_eq!(no_containers(true), "No containers. Run one with `docker run`.");
    assert_eq!(
        ps_header(),
        format!("{:<14}  {:<22}  {:<24}  {:<18}  {}", "CONTAINER ID", "NAME", "IMAGE", "STATUS", "PORTS")
    );
    let c = Container {
        id: "0123456789ab".to_string(),
        name: "web".to_string(),
        image: "nginx:latest".to_string(),
        command: "nginx".to_string(),
        state: "running".to_string(),
        status: "Up 3 minutes".to_string(),
        ports: vec!["8080:80/tcp".to_string(), "8443:443/tcp".to_string()],
        created: 0,
    };
    assert_eq!(
        ps_row(&c),
        format!(
            "{:<14}  {:<22}  {:<24}  {:<18}  {}",
            "0123456789ab", "web", "nginx:latest", "Up 3 minutes", "8080:80/tcp, 8443:443/tcp"
        )
    );
    let bare = Container { ports: vec![], ..c };
    assert!(ps_row(&bare).ends_with("  -"));
}

#[test]
fn dechunk_reads_back_what_was_chunked() {
    let parts = ["h\u{e9}llo ", "w\u{f6}rld", "0123456789abcdef!"];
    let mut body = String::new();
    for p in parts {
        body.push_str(&format!("{:x}\r\n{p}\r\n", p.len()));
    }
    body.push_str("0\r\n\r\n");
    assert_eq!(dechunk(&body), parts.concat());
}

#[test]
fn demux_joins_payloads_across_streams() {
    let mut framed = Vec::new();
    for (stream, text) in [(1u8, "out line\n"), (2u8, "err line\n"), (1u8, "more\n")] {
        framed.extend_from_slice(&[stream, 0, 0, 0]);
        framed.extend_from_slice(&(text.len() as u32).to_be_bytes());
        framed.extend_from_slice(text.as_bytes());
    }
    let raw = String::from_utf8(framed).unwrap();
    assert_eq!(demux_logs(&raw), "out line\nerr line\nmore\n");
}
