use bsdkrun::console::{replay_start, replay_window, REPLAY_WINDOW};
use bsdkrun::disk::{sandbox_totals, SandboxRow, host_free_percent, host_nearly_full, LOW_SPACE};

#[test]
fn host_space_reads_as_a_percentage() {
    assert_eq!(host_free_percent(25, 100), 25);
    assert_eq!(host_free_percent(1, 3), 33);
    assert_eq!(host_free_percent(5, 0), 0);
    assert_eq!(host_free_percent(u64::MAX, u64::MAX), 0);
}

#[test]
fn a_nearly_full_host_warns() {
    let tb: u64 = 1 << 40;
    assert!(host_nearly_full(tb / 20, tb), "5% free");
    assert!(host_nearly_full(LOW_SPACE - 1, LOW_SPACE + 1), "under 5 GiB");
    assert!(!host_nearly_full(tb / 2, tb));
}

#[test]
fn a_replay_sends_only_the_current_line() {
    assert_eq!(replay_start(b"old line\n$ "), 9);
    assert_eq!(replay_start(b"no newline"), 0);
    assert_eq!(replay_start(b"ends\n"), 5);
    assert_eq!(replay_window(100), 100);
    assert_eq!(replay_window(1 << 20), REPLAY_WINDOW);
}

fn sandbox(agent: &str, rootfs: u64, home: u64) -> SandboxRow {
    SandboxRow { id: "m".to_string(), name: "s".to_string(), agent: agent.to_string(), running: true, rootfs, home }
}

#[test]
fn sandbox_totals_count_each_agent_home_once_with_its_last_row() {
    let rows = vec![sandbox("codex", 10, 100), sandbox("gemini", 20, 7), sandbox("codex", 30, 150)];
    assert_eq!(sandbox_totals(&rows), (60, 157, 3));
    assert_eq!(sandbox_totals(&vec![]), (0, 0, 0));
}
