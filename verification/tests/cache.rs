use bsdkrun::cache::{ago, split_target};

#[test]
fn ages_read_as_prose() {
    let now: u64 = 1_767_225_600;
    assert_eq!(ago(now, now), "just now");
    assert_eq!(ago(now - 120, now), "2 minutes ago");
    assert_eq!(ago(now - 7200, now), "2 hours ago");
    assert_eq!(ago(now - 3 * 86_400, now), "3 days ago");
}

#[test]
fn ages_round_down_and_the_future_is_now() {
    let now: u64 = 1_000_000;
    assert_eq!(ago(now - 59, now), "just now");
    assert_eq!(ago(now - 60, now), "1 minutes ago");
    assert_eq!(ago(now - 3599, now), "59 minutes ago");
    assert_eq!(ago(now - 3600, now), "1 hours ago");
    assert_eq!(ago(now - 86_399, now), "23 hours ago");
    assert_eq!(ago(now - 86_400, now), "1 days ago");
    assert_eq!(ago(now + 500, now), "just now");
}

#[test]
fn cache_targets_split_at_the_first_colon() {
    assert_eq!(split_target("web:/app/node_modules"), Some(("web".to_string(), Some("/app/node_modules".to_string()))));
    assert_eq!(split_target("web"), Some(("web".to_string(), None)));
    assert_eq!(split_target("web:a:b"), Some(("web".to_string(), Some("a:b".to_string()))));
    assert_eq!(split_target(":x"), None);
    assert_eq!(split_target("web:"), None);
}
