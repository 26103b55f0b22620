use bsdkrun::db::{
    age, flavors_dir, human_duration, human_duration_since, machine_dir, networks_dir, path_join, secs_since,
    state_dir, volumes_dir, volumes_dir_default,
};

#[test]
fn the_state_dir_comes_from_the_environment() {
    assert_eq!(state_dir(Some("/s".into()), Some("/x".into()), Some("/h".into())), Ok("/s".to_string()));
    assert_eq!(state_dir(Some("".into()), Some("/x".into()), Some("/h".into())), Ok("/x/bsdkrun".to_string()));
    assert_eq!(state_dir(None, None, Some("/h".into())), Ok("/h/.local/state/bsdkrun".to_string()));
    assert_eq!(state_dir(None, Some("".into()), None), Err("HOME is not set".to_string()));
}

#[test]
fn paths_join_like_path_join() {
    assert_eq!(path_join("/a", "b"), "/a/b");
    assert_eq!(path_join("/a/", "b"), "/a/b");
    assert_eq!(path_join("/a", "/b"), "/b");
    assert_eq!(machine_dir("/s", "m1"), "/s/machines/m1");
    assert_eq!(flavors_dir("/s"), "/s/flavors");
    assert_eq!(volumes_dir_default("/s"), "/s/volumes");
    assert_eq!(volumes_dir("/s", Some("/store/v".into())), "/store/v");
    assert_eq!(volumes_dir("/s", None), "/s/volumes");
    assert_eq!(networks_dir("/s"), "/s/networks");
}

#[test]
fn ages_are_short_and_durations_read_like_docker() {
    assert_eq!(secs_since("100", 160), 60);
    assert_eq!(secs_since("junk", 5), 5);
    assert_eq!(secs_since("500", 100), 0);
    assert_eq!(age("0", 59), "59s ago");
    assert_eq!(age("0", 3 * 3600), "3h ago");
    assert_eq!(human_duration(0), "Less than a second");
    assert_eq!(human_duration(1), "1 second");
    assert_eq!(human_duration(45), "45 seconds");
    assert_eq!(human_duration(90), "About a minute");
    assert_eq!(human_duration(3 * 60), "3 minutes");
    assert_eq!(human_duration(3600), "About an hour");
    assert_eq!(human_duration(5 * 3600 + 1800), "6 hours");
    assert_eq!(human_duration(3 * 86400), "3 days");
    assert_eq!(human_duration(21 * 86400), "3 weeks");
    assert_eq!(human_duration(120 * 86400), "4 months");
    assert_eq!(human_duration(800 * 86400), "2 years");
    assert_eq!(human_duration_since("0", 45), "45 seconds");
}
