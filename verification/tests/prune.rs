use bsdkrun::prune::{
    check_only, image_dirs, kinds, orphan_reason, plan, wanted, CacheDir, Inventory, Item, Plan, PruneImage,
    PruneMachine, Sized,
};

#[test]
fn orphans_are_only_the_trees_nothing_points_at() {
    let live = vec!["/cache/sha256-live".to_string()];

    assert_eq!(orphan_reason("sha256-live", "/cache/sha256-live", &live), None);
    assert_eq!(orphan_reason("sha256-gone", "/cache/sha256-gone", &live), Some("no image row"));
    assert_eq!(
        orphan_reason("sha256-live.staging", "/cache/sha256-live.staging", &live),
        Some("interrupted pull")
    );
    assert_eq!(orphan_reason("blobs", "/cache/blobs", &live), None);
}

#[test]
fn a_plan_totals_its_items() {
    let plan = Plan {
        items: vec![
            Item { kind: "image", id: "a".into(), label: "a".into(), bytes: 100 },
            Item { kind: "machine", id: "b".into(), label: "b".into(), bytes: 50 },
        ],
    };
    assert_eq!(plan.total(), 150);
    assert_eq!(plan.of_kind("image").len(), 1);
    assert!(!plan.is_empty());
    assert!(Plan::default().is_empty());
}

fn machine(id: &str, status: &str, alive: bool, volume: Option<&str>) -> PruneMachine {
    PruneMachine {
        id: id.into(),
        name: Some(format!("{id}-name")),
        status: status.into(),
        pid_alive: alive,
        volume: volume.map(|v| v.to_string()),
        bytes: 10,
    }
}

fn inventory() -> Inventory {
    Inventory {
        machines: vec![
            machine("m1", "running", true, Some("data")),
            machine("m2", "exited", false, None),
            machine("m3", "running", false, None),
        ],
        images: vec![
            PruneImage { id: "i1".into(), reference: "alpine".into(), rootfs: "/c/i1/rootfs".into(), in_use: true, bytes: 5 },
            PruneImage { id: "i2".into(), reference: "debian".into(), rootfs: "/c/i2/rootfs".into(), in_use: false, bytes: 7 },
        ],
        cache_dirs: vec![
            CacheDir { name: "i1".into(), dir: "/c/i1".into(), bytes: 1 },
            CacheDir { name: "gone".into(), dir: "/c/gone".into(), bytes: 2 },
            CacheDir { name: "blobs".into(), dir: "/c/blobs".into(), bytes: 3 },
        ],
        volumes: vec![Sized { name: "data".into(), bytes: 4 }, Sized { name: "old".into(), bytes: 6 }],
        cache_entries: vec![Sized { name: "k1".into(), bytes: 8 }],
        layers: Some(("/c/blobs".into(), 9)),
    }
}

#[test]
fn pruning_spares_what_is_in_use() {
    let inv = inventory();
    let p = plan(false, false, &[], &inv);
    let ids: Vec<(&str, &str)> = p.items.iter().map(|i| (i.kind, i.id.as_str())).collect();
    // A running machine stays; one whose pid is dead is stopped for prune's purpose.
    assert_eq!(ids, vec![("machine", "m2"), ("machine", "m3"), ("image", "i2"), ("orphan", "/c/gone")]);
    assert_eq!(p.items[0].label, "m2-name");
    assert_eq!(p.items[3].label, "gone (no image row)");
}

#[test]
fn volumes_and_caches_need_asking_for() {
    let inv = inventory();
    let p = plan(true, true, &[], &inv);
    let kinds: Vec<&str> = p.items.iter().map(|i| i.kind).collect();
    assert!(kinds.contains(&"volume") && kinds.contains(&"cache") && kinds.contains(&"layers"));
    let vols: Vec<&str> = p.of_kind("volume").iter().map(|i| i.id.as_str()).collect();
    assert_eq!(vols, vec!["old"], "a volume a machine points at stays");
    let only = vec!["volume".to_string()];
    let p = plan(false, false, &only, &inv);
    let ids: Vec<&str> = p.items.iter().map(|i| i.id.as_str()).collect();
    assert_eq!(ids, vec!["old"], "naming a kind grants it and narrows to it");
}

#[test]
fn image_dirs_are_the_rootfs_parents() {
    assert_eq!(image_dirs(&inventory().images), vec!["/c/i1".to_string(), "/c/i2".to_string()]);
}

#[test]
fn only_takes_known_kinds() {
    assert_eq!(kinds(), vec!["machine", "image", "orphan", "volume", "cache", "layers"]);
    assert_eq!(check_only(&["image".into(), "bogus".into(), "worse".into()]), Err("bogus".to_string()));
    assert_eq!(check_only(&["image".into(), "layers".into()]), Ok(()));
    assert!(wanted(&[], "image"));
    assert!(!wanted(&["machine".into()], "image"));
}
