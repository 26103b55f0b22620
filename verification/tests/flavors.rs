use bsdkrun::flavors::{
    user_flavor_file_writable, user_flavor_paths,
    base_dockerfile, catalog, dockerfile, dockerfiles, find, find_user, prebuilt_image, remove_user_flavor,
    upsert_user_flavor, user_flavors, Base, FlavorFileError, UserFlavor, AGENT_BASE_IMAGE,
};

#[test]
fn agent_flavors_install_the_agent_last() {
    const SHARED: &[&str] = &["command -v gh ", "command -v dockerd ", "command -v nix "];
    for c in catalog().iter().filter(|c| c.category == "ai") {
        let Some(last) = c.provision.last() else {
            continue;
        };
        if !c.provision.iter().any(|s| SHARED.iter().any(|m| s.starts_with(m))) {
            continue;
        }
        assert!(
            !SHARED.iter().any(|m| last.starts_with(m)),
            "{} ends with a shared step ({last:.40}…) — the agent install has to \
             come last, or every agent release rebuilds gh/docker/nix",
            c.name
        );
    }
}

#[test]
fn the_shared_base_is_a_prefix_of_every_agent_dockerfile() {
    fn instructions(dockerfile: &str) -> Vec<&str> {
        dockerfile.lines().map(str::trim_end).filter(|l| !l.is_empty() && !l.starts_with('#')).collect()
    }

    let base_src = base_dockerfile();
    let base = instructions(&base_src);
    assert!(base.len() > 1, "the base should carry FROM plus its steps");

    for c in catalog().iter().filter(|c| c.category == "ai") {
        let Base::Oci(image) = c.base else { continue };
        if image != AGENT_BASE_IMAGE {
            continue;
        }
        let df = dockerfile(c.name).expect("an agent flavor provisions something");
        let flavor = instructions(&df);
        for (n, want) in base.iter().enumerate() {
            let got = flavor.get(n).copied().unwrap_or("<missing>");
            assert_eq!(
                got, *want,
                "{} diverges from the shared base at instruction {n}, so every \
                 layer from there on misses the cache",
                c.name
            );
        }
    }
}

#[test]
fn node_based_agent_flavors_agree_on_one_base() {
    let bases: Vec<&str> = catalog()
        .iter()
        .filter(|c| c.category == "ai")
        .filter_map(|c| match c.base {
            Base::Oci(image) if image.starts_with("node:") => Some(image),
            _ => None,
        })
        .collect();
    assert!(!bases.is_empty(), "the agent flavors are all node-based");
    for base in &bases {
        assert_eq!(*base, AGENT_BASE_IMAGE, "an agent flavor is still on {base} while the rest moved on");
    }
}

#[test]
fn catalog_names_are_unique_and_findable() {
    let cat = catalog();
    let mut names: Vec<&str> = cat.iter().map(|c| c.name).collect();
    let n = names.len();
    names.sort();
    names.dedup();
    assert_eq!(names.len(), n);
    for c in &cat {
        assert_eq!(find(c.name).unwrap().name, c.name);
    }
    assert!(find("no-such-flavor").is_none());
}

#[test]
fn kinds_and_methods_follow_the_base() {
    let node = find("node").unwrap();
    assert_eq!(node.kind(), "linux");
    let fb = find("freebsd").unwrap();
    assert_eq!(fb.kind(), "freebsd");
    assert_eq!(fb.image(), "freebsd");
    assert_eq!(fb.method(), "system");
}

#[test]
fn prebuilt_images_live_in_the_registry() {
    assert_eq!(prebuilt_image("codex"), "ghcr.io/tsirysndr/bsdkrun-flavor-codex:latest");
}

#[test]
fn only_provisioning_flavors_get_a_dockerfile() {
    assert!(dockerfile("freebsd").is_none());
    assert!(dockerfile("no-such-flavor").is_none());
    let all = dockerfiles();
    let (last, rest) = all.split_last().unwrap();
    assert_eq!(last, &("_base", base_dockerfile()));
    assert!(rest.iter().all(|(n, df)| Some(df.clone()) == dockerfile(n)));
}

fn user(name: &str, base: &str) -> UserFlavor {
    UserFlavor {
        name: name.into(),
        category: "custom".into(),
        description: String::new(),
        base: base.into(),
        ports: vec![],
        env: vec![],
        nix: vec![],
        provision: vec![],
    }
}

#[test]
fn a_saved_flavor_is_found_and_a_removed_one_is_gone() {
    let list = upsert_user_flavor(vec![user("zeta", "alpine"), user("alpha", "debian")], user("mid", "freebsd"))
        .unwrap();
    let names: Vec<&str> = list.iter().map(|f| f.name.as_str()).collect();
    assert_eq!(names, vec!["alpha", "mid", "zeta"]);
    assert_eq!(find_user(list.clone(), "mid").unwrap().kind(), "freebsd");
    let again = upsert_user_flavor(list.clone(), user("mid", "netbsd")).unwrap();
    assert_eq!(again.len(), 3);
    assert_eq!(find_user(again, "mid").unwrap().base, "netbsd");
    let (kept, changed) = remove_user_flavor(list.clone(), "mid");
    assert!(changed);
    assert!(find_user(kept, "mid").is_none());
    let (_, changed) = remove_user_flavor(list, "nope");
    assert!(!changed);
}

#[test]
fn a_user_flavor_cannot_shadow_the_catalog() {
    assert_eq!(upsert_user_flavor(vec![], user("node", "x")).unwrap_err(), FlavorFileError::BuiltinName);
    assert_eq!(upsert_user_flavor(vec![], user("", "x")).unwrap_err(), FlavorFileError::NameRequired);
    let usable = user_flavors(vec![user("node", "x"), user("", "y"), user("mine", "z")]);
    assert_eq!(usable.len(), 1);
    assert_eq!(usable[0].name, "mine");
}

fn some(s: &str) -> Option<String> {
    Some(s.to_string())
}

#[test]
fn user_flavor_files_are_looked_for_in_order() {
    assert_eq!(
        user_flavor_paths(some("/x/f.toml"), some("/work"), None, some("/home/u")),
        vec!["/x/f.toml", "/work/bsdkrun.flavors.toml", "/home/u/.config/bsdkrun/flavors.toml"]
    );
    assert_eq!(
        user_flavor_paths(some(""), None, some("/cfg"), some("/home/u")),
        vec!["/cfg/bsdkrun/flavors.toml"]
    );
    assert!(user_flavor_paths(None, None, None, None).is_empty());
}

#[test]
fn flavor_add_writes_to_the_explicit_file_or_the_config_dir() {
    assert_eq!(user_flavor_file_writable(some("/x/f.toml"), None, None), Ok("/x/f.toml".to_string()));
    assert_eq!(user_flavor_file_writable(some(""), None, some("/h")), Ok("/h/.config/bsdkrun/flavors.toml".to_string()));
    assert_eq!(
        user_flavor_file_writable(None, None, None),
        Err("no HOME/XDG_CONFIG_HOME to place flavors.toml".to_string())
    );
}
