use ofa::config::{
    combine, global_config_path, join_path, profile_candidates, profile_name, profiles_dir,
    store_path, Config,
};

#[test]
fn test_config_merge_overrides_keys() {
    let mut global = Config::default();
    global.env.insert("ENV_A".to_string(), "global_val".to_string());
    global.env.insert("ENV_B".to_string(), "global_val".to_string());

    let mut local = Config::default();
    local.profile = Some("java".to_string());
    local.env.insert("ENV_B".to_string(), "local_override".to_string());
    local.env.insert("ENV_C".to_string(), "local_val".to_string());

    global.merge(local);

    assert_eq!(global.profile, Some("java".to_string()));
    assert_eq!(global.env.get("ENV_A").unwrap(), "global_val");
    assert_eq!(global.env.get("ENV_B").unwrap(), "local_override");
    assert_eq!(global.env.get("ENV_C").unwrap(), "local_val");
}

#[test]
fn merge_keeps_profile_when_other_has_none() {
    let mut base = Config::default();
    base.profile = Some("work".to_string());
    base.merge(Config::default());
    assert_eq!(base.profile, Some("work".to_string()));
    assert!(base.env.is_empty());
}

fn with_env(pairs: &[(&str, &str)], profile: Option<&str>) -> Config {
    let mut c = Config::default();
    for (k, v) in pairs {
        c.env.insert(k.to_string(), v.to_string());
    }
    c.profile = profile.map(|p| p.to_string());
    c
}

#[test]
fn layers_local_over_profile_over_global() {
    let global = with_env(&[("A", "g"), ("B", "g"), ("C", "g")], Some("p1"));
    let profile = with_env(&[("B", "p"), ("C", "p")], None);
    let local = with_env(&[("C", "l")], Some("p2"));
    let r = combine(global, Some(profile), Some(local));
    assert_eq!(r.env.get("A").unwrap(), "g");
    assert_eq!(r.env.get("B").unwrap(), "p");
    assert_eq!(r.env.get("C").unwrap(), "l");
    assert_eq!(r.profile, Some("p2".to_string()));
    assert_eq!(r.env.len(), 3);
}

#[test]
fn combine_without_profile_or_local_is_global() {
    let global = with_env(&[("A", "g")], None);
    let r = combine(global, None, None);
    assert_eq!(r.env.get("A").unwrap(), "g");
    assert_eq!(r.env.len(), 1);
    assert_eq!(r.profile, None);
}

#[test]
fn profile_name_prefers_local() {
    let global = with_env(&[], Some("from_global"));
    let local = with_env(&[], Some("from_local"));
    assert_eq!(profile_name(&global, &Some(local)), Some("from_local".to_string()));
    let local_without = with_env(&[], None);
    assert_eq!(profile_name(&global, &Some(local_without)), Some("from_global".to_string()));
    assert_eq!(profile_name(&global, &None), Some("from_global".to_string()));
    assert_eq!(profile_name(&Config::default(), &None), None);
}

#[test]
fn config_paths() {
    assert_eq!(global_config_path("/home/u/.config/ofa"), "/home/u/.config/ofa/global.toml");
    assert_eq!(store_path("/home/u/.config/ofa/"), "/home/u/.config/ofa/store");
    assert_eq!(profiles_dir("cfg"), "cfg/profiles");
    let (a, b) = profile_candidates("work", "/c");
    assert_eq!(a, "/c/profiles/work.toml");
    assert_eq!(b, "/c/store/profiles/work.toml");
}

#[test]
fn join_path_follows_path_join() {
    for (base, part) in [("/a", "b"), ("/a/", "b"), ("", "b"), ("/a", "/b"), ("a/b", "c.toml")] {
        let expected = std::path::Path::new(base).join(part);
        assert_eq!(join_path(base, part), expected.to_str().unwrap());
    }
}

fn env_of(c: &Config) -> Vec<(String, String)> {
    let mut out: Vec<(String, String)> = c.env.sorted_keys().into_iter().map(|k| {
        let v = c.env.get(&k).unwrap().clone();
        (k, v)
    }).collect();
    out.sort();
    out
}

#[test]
fn merging_is_associative() {
    let a = || with_env(&[("A", "a"), ("B", "a")], Some("pa"));
    let b = || with_env(&[("B", "b"), ("C", "b")], None);
    let c = || with_env(&[("C", "c"), ("D", "c")], Some("pc"));
    let mut left = a();
    left.merge(b());
    left.merge(c());
    let mut bc = b();
    bc.merge(c());
    let mut right = a();
    right.merge(bc);
    assert_eq!(env_of(&left), env_of(&right));
    assert_eq!(left.profile, right.profile);
}

#[test]
fn merging_with_itself_changes_nothing() {
    let mut a = with_env(&[("A", "1"), ("B", "2")], Some("p"));
    a.merge(with_env(&[("A", "1"), ("B", "2")], Some("p")));
    assert_eq!(env_of(&a), vec![("A".to_string(), "1".to_string()), ("B".to_string(), "2".to_string())]);
}
