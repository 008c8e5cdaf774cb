use hakai_core::config::{
    builtin_profiles, default_config, HakaiConfig, merge_builtin_profiles, resolve_targets, Profile, Profiles,
};

#[test]
fn default_config_has_builtin_profiles() {
    let config = HakaiConfig::default();
    let mut config = config;
    config.profiles = builtin_profiles();

    assert!(config.profiles.contains_key("node"));
    assert!(config.profiles.contains_key("rust"));
    assert!(config.profiles.contains_key("python"));
    assert!(config.profiles.contains_key("all"));
}

#[test]
fn builtin_profiles_hold_their_targets() {
    let p = builtin_profiles();
    assert_eq!(p.len(), 6);
    assert_eq!(p.get("node").unwrap().targets, vec!["node_modules".to_string()]);
    assert_eq!(
        p.get("rust").unwrap().targets,
        vec!["target".to_string()]
    );
    assert!(p.get("flutter").is_some());
    let all = &p.get("all").unwrap().targets;
    for name in ["node", "rust", "python", "flutter", "java"] {
        for t in &p.get(name).unwrap().targets {
            assert!(all.contains(t), "{t} of {name}");
        }
    }
    for extra in ["dist", ".next", ".nuxt", ".turbo", ".svelte-kit"] {
        assert!(all.contains(&extra.to_string()), "{extra}");
    }
    assert!(p.get("java").is_some());
    assert!(p.get("cobol").is_none());
}

#[test]
fn default_settings_are_as_documented() {
    let c = default_config();
    assert_eq!(c.settings.default_sort, "path");
    assert_eq!(c.settings.size_unit, "auto");
    assert_eq!(c.settings.color, "cyan");
    assert!(c.settings.check_updates);
    assert_eq!(c.settings.threads, 0);
    assert!(!c.settings.exclude_hidden);
    assert_eq!(c.profiles.len(), 6);
    assert!(c.exclude.directories.is_empty());
    assert_eq!(HakaiConfig::default().profiles.len(), 0);
}

#[test]
fn user_profiles_take_precedence_over_builtins() {
    let mut profiles = Profiles::new();
    profiles.insert(
        "node".to_string(),
        Profile { targets: vec!["my_modules".to_string()] },
    );
    merge_builtin_profiles(&mut profiles);
    assert_eq!(profiles.get("node").unwrap().targets, vec!["my_modules".to_string()]);
    assert!(profiles.contains_key("rust"));
    assert_eq!(profiles.len(), 6);
}

#[test]
fn insert_replaces_a_profile_of_the_same_name() {
    let mut profiles = Profiles::new();
    profiles.insert("a".to_string(), Profile { targets: vec!["x".to_string()] });
    profiles.insert("a".to_string(), Profile { targets: vec!["y".to_string()] });
    assert_eq!(profiles.len(), 1);
    assert_eq!(profiles.get("a").unwrap().targets, vec!["y".to_string()]);
}

#[test]
fn resolve_targets_prefers_profile_then_list_then_default() {
    let mut cfg = Profiles::new();
    cfg.insert("custom".to_string(), Profile { targets: vec!["my_build".to_string()] });
    let r = resolve_targets(&cfg, Some("custom"), None).ok().unwrap();
    assert_eq!(r, vec!["my_build".to_string()]);
    let r = resolve_targets(&cfg, Some("rust"), None).ok().unwrap();
    assert_eq!(r, vec!["target".to_string()]);
    let given = vec!["dist".to_string(), "build".to_string()];
    let r = resolve_targets(&cfg, None, Some(&given)).ok().unwrap();
    assert_eq!(r, given);
    let r = resolve_targets(&cfg, None, None).ok().unwrap();
    assert_eq!(r, vec!["node_modules".to_string()]);
}

#[test]
fn resolve_targets_refuses_an_unknown_profile() {
    let cfg = Profiles::new();
    match resolve_targets(&cfg, Some("nope"), None) {
        Err(e) => assert_eq!(e.name, "nope"),
        Ok(_) => panic!("an unknown profile must be refused"),
    }
}
