use linkpad_core::ingest::parse_profile_yaml;
use linkpad_core::orchestrator::{Core, StartPrep};
use linkpad_core::profile::Profile;
use linkpad_core::{Config, CoreError, ProxyMode};

fn profile(id: &str, url: &str, active: bool) -> Profile {
    Profile {
        id: id.to_string(),
        name: id.to_string(),
        source_url: url.to_string(),
        updated_at: "2026-01-01 00:00:00".to_string(),
        node_count: 0,
        group_count: 0,
        rule_count: 0,
        active,
        proxy_groups: Vec::new(),
        proxy_nodes: Vec::new(),
        rules: Vec::new(),
        raw_yaml: String::new(),
    }
}

#[test]
fn delete_active_profile_activates_first_remaining() {
    let mut core = Core::new();
    core.replace_profiles(vec![
        profile("p1", "https://a.example/1", true),
        profile("p2", "https://a.example/2", false),
        profile("p3", "https://a.example/3", false),
    ]);
    core.delete_profile("p1").expect("delete");
    let profiles = core.profiles();
    assert_eq!(profiles.len(), 2);
    assert!(profiles[0].active);
    assert_eq!(profiles[0].id, "p2");
    assert!(!profiles[1].active);
}

#[test]
fn delete_inactive_profile_keeps_active_one() {
    let mut core = Core::new();
    core.replace_profiles(vec![
        profile("p1", "https://a.example/1", false),
        profile("p2", "https://a.example/2", true),
    ]);
    core.delete_profile("p1").expect("delete");
    let profiles = core.profiles();
    assert_eq!(profiles.len(), 1);
    assert!(profiles[0].active);
    assert_eq!(profiles[0].id, "p2");
}

#[test]
fn delete_last_profile_leaves_clean_empty_set() {
    let mut core = Core::new();
    core.replace_profiles(vec![profile("p1", "https://a.example/1", true)]);
    core.delete_profile("p1").expect("delete");
    assert!(core.profiles().is_empty());
    assert!(core.active_profile().is_none());
    assert!(core.active_proxy_groups().is_empty());
    assert!(core.active_proxy_nodes().is_empty());
    assert!(core.active_rules().is_empty());
}

#[test]
fn delete_unknown_profile_fails_and_changes_nothing() {
    let mut core = Core::new();
    core.replace_profiles(vec![profile("p1", "https://a.example/1", true)]);
    match core.delete_profile("missing") {
        Err(CoreError::ProfileNotFound) => {}
        other => panic!("expected ProfileNotFound, got {:?}", other),
    }
    assert_eq!(core.profiles().len(), 1);
}

#[test]
fn replace_with_none_active_forces_first_active() {
    let mut core = Core::new();
    core.replace_profiles(vec![
        profile("p1", "https://a.example/1", false),
        profile("p2", "https://a.example/2", false),
    ]);
    let profiles = core.profiles();
    assert!(profiles[0].active);
    assert!(!profiles[1].active);
}

#[test]
fn replace_with_several_active_keeps_only_first() {
    let mut core = Core::new();
    core.replace_profiles(vec![
        profile("p1", "https://a.example/1", false),
        profile("p2", "https://a.example/2", true),
        profile("p3", "https://a.example/3", true),
    ]);
    let profiles = core.profiles();
    assert!(!profiles[0].active);
    assert!(profiles[1].active);
    assert!(!profiles[2].active);
}

#[test]
fn replace_with_empty_set_clears() {
    let mut core = Core::new();
    core.replace_profiles(vec![profile("p1", "https://a.example/1", true)]);
    core.replace_profiles(Vec::new());
    assert!(core.profiles().is_empty());
}

#[test]
fn set_active_profile_switches_exactly_one() {
    let mut core = Core::new();
    core.replace_profiles(vec![
        profile("p1", "https://a.example/1", true),
        profile("p2", "https://a.example/2", false),
    ]);
    core.set_active_profile("p2").expect("activate");
    let profiles = core.profiles();
    assert!(!profiles[0].active);
    assert!(profiles[1].active);
    match core.set_active_profile("nope") {
        Err(CoreError::ProfileNotFound) => {}
        other => panic!("expected ProfileNotFound, got {:?}", other),
    }
    // the failed call changed nothing
    let profiles = core.profiles();
    assert!(profiles[1].active);
}

#[test]
fn import_then_refresh_preserves_id_and_active() {
    let mut core = Core::new();
    let c1 = "proxies:\n  - { name: one, type: ss }\n";
    let parsed1 = parse_profile_yaml("https://sub.example/u", c1).expect("parse");
    let stored =
        core.import_parsed(parsed1, "https://sub.example/u", c1, true, "2026-01-01 10:00:00", 100);
    assert!(stored.active);
    let id = stored.id.clone();
    assert_eq!(stored.updated_at, "2026-01-01 10:00:00");

    let c2 = "proxies:\n  - { name: one, type: ss }\n  - { name: two, type: trojan }\n";
    let parsed2 = parse_profile_yaml("https://sub.example/u", c2).expect("parse");
    let refreshed = core
        .refresh_parsed(&id, parsed2, c2, "2026-01-02 10:00:00")
        .expect("refresh");
    assert_eq!(refreshed.id, id);
    assert!(refreshed.active);
    assert_eq!(refreshed.updated_at, "2026-01-02 10:00:00");
    assert_ne!(refreshed.updated_at, stored.updated_at);
    assert_eq!(refreshed.node_count, 2);
    assert_eq!(refreshed.raw_yaml, c2);
    assert_eq!(core.profiles().len(), 1);
}

#[test]
fn reimport_of_same_url_replaces_in_place_and_keeps_id() {
    let mut core = Core::new();
    let c1 = "proxies:\n  - { name: one, type: ss }\n";
    let p1 = parse_profile_yaml("https://sub.example/u", c1).expect("parse");
    let first = core.import_parsed(p1, "https://sub.example/u", c1, true, "t1", 100);
    let p2 = parse_profile_yaml("https://sub.example/u", c1).expect("parse");
    let second = core.import_parsed(p2, "https://sub.example/u", c1, false, "t2", 200);
    assert_eq!(first.id, second.id);
    assert_eq!(core.profiles().len(), 1);
}

#[test]
fn import_without_set_active_still_activates_first_profile() {
    let mut core = Core::new();
    let c1 = "proxies:\n  - { name: one, type: ss }\n";
    let p1 = parse_profile_yaml("https://sub.example/u", c1).expect("parse");
    let stored = core.import_parsed(p1, "https://sub.example/u", c1, false, "t1", 100);
    assert!(stored.active);
}

#[test]
fn import_profile_url_rejects_garbage_and_changes_nothing() {
    let mut core = Core::new();
    match core.import_profile_url("https://sub.example/u", "prose", true, 5) {
        Err(CoreError::InvalidProfile(_)) => {}
        other => panic!("expected InvalidProfile, got {:?}", other),
    }
    assert!(core.profiles().is_empty());
}

#[test]
fn start_requires_active_profile() {
    let mut core = Core::new();
    match core.prepare_start(false) {
        Err(CoreError::InvalidConfig(_)) => {}
        other => panic!("expected InvalidConfig, got {:?}", other),
    }
}

#[test]
fn start_twice_is_already_running() {
    let mut core = Core::new();
    core.replace_profiles(vec![profile("p1", "https://a.example/1", true)]);
    core.confirm_started();
    match core.prepare_start(true) {
        Err(CoreError::AlreadyRunning) => {}
        other => panic!("expected AlreadyRunning, got {:?}", other),
    }
}

#[test]
fn start_with_blank_raw_content_asks_for_fetch() {
    let mut core = Core::new();
    core.replace_profiles(vec![profile("p1", "https://a.example/1", true)]);
    match core.prepare_start(false) {
        Ok(StartPrep::NeedsFetch(url)) => assert_eq!(url, "https://a.example/1"),
        other => panic!("expected NeedsFetch, got {:?}", other.is_ok()),
    }
}

#[test]
fn start_with_stored_content_builds_runtime_config() {
    let mut core = Core::new();
    let mut p = profile("p1", "https://a.example/1", true);
    p.raw_yaml = "proxies:\n  - { name: one, type: ss }\n".to_string();
    core.replace_profiles(vec![p]);
    core.update_config(Config {
        mode: ProxyMode::Global,
        mixed_port: 9999,
        allow_lan: true,
    })
    .expect("config");
    match core.prepare_start(false) {
        Ok(StartPrep::Ready(cfg)) => {
            assert!(cfg.contains("mixed-port: 9999"));
            assert!(cfg.contains("allow-lan: true"));
            assert!(cfg.contains("mode: global"));
            assert!(cfg.contains("external-controller"));
        }
        other => panic!("expected Ready, got {:?}", other.is_ok()),
    }
}

#[test]
fn stop_when_nothing_runs_is_not_running() {
    let core = Core::new();
    match core.stop_check(false) {
        Err(CoreError::NotRunning) => {}
        other => panic!("expected NotRunning, got {:?}", other),
    }
}

#[test]
fn disable_system_proxy_twice_is_idempotent() {
    let mut core = Core::new();
    core.replace_profiles(vec![profile("p1", "https://a.example/1", true)]);
    core.confirm_started();
    core.finish_enable_system_proxy(true, true);
    assert!(core.is_system_proxy_enabled());

    // first disable: the plan names both clears, and they are applied
    let (disable_proxy, stop_kernel) = core.disable_plan();
    assert!(disable_proxy);
    assert!(stop_kernel);
    core.mark_proxy_disabled();
    core.mark_stopped();
    assert!(!core.is_system_proxy_enabled());
    assert!(!core.is_running(false));

    // second disable: nothing is planned, so nothing can error, and the
    // state is unchanged
    let (disable_proxy, stop_kernel) = core.disable_plan();
    assert!(!disable_proxy);
    assert!(!stop_kernel);
    assert!(!core.is_system_proxy_enabled());
    assert!(!core.is_running(false));
}

#[test]
fn failed_proxy_apply_stops_kernel_started_for_it() {
    let mut core = Core::new();
    core.replace_profiles(vec![profile("p1", "https://a.example/1", true)]);
    assert!(!core.is_running(false));
    assert_eq!(core.enable_proxy_port(), Some(7890));
    // the kernel was not running, so the flow starts it
    core.confirm_started();
    assert!(core.is_running(true));
    // the OS mutation fails: the kernel started solely for this call stops
    core.finish_enable_system_proxy(true, false);
    assert!(!core.is_running(false));
    assert!(!core.is_system_proxy_enabled());
}

#[test]
fn successful_proxy_apply_enables() {
    let mut core = Core::new();
    core.replace_profiles(vec![profile("p1", "https://a.example/1", true)]);
    core.confirm_started();
    core.finish_enable_system_proxy(true, true);
    assert!(core.is_system_proxy_enabled());
    assert_eq!(core.enable_proxy_port(), None);
}

#[test]
fn kernel_exit_reconciles_running_flag() {
    let mut core = Core::new();
    core.replace_profiles(vec![profile("p1", "https://a.example/1", true)]);
    core.confirm_started();
    core.finish_enable_system_proxy(true, true);
    // the kernel died behind our back: is_running reconciles both flags
    assert!(!core.is_running(false));
    assert!(!core.is_system_proxy_enabled());
}

#[test]
fn build_profile_id_is_deterministic_and_salted() {
    let a = linkpad_core::orchestrator::build_profile_id("https://a.example/1", 42);
    let b = linkpad_core::orchestrator::build_profile_id("https://a.example/1", 42);
    let c = linkpad_core::orchestrator::build_profile_id("https://a.example/1", 43);
    assert_eq!(a, b);
    assert_ne!(a, c);
    assert!(a.starts_with("p-42-"));
}

#[test]
fn config_defaults() {
    let config = Config::default();
    assert_eq!(config.mixed_port, 7890);
    assert!(!config.allow_lan);
    assert!(matches!(config.mode, ProxyMode::Rule));
    assert_eq!(linkpad_core::default_mixed_port(), 7890);
}

#[test]
fn error_messages_render_their_kind() {
    assert_eq!(CoreError::AlreadyRunning.message(), "core already running");
    assert_eq!(CoreError::NotRunning.message(), "core not running");
    assert_eq!(CoreError::ProfileNotFound.message(), "profile not found");
    assert_eq!(
        CoreError::Network("boom".to_string()).message(),
        "network error: boom"
    );
    assert_eq!(
        CoreError::InvalidConfig("x".to_string()).message(),
        "invalid config: x"
    );
    assert_eq!(
        CoreError::InvalidProfile("x".to_string()).message(),
        "invalid profile: x"
    );
    assert_eq!(CoreError::Parse("x".to_string()).message(), "parse error: x");
}

#[test]
fn runtime_config_root_must_be_mapping() {
    let config = Config::default();
    match linkpad_core::orchestrator::build_runtime_config_yaml("- 1\n- 2\n", &config) {
        Err(CoreError::InvalidConfig(_)) => {}
        other => panic!("expected InvalidConfig, got {:?}", other.is_ok()),
    }
    match linkpad_core::orchestrator::build_runtime_config_yaml("a: [unclosed", &config) {
        Err(_) => {}
        Ok(_) => panic!("expected parse failure"),
    }
}

#[test]
fn runtime_config_keeps_document_keys_and_defaults_controller() {
    let config = Config::default();
    let doc = "log-level: info\nexternal-controller: 0.0.0.0:9090\nproxies: []\n";
    let built = linkpad_core::orchestrator::build_runtime_config_yaml(doc, &config).expect("build");
    assert!(built.contains("log-level: info"));
    assert!(built.contains("external-controller: 0.0.0.0:9090"));
    assert!(!built.contains("127.0.0.1:9097"));
    assert!(built.contains("mixed-port: 7890"));

    let bare = "proxies: []\n";
    let built = linkpad_core::orchestrator::build_runtime_config_yaml(bare, &config).expect("build");
    assert!(built.contains("external-controller: 127.0.0.1:9097"));
    assert!(built.contains("mode: rule"));
    assert!(built.contains("allow-lan: false"));
}
