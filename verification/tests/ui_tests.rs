use linkpad_core::ui::{
    language_options, normalize_port, parse_language, parse_theme, serialize_language,
    serialize_theme, theme_options, AppState, Language, Page, ProfileSummary, RuleFilter,
    ThemePreference,
};

#[test]
fn language_index_roundtrip() {
    assert!(matches!(Language::from_index(0), Language::English));
    assert!(matches!(Language::from_index(1), Language::SimplifiedChinese));
    assert!(matches!(Language::from_index(99), Language::English));
    assert_eq!(Language::English.as_index(), 0);
    assert_eq!(Language::SimplifiedChinese.as_index(), 1);
}

#[test]
fn theme_index_roundtrip() {
    assert!(matches!(ThemePreference::from_index(0), ThemePreference::Light));
    assert!(matches!(ThemePreference::from_index(1), ThemePreference::Dark));
    assert!(matches!(ThemePreference::from_index(2), ThemePreference::System));
    assert!(matches!(ThemePreference::from_index(9), ThemePreference::System));
    assert_eq!(ThemePreference::Light.as_index(), 0);
    assert_eq!(ThemePreference::Dark.as_index(), 1);
    assert_eq!(ThemePreference::System.as_index(), 2);
}

#[test]
fn persisted_values_parse_and_serialize() {
    assert!(matches!(parse_language("en"), Some(Language::English)));
    assert!(matches!(parse_language("zh-CN"), Some(Language::SimplifiedChinese)));
    assert!(matches!(parse_language("simplified_chinese"), Some(Language::SimplifiedChinese)));
    assert!(parse_language("fr").is_none());
    assert_eq!(serialize_language(Language::English), "en");
    assert_eq!(serialize_language(Language::SimplifiedChinese), "zh-CN");

    assert!(matches!(parse_theme("light"), Some(ThemePreference::Light)));
    assert!(matches!(parse_theme("dark"), Some(ThemePreference::Dark)));
    assert!(matches!(parse_theme("system"), Some(ThemePreference::System)));
    assert!(parse_theme("sepia").is_none());
    assert_eq!(serialize_theme(ThemePreference::Dark), "dark");
}

#[test]
fn zero_port_normalizes_to_default() {
    assert_eq!(normalize_port(0), 7890);
    assert_eq!(normalize_port(1080), 1080);
}

#[test]
fn option_lists_have_fixed_arity() {
    assert_eq!(language_options(Language::English).len(), 2);
    assert_eq!(language_options(Language::SimplifiedChinese).len(), 2);
    assert_eq!(theme_options(Language::English).len(), 3);
    assert_eq!(theme_options(Language::SimplifiedChinese), vec!["浅色", "深色", "跟随系统"]);
}

#[test]
fn app_state_defaults_and_active_profile() {
    let mut state = AppState::default();
    assert!(matches!(state.active_page, Page::Profiles));
    assert!(matches!(state.rules_filter, RuleFilter::All));
    assert_eq!(state.clash_mixed_port, 7890);
    assert!(state.active_profile().is_none());

    state.profiles.push(ProfileSummary {
        id: "p1".to_string(),
        name: "one".to_string(),
        source: "https://a.example/1".to_string(),
        updated_at: String::new(),
        node_count: 0,
        group_count: 0,
        rule_count: 0,
        active: false,
    });
    state.profiles.push(ProfileSummary {
        id: "p2".to_string(),
        name: "two".to_string(),
        source: "https://a.example/2".to_string(),
        updated_at: String::new(),
        node_count: 0,
        group_count: 0,
        rule_count: 0,
        active: true,
    });
    let active = state.active_profile().expect("one is active");
    assert_eq!(active.id, "p2");
}

#[test]
fn page_selectors_pick_matching_strings() {
    let strings = linkpad_core::ui::Strings {
        app_name: "",
        menu_profiles: "",
        menu_proxy_groups: "",
        menu_rules: "",
        menu_settings: "",
        profiles_title: "Profiles",
        profiles_desc: "profiles page",
        profiles_import_title: "",
        profiles_import_hint: "",
        profiles_import_url_label: "",
        profiles_import_url_placeholder: "",
        profiles_import_button: "",
        profiles_current_title: "",
        profiles_current_name: "",
        profiles_current_source: "",
        profiles_current_updated: "",
        profiles_current_stats: "",
        profiles_current_empty: "",
        profiles_list_title: "",
        profiles_list_empty: "",
        profiles_action_activate: "",
        profiles_action_refresh: "",
        profiles_action_delete: "",
        profiles_status_active: "",
        profiles_status_inactive: "",
        profiles_import_ready: "",
        profiles_import_loading: "",
        profiles_import_success: "",
        profiles_import_error: "",
        proxy_groups_title: "Groups",
        proxy_groups_desc: "groups page",
        proxy_groups_empty: "",
        proxy_groups_count_prefix: "",
        proxy_groups_expand: "",
        proxy_groups_collapse: "",
        proxy_groups_members_prefix: "",
        proxy_groups_selected_prefix: "",
        proxy_groups_protocol_prefix: "",
        proxy_groups_protocol_unknown: "",
        proxy_groups_udp_tag: "",
        proxy_groups_open: "",
        proxy_groups_opened: "",
        proxy_groups_active_group_prefix: "",
        proxy_groups_active_group_empty: "",
        proxy_groups_proxy_empty: "",
        proxy_groups_proxy_use: "",
        proxy_groups_proxy_selected: "",
        proxy_groups_proxy_latency_suffix: "",
        proxy_groups_proxy_overflow_prefix: "",
        rules_title: "Rules",
        rules_desc: "rules page",
        rules_empty: "",
        rules_count_prefix: "",
        rules_search_placeholder: "",
        rules_filter_all: "",
        rules_filter_domain: "",
        rules_filter_ip_cidr: "",
        rules_filter_process_name: "",
        settings_title: "Settings",
        settings_desc: "settings page",
        basic_setting_title: "",
        system_setting_title: "",
        clash_setting_title: "",
        language_label: "",
        theme_label: "",
        system_proxy_label: "",
        auto_launch_label: "",
        silent_start_label: "",
        clash_port_label: "",
        clash_core_version_label: "",
        clash_core_path_label: "",
        clash_port_save_button: "",
        clash_port_update_success: "",
        clash_port_update_invalid: "",
        clash_port_update_failed_prefix: "",
        system_proxy_enable_success: "",
        system_proxy_disable_success: "",
        system_proxy_enable_failed_prefix: "",
        system_proxy_disable_failed_prefix: "",
    };
    assert_eq!(linkpad_core::ui::page_title(&strings, linkpad_core::ui::Page::Profiles), "Profiles");
    assert_eq!(linkpad_core::ui::page_title(&strings, linkpad_core::ui::Page::Rules), "Rules");
    assert_eq!(
        linkpad_core::ui::page_description(&strings, linkpad_core::ui::Page::ProxyGroups),
        "groups page"
    );
    assert_eq!(
        linkpad_core::ui::page_description(&strings, linkpad_core::ui::Page::Settings),
        "settings page"
    );
}

#[test]
fn string_tables_select_by_language() {
    let en = linkpad_core::ui::strings(linkpad_core::ui::Language::English);
    assert_eq!(en.language_label, "Language");
    assert_eq!(en.profiles_import_ready, "Ready to import profile URL.");
    assert_eq!(
        linkpad_core::ui::page_title(&en, linkpad_core::ui::Page::ProxyGroups),
        "Proxy Groups"
    );
    let zh = linkpad_core::ui::strings(linkpad_core::ui::Language::SimplifiedChinese);
    assert_eq!(zh.language_label, "语言");
    assert_eq!(linkpad_core::ui::page_title(&zh, linkpad_core::ui::Page::Rules), "规则");
}
