//! The shell-facing state model: pages, language and theme preferences,
//! display summaries, and the settings persistence shapes.
use vstd::prelude::*;

use crate::text::{chars_eq_str, str_to_chars};

verus! {

/// The pages the shell can show.
#[derive(Debug, Clone, Copy, PartialEq, Eq, Structural)]
pub enum Page {
    Profiles,
    ProxyGroups,
    Rules,
    Settings,
}

/// The display language.
#[derive(Debug, Clone, Copy, PartialEq, Eq, Structural)]
pub enum Language {
    English,
    SimplifiedChinese,
}

/// The theme preference.
#[derive(Debug, Clone, Copy, PartialEq, Eq, Structural)]
pub enum ThemePreference {
    Light,
    Dark,
    System,
}

/// The rule-list filter.
#[derive(Debug, Clone, Copy, PartialEq, Eq, Structural)]
pub enum RuleFilter {
    All,
    Domain,
    IpCidr,
    ProcessName,
}

impl Language {
    /// The language a selector index denotes; out-of-range indexes default
    /// to English.
    pub fn from_index(index: usize) -> (r: Language)
        ensures
            r == if index == 1 {
                Language::SimplifiedChinese
            } else {
                Language::English
            },
    {
        match index {
            1 => Language::SimplifiedChinese,
            _ => Language::English,
        }
    }

    /// The selector index of this language.
    pub fn as_index(self) -> (r: usize)
        ensures
            r == match self {
                Language::English => 0int,
                Language::SimplifiedChinese => 1int,
            },
            Language::from_index_spec(r as int) == self,
    {
        match self {
            Language::English => 0,
            Language::SimplifiedChinese => 1,
        }
    }

    /// What [`Language::from_index`] returns.
    pub open spec fn from_index_spec(index: int) -> Language {
        if index == 1 {
            Language::SimplifiedChinese
        } else {
            Language::English
        }
    }
}

impl ThemePreference {
    /// The theme a selector index denotes; out-of-range indexes default to
    /// following the system.
    pub fn from_index(index: usize) -> (r: ThemePreference)
        ensures
            r == ThemePreference::from_index_spec(index as int),
    {
        match index {
            0 => ThemePreference::Light,
            1 => ThemePreference::Dark,
            _ => ThemePreference::System,
        }
    }

    /// The selector index of this theme.
    pub fn as_index(self) -> (r: usize)
        ensures
            r == match self {
                ThemePreference::Light => 0int,
                ThemePreference::Dark => 1int,
                ThemePreference::System => 2int,
            },
            ThemePreference::from_index_spec(r as int) == self,
    {
        match self {
            ThemePreference::Light => 0,
            ThemePreference::Dark => 1,
            ThemePreference::System => 2,
        }
    }

    /// What [`ThemePreference::from_index`] returns.
    pub open spec fn from_index_spec(index: int) -> ThemePreference {
        if index == 0 {
            ThemePreference::Light
        } else if index == 1 {
            ThemePreference::Dark
        } else {
            ThemePreference::System
        }
    }
}

/// What the import banner shows.
#[derive(Debug, Clone)]
pub struct ImportStatus {
    pub message: String,
    pub is_error: bool,
}

/// A profile as the shell lists it.
#[derive(Debug, Clone)]
pub struct ProfileSummary {
    pub id: String,
    pub name: String,
    pub source: String,
    pub updated_at: String,
    pub node_count: usize,
    pub group_count: usize,
    pub rule_count: usize,
    pub active: bool,
}

/// A proxy group as the shell lists it.
#[derive(Debug, Clone)]
pub struct ProxyGroupSummary {
    pub name: String,
    pub kind: String,
    pub size: usize,
    pub proxies: Vec<String>,
}

/// A proxy node as the shell lists it.
#[derive(Debug, Clone)]
pub struct ProxyNodeSummary {
    pub name: String,
    pub kind: String,
    pub udp: bool,
}

/// The whole shell state.
#[derive(Debug)]
pub struct AppState {
    pub active_page: Page,
    pub language: Language,
    pub theme: ThemePreference,
    pub profile_url_input: String,
    pub import_status: ImportStatus,
    pub profiles: Vec<ProfileSummary>,
    pub proxy_groups: Vec<ProxyGroupSummary>,
    pub proxy_nodes: Vec<ProxyNodeSummary>,
    pub rules: Vec<String>,
    pub rules_query: String,
    pub rules_filter: RuleFilter,
    pub active_proxy_group: Option<String>,
    pub system_proxy_enabled: bool,
    pub auto_launch_enabled: bool,
    pub silent_start_enabled: bool,
    pub clash_mixed_port: u16,
    pub clash_port_input: String,
    pub clash_core_version: String,
    pub clash_core_path: String,
}

impl Default for AppState {
    /// The shell's initial state: the profiles page, English, following the
    /// system theme, nothing loaded, the default mixed port.
    fn default() -> (r: AppState)
        ensures
            r.active_page == Page::Profiles,
            r.language == Language::English,
            r.theme == ThemePreference::System,
            r.rules_filter == RuleFilter::All,
            !r.system_proxy_enabled,
            !r.auto_launch_enabled,
            !r.silent_start_enabled,
            r.clash_mixed_port == 7890,
            r.profiles@.len() == 0,
            r.proxy_groups@.len() == 0,
            r.proxy_nodes@.len() == 0,
            r.rules@.len() == 0,
            r.active_proxy_group is None,
    {
        AppState {
            active_page: Page::Profiles,
            language: Language::English,
            theme: ThemePreference::System,
            profile_url_input: String::new(),
            import_status: ImportStatus {
                message: "Ready to import profile URL.".to_owned(),
                is_error: false,
            },
            profiles: Vec::new(),
            proxy_groups: Vec::new(),
            proxy_nodes: Vec::new(),
            rules: Vec::new(),
            rules_query: String::new(),
            rules_filter: RuleFilter::All,
            active_proxy_group: None,
            system_proxy_enabled: false,
            auto_launch_enabled: false,
            silent_start_enabled: false,
            clash_mixed_port: 7890,
            clash_port_input: "7890".to_owned(),
            clash_core_version: "Unknown".to_owned(),
            clash_core_path: "-".to_owned(),
        }
    }
}

impl AppState {
    /// The first profile summary marked active, if any.
    pub fn active_profile(&self) -> (r: Option<&ProfileSummary>)
        ensures
            match r {
                Some(p) => exists|i: int|
                    0 <= i < self.profiles@.len() && (#[trigger] self.profiles@[i]).active && p
                        == &self.profiles@[i] && forall|j: int|
                        0 <= j < i ==> !(#[trigger] self.profiles@[j]).active,
                None => forall|i: int|
                    0 <= i < self.profiles@.len() ==> !(#[trigger] self.profiles@[i]).active,
            },
    {
        let n = self.profiles.len();
        for i in 0..n
            invariant
                n == self.profiles@.len(),
                forall|j: int| 0 <= j < i ==> !(#[trigger] self.profiles@[j]).active,
        {
            if self.profiles[i].active {
                return Some(&self.profiles[i]);
            }
        }
        None
    }
}

/// Settings as the store hands them to the shell.
#[derive(Debug, Clone, Copy)]
pub struct LoadedSettings {
    pub language: Language,
    pub theme: ThemePreference,
    pub system_proxy_enabled: bool,
    pub auto_launch_enabled: bool,
    pub silent_start_enabled: bool,
    pub clash_mixed_port: u16,
}

/// What [`parse_language`] recognizes.
pub open spec fn parse_language_spec(s: Seq<char>) -> Option<Language> {
    if s == "en"@ || s == "english"@ {
        Some(Language::English)
    } else if s == "zh-CN"@ || s == "zh"@ || s == "zh-cn"@ || s == "simplified_chinese"@ {
        Some(Language::SimplifiedChinese)
    } else {
        None
    }
}

/// The language a persisted settings value denotes, if recognized.
pub fn parse_language(raw: &str) -> (r: Option<Language>)
    ensures
        r == parse_language_spec(raw@),
{
    let chars = str_to_chars(raw);
    if chars_eq_str(chars.as_slice(), "en") || chars_eq_str(chars.as_slice(), "english") {
        Some(Language::English)
    } else if chars_eq_str(chars.as_slice(), "zh-CN") || chars_eq_str(chars.as_slice(), "zh")
        || chars_eq_str(chars.as_slice(), "zh-cn") || chars_eq_str(
        chars.as_slice(),
        "simplified_chinese",
    ) {
        Some(Language::SimplifiedChinese)
    } else {
        None
    }
}

/// What [`parse_theme`] recognizes.
pub open spec fn parse_theme_spec(s: Seq<char>) -> Option<ThemePreference> {
    if s == "light"@ {
        Some(ThemePreference::Light)
    } else if s == "dark"@ {
        Some(ThemePreference::Dark)
    } else if s == "system"@ {
        Some(ThemePreference::System)
    } else {
        None
    }
}

/// The theme a persisted settings value denotes, if recognized.
pub fn parse_theme(raw: &str) -> (r: Option<ThemePreference>)
    ensures
        r == parse_theme_spec(raw@),
{
    let chars = str_to_chars(raw);
    if chars_eq_str(chars.as_slice(), "light") {
        Some(ThemePreference::Light)
    } else if chars_eq_str(chars.as_slice(), "dark") {
        Some(ThemePreference::Dark)
    } else if chars_eq_str(chars.as_slice(), "system") {
        Some(ThemePreference::System)
    } else {
        None
    }
}

/// The value a language persists as.
pub fn serialize_language(language: Language) -> (r: &'static str)
    ensures
        language == Language::English ==> r@ == "en"@,
        language == Language::SimplifiedChinese ==> r@ == "zh-CN"@,
{
    match language {
        Language::English => "en",
        Language::SimplifiedChinese => "zh-CN",
    }
}

/// The value a theme persists as.
pub fn serialize_theme(theme: ThemePreference) -> (r: &'static str)
    ensures
        theme == ThemePreference::Light ==> r@ == "light"@,
        theme == ThemePreference::Dark ==> r@ == "dark"@,
        theme == ThemePreference::System ==> r@ == "system"@,
{
    match theme {
        ThemePreference::Light => "light",
        ThemePreference::Dark => "dark",
        ThemePreference::System => "system",
    }
}

/// A persisted port normalized: zero falls back to the default mixed port.
pub fn normalize_port(port: u16) -> (r: u16)
    ensures
        port == 0 ==> r == 7890,
        port != 0 ==> r == port,
{
    if port == 0 {
        crate::default_mixed_port()
    } else {
        port
    }
}

/// Names of the selectable languages, in each display language.
pub fn language_options(language: Language) -> (r: Vec<String>)
    ensures
        r@.len() == 2,
{
    let mut r: Vec<String> = Vec::new();
    match language {
        Language::English => {
            r.push("English".to_owned());
            r.push("简体中文".to_owned());
        },
        Language::SimplifiedChinese => {
            r.push("英文".to_owned());
            r.push("简体中文".to_owned());
        },
    }
    r
}

/// Names of the selectable themes, in each display language.
pub fn theme_options(language: Language) -> (r: Vec<String>)
    ensures
        r@.len() == 3,
{
    let mut r: Vec<String> = Vec::new();
    match language {
        Language::English => {
            r.push("Light".to_owned());
            r.push("Dark".to_owned());
            r.push("System".to_owned());
        },
        Language::SimplifiedChinese => {
            r.push("浅色".to_owned());
            r.push("深色".to_owned());
            r.push("跟随系统".to_owned());
        },
    }
    r
}

} // verus!

verus! {

/// Every display string of the shell, for one language. The tables
/// themselves are the shell's data; this library only selects from them.
pub struct Strings {
    pub app_name: &'static str,
    pub menu_profiles: &'static str,
    pub menu_proxy_groups: &'static str,
    pub menu_rules: &'static str,
    pub menu_settings: &'static str,
    pub profiles_title: &'static str,
    pub profiles_desc: &'static str,
    pub profiles_import_title: &'static str,
    pub profiles_import_hint: &'static str,
    pub profiles_import_url_label: &'static str,
    pub profiles_import_url_placeholder: &'static str,
    pub profiles_import_button: &'static str,
    pub profiles_current_title: &'static str,
    pub profiles_current_name: &'static str,
    pub profiles_current_source: &'static str,
    pub profiles_current_updated: &'static str,
    pub profiles_current_stats: &'static str,
    pub profiles_current_empty: &'static str,
    pub profiles_list_title: &'static str,
    pub profiles_list_empty: &'static str,
    pub profiles_action_activate: &'static str,
    pub profiles_action_refresh: &'static str,
    pub profiles_action_delete: &'static str,
    pub profiles_status_active: &'static str,
    pub profiles_status_inactive: &'static str,
    pub profiles_import_ready: &'static str,
    pub profiles_import_loading: &'static str,
    pub profiles_import_success: &'static str,
    pub profiles_import_error: &'static str,
    pub proxy_groups_title: &'static str,
    pub proxy_groups_desc: &'static str,
    pub proxy_groups_empty: &'static str,
    pub proxy_groups_count_prefix: &'static str,
    pub proxy_groups_expand: &'static str,
    pub proxy_groups_collapse: &'static str,
    pub proxy_groups_members_prefix: &'static str,
    pub proxy_groups_selected_prefix: &'static str,
    pub proxy_groups_protocol_prefix: &'static str,
    pub proxy_groups_protocol_unknown: &'static str,
    pub proxy_groups_udp_tag: &'static str,
    pub proxy_groups_open: &'static str,
    pub proxy_groups_opened: &'static str,
    pub proxy_groups_active_group_prefix: &'static str,
    pub proxy_groups_active_group_empty: &'static str,
    pub proxy_groups_proxy_empty: &'static str,
    pub proxy_groups_proxy_use: &'static str,
    pub proxy_groups_proxy_selected: &'static str,
    pub proxy_groups_proxy_latency_suffix: &'static str,
    pub proxy_groups_proxy_overflow_prefix: &'static str,
    pub rules_title: &'static str,
    pub rules_desc: &'static str,
    pub rules_empty: &'static str,
    pub rules_count_prefix: &'static str,
    pub rules_search_placeholder: &'static str,
    pub rules_filter_all: &'static str,
    pub rules_filter_domain: &'static str,
    pub rules_filter_ip_cidr: &'static str,
    pub rules_filter_process_name: &'static str,
    pub settings_title: &'static str,
    pub settings_desc: &'static str,
    pub basic_setting_title: &'static str,
    pub system_setting_title: &'static str,
    pub clash_setting_title: &'static str,
    pub language_label: &'static str,
    pub theme_label: &'static str,
    pub system_proxy_label: &'static str,
    pub auto_launch_label: &'static str,
    pub silent_start_label: &'static str,
    pub clash_port_label: &'static str,
    pub clash_core_version_label: &'static str,
    pub clash_core_path_label: &'static str,
    pub clash_port_save_button: &'static str,
    pub clash_port_update_success: &'static str,
    pub clash_port_update_invalid: &'static str,
    pub clash_port_update_failed_prefix: &'static str,
    pub system_proxy_enable_success: &'static str,
    pub system_proxy_disable_success: &'static str,
    pub system_proxy_enable_failed_prefix: &'static str,
    pub system_proxy_disable_failed_prefix: &'static str,
}

/// The title a page shows.
pub fn page_title<'a>(strings: &'a Strings, page: Page) -> (r: &'a str)
    ensures
        r == match page {
            Page::Profiles => strings.profiles_title,
            Page::ProxyGroups => strings.proxy_groups_title,
            Page::Rules => strings.rules_title,
            Page::Settings => strings.settings_title,
        },
{
    match page {
        Page::Profiles => strings.profiles_title,
        Page::ProxyGroups => strings.proxy_groups_title,
        Page::Rules => strings.rules_title,
        Page::Settings => strings.settings_title,
    }
}

/// The description a page shows.
pub fn page_description<'a>(strings: &'a Strings, page: Page) -> (r: &'a str)
    ensures
        r == match page {
            Page::Profiles => strings.profiles_desc,
            Page::ProxyGroups => strings.proxy_groups_desc,
            Page::Rules => strings.rules_desc,
            Page::Settings => strings.settings_desc,
        },
{
    match page {
        Page::Profiles => strings.profiles_desc,
        Page::ProxyGroups => strings.proxy_groups_desc,
        Page::Rules => strings.rules_desc,
        Page::Settings => strings.settings_desc,
    }
}

} // verus!

verus! {

/// The display strings for one language. The rules on constants keep these
/// tables as plain constructor functions rather than static items; callers
/// treat the result as immutable data.
pub fn strings(language: Language) -> (r: Strings)
    ensures
        language == Language::English ==> r.language_label@ == "Language"@,
        language == Language::SimplifiedChinese ==> r.language_label@ == "语言"@,
{
    match language {
        Language::English => Strings {
            app_name: "Linkpad",
            menu_profiles: "Profiles",
            menu_proxy_groups: "Proxy Groups",
            menu_rules: "Rules",
            menu_settings: "Settings",
            profiles_title: "Profiles",
            profiles_desc: "Import and manage subscription profiles.",
            profiles_import_title: "Import Profile",
            profiles_import_hint: "Paste a subscription URL to import its proxies.",
            profiles_import_url_label: "Subscription URL",
            profiles_import_url_placeholder: "https://example.com/subscription",
            profiles_import_button: "Import",
            profiles_current_title: "Current Profile",
            profiles_current_name: "Name",
            profiles_current_source: "Source",
            profiles_current_updated: "Updated",
            profiles_current_stats: "Nodes / Groups / Rules",
            profiles_current_empty: "No profile is active.",
            profiles_list_title: "All Profiles",
            profiles_list_empty: "No profiles imported yet.",
            profiles_action_activate: "Activate",
            profiles_action_refresh: "Refresh",
            profiles_action_delete: "Delete",
            profiles_status_active: "Active",
            profiles_status_inactive: "Inactive",
            profiles_import_ready: "Ready to import profile URL.",
            profiles_import_loading: "Importing profile...",
            profiles_import_success: "Profile imported.",
            profiles_import_error: "Import failed: ",
            proxy_groups_title: "Proxy Groups",
            proxy_groups_desc: "Pick an outbound per group.",
            proxy_groups_empty: "No proxy groups in the active profile.",
            proxy_groups_count_prefix: "Groups: ",
            proxy_groups_expand: "Expand",
            proxy_groups_collapse: "Collapse",
            proxy_groups_members_prefix: "Members: ",
            proxy_groups_selected_prefix: "Selected: ",
            proxy_groups_protocol_prefix: "Protocol: ",
            proxy_groups_protocol_unknown: "Unknown",
            proxy_groups_udp_tag: "UDP",
            proxy_groups_open: "Open",
            proxy_groups_opened: "Opened",
            proxy_groups_active_group_prefix: "Active group: ",
            proxy_groups_active_group_empty: "No group selected.",
            proxy_groups_proxy_empty: "This group has no members.",
            proxy_groups_proxy_use: "Use",
            proxy_groups_proxy_selected: "In use",
            proxy_groups_proxy_latency_suffix: " ms",
            proxy_groups_proxy_overflow_prefix: "and more: ",
            rules_title: "Rules",
            rules_desc: "Routing rules of the active profile.",
            rules_empty: "No rules in the active profile.",
            rules_count_prefix: "Rules: ",
            rules_search_placeholder: "Search rules",
            rules_filter_all: "All",
            rules_filter_domain: "Domain",
            rules_filter_ip_cidr: "IP-CIDR",
            rules_filter_process_name: "Process",
            settings_title: "Settings",
            settings_desc: "Application and kernel settings.",
            basic_setting_title: "Basic",
            system_setting_title: "System",
            clash_setting_title: "Kernel",
            language_label: "Language",
            theme_label: "Theme",
            system_proxy_label: "System Proxy",
            auto_launch_label: "Launch at Login",
            silent_start_label: "Silent Start",
            clash_port_label: "Mixed Port",
            clash_core_version_label: "Kernel Version",
            clash_core_path_label: "Kernel Path",
            clash_port_save_button: "Save",
            clash_port_update_success: "Port updated.",
            clash_port_update_invalid: "Invalid port.",
            clash_port_update_failed_prefix: "Port update failed: ",
            system_proxy_enable_success: "System proxy enabled.",
            system_proxy_disable_success: "System proxy disabled.",
            system_proxy_enable_failed_prefix: "Enable failed: ",
            system_proxy_disable_failed_prefix: "Disable failed: ",
        },
        Language::SimplifiedChinese => Strings {
            app_name: "Linkpad",
            menu_profiles: "配置",
            menu_proxy_groups: "代理组",
            menu_rules: "规则",
            menu_settings: "设置",
            profiles_title: "配置",
            profiles_desc: "导入并管理订阅配置。",
            profiles_import_title: "导入配置",
            profiles_import_hint: "粘贴订阅链接以导入其代理。",
            profiles_import_url_label: "订阅链接",
            profiles_import_url_placeholder: "https://example.com/subscription",
            profiles_import_button: "导入",
            profiles_current_title: "当前配置",
            profiles_current_name: "名称",
            profiles_current_source: "来源",
            profiles_current_updated: "更新时间",
            profiles_current_stats: "节点 / 分组 / 规则",
            profiles_current_empty: "没有激活的配置。",
            profiles_list_title: "全部配置",
            profiles_list_empty: "尚未导入配置。",
            profiles_action_activate: "启用",
            profiles_action_refresh: "刷新",
            profiles_action_delete: "删除",
            profiles_status_active: "已启用",
            profiles_status_inactive: "未启用",
            profiles_import_ready: "可以导入订阅链接。",
            profiles_import_loading: "正在导入配置……",
            profiles_import_success: "配置已导入。",
            profiles_import_error: "导入失败：",
            proxy_groups_title: "代理组",
            proxy_groups_desc: "为每个分组选择出站代理。",
            proxy_groups_empty: "当前配置没有代理组。",
            proxy_groups_count_prefix: "分组：",
            proxy_groups_expand: "展开",
            proxy_groups_collapse: "收起",
            proxy_groups_members_prefix: "成员：",
            proxy_groups_selected_prefix: "已选：",
            proxy_groups_protocol_prefix: "协议：",
            proxy_groups_protocol_unknown: "未知",
            proxy_groups_udp_tag: "UDP",
            proxy_groups_open: "打开",
            proxy_groups_opened: "已打开",
            proxy_groups_active_group_prefix: "当前分组：",
            proxy_groups_active_group_empty: "未选择分组。",
            proxy_groups_proxy_empty: "该分组没有成员。",
            proxy_groups_proxy_use: "使用",
            proxy_groups_proxy_selected: "使用中",
            proxy_groups_proxy_latency_suffix: " 毫秒",
            proxy_groups_proxy_overflow_prefix: "更多：",
            rules_title: "规则",
            rules_desc: "当前配置的路由规则。",
            rules_empty: "当前配置没有规则。",
            rules_count_prefix: "规则：",
            rules_search_placeholder: "搜索规则",
            rules_filter_all: "全部",
            rules_filter_domain: "域名",
            rules_filter_ip_cidr: "IP-CIDR",
            rules_filter_process_name: "进程",
            settings_title: "设置",
            settings_desc: "应用与内核设置。",
            basic_setting_title: "基本",
            system_setting_title: "系统",
            clash_setting_title: "内核",
            language_label: "语言",
            theme_label: "主题",
            system_proxy_label: "系统代理",
            auto_launch_label: "开机启动",
            silent_start_label: "静默启动",
            clash_port_label: "混合端口",
            clash_core_version_label: "内核版本",
            clash_core_path_label: "内核路径",
            clash_port_save_button: "保存",
            clash_port_update_success: "端口已更新。",
            clash_port_update_invalid: "端口无效。",
            clash_port_update_failed_prefix: "端口更新失败：",
            system_proxy_enable_success: "系统代理已启用。",
            system_proxy_disable_success: "系统代理已关闭。",
            system_proxy_enable_failed_prefix: "启用失败：",
            system_proxy_disable_failed_prefix: "关闭失败：",
        },
    }
}

} // verus!
