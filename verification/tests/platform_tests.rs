use linkpad_core::startup::{
    build_launch_agent_plist, build_windows_run_command, escape_xml, parse_launch_agent_status,
    parse_reg_query_value, parse_windows_run_status, StartupBackend, StartupManager,
    StartupStatus, UnsupportedStartupBackend,
};
use linkpad_core::sysproxy::{
    get_proxy_args, parse_active_services, parse_proxy_state, restore_action, set_proxy_args,
    set_proxy_state_args, ProxyProtocol, ProxyState, RestoreAction, SystemProxyBackend,
    SystemProxyConfig, SystemProxyManager, UnsupportedSystemProxyBackend,
};

#[test]
fn networksetup_flags_per_protocol() {
    assert_eq!(ProxyProtocol::Web.get_cmd(), "-getwebproxy");
    assert_eq!(ProxyProtocol::SecureWeb.set_cmd(), "-setsecurewebproxy");
    assert_eq!(ProxyProtocol::Socks.set_state_cmd(), "-setsocksfirewallproxystate");
}

#[test]
fn service_listing_skips_banner_blank_and_disabled() {
    let output = "An asterisk (*) denotes that a network service is disabled.\n\
Wi-Fi\n\
\n\
*Thunderbolt Bridge\n\
  Ethernet  \n";
    let services = parse_active_services(output);
    assert_eq!(services, vec!["Wi-Fi".to_string(), "Ethernet".to_string()]);
}

#[test]
fn proxy_state_parses_enabled_server_port() {
    let output = "Enabled: Yes\nServer: 10.0.0.1\nPort: 8888\nAuthenticated Proxy Enabled: 0\n";
    let st = parse_proxy_state(output);
    assert!(st.enabled);
    assert_eq!(st.server, "10.0.0.1");
    assert_eq!(st.port, 8888);

    let off = parse_proxy_state("Enabled: No\nServer:\nPort: 0\n");
    assert!(!off.enabled);
    assert_eq!(off.server, "");
    assert_eq!(off.port, 0);

    let junk_port = parse_proxy_state("Port: notanumber\n");
    assert_eq!(junk_port.port, 0);
}

#[test]
fn restore_rule_distinguishes_populated_and_off_states() {
    let populated = ProxyState {
        enabled: true,
        server: "10.0.0.1".to_string(),
        port: 8888,
    };
    match restore_action(&populated) {
        RestoreAction::SetAndEnable { server, port } => {
            assert_eq!(server, "10.0.0.1");
            assert_eq!(port, 8888);
        }
        RestoreAction::Off => panic!("expected SetAndEnable"),
    }
    let blank = ProxyState {
        enabled: true,
        server: String::new(),
        port: 8888,
    };
    assert!(matches!(restore_action(&blank), RestoreAction::Off));
    let zero_port = ProxyState {
        enabled: true,
        server: "h".to_string(),
        port: 0,
    };
    assert!(matches!(restore_action(&zero_port), RestoreAction::Off));
}

#[test]
fn networksetup_command_arguments() {
    assert_eq!(
        set_proxy_args("Wi-Fi", ProxyProtocol::Web, "127.0.0.1", 7890),
        vec!["-setwebproxy", "Wi-Fi", "127.0.0.1", "7890"]
    );
    assert_eq!(
        set_proxy_state_args("Wi-Fi", ProxyProtocol::Socks, false),
        vec!["-setsocksfirewallproxystate", "Wi-Fi", "off"]
    );
    assert_eq!(
        get_proxy_args("Ethernet", ProxyProtocol::SecureWeb),
        vec!["-getsecurewebproxy", "Ethernet"]
    );
}

#[test]
fn unsupported_proxy_backend_reports_clearly() {
    let mut manager = SystemProxyManager::new();
    let err = manager.enable("127.0.0.1".to_string(), 7890).unwrap_err();
    assert!(err.message().contains("not implemented"));
    assert!(manager.disable().is_err());
}

#[test]
fn proxy_manager_delegates_to_backend() {
    struct Recording {
        enabled: Option<(String, u16)>,
        disabled: bool,
    }
    impl SystemProxyBackend for Recording {
        fn enable(
            &mut self,
            config: &SystemProxyConfig,
        ) -> Result<(), linkpad_core::sysproxy::SystemProxyError> {
            self.enabled = Some((config.host.clone(), config.port));
            Ok(())
        }
        fn disable(&mut self) -> Result<(), linkpad_core::sysproxy::SystemProxyError> {
            self.disabled = true;
            Ok(())
        }
    }
    let mut manager = SystemProxyManager::new_with_backend(Recording {
        enabled: None,
        disabled: false,
    });
    manager.enable("127.0.0.1".to_string(), 7890).expect("enable");
    manager.disable().expect("disable");
}

#[test]
fn xml_escaping_covers_all_special_characters() {
    assert_eq!(escape_xml("a&b<c>d\"e'f"), "a&amp;b&lt;c&gt;d&quot;e&apos;f");
    assert_eq!(escape_xml("plain"), "plain");
}

#[test]
fn launch_agent_plist_registers_executable_and_flag() {
    let plist = build_launch_agent_plist("/Applications/App & Co", true);
    assert!(plist.contains("<string>/Applications/App &amp; Co</string>"));
    assert!(plist.contains("<string>--silent-start</string>"));
    assert!(plist.contains("com.linkpad.desktop"));
    assert!(plist.contains("<key>RunAtLoad</key>"));

    let quiet = build_launch_agent_plist("/usr/bin/app", false);
    assert!(!quiet.contains("--silent-start"));

    let status = parse_launch_agent_status(&plist);
    assert!(status.auto_launch);
    assert!(status.silent_start);
    let status = parse_launch_agent_status(&quiet);
    assert!(status.auto_launch);
    assert!(!status.silent_start);
}

#[test]
fn windows_run_command_quotes_and_appends_flag() {
    assert_eq!(
        build_windows_run_command("C:\\App \"X\"\\app.exe", true),
        "\"C:\\App \\\"X\\\"\\app.exe\" --silent-start"
    );
    assert_eq!(build_windows_run_command("C:\\app.exe", false), "\"C:\\app.exe\"");
}

#[test]
fn windows_run_status_reads_flag_case_insensitively() {
    let status = parse_windows_run_status("\"C:\\app.exe\" --Silent-Start");
    assert!(status.auto_launch);
    assert!(status.silent_start);
    let status = parse_windows_run_status("\"C:\\app.exe\"");
    assert!(!status.silent_start);
}

#[test]
fn reg_query_output_parses_value_data() {
    let output = "\nHKEY_CURRENT_USER\\Software\\...\\Run\n    Linkpad    REG_SZ    \"C:\\app.exe\" --silent-start\n";
    let value = parse_reg_query_value(output, "Linkpad").expect("value");
    assert_eq!(value, "\"C:\\app.exe\" --silent-start");
    assert!(parse_reg_query_value(output, "Other").is_none());
    let expand = "    linkpad    REG_EXPAND_SZ    %HOME%\\app.exe\n";
    assert_eq!(parse_reg_query_value(expand, "Linkpad").expect("value"), "%HOME%\\app.exe");
}

#[test]
fn unsupported_startup_backend_is_a_quiet_no_op() {
    let manager = StartupManager::new();
    manager.configure(true, true).expect("no-op configure");
    let status = manager.status().expect("status");
    assert_eq!(status, StartupStatus::default());
    assert!(!status.auto_launch);
}

#[test]
fn startup_manager_delegates_to_backend() {
    struct Fixed;
    impl StartupBackend for Fixed {
        fn configure(
            &self,
            _auto_launch: bool,
            _silent_start: bool,
        ) -> Result<(), linkpad_core::startup::StartupError> {
            Ok(())
        }
        fn status(&self) -> Result<StartupStatus, linkpad_core::startup::StartupError> {
            Ok(StartupStatus {
                auto_launch: true,
                silent_start: false,
            })
        }
    }
    let manager = StartupManager::new_with_backend(Fixed);
    assert!(manager.status().expect("status").auto_launch);
    let _ = UnsupportedStartupBackend;
    let _ = UnsupportedSystemProxyBackend;
}

#[test]
fn windows_proxy_registry_commands() {
    let (server, enable) = linkpad_core::sysproxy::windows_enable_proxy_args("127.0.0.1", 7890);
    assert_eq!(server[3], "ProxyServer");
    assert_eq!(server[7], "127.0.0.1:7890");
    assert_eq!(enable[3], "ProxyEnable");
    assert_eq!(enable[7], "1");
    let disable = linkpad_core::sysproxy::windows_disable_proxy_args();
    assert_eq!(disable[3], "ProxyEnable");
    assert_eq!(disable[7], "0");
    assert_eq!(
        linkpad_core::sysproxy::windows_proxy_server_value("10.0.0.1", 8080),
        "10.0.0.1:8080"
    );
}

#[test]
fn windows_run_registry_commands() {
    let install = linkpad_core::startup::windows_install_run_args("\"C:\\app.exe\"");
    assert_eq!(install[0], "add");
    assert_eq!(install[3], "Linkpad");
    assert_eq!(install[7], "\"C:\\app.exe\"");
    let remove = linkpad_core::startup::windows_remove_run_args();
    assert_eq!(remove[0], "delete");
    let query = linkpad_core::startup::windows_query_run_args();
    assert_eq!(query[0], "query");
    // a missing entry is not an error on removal
    assert!(linkpad_core::startup::windows_remove_outcome(false, true));
    assert!(linkpad_core::startup::windows_remove_outcome(true, false));
    assert!(!linkpad_core::startup::windows_remove_outcome(false, false));
}
