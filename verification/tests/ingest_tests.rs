use base64::Engine;
use linkpad_core::ingest::{
    decode_subscription_payload, extract_subscription_nodes, kind_supports_udp,
    looks_like_clash_yaml, looks_like_proxy_uri, normalize_kind, parse_profile_yaml,
    parse_subscription_profile,
};

#[test]
fn parses_clash_yaml_profile() {
    let content = r#"
mixed-port: 7890
mode: rule
proxies:
  - { name: "node-1", type: ss, server: "example.com", port: 443, cipher: aes-128-gcm, password: "pwd" }
proxy-groups:
  - { name: "auto", type: select, proxies: ["node-1"] }
rules:
  - MATCH,auto
"#;

    let parsed = parse_profile_yaml("https://example.com/sub.yaml", content)
        .expect("should parse clash yaml");
    assert_eq!(parsed.node_count, 1);
    assert_eq!(parsed.group_count, 1);
    assert_eq!(parsed.rule_count, 1);
    assert_eq!(parsed.proxy_groups[0].proxies, vec!["node-1".to_string()]);
    assert_eq!(parsed.rules, vec!["MATCH,auto".to_string()]);
}

#[test]
fn parses_base64_subscription_profile() {
    let plain = "ss://YWVzLTEyOC1nY206cGFzcw@example.com:443#Node%201\ntrojan://pass@example.com:443#Node%202\n";
    let encoded = base64::engine::general_purpose::STANDARD.encode(plain);

    let parsed = parse_profile_yaml("https://example.com/sub", &encoded)
        .expect("should parse base64 subscription");
    assert_eq!(parsed.node_count, 2);
    assert!(parsed.group_count >= 1);
    assert_eq!(parsed.rule_count, 0);
    assert_eq!(parsed.proxy_groups[0].proxies.len(), 2);
    assert!(parsed.rules.is_empty());
}

#[test]
fn structured_doc_without_groups_synthesizes_one() {
    let content = "proxies:\n  - { name: a, type: ss }\n  - { name: b, type: trojan }\n";
    let parsed = parse_profile_yaml("https://host.example/x", content).expect("parse");
    assert_eq!(parsed.group_count, 1);
    assert_eq!(parsed.proxy_groups.len(), 1);
    assert_eq!(parsed.proxy_groups[0].name, "default");
    assert_eq!(parsed.proxy_groups[0].kind, "select");
    assert_eq!(parsed.proxy_groups[0].size, 2);
    assert_eq!(
        parsed.proxy_groups[0].proxies,
        vec!["a".to_string(), "b".to_string()]
    );
}

#[test]
fn structured_doc_defaults_blank_fields() {
    let content = "proxies:\n  - { name: \"\", type: \"\" }\n  - { name: n2, type: TUIC }\n";
    let parsed = parse_profile_yaml("https://h.example/x", content).expect("parse");
    assert_eq!(parsed.proxy_nodes[0].name, "Proxy 1");
    assert_eq!(parsed.proxy_nodes[0].kind, "proxy");
    assert!(!parsed.proxy_nodes[0].udp);
    assert_eq!(parsed.proxy_nodes[1].kind, "tuic");
    assert!(parsed.proxy_nodes[1].udp);
}

#[test]
fn structured_doc_profile_name_prefers_first_group() {
    let content =
        "proxies:\n  - { name: n1, type: ss }\nproxy-groups:\n  - { name: \" picked \", type: select, proxies: [n1] }\n";
    let parsed = parse_profile_yaml("https://h.example/x", content).expect("parse");
    assert_eq!(parsed.name, "picked");
}

#[test]
fn structured_doc_profile_name_falls_back_to_host() {
    let content = "proxies:\n  - { name: \"\", type: ss }\n";
    let parsed = parse_profile_yaml("https://fallback.example.net/path", content).expect("parse");
    assert_eq!(parsed.name, "fallback.example.net");
}

#[test]
fn empty_proxies_falls_through_to_subscription_and_fails() {
    let content = "mixed-port: 7890\nproxies: []\n";
    let err = parse_profile_yaml("https://h.example/x", content).unwrap_err();
    match err {
        linkpad_core::CoreError::InvalidProfile(_) => {}
        other => panic!("expected InvalidProfile, got {:?}", other),
    }
}

#[test]
fn plain_uri_list_groups_by_scheme_in_order() {
    let text = "trojan://p@h:443#T1\nss://c@h:443#S1\n# comment\nss://c@h:444#S2\n";
    let parsed = parse_subscription_profile("https://sub.example/x", text).expect("parse");
    assert_eq!(parsed.node_count, 3);
    assert_eq!(parsed.proxy_groups[0].name, "All Proxies");
    assert_eq!(parsed.proxy_groups[0].kind, "select");
    assert_eq!(parsed.proxy_groups[0].size, 3);
    // one group per scheme, in lexical order after the umbrella group
    assert_eq!(parsed.group_count, 3);
    assert_eq!(parsed.proxy_groups[1].name, "SS Nodes");
    assert_eq!(parsed.proxy_groups[1].kind, "ss");
    assert_eq!(
        parsed.proxy_groups[1].proxies,
        vec!["S1".to_string(), "S2".to_string()]
    );
    assert_eq!(parsed.proxy_groups[2].name, "TROJAN Nodes");
    assert_eq!(parsed.proxy_groups[2].kind, "trojan");
}

#[test]
fn subscription_node_names_use_percent_decoded_fragment() {
    let text = "ss://c@h:443#My%20Node\nss://c@h:444\n";
    let nodes = extract_subscription_nodes(text);
    assert_eq!(nodes.len(), 2);
    assert_eq!(nodes[0].name, "My Node");
    assert_eq!(nodes[1].name, "SS-2");
}

#[test]
fn unrecognized_schemes_are_skipped() {
    assert!(looks_like_proxy_uri("vmess://x"));
    assert!(!looks_like_proxy_uri("ftp://x"));
    assert!(!looks_like_proxy_uri("no scheme here"));
    let nodes = extract_subscription_nodes("ftp://x\ngopher://y\n");
    assert!(nodes.is_empty());
}

#[test]
fn base64_payload_decodes_under_url_safe_variant() {
    let plain = "ss://c@h:443#A\ntrojan://p@h:443#B\n";
    let encoded = base64::engine::general_purpose::URL_SAFE_NO_PAD.encode(plain);
    let decoded = decode_subscription_payload(&encoded).expect("decode");
    assert_eq!(decoded, plain);
}

#[test]
fn short_or_marked_payloads_do_not_decode() {
    assert!(decode_subscription_payload("c3M6Ly9-short").is_none());
    assert!(decode_subscription_payload("ss://already-plain@example.com:443#x").is_none());
}

#[test]
fn garbage_content_fails_both_stages() {
    let err = parse_profile_yaml("https://h.example/x", "just some prose").unwrap_err();
    match err {
        linkpad_core::CoreError::InvalidProfile(_) => {}
        other => panic!("expected InvalidProfile, got {:?}", other),
    }
}

#[test]
fn normalize_kind_rules() {
    assert_eq!(normalize_kind("  SS "), "ss");
    assert_eq!(normalize_kind(""), "proxy");
    assert_eq!(normalize_kind("  "), "proxy");
    assert_eq!(normalize_kind("Trojan"), "trojan");
}

#[test]
fn udp_kinds() {
    assert!(kind_supports_udp("tuic"));
    assert!(kind_supports_udp("Hysteria2"));
    assert!(kind_supports_udp("hy2"));
    assert!(kind_supports_udp("WIREGUARD"));
    assert!(!kind_supports_udp("ss"));
}

#[test]
fn clash_yaml_sniffer() {
    assert!(looks_like_clash_yaml("proxies:\n  - x"));
    assert!(looks_like_clash_yaml("\u{feff}  mixed-port: 7890\n"));
    assert!(looks_like_clash_yaml("mode: rule\n"));
    assert!(!looks_like_clash_yaml("ss://whatever"));
}

#[test]
fn rules_are_flattened_to_single_lines() {
    let content =
        "proxies:\n  - { name: n1, type: ss }\nrules:\n  - '  MATCH,auto  '\n  - [a, b]\n  - ''\n";
    let parsed = parse_profile_yaml("https://h.example/x", content).expect("parse");
    assert_eq!(parsed.rules[0], "MATCH,auto");
    assert_eq!(parsed.rule_count, parsed.rules.len());
    assert!(!parsed.rules[1].contains('\n'));
}

#[test]
fn malformed_structured_entries_fail_the_structured_stage() {
    // a proxies entry that is no mapping is rejected by the structured
    // stage; prose content then fails the subscription stage too
    let err = parse_profile_yaml("https://h.example/x", "proxies:\n  - just-a-string\n")
        .unwrap_err();
    assert!(matches!(err, linkpad_core::CoreError::InvalidProfile(_)));
    // a wrongly-typed present field is rejected the same way
    let err = parse_profile_yaml(
        "https://h.example/x",
        "proxies:\n  - { name: 42, type: ss }\n",
    )
    .unwrap_err();
    assert!(matches!(err, linkpad_core::CoreError::InvalidProfile(_)));
    // but a URI list inside the same document text still reaches stage two
    let parsed = parse_profile_yaml(
        "https://h.example/x",
        "proxies:\n  - 7\nss://c@h:443#S1\n",
    );
    assert!(parsed.is_ok());
}
