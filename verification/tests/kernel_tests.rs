use flate2::write::GzEncoder;
use flate2::Compression;
use linkpad_core::kernel::{
    decompress_release, extract_version_from_text, find_kernel_binary_in_dir,
    list_runtime_kernel_pids, normalize_version_tag, release_asset_name_candidates,
    resolve_kernel_binary, score_release_asset, select_release_asset, verify_download_digest,
    Candidate, DirEntry, FsNode, KernelSupervisor, ReleaseAsset,
};
use linkpad_core::CoreError;
use std::io::Write;

#[test]
fn supervisor_start_twice_is_already_running() {
    let mut sup = KernelSupervisor::new();
    sup.begin_start().expect("first start may proceed");
    sup.record_started(4242);
    match sup.begin_start() {
        Err(CoreError::AlreadyRunning) => {}
        other => panic!("expected AlreadyRunning, got {:?}", other),
    }
    // exactly the one child of the first start is tracked
    assert_eq!(sup.tracked_child(), Some(4242));
    sup.record_stopped();
    assert_eq!(sup.tracked_child(), None);
    sup.begin_start().expect("start after stop may proceed");
}

#[test]
fn supervisor_reconciles_exited_child() {
    let mut sup = KernelSupervisor::new();
    sup.record_started(7);
    assert!(sup.reconcile(true));
    assert_eq!(sup.tracked_child(), Some(7));
    assert!(!sup.reconcile(false));
    assert_eq!(sup.tracked_child(), None);
}

#[test]
fn version_tags_normalize() {
    assert_eq!(normalize_version_tag("1.18.0"), "v1.18.0");
    assert_eq!(normalize_version_tag("  v1.18.0 "), "v1.18.0");
    assert_eq!(normalize_version_tag("   "), "");
}

#[test]
fn asset_scores_prefer_plain_short_names() {
    let plain = score_release_asset("mihomo-darwin-arm64-v1.18.0.gz");
    let alpha = score_release_asset("mihomo-darwin-arm64-alpha-v1.18.0.gz");
    let go = score_release_asset("mihomo-darwin-arm64-go120-v1.18.0.gz");
    let compatible = score_release_asset("mihomo-darwin-arm64-compatible-v1.18.0.gz");
    assert!(plain < go);
    assert!(go < compatible || compatible.1 > go.1);
    assert!(plain < alpha);
}

fn asset(name: &str) -> ReleaseAsset {
    ReleaseAsset {
        name: name.to_string(),
        download_url: format!("https://dl.example/{name}"),
        digest: None,
    }
}

#[test]
fn asset_selection_filters_platform_and_ranks() {
    let assets = vec![
        asset("mihomo-windows-amd64-v1.18.0.zip"),
        asset("mihomo-darwin-arm64-alpha-v1.18.0.gz"),
        asset("mihomo-darwin-arm64-v1.18.0.gz"),
        asset("mihomo-darwin-arm64-go120-v1.18.0.gz"),
    ];
    let picked = select_release_asset(&assets, "darwin", "arm64").expect("one matches");
    assert_eq!(picked, 2);
    assert!(select_release_asset(&assets, "linux", "riscv").is_none());
}

#[test]
fn candidate_names_are_sorted_and_cover_variants() {
    let names = release_asset_name_candidates("darwin", "amd64", "1.18.0");
    assert!(names.contains(&"mihomo-darwin-amd64-v1.18.0.gz".to_string()));
    assert!(names.contains(&"mihomo-darwin-amd64-compatible-v1.18.0.gz".to_string()));
    assert!(names.contains(&"mihomo-darwin-amd64-go124-v1.18.0.gz".to_string()));
    let mut sorted = names.clone();
    sorted.sort();
    assert_eq!(names, sorted);
    // the compatibility build is offered only for x86-64
    let arm = release_asset_name_candidates("darwin", "arm64", "v1.18.0");
    assert!(!arm.iter().any(|n| n.contains("compatible")));
}

#[test]
fn digest_verification_accepts_match_and_rejects_mismatch() {
    // SHA-256 of the ASCII bytes `hello`
    let good = "sha256:2CF24DBA5FB0A30E26E83B2AC5B9E29E1B161E5C1FA7425E73043362938B9824";
    let mut a = asset("mihomo-x.gz");
    a.digest = Some(good.to_string());
    verify_download_digest(&a, b"hello").expect("digest matches");
    a.digest = Some("sha256:00".to_string());
    match verify_download_digest(&a, b"hello") {
        Err(CoreError::InvalidConfig(_)) => {}
        other => panic!("expected InvalidConfig, got {:?}", other.is_ok()),
    }
    a.digest = None;
    verify_download_digest(&a, b"hello").expect("missing digest passes");
    a.digest = Some("   ".to_string());
    verify_download_digest(&a, b"hello").expect("blank digest passes");
}

#[test]
fn gzip_roundtrip_and_empty_rejection() {
    let mut enc = GzEncoder::new(Vec::new(), Compression::default());
    enc.write_all(b"kernel bytes").expect("write");
    let gz = enc.finish().expect("finish");
    let out = decompress_release(&gz).expect("decompress");
    assert_eq!(out, b"kernel bytes");

    let mut empty_enc = GzEncoder::new(Vec::new(), Compression::default());
    empty_enc.write_all(b"").expect("write");
    let empty_gz = empty_enc.finish().expect("finish");
    match decompress_release(&empty_gz) {
        Err(CoreError::InvalidConfig(_)) => {}
        other => panic!("expected InvalidConfig, got {:?}", other.is_ok()),
    }
    assert!(decompress_release(b"not gzip").is_err());
}

fn entry(name: &str, path: &str, executable: bool) -> DirEntry {
    DirEntry {
        name: name.to_string(),
        path: path.to_string(),
        executable,
    }
}

#[test]
fn dir_scan_prefers_direct_names_then_lexical() {
    let mut non_exec = Vec::new();
    let picked = find_kernel_binary_in_dir(
        &vec![
            entry("x-mihomo", "/bin/x-mihomo", true),
            entry("mihomo-beta", "/bin/mihomo-beta", true),
            entry("mihomo", "/bin/mihomo", false),
        ],
        &mut non_exec,
    );
    assert_eq!(picked, Some("/bin/mihomo-beta".to_string()));
}

#[test]
fn non_executable_only_match_is_reported() {
    // a runtime-local bin directory holding only a non-executable file named
    // exactly as the kernel binary
    let candidates = vec![Candidate {
        path: "/runtime/bin".to_string(),
        node: FsNode::DirNode {
            entries: vec![entry("mihomo", "/runtime/bin/mihomo", false)],
        },
    }];
    match resolve_kernel_binary(&candidates, "/suggested/bin/mihomo") {
        Err(CoreError::InvalidConfig(msg)) => {
            assert!(msg.contains(". found but not executable: "));
            assert!(msg.contains("/runtime/bin/mihomo"));
            assert!(msg.contains("checked: /runtime/bin"));
            assert!(msg.contains("/suggested/bin/mihomo"));
        }
        other => panic!("expected InvalidConfig, got {:?}", other.is_ok()),
    }
}

#[test]
fn resolution_picks_first_usable_candidate() {
    let candidates = vec![
        Candidate {
            path: "/missing".to_string(),
            node: FsNode::MissingNode,
        },
        Candidate {
            path: "/override/mihomo".to_string(),
            node: FsNode::FileNode { executable: true },
        },
    ];
    let path = resolve_kernel_binary(&candidates, "/hint").expect("resolves");
    assert_eq!(path, "/override/mihomo");
}

#[test]
fn version_extraction_finds_v_tokens() {
    let v = extract_version_from_text("Mihomo Meta v1.18.3 darwin arm64").expect("token");
    assert_eq!(v, "v1.18.3");
    let quoted = extract_version_from_text("version \"v2.0.1\"").expect("token");
    assert_eq!(quoted, "v2.0.1");
    assert!(extract_version_from_text("no version here").is_none());
}

#[test]
fn process_listing_is_cross_checked_against_markers() {
    let output = "\
  101 /usr/local/bin/mihomo -f /rt/runtime.yaml -d /rt\n\
  202 /usr/local/bin/mihomo -f /other/runtime.yaml -d /other\n\
  303 vim mihomo.log /rt /rt/runtime.yaml\n\
  bad line\n\
  404 /usr/bin/sleep 30\n";
    let pids = list_runtime_kernel_pids(output, "/rt", "/rt/runtime.yaml");
    assert_eq!(pids, vec![101, 303]);
}

#[test]
fn release_tag_comes_from_redirect_path() {
    let tag = linkpad_core::kernel::release_tag_from_path(
        "/MetaCubeX/mihomo/releases/tag/v1.18.3/",
    )
    .expect("tag");
    assert_eq!(tag, "v1.18.3");
    let bare = linkpad_core::kernel::release_tag_from_path("/x/releases/tag/1.2.0").expect("tag");
    assert_eq!(bare, "v1.2.0");
    assert!(linkpad_core::kernel::release_tag_from_path("/no/marker/here").is_err());
    assert!(linkpad_core::kernel::release_tag_from_path("/x/releases/tag///").is_err());
}

#[test]
fn candidate_paths_follow_search_order() {
    let paths = linkpad_core::kernel::known_kernel_candidate_paths(
        "/rt",
        Some("/cfg"),
        Some("/app/bindir"),
        Some("/app"),
        true,
        '/',
        "mihomo",
    );
    assert_eq!(paths[0], "mihomo");
    assert_eq!(paths[1], "/rt/bin/mihomo");
    assert_eq!(paths[2], "/rt/bin");
    assert_eq!(paths[3], "/cfg/bin/mihomo");
    assert_eq!(paths[4], "/cfg/bin");
    assert_eq!(paths[5], "/app/bindir/mihomo");
    assert!(paths.contains(&"/app/Resources/linkpad/resources/bin/mihomo".to_string()));
    assert!(paths.contains(&"/app/resources/bin".to_string()));
    assert_eq!(paths[paths.len() - 2], "/opt/homebrew/bin/mihomo");
    assert_eq!(paths[paths.len() - 1], "/usr/local/bin/mihomo");

    let minimal =
        linkpad_core::kernel::known_kernel_candidate_paths("/rt", None, None, None, false, '/', "mihomo");
    assert_eq!(minimal, vec!["mihomo", "/rt/bin/mihomo", "/rt/bin"]);
}

#[test]
fn version_output_prefers_token_then_line() {
    let v = linkpad_core::kernel::version_from_output("\nMihomo Meta v1.18.3 darwin\nmore\n")
        .expect("version");
    assert_eq!(v, "v1.18.3");
    let line = linkpad_core::kernel::version_from_output("  some banner  \n").expect("line");
    assert_eq!(line, "some banner");
    assert!(linkpad_core::kernel::version_from_output("\n   \n").is_none());
}

#[test]
fn dir_scan_breaks_ties_lexically() {
    let mut non_exec = Vec::new();
    let picked = find_kernel_binary_in_dir(
        &vec![
            entry("mihomo-b", "/bin/mihomo-b", true),
            entry("mihomo-a", "/bin/mihomo-a", true),
        ],
        &mut non_exec,
    );
    assert_eq!(picked, Some("/bin/mihomo-a".to_string()));
}

#[test]
fn digest_mismatch_names_the_asset() {
    let mut a = asset("mihomo-named.gz");
    a.digest = Some("sha256:00".to_string());
    match verify_download_digest(&a, b"hello") {
        Err(CoreError::InvalidConfig(msg)) => {
            assert_eq!(msg, "downloaded kernel digest mismatch for `mihomo-named.gz`");
        }
        other => panic!("expected InvalidConfig, got {:?}", other.is_ok()),
    }
}

#[test]
fn archive_errors_carry_their_own_messages() {
    match decompress_release(b"not gzip") {
        Err(CoreError::InvalidConfig(msg)) => {
            assert_eq!(msg, "downloaded kernel archive is corrupt");
        }
        other => panic!("expected InvalidConfig, got {:?}", other.is_ok()),
    }
    let mut empty_enc = GzEncoder::new(Vec::new(), Compression::default());
    empty_enc.write_all(b"").expect("write");
    let empty_gz = empty_enc.finish().expect("finish");
    match decompress_release(&empty_gz) {
        Err(CoreError::InvalidConfig(msg)) => {
            assert_eq!(msg, "downloaded kernel archive is empty");
        }
        other => panic!("expected InvalidConfig, got {:?}", other.is_ok()),
    }
}

#[test]
fn candidate_names_have_no_duplicates() {
    let names = release_asset_name_candidates("linux", "amd64", "v1.19");
    let mut unique = names.clone();
    unique.dedup();
    assert_eq!(names, unique);
}

#[test]
fn version_extraction_takes_the_first_shaped_token() {
    let v = extract_version_from_text("alpha va9 v1.2.3, (v9.9)").expect("token");
    assert_eq!(v, "v1.2.3");
    let second = extract_version_from_text("x,y;(\"v2\")").expect("token");
    assert_eq!(second, "v2");
}
