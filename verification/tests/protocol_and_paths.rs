use unity_cli::config::{
    default_host, default_port, default_timeout_ms, parse_ports, ports_error_message, Cli,
    Command, EnvDefaults, OutputFormat, RuntimeConfig, SystemCommand,
};
use unity_cli::dispatch::{
    is_known_tool, local_tool_for, lsp_after, lsp_mode_from, lsp_should_attempt, LocalTool,
    LspAfter, LspMode,
};
use unity_cli::instances::{
    activate_instance, id_error_message, make_id, merge_instance_ports, parse_id, sort_records,
    statuses_for, InstanceRecord, Registry,
};
use unity_cli::lsp::{id_matches, kind_from_lsp, lsp_header_for, parse_content_length, JsonId};
use unity_cli::paths::{
    build_scope_dirs, is_csharp_file, normalize_rel_or_abs_path, normalize_rel_path,
    path_matches_scope, to_rel_project_path, uri_to_rel_path, PathError,
};
use unity_cli::remote::{encode_frame, frame_header_len, normalize_envelope, RemoteOutcome};

#[test]
fn normalize_rel_path_accepts_assets_packages_and_library() {
    assert_eq!(
        normalize_rel_path("Assets/Scripts/Test.cs").as_deref(),
        Some("Assets/Scripts/Test.cs")
    );
    assert_eq!(
        normalize_rel_path("Packages/com.demo/Runtime/Foo.cs").as_deref(),
        Some("Packages/com.demo/Runtime/Foo.cs")
    );
    assert_eq!(
        normalize_rel_path("Library/PackageCache/com.demo/Bar.cs").as_deref(),
        Some("Library/PackageCache/com.demo/Bar.cs")
    );
}

#[test]
fn normalize_rel_path_rejects_parent_traversal() {
    assert!(normalize_rel_path("Assets/../Secrets.cs").is_none());
    assert!(normalize_rel_path("../../Secrets.cs").is_none());
}

#[test]
fn normalize_rel_path_cleans_noise() {
    assert_eq!(
        normalize_rel_path("  ./Assets\\Sub//Thing.cs ").as_deref(),
        Some("Assets/Sub/Thing.cs")
    );
    assert_eq!(
        normalize_rel_path("/tmp/proj/Assets/Thing.cs").as_deref(),
        Some("Assets/Thing.cs")
    );
    assert!(normalize_rel_path("Docs/Readme.md").is_none());
}

#[test]
fn normalize_rel_or_abs_path_handles_absolute_paths() {
    assert_eq!(
        normalize_rel_or_abs_path("/proj", "/proj/Assets/A.cs").ok().as_deref(),
        Some("Assets/A.cs")
    );
    match normalize_rel_or_abs_path("/proj", "/elsewhere/Assets/A.cs") {
        Err(e) => assert_eq!(e, PathError::NotUnderRoot),
        Ok(_) => panic!("out-of-root path must be refused"),
    }
    match normalize_rel_or_abs_path("/proj", "Docs/A.cs") {
        Err(e) => assert_eq!(e, PathError::NoRootPrefix),
        Ok(_) => panic!("path without a root prefix must be refused"),
    }
}

#[test]
fn path_scope_rules_match_prefixes() {
    assert!(path_matches_scope("Assets/A.cs", "assets"));
    assert!(!path_matches_scope("Packages/p/A.cs", "assets"));
    assert!(path_matches_scope("Packages/p/A.cs", "packages"));
    assert!(path_matches_scope("Library/PackageCache/p/A.cs", "packages"));
    assert!(!path_matches_scope("Library/PackageCache/p/A.cs", "embedded"));
    assert!(path_matches_scope("Library/PackageCache/p/A.cs", "library"));
    assert!(path_matches_scope("Anything/x", "all"));
}

#[test]
fn csharp_extension_check_ignores_case_and_needs_a_stem() {
    assert!(is_csharp_file("Assets/A.cs"));
    assert!(is_csharp_file("Assets/A.CS"));
    assert!(!is_csharp_file("Assets/A.txt"));
    assert!(!is_csharp_file("Assets/noext"));
    assert!(!is_csharp_file("Assets/.cs"));
}

#[test]
fn project_relative_paths_strip_the_root() {
    assert_eq!(to_rel_project_path("/proj", "/proj/Assets/A.cs"), "Assets/A.cs");
    assert_eq!(to_rel_project_path("/proj", "/other/A.cs"), "/other/A.cs");
    assert_eq!(
        uri_to_rel_path("/proj", "file:///proj/Assets/A.cs").as_deref(),
        Some("Assets/A.cs")
    );
    assert!(uri_to_rel_path("/proj", "http://x").is_none());
}

#[test]
fn build_scope_dirs_follow_the_scope_rules() {
    let assets = build_scope_dirs("assets", false);
    assert_eq!(assets, vec!["Assets".to_string()]);
    let all = build_scope_dirs("all", false);
    assert_eq!(
        all,
        vec!["Assets".to_string(), "Packages".to_string(), "Library/PackageCache".to_string()]
    );
    let no_cache = build_scope_dirs("all", true);
    assert_eq!(no_cache, vec!["Assets".to_string(), "Packages".to_string()]);
}

#[test]
fn parse_ports_deduplicates_values() {
    match parse_ports(&Some("6400, 6401,6400".to_string())) {
        Ok(parsed) => assert_eq!(parsed, vec![6400, 6401]),
        Err(_) => panic!("ports should parse"),
    }
}

#[test]
fn parse_ports_rejects_invalid_values() {
    match parse_ports(&Some("6400,abc".to_string())) {
        Err(err) => assert!(ports_error_message(&err).contains("Invalid port")),
        Ok(_) => panic!("invalid port should fail"),
    }
}

#[test]
fn parse_id_validates_shape() {
    match parse_id("localhost:6400") {
        Ok((host, port)) => {
            assert_eq!(host, "localhost");
            assert_eq!(port, 6400);
        }
        Err(_) => panic!("host:port should parse"),
    }

    match parse_id("invalid") {
        Err(err) => assert!(id_error_message(err, "invalid").contains("Expected host:port")),
        Ok(_) => panic!("missing separator should fail"),
    }
}

#[test]
fn registry_merge_adds_defaults_and_sorts() {
    let merged = merge_instance_ports(Vec::new(), "localhost", &vec![6401, 6400]);
    assert_eq!(merged.len(), 2);
    let sorted = sort_records(merged);
    assert_eq!(sorted[0].id, "localhost:6400");
    assert_eq!(sorted[1].id, "localhost:6401");

    let fallback = merge_instance_ports(Vec::new(), "localhost", &Vec::new());
    assert_eq!(fallback.len(), 1);
    assert_eq!(fallback[0].id, make_id("localhost", 6400));
}

#[test]
fn statuses_report_probe_results() {
    let entries = vec![InstanceRecord {
        id: "localhost:6400".to_string(),
        host: "localhost".to_string(),
        port: 6400,
    }];
    let statuses = statuses_for(
        &entries,
        &vec![true],
        "12345",
        &Some("localhost:6400".to_string()),
    );
    assert_eq!(statuses.len(), 1);
    assert_eq!(statuses[0].status, "up");
    assert_eq!(statuses[0].last_checked_at, "12345");
    assert!(statuses[0].active);
}

#[test]
fn set_active_refuses_unreachable_instance() {
    let registry = Registry { active_id: None, entries: Vec::new() };
    assert!(activate_instance(registry, "localhost:6400", false).is_err());

    let registry2 = Registry { active_id: Some("old:1".to_string()), entries: Vec::new() };
    match activate_instance(registry2, "localhost:6400", true) {
        Ok((reg, result)) => {
            assert_eq!(result.active_id, "localhost:6400");
            assert_eq!(result.previous_id.as_deref(), Some("old:1"));
            assert_eq!(reg.active_id.as_deref(), Some("localhost:6400"));
        }
        Err(_) => panic!("reachable target activates"),
    }
}

#[test]
fn frame_codec_round_trips_length() {
    let payload: Vec<u8> = vec![104, 101, 108, 108, 111];
    let frame = encode_frame(&payload).expect("small payload frames");
    assert_eq!(frame.len(), 9);
    assert_eq!(frame_header_len(frame[0], frame[1], frame[2], frame[3]), Some(5));
    assert_eq!(&frame[4..], &payload[..]);
    assert_eq!(frame_header_len(0, 0, 0, 0), None);
    assert_eq!(frame_header_len(255, 255, 255, 255), None);
}

#[test]
fn normalize_reports_error_with_code() {
    let out = normalize_envelope(
        &Some("error".to_string()),
        None,
        &Some("boom".to_string()),
        &Some("E_FAIL".to_string()),
        false,
        false,
    );
    match out {
        RemoteOutcome::Failure { message } => {
            assert!(message.contains("boom"));
            assert!(message.contains("E_FAIL"));
        }
        _ => panic!("an error response must fail the call"),
    }
}

#[test]
fn normalize_prefers_result_then_data() {
    let ok = normalize_envelope(&Some("success".to_string()), None, &None, &None, true, true);
    assert!(matches!(ok, RemoteOutcome::TakeResult));
    let data = normalize_envelope(&None, Some(true), &None, &None, false, true);
    assert!(matches!(data, RemoteOutcome::TakeData));
    let whole = normalize_envelope(&None, None, &None, &None, false, false);
    assert!(matches!(whole, RemoteOutcome::Whole));
    let failed = normalize_envelope(&None, Some(false), &None, &None, true, false);
    match failed {
        RemoteOutcome::Failure { message } => {
            assert!(message.contains("UNKNOWN_ERROR"));
        }
        _ => panic!("success=false must fail the call"),
    }
}

#[test]
fn lsp_header_codec_round_trips() {
    assert_eq!(lsp_header_for(42), "Content-Length: 42\r\n\r\n");
    assert_eq!(parse_content_length("Content-Length: 42\r\n\r\n"), Some(42));
    assert_eq!(parse_content_length("content-length: 7\r\n\r\n"), Some(7));
    assert_eq!(parse_content_length("Host: x\r\n\r\n"), None);
}

#[test]
fn lsp_id_correlation_accepts_numeric_shapes() {
    assert!(id_matches(&JsonId::UInt(5), 5));
    assert!(!id_matches(&JsonId::UInt(6), 5));
    assert!(id_matches(&JsonId::Int(5), 5));
    assert!(!id_matches(&JsonId::Int(-1), 5));
    assert!(id_matches(&JsonId::Text("7".to_string()), 7));
    assert!(!id_matches(&JsonId::Text("x".to_string()), 7));
    assert!(!id_matches(&JsonId::Absent, 7));
}

#[test]
fn kind_from_lsp_maps_the_protocol_numbers() {
    assert_eq!(kind_from_lsp(3), "namespace");
    assert_eq!(kind_from_lsp(5), "class");
    assert_eq!(kind_from_lsp(6), "method");
    assert_eq!(kind_from_lsp(7), "property");
    assert_eq!(kind_from_lsp(8), "field");
    assert_eq!(kind_from_lsp(10), "enum");
    assert_eq!(kind_from_lsp(11), "interface");
    assert_eq!(kind_from_lsp(23), "struct");
    assert_eq!(kind_from_lsp(99), "unknown");
}

#[test]
fn dispatch_recognizes_local_tools() {
    assert_eq!(local_tool_for("read"), Some(LocalTool::Read));
    assert_eq!(local_tool_for("find_refs"), Some(LocalTool::FindRefs));
    assert_eq!(local_tool_for("ping"), None);
    assert!(is_known_tool("ping"));
    assert!(is_known_tool("build_index"));
    assert!(!is_known_tool("reboot"));
}

#[test]
fn lsp_policy_covers_all_three_modes() {
    assert_eq!(lsp_mode_from(Some("required")), LspMode::Required);
    assert_eq!(lsp_mode_from(Some("AUTO")), LspMode::Auto);
    assert_eq!(lsp_mode_from(Some("off")), LspMode::Off);
    assert_eq!(lsp_mode_from(None), LspMode::Off);

    assert!(!lsp_should_attempt(LspMode::Off, LocalTool::FindSymbol));
    assert!(lsp_should_attempt(LspMode::Auto, LocalTool::FindSymbol));
    assert!(!lsp_should_attempt(LspMode::Auto, LocalTool::Read));

    assert_eq!(lsp_after(LspMode::Auto, true), LspAfter::UseResult);
    assert_eq!(lsp_after(LspMode::Auto, false), LspAfter::FallBack);
    assert_eq!(lsp_after(LspMode::Required, false), LspAfter::PropagateError);
}

#[test]
fn runtime_config_prefers_explicit_arguments() {
    assert_eq!(default_host(None), "localhost");
    assert_eq!(default_host(Some("  editor-host ")), "editor-host");
    assert_eq!(default_port(None), 6400);
    assert_eq!(default_port(Some("0")), 6400);
    assert_eq!(default_port(Some("123")), 123);
    assert_eq!(default_timeout_ms(Some("250")), 250);
    assert_eq!(default_timeout_ms(Some("junk")), 30000);

    let cli = Cli {
        output: OutputFormat::Text,
        host: Some("given".to_string()),
        port: None,
        timeout_ms: None,
        verbose: 0,
        command: Command::System { command: SystemCommand::Ping { message: None } },
    };
    let env = EnvDefaults { host: None, port: Some("7777".to_string()), timeout_ms: None };
    let rc = RuntimeConfig::from_cli(&cli, &env);
    assert_eq!(rc.host, "given");
    assert_eq!(rc.port, 7777);
    assert_eq!(rc.timeout_ms, 30000);
}

#[test]
fn lsp_reference_page_sorts_groups_and_cuts() {
    fn row(path: &str, line: u64, column: u64) -> unity_cli::lsp::LspRef {
        unity_cli::lsp::LspRef {
            path: path.to_string(),
            line,
            column,
            snippet: "x".to_string(),
        }
    }
    let rows = vec![
        row("Assets/B.cs", 2, 1),
        row("Assets/A.cs", 9, 4),
        row("Assets/A.cs", 1, 1),
    ];
    let sorted = unity_cli::lsp::sort_lsp_refs(rows);
    assert_eq!(sorted[0].path, "Assets/A.cs");
    assert_eq!(sorted[0].line, 1);
    assert_eq!(sorted[1].line, 9);
    assert_eq!(sorted[2].path, "Assets/B.cs");

    let page = unity_cli::lsp::lsp_page_refs(&sorted, "all", None, None, Some(2), None, None);
    assert_eq!(page.total, 2);
    assert!(page.truncated);
    assert_eq!(page.cursor.as_deref(), Some("Assets/A.cs"));
    assert_eq!(page.results.len(), 1);
    assert_eq!(page.results[0].1.len(), 2);

    let rest = unity_cli::lsp::lsp_page_refs(
        &sorted,
        "all",
        page.cursor.as_deref(),
        None,
        Some(10),
        None,
        None,
    );
    assert_eq!(rest.total, 1);
    assert!(!rest.truncated);
    assert_eq!(rest.results[0].0, "Assets/B.cs");
}

#[test]
fn workspace_symbols_filter_groups_by_path() {
    fn row(name: &str, kind_num: i64, path: Option<&str>, line: u64) -> unity_cli::lsp::WsRow {
        unity_cli::lsp::WsRow {
            name: name.to_string(),
            kind_num,
            rel_path: path.map(|p| p.to_string()),
            line,
            column: 0,
        }
    }
    let rows = vec![
        row("Player", 5, Some("Assets/B.cs"), 4),
        row("", 5, Some("Assets/A.cs"), 1),
        row("Player", 5, None, 1),
        row("PlayerExtra", 5, Some("Assets/A.cs"), 2),
        row("Player", 6, Some("Assets/A.cs"), 3),
        row("Player", 5, Some("Packages/p/C.cs"), 9),
    ];
    let page = unity_cli::lsp::filter_workspace_symbols(&rows, "Player", Some("class"), "assets", false);
    assert_eq!(page.total, 2);
    assert_eq!(page.results.len(), 2);
    assert_eq!(page.results[0].0, "Assets/A.cs");
    assert_eq!(page.results[0].1[0].name, "PlayerExtra");
    assert_eq!(page.results[0].1[0].line, 3);
    assert_eq!(page.results[1].0, "Assets/B.cs");

    let exact = unity_cli::lsp::filter_workspace_symbols(&rows, "Player", None, "all", true);
    assert_eq!(exact.total, 3);
}

#[test]
fn document_symbols_flatten_in_preorder() {
    fn leaf(name: &str, kind: i64, line: u64) -> unity_cli::lsp::DocNode {
        unity_cli::lsp::DocNode {
            name: name.to_string(),
            kind,
            line,
            column: 0,
            children: Vec::new(),
        }
    }
    let tree = vec![unity_cli::lsp::DocNode {
        name: "Player".to_string(),
        kind: 5,
        line: 1,
        column: 0,
        children: vec![leaf("Jump", 6, 3), leaf("", 6, 4), leaf("Health", 8, 5)],
    }];
    let mut out = Vec::new();
    unity_cli::lsp::flatten_doc_symbols(&tree, &None, &mut out);
    assert_eq!(out.len(), 3);
    assert_eq!(out[0].name, "Player");
    assert_eq!(out[0].kind, "class");
    assert_eq!(out[0].line, 2);
    assert!(out[0].container.is_none());
    assert_eq!(out[1].name, "Jump");
    assert_eq!(out[1].container.as_deref(), Some("Player"));
    assert_eq!(out[2].name, "Health");
    assert_eq!(out[2].kind, "field");
}
