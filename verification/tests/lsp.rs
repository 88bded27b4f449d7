use ctx::lsp::config::{builtin_extensions, validate, LspBackend, LspConfig, LspServerConfig};
use ctx::lsp::resolve::{
    callee_column, definition_position, group_unresolved, name_matches, UnresolvedEdge,
};
use ctx::lsp::status::{
    capability_key, complete_report, missing_capabilities, probe_report, status_entry, ClientStatus,
    Handshake,
};
use ctx::lsp::{
    path_to_uri, strip_uri_drive_slash, strip_verbatim, uri_to_path, ClientAccess, ClientSlot,
    FileBackend, LspManager,
};

fn s(x: &str) -> String {
    x.to_string()
}

fn server(command: &str, extensions: &[&str], backend: LspBackend) -> LspServerConfig {
    LspServerConfig {
        command: s(command),
        args: vec![],
        extensions: extensions.iter().map(|e| e.to_string()).collect(),
        root_markers: vec![],
        capabilities: vec![],
        backend,
        initialization_options: None,
        env: vec![],
        timeout_ms: None,
        source: None,
        source_server: None,
    }
}

#[test]
fn uri_roundtrip_plain() {
    let path = "/tmp/project/src/main.kt";
    let uri = path_to_uri(path);
    assert_eq!(uri, "file:///tmp/project/src/main.kt");
    assert_eq!(uri_to_path(&uri).unwrap(), path);
}

#[test]
fn uri_roundtrip_with_spaces_and_unicode() {
    let path = "/tmp/my project/söurce.kt";
    let uri = path_to_uri(path);
    assert!(uri.starts_with("file:///tmp/my%20project/"), "{uri}");
    assert_eq!(uri_to_path(&uri).unwrap(), path);
}

#[test]
fn strip_verbatim_handles_drive_and_unc_prefixes() {
    assert_eq!(strip_verbatim(r"\\?\C:\Users\x"), r"C:\Users\x");
    assert_eq!(strip_verbatim(r"\\?\UNC\srv\share\x"), r"\\srv\share\x");
    assert_eq!(strip_verbatim(r"C:\Users\x"), r"C:\Users\x");
    assert_eq!(strip_verbatim("/tmp/project"), "/tmp/project");
}

#[test]
fn uri_from_verbatim_drive_path_has_three_slashes() {
    let uri = path_to_uri(r"\\?\C:\Users\x");
    assert_eq!(uri, "file:///C:/Users/x");
    assert_eq!(
        strip_uri_drive_slash("/C:/Users/x".to_string()),
        "C:/Users/x"
    );
    assert_eq!(strip_uri_drive_slash("/tmp/x".to_string()), "/tmp/x");
}

#[test]
fn uri_from_verbatim_unc_path_drops_the_verbatim_prefix() {
    let uri = path_to_uri(r"\\?\UNC\srv\share\x");
    assert_eq!(uri, "file:////srv/share/x");
    assert_eq!(uri_to_path(&uri).unwrap(), "//srv/share/x");
    assert!(!uri.contains("%3F"), "verbatim `?` must not leak: {uri}");
}

#[test]
fn uri_to_path_rejects_remote_hosts() {
    assert!(uri_to_path("file://example.com/x/y").is_none());
    assert!(uri_to_path("https://example.com/x").is_none());
    assert_eq!(uri_to_path("file://localhost/x/y").unwrap(), "/x/y");
}

#[test]
fn uri_escapes_reserved_bytes_and_decodes_them() {
    assert_eq!(path_to_uri("/a%b+c#d"), "file:///a%25b%2Bc%23d");
    assert_eq!(uri_to_path("file:///a%25b%2Bc%23d").unwrap(), "/a%b+c#d");
    // A lower-case or signed escape still decodes; a bad one fails.
    assert_eq!(uri_to_path("file:///x%2fy").unwrap(), "/x/y");
    assert_eq!(uri_to_path("file:///x%+Fy").unwrap(), "/x\u{f}y");
    assert!(uri_to_path("file:///x%zzy").is_none());
    // A trailing `%` without two following bytes is kept.
    assert_eq!(uri_to_path("file:///x%4").unwrap(), "/x%4");
    // Decoded bytes must be UTF-8.
    assert!(uri_to_path("file:///x%FF").is_none());
    // No path at all.
    assert!(uri_to_path("file://host").is_none());
}

#[test]
fn relative_paths_get_a_leading_slash_back() {
    let uri = path_to_uri("C:/work/a.rs");
    assert_eq!(uri, "file:///C:/work/a.rs");
    assert_eq!(uri_to_path(&uri).unwrap(), "/C:/work/a.rs");
}

#[test]
fn callee_column_targets_identifier_after_receiver() {
    let line = "    return obj.helper()";
    assert_eq!(callee_column(line, "helper", 11), 15);
    assert_eq!(callee_column("    return helper()", "helper", 11), 11);
    assert_eq!(callee_column("helper = obj.helper()", "helper", 9), 13);
    assert_eq!(callee_column("    return mangled()", "helper", 11), 11);
    assert_eq!(callee_column("x()", "helper", 40), 40);
    assert_eq!(callee_column("", "helper", 0), 0);
}

#[test]
fn callee_column_walks_non_overlapping_matches() {
    // Matches of "aa" in "aaaa" are at 0 and 2 only.
    assert_eq!(callee_column("aaaa", "aa", 1), 2);
    assert_eq!(callee_column("aaa", "aa", 1), 1);
    assert_eq!(callee_column("abc", "", 7), 7);
}

#[test]
fn name_guard_accepts_exact_and_qualified_tail_matches() {
    assert!(name_matches("helper", None, "helper"));
    assert!(name_matches("Greeter.helper", None, "helper"));
    assert!(name_matches("helper", Some("Greeter.helper"), "helper"));
    assert!(name_matches("helper", Some("mod::helper"), "helper"));
    assert!(!name_matches("main", None, "helper"));
    assert!(!name_matches("main", Some("app.main"), "helper"));
    assert!(!name_matches("do_helper", None, "helper"));
    assert!(!name_matches("", None, "helper"));
    assert!(!name_matches("helper", None, ""));
}

#[test]
fn capability_key_mapping() {
    assert_eq!(capability_key("documentSymbol"), "documentSymbolProvider");
    assert_eq!(capability_key("definition"), "definitionProvider");
    assert_eq!(capability_key("callHierarchy"), "callHierarchyProvider");
    assert_eq!(
        capability_key("documentSymbolProvider"),
        "documentSymbolProvider"
    );
    assert_eq!(capability_key("textDocumentSync"), "textDocumentSync");
}

#[test]
fn probe_report_for_missing_binary() {
    let mut cfg = server("kls", &["kt"], LspBackend::Lsp);
    cfg.capabilities = vec![s("definition")];
    let report = probe_report("kotlin", &cfg, None, vec![]);
    assert!(!report.binary_found);
    assert_eq!(report.backend, "lsp");
    assert_eq!(report.error.as_deref(), Some("`kls` not found on PATH"));
    assert_eq!(report.missing_capabilities, vec![s("definition")]);
    let found = probe_report("kotlin", &cfg, Some(s("/usr/bin/kls")), vec![]);
    assert!(found.binary_found && found.error.is_none());
    assert!(found.missing_capabilities.is_empty());
}

#[test]
fn backend_names() {
    assert_eq!(LspBackend::TreeSitter.as_str(), "tree-sitter");
    assert_eq!(LspBackend::Lsp.as_str(), "lsp");
    assert_eq!(LspBackend::Hybrid.as_str(), "hybrid");
}

#[test]
fn defaults_and_builtin_extensions() {
    let mut rust = server("rust-analyzer", &[], LspBackend::TreeSitter);
    rust.timeout_ms = Some(5000);
    let lsp = vec![
        (s("kotlin"), server("kotlin-language-server", &["kt", "kts"], LspBackend::Lsp)),
        (s("python"), server("pyright-langserver", &[], LspBackend::Hybrid)),
        (s("rust"), rust),
    ];
    let (servers, claims) = validate(&lsp);
    assert_eq!(servers.len(), 3);
    assert_eq!(servers[1].1.extensions, vec!["py", "pyi"]);
    assert_eq!(servers[2].1.extensions, vec!["rs"]);
    assert_eq!(servers[2].1.timeout_ms, Some(5000));
    assert!(claims.contains(&(s("kt"), s("kotlin"))));
    assert!(claims.contains(&(s("py"), s("python"))));
    assert_eq!(
        builtin_extensions("javascript"),
        Some(vec![s("js"), s("mjs"), s("cjs")])
    );
    assert_eq!(builtin_extensions("kotlin"), None);
}

#[test]
fn invalid_blocks_are_dropped_and_timeouts_floored() {
    let mut py = server("pyls", &[], LspBackend::Hybrid);
    py.timeout_ms = Some(0);
    let lsp = vec![
        (s("empty"), server("  ", &["x"], LspBackend::Lsp)),
        (s("kotlin"), server("kls", &[], LspBackend::Lsp)),
        (s("python"), py),
    ];
    let (servers, claims) = validate(&lsp);
    assert_eq!(servers.len(), 1);
    assert_eq!(servers[0].0, "python");
    assert_eq!(servers[0].1.timeout_ms, None);
    assert_eq!(claims, vec![(s("py"), s("python")), (s("pyi"), s("python"))]);
}

#[test]
fn duplicate_extension_claims_first_wins() {
    let lsp = vec![
        (s("alpha"), server("a-ls", &["zz"], LspBackend::Lsp)),
        (s("beta"), server("b-ls", &["zz", "yy"], LspBackend::Lsp)),
    ];
    let (servers, claims) = validate(&lsp);
    assert_eq!(servers.len(), 2);
    assert_eq!(claims, vec![(s("zz"), s("alpha")), (s("yy"), s("beta"))]);
}

#[test]
fn extensions_are_normalized() {
    let lsp = vec![(s("kotlin"), server("kls", &[".KT", " kts ", "  "], LspBackend::Lsp))];
    let (servers, claims) = validate(&lsp);
    assert_eq!(servers[0].1.extensions, vec!["kt", "kts"]);
    assert_eq!(claims, vec![(s("kt"), s("kotlin")), (s("kts"), s("kotlin"))]);
}

fn manager() -> LspManager {
    let cfg = LspConfig {
        lsp: vec![
            (s("go"), server("gopls", &[], LspBackend::TreeSitter)),
            (s("kotlin"), server("kls", &["kt"], LspBackend::Lsp)),
            (s("python"), server("pyls", &[], LspBackend::Hybrid)),
            (s("scala"), server("metals", &["scala"], LspBackend::Hybrid)),
        ],
    };
    LspManager::from_config("/tmp/w", &cfg, false).unwrap()
}

#[test]
fn from_config_is_none_without_lsp_blocks() {
    let cfg = LspConfig { lsp: vec![] };
    assert!(LspManager::from_config("/tmp/w", &cfg, false).is_none());
    let cfg = LspConfig {
        lsp: vec![(s("kotlin"), server("", &["kt"], LspBackend::Lsp))],
    };
    assert!(LspManager::from_config("/tmp/w", &cfg, false).is_none());
}

#[test]
fn backend_for_honors_claims_and_falls_back_to_builtin() {
    let mgr = manager();
    assert_eq!(mgr.backend_for("src/App.kt"), FileBackend::Lsp(s("kotlin")));
    assert_eq!(mgr.backend_for("app/main.py"), FileBackend::Hybrid(s("python")));
    assert_eq!(mgr.backend_for("pkg/x.go"), FileBackend::TreeSitter);
    assert_eq!(mgr.backend_for("core/Main.scala"), FileBackend::Lsp(s("scala")));
    assert_eq!(mgr.backend_for("src/lib.rs"), FileBackend::TreeSitter);
    assert_eq!(mgr.backend_for("README.adoc"), FileBackend::Unsupported);
    assert_eq!(mgr.backend_for("src/App.KT"), FileBackend::Lsp(s("kotlin")));
    assert!(mgr.wants_stage_b(&FileBackend::Hybrid(s("python"))));
    assert!(!mgr.wants_stage_b(&FileBackend::TreeSitter));
    assert_eq!(mgr.command_for("kotlin"), "kls");
    assert_eq!(mgr.command_for("ruby"), "");
    assert_eq!(mgr.root(), "/tmp/w");
}

#[test]
fn capability_diff_uses_provider_keys() {
    let configured = vec![s("documentSymbol"), s("callHierarchyProvider"), s("textDocumentSync"), s("references")];
    let negotiated = vec![s("documentSymbolProvider"), s("textDocumentSync")];
    assert_eq!(
        missing_capabilities(&configured, &negotiated),
        vec![s("callHierarchyProvider"), s("references")]
    );
}

#[test]
fn probe_reports_are_completed_by_the_handshake() {
    let mut cfg = server("kotlin-lsp", &["kt"], LspBackend::Lsp);
    cfg.capabilities = vec![s("documentSymbol"), s("callHierarchy")];
    let report = probe_report("kotlin", &cfg, Some(s("/usr/bin/kotlin-lsp")), vec![]);
    let done = complete_report(
        report,
        &cfg,
        Handshake::Done {
            server_name: Some(s("kls")),
            server_version: Some(s("1.2")),
            capability_names: vec![s("documentSymbolProvider")],
            stderr: vec![s("ready")],
        },
    );
    assert!(done.handshake_ok);
    assert_eq!(done.server_name.as_deref(), Some("kls"));
    assert_eq!(done.missing_capabilities, vec![s("callHierarchy")]);
    assert_eq!(done.negotiated_capabilities, vec![s("documentSymbolProvider")]);
    assert!(done.error.is_none());

    let report = probe_report("kotlin", &cfg, Some(s("/usr/bin/kotlin-lsp")), vec![]);
    let failed = complete_report(
        report,
        &cfg,
        Handshake::Failed { reason: s("initialize timed out"), stderr: vec![] },
    );
    assert!(!failed.handshake_ok);
    assert_eq!(failed.error.as_deref(), Some("initialize timed out"));
    assert_eq!(failed.missing_capabilities, cfg.capabilities);
}

#[test]
fn status_entries_record_the_client_state() {
    let cfg = server("kotlin-lsp", &["kt"], LspBackend::Hybrid);
    let idle = status_entry("kotlin", &cfg, ClientStatus::Idle);
    assert_eq!(idle.state, "idle");
    assert_eq!(idle.backend, "hybrid");
    assert!(idle.reason.is_none());

    let failed = status_entry("kotlin", &cfg, ClientStatus::Failed(s("spawn failed")));
    assert_eq!(failed.state, "failed");
    assert_eq!(failed.reason.as_deref(), Some("spawn failed"));

    let healthy = status_entry(
        "kotlin",
        &cfg,
        ClientStatus::Ready {
            failure: None,
            server_name: Some(s("kls")),
            server_version: None,
            capabilities: vec![s("hoverProvider")],
        },
    );
    assert_eq!(healthy.state, "healthy");
    assert_eq!(healthy.command, "kotlin-lsp");
    assert_eq!(healthy.capabilities, vec![s("hoverProvider")]);

    let died = status_entry(
        "kotlin",
        &cfg,
        ClientStatus::Ready {
            failure: Some(s("3 consecutive request timeouts (last: x)")),
            server_name: None,
            server_version: None,
            capabilities: vec![],
        },
    );
    assert_eq!(died.state, "failed");
    assert_eq!(died.reason.as_deref(), Some("3 consecutive request timeouts (last: x)"));
}

fn server_named(servers: &[(String, LspServerConfig)], language: &str) -> LspServerConfig {
    let (_, cfg) = servers.iter().find(|(l, _)| l == language).unwrap();
    LspServerConfig {
        command: cfg.command.clone(),
        args: cfg.args.clone(),
        extensions: cfg.extensions.clone(),
        root_markers: cfg.root_markers.clone(),
        capabilities: cfg.capabilities.clone(),
        backend: cfg.backend,
        initialization_options: cfg.initialization_options.clone(),
        env: cfg.env.clone(),
        timeout_ms: cfg.timeout_ms,
        source: cfg.source.clone(),
        source_server: cfg.source_server.clone(),
    }
}

fn claim<'a>(claims: &'a [(String, String)], ext: &str) -> &'a str {
    claims.iter().find(|(e, _)| e == ext).map(|(_, l)| l.as_str()).unwrap()
}

#[test]
fn defaults_and_backend_enum() {
    let mut python = server("pyright-langserver", &[], LspBackend::Hybrid);
    python.args = vec![s("--stdio")];
    let mut rust = server("rust-analyzer", &[], LspBackend::TreeSitter);
    rust.timeout_ms = Some(5000);
    let lsp = vec![
        (s("kotlin"), server("kotlin-language-server", &["kt", "kts"], LspBackend::Lsp)),
        (s("python"), python),
        (s("rust"), rust),
    ];
    let (servers, claims) = validate(&lsp);
    assert_eq!(servers.len(), 3);
    // Builtin names get builtin extension defaults.
    assert_eq!(server_named(&servers, "python").extensions, vec!["py", "pyi"]);
    assert_eq!(server_named(&servers, "rust").extensions, vec!["rs"]);
    assert_eq!(server_named(&servers, "python").args, vec!["--stdio"]);
    assert_eq!(server_named(&servers, "rust").timeout_ms, Some(5000));
    assert_eq!(claim(&claims, "kt"), "kotlin");
    assert_eq!(claim(&claims, "py"), "python");
}

#[test]
fn empty_command_is_dropped_not_fatal() {
    let lsp = vec![(s("kotlin"), server("", &["kt"], LspBackend::Hybrid))];
    let (servers, claims) = validate(&lsp);
    assert!(servers.is_empty());
    assert!(claims.is_empty());
}

#[test]
fn dynamic_language_without_extensions_is_dropped() {
    let lsp = vec![(s("kotlin"), server("kls", &[], LspBackend::Hybrid))];
    let (servers, _) = validate(&lsp);
    assert!(servers.is_empty());
}

#[test]
fn zero_timeout_is_floored_to_default() {
    let mut pyls = server("pyls", &[], LspBackend::Hybrid);
    pyls.timeout_ms = Some(0);
    let (servers, _) = validate(&vec![(s("python"), pyls)]);
    assert_eq!(server_named(&servers, "python").timeout_ms, None, "0 falls back to default");

    // Non-zero values pass through.
    let mut pyls = server("pyls", &[], LspBackend::Hybrid);
    pyls.timeout_ms = Some(200);
    let (servers, _) = validate(&vec![(s("python"), pyls)]);
    assert_eq!(server_named(&servers, "python").timeout_ms, Some(200));
}

#[test]
fn fallback_warnings_are_given_once_per_language() {
    let mut m = manager();
    assert_eq!(
        m.warn_fallback("kotlin", "failed to start").as_deref(),
        Some("Warning: LSP server 'kls' for kotlin failed to start; falling back to tree-sitter")
    );
    assert_eq!(m.warn_fallback("kotlin", "crashed"), None);
    assert!(m.warn_fallback("scala", "timed out").is_some());
    assert_eq!(
        m.warn_fallback("cobol", "x").as_deref(),
        Some("Warning: LSP server '' for cobol x; falling back to tree-sitter")
    );
}

#[test]
fn unresolved_edges_are_grouped_by_language_then_file() {
    let mgr = manager();
    let changed = vec![s("src/B.kt"), s("src/A.kt"), s("app/main.py"), s("pkg/x.go")];
    let edge = |id: i64, file: &str, line: u32, name: &str| UnresolvedEdge {
        edge_id: id,
        source_file: s(file),
        line,
        col: 4,
        target_name: s(name),
    };
    let edges = vec![
        edge(1, "src/B.kt", 3, "f"),
        edge(2, "app/main.py", 7, "g"),
        edge(3, "src/A.kt", 1, "h"),
        edge(4, "src/B.kt", 9, "k"),
        // A tree-sitter file and an unchanged file take no part.
        edge(5, "pkg/x.go", 2, "m"),
        edge(6, "src/C.kt", 2, "n"),
    ];
    let groups = group_unresolved(&mgr, &changed, &edges);
    assert_eq!(groups.len(), 2);
    assert_eq!(groups[0].0, "kotlin");
    let files: Vec<&str> = groups[0].1.iter().map(|f| f.0.as_str()).collect();
    assert_eq!(files, vec!["src/A.kt", "src/B.kt"]);
    assert_eq!(groups[0].1[0].1, vec![(3, 1, 4, s("h"))]);
    let b_ids: Vec<i64> = groups[0].1[1].1.iter().map(|e| e.0).collect();
    assert_eq!(b_ids, vec![1, 4]);
    assert_eq!(groups[1].0, "python");
    assert_eq!(groups[1].1, vec![(s("app/main.py"), vec![(2, 7, 4, s("g"))])]);
    assert!(group_unresolved(&mgr, &vec![], &edges).is_empty());
}

#[test]
fn definition_requests_aim_at_the_callee_on_the_zero_based_line() {
    let lines = vec![s("fn main() {"), s("    obj.helper();"), s("}")];
    assert_eq!(definition_position(&lines, 2, 4, "helper"), (1, 8));
    assert_eq!(definition_position(&lines, 2, 4, "missing"), (1, 4));
    assert_eq!(definition_position(&lines, 0, 3, "helper"), (0, 3));
    assert_eq!(definition_position(&lines, 10, 5, "helper"), (9, 5));
}

#[test]
fn client_slots_follow_starts_and_failures() {
    let mut mgr = manager();
    assert_eq!(mgr.client_access("kotlin", None), (ClientAccess::Start, None));
    assert_eq!(mgr.client_access("cobol", None), (ClientAccess::Unavailable, None));
    assert!(mgr.client_slot("kotlin").is_none());
    assert_eq!(mgr.record_start("kotlin", Ok(())), None);
    assert!(matches!(mgr.client_slot("kotlin"), Some(ClientSlot::Ready)));
    assert_eq!(mgr.client_access("kotlin", None), (ClientAccess::Use, None));
    let (access, warning) = mgr.client_access("kotlin", Some("crashed"));
    assert_eq!(access, ClientAccess::Unavailable);
    assert_eq!(
        warning.as_deref(),
        Some("Warning: LSP server 'kls' for kotlin crashed; falling back to tree-sitter")
    );
    // An unusable client is never retried, and warned about once.
    assert_eq!(mgr.client_access("kotlin", None), (ClientAccess::Unavailable, None));
    assert_eq!(mgr.client_access("kotlin", Some("again")), (ClientAccess::Unavailable, None));

    let w = mgr.record_start("python", Err("failed to start: not found".to_string()));
    assert_eq!(
        w.as_deref(),
        Some("Warning: LSP server 'pyls' for python failed to start: not found; falling back to tree-sitter")
    );
    assert!(matches!(mgr.client_slot("python"), Some(ClientSlot::Failed(r)) if r == "failed to start: not found"));
    assert_eq!(mgr.note_failure_if_any("python", Some("x")), None);

    assert_eq!(mgr.record_start("scala", Ok(())), None);
    assert_eq!(mgr.note_failure_if_any("scala", None), None);
    assert!(matches!(mgr.client_slot("scala"), Some(ClientSlot::Ready)));
    let w = mgr.note_failure_if_any("scala", Some("timed out"));
    assert_eq!(
        w.as_deref(),
        Some("Warning: LSP server 'metals' for scala timed out; falling back to tree-sitter")
    );
    assert!(matches!(mgr.client_slot("scala"), Some(ClientSlot::Failed(_))));
}

#[test]
fn the_manager_keeps_the_verbose_flag() {
    assert!(!manager().verbose());
    let cfg = LspConfig { lsp: vec![(s("go"), server("gopls", &[], LspBackend::TreeSitter))] };
    assert!(LspManager::from_config("/tmp/w", &cfg, true).unwrap().verbose());
}
