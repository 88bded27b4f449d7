use ctx::harness::doctor::{
    is_healthy, run_doctor_checks, AgentLayout, DoctorFacts, Finding, HookContent, HookScript, IndexFacts,
    LockEntry, RulesFacts, Severity, RULES_PATH,
};
use ctx::rules::{RuleGroups, RulesFile};

fn codes(findings: &[Finding]) -> Vec<&'static str> {
    findings.iter().map(|f| f.code).collect()
}

fn find<'a>(findings: &'a [Finding], code: &str) -> &'a Finding {
    findings
        .iter()
        .find(|f| f.code == code)
        .unwrap_or_else(|| panic!("no finding {code} in {:?}", codes(findings)))
}

/// What the checks read of an empty directory.
fn empty_dir() -> DoctorFacts {
    DoctorFacts {
        mcp_feature: false,
        expected_schema: 7,
        agent: AgentLayout {
            target: "agent".to_string(),
            hooks_dir: ".agent/hooks/ctx".to_string(),
            settings_file: ".agent/settings.json".to_string(),
        },
        local_scaffold: false,
        plugin_scaffold: false,
        codex_local_scaffold: false,
        codex_plugin_scaffold: false,
        lock: None,
        hook_scripts: vec![],
        index: IndexFacts::Missing,
        rules: RulesFacts::Missing,
        agent_settings: None,
        codex_hooks: None,
        mcp_json: None,
    }
}

/// The error text of parsing `content` as TOML.
fn toml_error(content: &str) -> String {
    toml::from_str::<toml::Value>(content).unwrap_err().to_string()
}

fn script(rel: &str, checksum: &str, recorded: Option<&str>, version: Option<&str>) -> HookScript {
    HookScript {
        rel: rel.to_string(),
        content: Some(HookContent {
            checksum: checksum.to_string(),
            recorded: recorded.map(|r| r.to_string()),
            generated_version: version.map(|v| v.to_string()),
        }),
    }
}

/// A complete local scaffold whose hooks carry matching checksums.
fn local_scaffold() -> DoctorFacts {
    let mut facts = empty_dir();
    facts.local_scaffold = true;
    facts.hook_scripts = ["session-start", "post-tool-use", "stop"]
        .iter()
        .map(|n| {
            script(
                &format!(".agent/hooks/ctx/{n}.sh"),
                "abc",
                Some("abc"),
                Some("0.1.0"),
            )
        })
        .collect();
    facts.agent_settings = Some(
        "{\"hooks\": {\"SessionStart\": [{\"hooks\": [{\"type\": \"command\", \"command\": \"\\\"$AGENT_PROJECT_DIR\\\"/.agent/hooks/ctx/session-start.sh\"}]}]}}"
            .to_string(),
    );
    facts.index = IndexFacts::Opened {
        user_version: 7,
        last_indexed: Some(100),
        modified: Some(vec![Some(90), None, Some(100)]),
    };
    facts
}

#[test]
fn test_empty_dir_reports_missing_index_and_not_initialized() {
    let findings = run_doctor_checks(empty_dir());

    assert_eq!(find(&findings, "binary_version").severity, Severity::Info);
    let missing = find(&findings, "index_missing");
    assert_eq!(missing.severity, Severity::Warning);
    assert!(missing.hint.as_deref().unwrap().contains("ctx index"));
    assert_eq!(find(&findings, "harness_not_initialized").severity, Severity::Info);
    assert_eq!(find(&findings, "rules_missing").severity, Severity::Info);
    assert!(!is_healthy(&findings), "index_missing is a warning");
}

#[test]
fn test_invalid_rules_is_a_distinct_error_finding() {
    let mut facts = empty_dir();
    facts.rules = RulesFacts::Unparsable(toml_error("[layers\nbroken = ["));

    let findings = run_doctor_checks(facts);
    let invalid = find(&findings, "rules_invalid");
    assert_eq!(invalid.severity, Severity::Error);
    assert!(invalid.message.contains(".ctx/rules.toml"));
}

#[test]
fn test_index_missing_and_rules_invalid_are_reported_simultaneously() {
    let mut facts = empty_dir();
    facts.rules = RulesFacts::Unparsable(toml_error("not toml at all [[["));

    let findings = run_doctor_checks(facts);
    let all = codes(&findings);
    assert!(all.contains(&"index_missing"), "codes: {all:?}");
    assert!(all.contains(&"rules_invalid"), "codes: {all:?}");
    assert_ne!("index_missing", "rules_invalid");
    assert!(!is_healthy(&findings));
}

#[test]
fn doctor_findings_come_in_check_order() {
    let findings = run_doctor_checks(empty_dir());
    assert_eq!(
        codes(&findings),
        vec!["binary_version", "harness_not_initialized", "index_missing", "rules_missing"]
    );
    assert_eq!(findings[0].message, "ctx v0.1.0 (mcp feature: not compiled in)");
    assert!(findings[0].hint.is_none());
    assert_eq!(findings[3].message, format!("no rules file ({RULES_PATH})"));
}

#[test]
fn healthy_local_scaffold_reports_only_info() {
    let findings = run_doctor_checks(local_scaffold());
    for finding in &findings {
        assert_eq!(finding.severity, Severity::Info, "unexpected non-info finding: {:?}", finding);
    }
    assert!(is_healthy(&findings));
}

#[test]
fn modified_and_missing_hooks_are_flagged() {
    let mut facts = local_scaffold();
    facts.hook_scripts[2] = script(".agent/hooks/ctx/stop.sh", "changed", Some("abc"), None);
    facts.hook_scripts[0].content = None;

    let findings = run_doctor_checks(facts);
    let modified = find(&findings, "hooks_modified");
    assert!(modified.message.contains("stop.sh"));
    assert!(!modified.message.contains("post-tool-use.sh"));
    let missing = find(&findings, "hooks_missing");
    assert_eq!(missing.message, "hook scripts missing: .agent/hooks/ctx/session-start.sh");
    assert!(!is_healthy(&findings));
}

#[test]
fn manifest_checksum_wins_over_the_header_and_loses_its_prefix() {
    let mut facts = local_scaffold();
    facts.lock = Some(vec![LockEntry {
        rel: ".agent/hooks/ctx/stop.sh".to_string(),
        ctx_version: "0.1.0".to_string(),
        checksum: "sha256:def".to_string(),
        present: true,
    }]);
    facts.hook_scripts[2] = script(".agent/hooks/ctx/stop.sh", "def", Some("abc"), Some("0.1.0"));
    let findings = run_doctor_checks(facts);
    assert!(!codes(&findings).contains(&"hooks_modified"), "{:?}", codes(&findings));

    let mut facts = local_scaffold();
    facts.hook_scripts[1] = script(".agent/hooks/ctx/post-tool-use.sh", "abc", None, None);
    let findings = run_doctor_checks(facts);
    assert_eq!(
        find(&findings, "hooks_modified").message,
        "hook scripts modified since generation (checksum mismatch): .agent/hooks/ctx/post-tool-use.sh"
    );
}

#[test]
fn stale_templates_list_manifest_entries_then_headers() {
    let mut facts = local_scaffold();
    facts.lock = Some(vec![
        LockEntry {
            rel: ".agent/hooks/ctx/stop.sh".to_string(),
            ctx_version: "0.0.9".to_string(),
            checksum: "abc".to_string(),
            present: true,
        },
        LockEntry {
            rel: "gone.json".to_string(),
            ctx_version: "0.0.9".to_string(),
            checksum: "abc".to_string(),
            present: false,
        },
    ]);
    facts.hook_scripts[0] =
        script(".agent/hooks/ctx/session-start.sh", "abc", Some("abc"), Some("0.0.8"));
    facts.hook_scripts[2] = script(".agent/hooks/ctx/stop.sh", "abc", Some("abc"), Some("0.0.8"));
    let findings = run_doctor_checks(facts);
    let stale = find(&findings, "templates_stale");
    assert_eq!(stale.severity, Severity::Warning);
    assert_eq!(
        stale.message,
        "generated files are from a different ctx version than v0.1.0: .agent/hooks/ctx/stop.sh (v0.0.9), .agent/hooks/ctx/session-start.sh (v0.0.8)"
    );
}

#[test]
fn codex_scaffold_checks_hook_wiring() {
    let mut facts = empty_dir();
    facts.codex_local_scaffold = true;
    facts.codex_hooks = Some("{\"hooks\": \".codex/hooks/ctx/stop.sh\"}".to_string());
    let findings = run_doctor_checks(facts);
    assert!(!codes(&findings).contains(&"codex_hooks_not_wired"));

    let mut facts = empty_dir();
    facts.codex_local_scaffold = true;
    facts.codex_hooks = Some("{}\n".to_string());
    let findings = run_doctor_checks(facts);
    assert_eq!(find(&findings, "codex_hooks_not_wired").severity, Severity::Warning);

    let mut facts = empty_dir();
    facts.codex_local_scaffold = true;
    facts.codex_hooks = Some("{ .codex/hooks/ctx/ ".to_string());
    let findings = run_doctor_checks(facts);
    assert_eq!(find(&findings, "codex_hooks_not_wired").severity, Severity::Warning);
}

#[test]
fn index_schema_and_staleness() {
    let mut facts = empty_dir();
    facts.index = IndexFacts::Opened { user_version: -1, last_indexed: None, modified: None };
    let findings = run_doctor_checks(facts);
    let schema = find(&findings, "index_schema");
    assert_eq!(schema.severity, Severity::Error);
    assert_eq!(schema.message, "index schema version is -1, this ctx expects 7");

    let mut facts = empty_dir();
    facts.index = IndexFacts::Opened {
        user_version: 7,
        last_indexed: Some(50),
        modified: Some(vec![Some(51), Some(10), None, Some(70)]),
    };
    let findings = run_doctor_checks(facts);
    assert_eq!(
        find(&findings, "index_stale").message,
        "2 files modified after the last index update"
    );

    let mut facts = empty_dir();
    facts.index = IndexFacts::Opened {
        user_version: 7,
        last_indexed: Some(50),
        modified: Some(vec![Some(51)]),
    };
    let findings = run_doctor_checks(facts);
    assert_eq!(
        find(&findings, "index_stale").message,
        "1 file modified after the last index update"
    );

    let mut facts = empty_dir();
    facts.index = IndexFacts::Unopenable("file is not a database".to_string());
    let findings = run_doctor_checks(facts);
    assert_eq!(
        find(&findings, "index_schema").message,
        "cannot open .ctx/codebase.sqlite: file is not a database"
    );
}

#[test]
fn parsed_rules_are_compiled() {
    let mut facts = empty_dir();
    facts.rules = RulesFacts::Parsed(RulesFile {
        version: 2,
        layers: vec![],
        rules: RuleGroups {
            forbidden: vec![],
            allowed_dependents: vec![],
            limit: vec![],
            no_new_dependents: vec![],
        },
    });
    let findings = run_doctor_checks(facts);
    let invalid = find(&findings, "rules_invalid");
    assert!(invalid.message.starts_with(".ctx/rules.toml is invalid: "));

    let mut facts = empty_dir();
    facts.rules = RulesFacts::Parsed(RulesFile {
        version: 1,
        layers: vec![],
        rules: RuleGroups {
            forbidden: vec![],
            allowed_dependents: vec![],
            limit: vec![],
            no_new_dependents: vec![],
        },
    });
    let findings = run_doctor_checks(facts);
    assert!(!codes(&findings).contains(&"rules_invalid"));
    assert!(!codes(&findings).contains(&"rules_missing"));
}

#[test]
fn mcp_wiring_findings() {
    let mut facts = empty_dir();
    facts.mcp_json = Some("{\"mcpServers\": {\"ctx\": {\"args\": [\"serve\", \"--mcp\"]}}}".to_string());
    let findings = run_doctor_checks(facts);
    assert_eq!(find(&findings, "mcp_unavailable").severity, Severity::Warning);

    let mut facts = empty_dir();
    facts.mcp_feature = true;
    facts.plugin_scaffold = true;
    let findings = run_doctor_checks(facts);
    assert_eq!(find(&findings, "mcp_not_wired").severity, Severity::Info);
    assert_eq!(
        find(&findings, "binary_version").message,
        "ctx v0.1.0 (mcp feature: compiled in)"
    );
}

#[test]
fn finding_new_copies_the_hint() {
    let f = Finding::new(Severity::Warning, "index_missing", "msg".to_string(), Some("h"));
    assert_eq!(f.severity, Severity::Warning);
    assert_eq!(f.code, "index_missing");
    assert_eq!(f.message, "msg");
    assert_eq!(f.hint.as_deref(), Some("h"));
    assert!(Finding::new(Severity::Info, "x", String::new(), None).hint.is_none());
}

#[test]
fn unwired_agent_settings_name_the_layout() {
    let mut facts = local_scaffold();
    facts.agent_settings = Some("{}".to_string());
    let findings = run_doctor_checks(facts);
    let unwired = find(&findings, "settings_not_wired");
    assert_eq!(
        unwired.message,
        ".agent/settings.json does not reference the generated hooks under .agent/hooks/ctx/"
    );
    assert_eq!(
        unwired.hint.as_deref(),
        Some("add the settings snippet printed by 'ctx harness init' to .agent/settings.json")
    );

    let findings = run_doctor_checks(empty_dir());
    assert_eq!(
        find(&findings, "harness_not_initialized").hint.as_deref(),
        Some("run 'ctx harness init --target agent|codex' to wire ctx into an agent")
    );
}
