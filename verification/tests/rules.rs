use ctx::json::SymbolRef;
use ctx::rules::{
    eval_allowed_dependents, eval_forbidden, eval_limits, eval_no_new_dependents, evaluate,
    AllowedDependentsRule, CompiledRules, Endpoint, FileComplexity, FileDep, ForbiddenRule,
    LimitRule, Metric, NoNewDependentsRule, RuleGroups, RuleKind, RulesFile, Scope,
    SymbolMetrics,
};

fn s(x: &str) -> String {
    x.to_string()
}

fn strings(xs: &[&str]) -> Vec<String> {
    xs.iter().map(|x| x.to_string()).collect()
}

fn empty_groups() -> RuleGroups {
    RuleGroups {
        forbidden: vec![],
        allowed_dependents: vec![],
        limit: vec![],
        no_new_dependents: vec![],
    }
}

/// The rules file used by most tests (layers in ascending name order).
fn full_rules() -> RulesFile {
    RulesFile {
        version: 1,
        layers: vec![
            (s("application"), strings(&["src/app/**"])),
            (s("domain"), strings(&["src/domain/**"])),
            (s("infrastructure"), strings(&["src/infra/**", "src/db/**"])),
        ],
        rules: RuleGroups {
            forbidden: vec![ForbiddenRule {
                from: s("domain"),
                to: s("infrastructure"),
                reason: Some(s("Domain layer must stay persistence-agnostic")),
            }],
            allowed_dependents: vec![AllowedDependentsRule {
                layer: s("infrastructure"),
                only: strings(&["application"]),
                reason: None,
            }],
            limit: vec![
                LimitRule {
                    metric: Metric::FanIn,
                    scope: Scope::Symbol,
                    max: 25,
                    exclude: strings(&["src/core/**"]),
                },
                LimitRule {
                    metric: Metric::FileSymbols,
                    scope: Scope::File,
                    max: 50,
                    exclude: vec![],
                },
            ],
            no_new_dependents: vec![NoNewDependentsRule {
                paths: strings(&["src/legacy/**"]),
                reason: Some(s("Legacy module is frozen; do not add new callers")),
            }],
        },
    }
}

fn compile(file: RulesFile) -> CompiledRules {
    match CompiledRules::compile(file) {
        Ok(c) => c,
        Err(e) => panic!("compile failed: {}", e.message()),
    }
}

fn file_dep(from: &str, to: &str) -> FileDep {
    FileDep {
        from: Endpoint::File { file: s(from) },
        to: Endpoint::File { file: s(to) },
        kind: s("import"),
        line: None,
    }
}

fn sym(file: &str, name: &str) -> Endpoint {
    Endpoint::Symbol(SymbolRef {
        name: s(name),
        qualified_name: None,
        kind: s("function"),
        file: s(file),
        line_start: 1,
        line_end: 2,
    })
}

fn symbol_dep(from_file: &str, from_name: &str, to_file: &str, to_name: &str) -> FileDep {
    FileDep {
        from: sym(from_file, from_name),
        to: sym(to_file, to_name),
        kind: s("calls"),
        line: Some(1),
    }
}

fn metrics(name: &str, file: &str, fan_in: i64, fan_out: i64, complexity: i64) -> SymbolMetrics {
    SymbolMetrics {
        id: format!("{}::{}", file, name),
        name: s(name),
        qualified_name: None,
        kind: s("function"),
        file_path: s(file),
        line_start: 10,
        line_end: 20,
        fan_in,
        fan_out,
        complexity,
    }
}

fn err_text<T>(r: Result<T, ctx::error::CtxError>) -> String {
    match r {
        Ok(_) => panic!("expected an error"),
        Err(e) => e.message(),
    }
}

#[test]
fn test_compile_rejects_unsupported_version() {
    let file = RulesFile {
        version: 2,
        layers: vec![],
        rules: empty_groups(),
    };
    let err = err_text(CompiledRules::compile(file));
    assert!(err.contains("version 2"), "err: {}", err);
    assert_eq!(err, "unsupported rules version 2 (this build supports version 1)");
}

#[test]
fn test_compile_rejects_invalid_glob() {
    let file = RulesFile {
        version: 1,
        layers: vec![(s("domain"), strings(&["src/[oops"]))],
        rules: empty_groups(),
    };
    let err = err_text(CompiledRules::compile(file));
    assert!(err.contains("src/[oops"), "err: {}", err);
    assert!(err.starts_with("invalid glob 'src/[oops' in layer 'domain': "), "err: {}", err);
}

#[test]
fn compile_names_the_failing_limit_exclude() {
    let mut file = full_rules();
    file.rules.limit[1].exclude = strings(&["ok/**", "bad/[x"]);
    let err = err_text(CompiledRules::compile(file));
    assert!(
        err.starts_with("invalid glob 'bad/[x' in rules.limit[1].exclude: "),
        "err: {}",
        err
    );
}

#[test]
fn compile_names_the_failing_frozen_paths() {
    let mut file = full_rules();
    file.rules.no_new_dependents[0].paths = strings(&["{a,b"]);
    let err = err_text(CompiledRules::compile(file));
    assert!(
        err.starts_with("invalid glob '{a,b' in rules.no_new_dependents[0].paths: "),
        "err: {}",
        err
    );
}

#[test]
fn test_validate_ok() {
    let compiled = compile(full_rules());
    let files = strings(&[
        "src/domain/order.ts",
        "src/app/checkout.ts",
        "src/infra/db.ts",
        "src/unlayered.ts",
    ]);
    assert!(compiled.validate(&files).is_ok());
}

#[test]
fn test_validate_unknown_layer() {
    let compiled = compile(RulesFile {
        version: 1,
        layers: vec![(s("domain"), strings(&["src/domain/**"]))],
        rules: RuleGroups {
            forbidden: vec![ForbiddenRule {
                from: s("domain"),
                to: s("infrastruture"),
                reason: None,
            }],
            ..empty_groups()
        },
    });
    let msg = err_text(compiled.validate(&vec![]));
    assert!(msg.contains("unknown layer 'infrastruture'"), "err: {}", msg);
    assert!(msg.contains("domain"), "err: {}", msg);
    assert_eq!(
        msg,
        "rules.forbidden.to: unknown layer 'infrastruture' (declared layers: [domain])"
    );
}

#[test]
fn validate_reports_unknown_allowed_dependents_entry() {
    let compiled = compile(RulesFile {
        version: 1,
        layers: vec![
            (s("app"), strings(&["src/app/**"])),
            (s("core"), strings(&["src/core/**"])),
        ],
        rules: RuleGroups {
            allowed_dependents: vec![AllowedDependentsRule {
                layer: s("core"),
                only: strings(&["app", "ui"]),
                reason: None,
            }],
            ..empty_groups()
        },
    });
    let msg = err_text(compiled.validate(&vec![]));
    assert_eq!(
        msg,
        "rules.allowed_dependents.only: unknown layer 'ui' (declared layers: [app, core])"
    );
}

#[test]
fn test_validate_layer_overlap_names_file_and_layers() {
    let compiled = compile(RulesFile {
        version: 1,
        layers: vec![
            (s("domain"), strings(&["src/domain/**"])),
            (s("everything"), strings(&["src/**"])),
        ],
        rules: empty_groups(),
    });
    let files = strings(&["src/domain/order.ts"]);
    let msg = err_text(compiled.validate(&files));
    assert!(msg.contains("src/domain/order.ts"), "err: {}", msg);
    assert!(msg.contains("domain"), "err: {}", msg);
    assert!(msg.contains("everything"), "err: {}", msg);
    assert_eq!(
        msg,
        "layer overlap: file 'src/domain/order.ts' matches layers [domain, everything]; each file may belong to at most one layer"
    );
}

#[test]
fn test_validate_file_symbols_symbol_scope_is_error() {
    let compiled = compile(RulesFile {
        version: 1,
        layers: vec![],
        rules: RuleGroups {
            limit: vec![LimitRule {
                metric: Metric::FileSymbols,
                scope: Scope::Symbol,
                max: 50,
                exclude: vec![],
            }],
            ..empty_groups()
        },
    });
    let msg = err_text(compiled.validate(&vec![]));
    assert!(msg.contains("file_symbols"), "err: {}", msg);
}

#[test]
fn test_layer_of() {
    let compiled = compile(full_rules());
    assert_eq!(compiled.layer_of("src/domain/order.ts"), Some("domain"));
    assert_eq!(compiled.layer_of("src/db/pool.ts"), Some("infrastructure"));
    assert_eq!(compiled.layer_of("src/other/x.ts"), None);
}

#[test]
fn layers_of_and_counts() {
    let compiled = compile(full_rules());
    assert_eq!(compiled.layers_of("src/infra/db.ts"), vec!["infrastructure"]);
    assert!(compiled.layers_of("README.md").is_empty());
    let files = strings(&["src/app/a.ts", "src/app/b.ts", "src/db/c.ts", "x.ts"]);
    assert_eq!(
        compiled.layer_file_counts(&files),
        vec![
            (s("application"), 2),
            (s("domain"), 0),
            (s("infrastructure"), 1)
        ]
    );
}

#[test]
fn test_eval_forbidden() {
    let compiled = compile(full_rules());
    let deps = vec![
        file_dep("src/domain/order.ts", "src/infra/db.ts"),
        file_dep("src/app/checkout.ts", "src/infra/db.ts"),
        file_dep("src/domain/order.ts", "src/domain/item.ts"),
        symbol_dep("src/domain/pay.ts", "pay", "src/db/pool.ts", "query"),
    ];
    let violations = eval_forbidden(&compiled, &deps);
    assert_eq!(violations.len(), 2);
    assert_eq!(violations[0].rule, RuleKind::Forbidden);
    assert_eq!(violations[0].file, "src/domain/order.ts");
    assert_eq!(
        violations[0].reason,
        "Domain layer must stay persistence-agnostic"
    );
    assert_eq!(violations[1].file, "src/domain/pay.ts");
    assert_eq!(violations[1].line, Some(1));
    assert_eq!(violations[0].rule_id, "forbidden: domain -> infrastructure");
    assert_eq!(
        violations[0].message,
        "src/domain/order.ts -> src/infra/db.ts [import]"
    );
    assert_eq!(
        violations[1].message,
        "src/domain/pay.ts:1 -> src/db/pool.ts [calls query]"
    );
}

#[test]
fn test_eval_allowed_dependents_exempts_unlayered_and_self() {
    let compiled = compile(full_rules());
    let deps = vec![
        file_dep("src/app/checkout.ts", "src/infra/db.ts"),
        file_dep("src/domain/order.ts", "src/infra/db.ts"),
        file_dep("src/scripts/tool.ts", "src/infra/db.ts"),
        file_dep("src/infra/cache.ts", "src/infra/db.ts"),
    ];
    let violations = eval_allowed_dependents(&compiled, &deps);
    assert_eq!(violations.len(), 1);
    assert_eq!(violations[0].rule, RuleKind::AllowedDependents);
    assert_eq!(violations[0].file, "src/domain/order.ts");
    assert!(
        violations[0].reason.contains("domain"),
        "{}",
        violations[0].reason
    );
    assert_eq!(
        violations[0].reason,
        "only [application] may depend on layer 'infrastructure' (found dependent in layer 'domain')"
    );
    assert_eq!(
        violations[0].rule_id,
        "allowed_dependents: infrastructure only [application]"
    );
}

#[test]
fn test_eval_limit_symbol_scope_with_exclude() {
    let compiled = compile(full_rules());
    let symbol_metrics = vec![
        metrics("hot", "src/app/hub.ts", 30, 0, 30),
        metrics("ok", "src/app/x.ts", 25, 0, 25),
        metrics("core", "src/core/bus.ts", 99, 0, 99),
    ];
    let violations = eval_limits(&compiled, &symbol_metrics, &vec![]);
    assert_eq!(violations.len(), 1);
    let v = &violations[0];
    assert_eq!(v.rule, RuleKind::Limit);
    assert_eq!(v.metric, Some(Metric::FanIn));
    assert_eq!(v.value, Some(30));
    assert_eq!(v.max, Some(25));
    assert_eq!(v.file, "src/app/hub.ts");
    match v.subject.as_ref().unwrap() {
        Endpoint::Symbol(s) => assert_eq!(s.name, "hot"),
        other => panic!("expected symbol subject, got {:?}", other),
    }
    assert_eq!(v.rule_id, "limit: fan_in <= 25 (symbol)");
    assert_eq!(v.reason, "fan_in 30 exceeds max 25");
    assert_eq!(v.message, "src/app/hub.ts:10 (hot): fan_in 30 exceeds max 25");
}

#[test]
fn test_eval_limit_file_scope_sums_and_counts() {
    let compiled = compile(RulesFile {
        version: 1,
        layers: vec![],
        rules: RuleGroups {
            limit: vec![
                LimitRule {
                    metric: Metric::FanOut,
                    scope: Scope::File,
                    max: 10,
                    exclude: vec![],
                },
                LimitRule {
                    metric: Metric::FileSymbols,
                    scope: Scope::File,
                    max: 2,
                    exclude: vec![],
                },
            ],
            ..empty_groups()
        },
    });
    let symbol_metrics = vec![
        metrics("a", "src/big.ts", 0, 7, 14),
        metrics("b", "src/big.ts", 0, 6, 12),
        metrics("c", "src/small.ts", 0, 3, 6),
    ];
    let file_complexity = vec![
        FileComplexity {
            file_path: s("src/big.ts"),
            complexity: 26,
            fan_out: 13,
            symbol_count: 3,
        },
        FileComplexity {
            file_path: s("src/small.ts"),
            complexity: 6,
            fan_out: 3,
            symbol_count: 1,
        },
    ];
    let violations = eval_limits(&compiled, &symbol_metrics, &file_complexity);
    assert_eq!(violations.len(), 2);
    assert_eq!(violations[0].metric, Some(Metric::FanOut));
    assert_eq!(violations[0].value, Some(13));
    assert_eq!(violations[0].file, "src/big.ts");
    assert_eq!(violations[1].metric, Some(Metric::FileSymbols));
    assert_eq!(violations[1].value, Some(3));
    assert_eq!(violations[0].message, "src/big.ts: fan_out 13 exceeds max 10");
}

#[test]
fn file_scope_limits_report_files_in_path_order() {
    let compiled = compile(RulesFile {
        version: 1,
        layers: vec![],
        rules: RuleGroups {
            limit: vec![LimitRule {
                metric: Metric::Complexity,
                scope: Scope::File,
                max: 5,
                exclude: strings(&["gen/**"]),
            }],
            ..empty_groups()
        },
    });
    let symbol_metrics = vec![
        metrics("z", "src/z.ts", 0, 0, 6),
        metrics("a", "src/a.ts", 0, 0, 3),
        metrics("g", "gen/out.ts", 0, 0, 50),
        metrics("a2", "src/a.ts", 0, 0, 4),
        metrics("m", "src/m.ts", 0, 0, 5),
    ];
    let violations = eval_limits(&compiled, &symbol_metrics, &vec![]);
    let files: Vec<&str> = violations.iter().map(|v| v.file.as_str()).collect();
    assert_eq!(files, vec!["src/a.ts", "src/z.ts"]);
    assert_eq!(violations[0].value, Some(7));
}

#[test]
fn test_eval_no_new_dependents_without_against_reports_all_inbound() {
    let compiled = compile(full_rules());
    let deps = vec![
        file_dep("src/app/checkout.ts", "src/legacy/billing.ts"),
        file_dep("src/legacy/a.ts", "src/legacy/billing.ts"),
        file_dep("src/app/checkout.ts", "src/app/cart.ts"),
    ];
    let violations = eval_no_new_dependents(&compiled, &deps, None);
    assert_eq!(violations.len(), 1);
    assert_eq!(violations[0].rule, RuleKind::NoNewDependents);
    assert_eq!(violations[0].file, "src/app/checkout.ts");
    assert_eq!(
        violations[0].reason,
        "Legacy module is frozen; do not add new callers"
    );
    assert_eq!(violations[0].rule_id, "no_new_dependents: [src/legacy/**]");
}

#[test]
fn test_eval_no_new_dependents_with_against_requires_changed_source() {
    let compiled = compile(full_rules());
    let deps = vec![
        file_dep("src/app/old.ts", "src/legacy/billing.ts"),
        file_dep("src/app/new.ts", "src/legacy/billing.ts"),
    ];
    let changed = strings(&["src/app/new.ts"]);
    let violations = eval_no_new_dependents(&compiled, &deps, Some(&changed));
    assert_eq!(violations.len(), 1);
    assert_eq!(violations[0].file, "src/app/new.ts");
}

#[test]
fn test_evaluate_against_filters_by_endpoint() {
    let compiled = compile(full_rules());
    let deps = vec![
        file_dep("src/domain/old.ts", "src/infra/db.ts"),
        file_dep("src/domain/new.ts", "src/infra/db.ts"),
    ];
    let symbol_metrics = vec![
        metrics("hot", "src/app/hub.ts", 30, 0, 30),
        metrics("warm", "src/app/new2.ts", 40, 0, 40),
    ];

    let all = evaluate(&compiled, &deps, &symbol_metrics, &vec![], None);
    assert_eq!(all.len(), 6);

    let changed = strings(&["src/domain/new.ts", "src/app/new2.ts"]);
    let filtered = evaluate(&compiled, &deps, &symbol_metrics, &vec![], Some(&changed));
    assert_eq!(filtered.len(), 3);
    assert!(filtered
        .iter()
        .all(|v| v.endpoint_files().iter().any(|f| changed.iter().any(|c| c == f))));
}

#[test]
fn default_reasons_name_the_layers() {
    let mut file = full_rules();
    file.rules.forbidden[0].reason = None;
    file.rules.no_new_dependents[0].reason = None;
    let compiled = compile(file);
    let v = eval_forbidden(&compiled, &vec![file_dep("src/domain/a.ts", "src/db/b.ts")]);
    assert_eq!(v[0].reason, "layer 'domain' must not depend on 'infrastructure'");
    let v = eval_no_new_dependents(
        &compiled,
        &vec![file_dep("src/app/a.ts", "src/legacy/b.ts")],
        None,
    );
    assert_eq!(v[0].reason, "[src/legacy/**] must not gain new dependents");
}

#[test]
fn metric_scope_and_kind_names() {
    assert_eq!(Metric::FanIn.as_str(), "fan_in");
    assert_eq!(Metric::FanOut.as_str(), "fan_out");
    assert_eq!(Metric::Complexity.as_str(), "complexity");
    assert_eq!(Metric::FileSymbols.as_str(), "file_symbols");
    assert_eq!(Scope::Symbol.as_str(), "symbol");
    assert_eq!(Scope::File.as_str(), "file");
    assert_eq!(RuleKind::Forbidden.as_str(), "forbidden");
    assert_eq!(RuleKind::AllowedDependents.as_str(), "allowed_dependents");
    assert_eq!(RuleKind::Limit.as_str(), "limit");
    assert_eq!(RuleKind::NoNewDependents.as_str(), "no_new_dependents");
}

#[test]
fn a_change_set_keeps_exactly_the_touching_violations_in_order() {
    let compiled = compile(full_rules());
    let deps = vec![
        file_dep("src/domain/old.ts", "src/infra/db.ts"),
        file_dep("src/domain/new.ts", "src/infra/db.ts"),
        file_dep("src/app/new2.ts", "src/legacy/x.ts"),
        file_dep("src/app/old2.ts", "src/legacy/y.ts"),
    ];
    let symbol_metrics = vec![
        metrics("hot", "src/app/hub.ts", 30, 0, 30),
        metrics("warm", "src/app/new2.ts", 40, 0, 40),
    ];
    let changed = strings(&["src/domain/new.ts", "src/app/new2.ts"]);
    let touches = |v: &ctx::rules::Violation| {
        v.endpoint_files().iter().any(|f| changed.iter().any(|c| c == f))
    };
    let all = evaluate(&compiled, &deps, &symbol_metrics, &vec![], None);
    let some = evaluate(&compiled, &deps, &symbol_metrics, &vec![], Some(&changed));
    let expected: Vec<(String, String)> = all
        .iter()
        .filter(|v| v.rule != RuleKind::NoNewDependents && touches(v))
        .map(|v| (v.rule_id.clone(), v.message.clone()))
        .collect();
    let got: Vec<(String, String)> = some
        .iter()
        .filter(|v| v.rule != RuleKind::NoNewDependents)
        .map(|v| (v.rule_id.clone(), v.message.clone()))
        .collect();
    assert!(!expected.is_empty());
    assert_eq!(got, expected);
    let frozen: Vec<_> = some.iter().filter(|v| v.rule == RuleKind::NoNewDependents).collect();
    assert_eq!(frozen.len(), 1);
    assert!(changed.contains(&frozen[0].file));
}

#[test]
fn layers_out_of_order_or_repeated_do_not_compile() {
    let layers_file = |names: &[&str]| RulesFile {
        version: 1,
        layers: names.iter().map(|n| (s(n), strings(&["src/**"]))).collect(),
        rules: empty_groups(),
    };
    let msg = "layers must be listed once each, in ascending name order";
    assert_eq!(err_text(CompiledRules::compile(layers_file(&["domain", "app"]))), msg);
    assert_eq!(err_text(CompiledRules::compile(layers_file(&["app", "app"]))), msg);
    assert!(CompiledRules::compile(layers_file(&["app", "core", "domain"])).is_ok());
}
