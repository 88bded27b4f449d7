use ctx::lsp::extract::{
    call_hierarchy_targets, edges_from_outgoing_calls, into_parse_result, map_kind,
    symbols_from_response, CallHierarchyItem,
    DocumentSymbol, DocumentSymbolResponse, LspPosition, LspRange, OutgoingCall,
    SymbolInformation,
};
use ctx::model::{EdgeKind, SymbolKind, Visibility};

const KOTLIN_FIXTURE: &str = "class Greeter {\n    val name = \"x\"\n    fun greet(who: String): String {\n        val message = \"hi\"\n        return message + who\n    }\n}\nfun _hidden() {}\nfun top() {}\n";

fn range(l0: u32, c0: u32, l1: u32, c1: u32) -> LspRange {
    LspRange {
        start: LspPosition { line: l0, character: c0 },
        end: LspPosition { line: l1, character: c1 },
    }
}

fn node(
    name: &str,
    detail: Option<&str>,
    kind: u32,
    r: LspRange,
    sel: LspRange,
    children: Option<Vec<DocumentSymbol>>,
) -> DocumentSymbol {
    DocumentSymbol {
        name: name.to_string(),
        detail: detail.map(|d| d.to_string()),
        kind,
        range: r,
        selection_range: sel,
        children,
    }
}

/// A hierarchical document-symbol answer for `KOTLIN_FIXTURE`.
fn nested_response() -> DocumentSymbolResponse {
    let message = node("message", None, 13, range(3, 8, 3, 28), range(3, 12, 3, 19), None);
    let greet = node(
        "greet",
        Some("fun greet(who: String): String"),
        6,
        range(2, 4, 5, 5),
        range(2, 8, 2, 13),
        Some(vec![message]),
    );
    let field = node("name", None, 8, range(1, 4, 1, 18), range(1, 8, 1, 12), None);
    let class = node(
        "Greeter",
        None,
        5,
        range(0, 0, 6, 1),
        range(0, 6, 0, 13),
        Some(vec![field, greet]),
    );
    let hidden = node("_hidden", None, 12, range(7, 0, 7, 16), range(7, 4, 7, 11), None);
    let top = node("top", None, 12, range(8, 0, 8, 12), range(8, 4, 8, 7), None);
    DocumentSymbolResponse::Nested(vec![class, hidden, top])
}

#[test]
fn nested_symbols_convert_with_hierarchy_and_line_conversion() {
    let extracted = symbols_from_response("src/main.kt", KOTLIN_FIXTURE, nested_response());
    let names: Vec<&str> = extracted.iter().map(|e| e.symbol.name.as_str()).collect();
    assert_eq!(names, vec!["Greeter", "name", "greet", "_hidden", "top"]);

    let class = &extracted[0].symbol;
    assert_eq!(class.kind, SymbolKind::Class);
    assert_eq!(class.line_start, 1, "0-based LSP line 0 -> ctx line 1");
    assert_eq!(class.line_end, 7);
    assert_eq!(class.id, "src/main.kt::Greeter");
    assert!(class.parent_id.is_none());
    assert!(class.qualified_name.is_none(), "top level has no chain");
    assert_eq!(class.visibility, Visibility::Public);
    assert!(class.source.as_deref().unwrap().starts_with("class Greeter"));

    let field = &extracted[1].symbol;
    assert_eq!(field.kind, SymbolKind::Field);
    assert_eq!(field.parent_id.as_deref(), Some("src/main.kt::Greeter"));
    assert_eq!(field.qualified_name.as_deref(), Some("Greeter.name"));

    let method = &extracted[2].symbol;
    assert_eq!(method.kind, SymbolKind::Method);
    assert_eq!(method.id, "src/main.kt::Greeter::greet");
    assert_eq!(method.qualified_name.as_deref(), Some("Greeter.greet"));
    assert_eq!(method.signature.as_deref(), Some("fun greet(who: String): String"));
    assert_eq!(method.line_start, 3);
    assert_eq!(method.line_end, 6);
    assert_eq!(extracted[2].sel_line, 2);
    assert_eq!(extracted[2].sel_col, 8);

    // The local `message` variable inside the method was skipped.
    assert!(!names.contains(&"message"));

    // Leading underscore -> private.
    assert_eq!(extracted[3].symbol.visibility, Visibility::Private);
}

#[test]
fn kind_mapping_table() {
    let cases: Vec<(u32, Option<SymbolKind>)> = vec![
        (1, Some(SymbolKind::Module)),
        (2, Some(SymbolKind::Module)),
        (3, Some(SymbolKind::Module)),
        (4, Some(SymbolKind::Module)),
        (5, Some(SymbolKind::Class)),
        (6, Some(SymbolKind::Method)),
        (7, Some(SymbolKind::Field)),
        (8, Some(SymbolKind::Field)),
        (9, Some(SymbolKind::Method)),
        (10, Some(SymbolKind::Enum)),
        (11, Some(SymbolKind::Interface)),
        (12, Some(SymbolKind::Function)),
        (13, Some(SymbolKind::Variable)),
        (14, Some(SymbolKind::Const)),
        (15, Some(SymbolKind::Variable)),
        (19, Some(SymbolKind::Variable)),
        (22, Some(SymbolKind::Variant)),
        (23, Some(SymbolKind::Struct)),
        (24, Some(SymbolKind::Field)),
        (25, Some(SymbolKind::Method)),
        (26, Some(SymbolKind::Type)),
    ];
    for (raw, expected) in cases {
        assert_eq!(map_kind(raw), expected, "LSP kind {raw}");
    }
}

#[test]
fn kind_mapping_drops_unknown_kinds() {
    assert_eq!(map_kind(0), None);
    assert_eq!(map_kind(27), None);
    assert_eq!(map_kind(16), Some(SymbolKind::Variable));
    assert_eq!(map_kind(21), Some(SymbolKind::Variable));
}

fn info(name: &str, kind: u32, container: Option<&str>, r: LspRange) -> SymbolInformation {
    SymbolInformation {
        name: name.to_string(),
        kind,
        container_name: container.map(|c| c.to_string()),
        range: r,
    }
}

#[test]
fn flat_symbol_information_fallback() {
    let infos = vec![
        info("Greeter", 5, None, range(0, 0, 6, 1)),
        info("greet", 6, Some("Greeter"), range(2, 4, 5, 5)),
        info("message", 13, Some("greet"), range(3, 8, 3, 28)),
    ];
    let extracted = symbols_from_response(
        "src/main.kt",
        KOTLIN_FIXTURE,
        DocumentSymbolResponse::Flat(infos),
    );
    let names: Vec<&str> = extracted.iter().map(|e| e.symbol.name.as_str()).collect();
    assert_eq!(names, vec!["Greeter", "greet"], "local skipped in flat mode");
    assert_eq!(extracted[1].symbol.id, "src/main.kt::Greeter::greet");
    assert_eq!(extracted[1].symbol.qualified_name.as_deref(), Some("Greeter.greet"));
    assert_eq!(extracted[1].symbol.line_start, 3);
}

#[test]
fn flat_variable_under_a_non_function_container_is_kept() {
    let infos = vec![
        info("Greeter", 5, None, range(0, 0, 6, 1)),
        info("  count ", 13, Some(" Greeter "), range(1, 4, 1, 18)),
        info("   ", 12, None, range(8, 0, 8, 12)),
        info("odd", 99, None, range(8, 0, 8, 12)),
    ];
    let extracted = symbols_from_response(
        "src/main.kt",
        KOTLIN_FIXTURE,
        DocumentSymbolResponse::Flat(infos),
    );
    assert_eq!(extracted.len(), 2);
    let var = &extracted[1].symbol;
    assert_eq!(var.name, "count");
    assert_eq!(var.id, "src/main.kt::Greeter::count");
    assert_eq!(var.parent_id.as_deref(), Some("src/main.kt::Greeter"));
    assert_eq!(var.qualified_name.as_deref(), Some("Greeter.count"));
    assert_eq!(var.source.as_deref(), Some("    val name = \"x\""));
    assert!(var.signature.is_none());
}

#[test]
fn source_slice_is_clamped_to_the_last_line() {
    let response = DocumentSymbolResponse::Nested(vec![
        node("top", None, 12, range(8, 0, 40, 0), range(8, 4, 8, 7), None),
        node("gone", None, 12, range(50, 0, 52, 0), range(50, 4, 50, 8), None),
    ]);
    let extracted = symbols_from_response("src/main.kt", KOTLIN_FIXTURE, response);
    assert_eq!(extracted[0].symbol.source.as_deref(), Some("fun top() {}"));
    assert_eq!(extracted[0].symbol.line_end, 41);
    assert!(extracted[1].symbol.source.is_none());
}

fn call(name: &str, uri: &str, r: LspRange, sel: LspRange, from: Vec<LspRange>) -> OutgoingCall {
    OutgoingCall {
        to: CallHierarchyItem {
            name: name.to_string(),
            uri: uri.to_string(),
            range: r,
            selection_range: sel,
        },
        from_ranges: from,
    }
}

#[test]
fn outgoing_calls_become_edges() {
    let extracted = symbols_from_response("src/main.kt", KOTLIN_FIXTURE, nested_response());
    let greet = extracted.iter().find(|e| e.symbol.name == "greet").unwrap();

    let calls = vec![
        // Same-file target: `top`, matched by selection position.
        call(
            "top",
            "file:///w/src/main.kt",
            range(8, 0, 8, 12),
            range(8, 4, 8, 7),
            vec![range(4, 15, 4, 18)],
        ),
        // Cross-file target: stays unresolved.
        call(
            "helper",
            "file:///w/src/util.kt",
            range(0, 0, 2, 1),
            range(0, 4, 0, 10),
            vec![range(3, 22, 3, 28)],
        ),
    ];

    let edges = edges_from_outgoing_calls(greet, "file:///w/src/main.kt", &extracted, &calls);
    assert_eq!(edges.len(), 2);

    let same_file = &edges[0];
    assert_eq!(same_file.source_id, "src/main.kt::Greeter::greet");
    assert_eq!(same_file.target_id.as_deref(), Some("src/main.kt::top"));
    assert_eq!(same_file.target_name, "top");
    assert_eq!(same_file.kind, EdgeKind::Calls);
    assert_eq!(same_file.line, Some(5), "0-based from_range line 4 -> 5");
    assert_eq!(same_file.col, Some(15));

    let cross_file = &edges[1];
    assert!(cross_file.target_id.is_none(), "cross-file stays unresolved");
    assert_eq!(cross_file.target_name, "helper");
    assert_eq!(cross_file.line, Some(4));
}

#[test]
fn outgoing_calls_fall_back_to_name_and_line_and_keep_siteless_calls() {
    let extracted = symbols_from_response("src/main.kt", KOTLIN_FIXTURE, nested_response());
    let greet = &extracted[2];
    let calls = vec![
        // Selection does not match any symbol; name + first line does.
        call(
            " _hidden ",
            "file:///w/src/main.kt",
            range(7, 0, 7, 16),
            range(7, 9, 7, 9),
            vec![],
        ),
        // Blank callee names are dropped.
        call("  ", "file:///w/src/main.kt", range(8, 0, 8, 12), range(8, 4, 8, 7), vec![]),
        // Two call sites, two edges.
        call(
            "top",
            "file:///w/src/main.kt",
            range(8, 0, 8, 12),
            range(8, 4, 8, 7),
            vec![range(3, 1, 3, 2), range(4, 6, 4, 7)],
        ),
    ];
    let edges = edges_from_outgoing_calls(greet, "file:///w/src/main.kt", &extracted, &calls);
    assert_eq!(edges.len(), 3);
    assert_eq!(edges[0].target_id.as_deref(), Some("src/main.kt::_hidden"));
    assert_eq!(edges[0].target_name, "_hidden");
    assert_eq!(edges[0].line, None);
    assert_eq!(edges[0].col, None);
    assert_eq!(edges[0].context.as_deref(), Some("_hidden"));
    assert_eq!(edges[1].line, Some(4));
    assert_eq!(edges[2].line, Some(5));
    assert_eq!(edges[2].col, Some(6));
    assert_eq!(edges[2].target_id.as_deref(), Some("src/main.kt::top"));
}

#[test]
fn only_functions_and_methods_get_call_hierarchy_requests() {
    let extracted = symbols_from_response("src/main.kt", KOTLIN_FIXTURE, nested_response());
    // Greeter (class), name (field), greet (method), _hidden, top (functions)
    assert_eq!(call_hierarchy_targets(&extracted), vec![2, 3, 4]);
}

#[test]
fn extraction_becomes_a_parse_result() {
    let extracted = symbols_from_response("src/main.kt", KOTLIN_FIXTURE, nested_response());
    let result = into_parse_result("src/main.kt", "kotlin", extracted, vec![]);
    assert_eq!(result.file_path, "src/main.kt");
    assert_eq!(result.language, "kotlin");
    let names: Vec<&str> = result.symbols.iter().map(|s| s.name.as_str()).collect();
    assert_eq!(names, vec!["Greeter", "name", "greet", "_hidden", "top"]);
    assert!(result.edges.is_empty());
    assert!(result.module.is_none());
}
