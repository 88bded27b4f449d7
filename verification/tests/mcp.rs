use ctx::mcp::{
    definition_listing_text, definition_text, file_tree_text, not_found_text, references_text,
    search_symbols_text,
};
use ctx::model::{Edge, EdgeKind, Symbol, SymbolKind, Visibility};

fn sym(name: &str, kind: SymbolKind, file: &str, line: u32, sig: Option<&str>, brief: Option<&str>) -> Symbol {
    Symbol {
        id: format!("{file}::{name}"),
        file_path: file.to_string(),
        name: name.to_string(),
        qualified_name: None,
        kind,
        visibility: Visibility::Public,
        signature: sig.map(|s| s.to_string()),
        brief: brief.map(|s| s.to_string()),
        docstring: None,
        line_start: line,
        line_end: line + 2,
        col_start: 0,
        col_end: 1,
        parent_id: None,
        source: None,
    }
}

fn edge(line: Option<u32>, context: Option<&str>) -> Edge {
    Edge {
        source_id: "src/lib.rs::greet".to_string(),
        target_id: None,
        target_name: "hello_world".to_string(),
        kind: EdgeKind::Calls,
        line,
        col: None,
        context: context.map(|c| c.to_string()),
    }
}

fn files(v: &[&[&str]]) -> Vec<Vec<String>> {
    v.iter().map(|e| e.iter().map(|c| c.to_string()).collect()).collect()
}

#[test]
fn search_lists_hits_with_signature_and_description() {
    let hits = vec![
        sym(
            "hello_world",
            SymbolKind::Function,
            "src/lib.rs",
            3,
            Some("pub fn hello_world() -> String"),
            Some("A greeting function."),
        ),
        sym("Greeter", SymbolKind::Struct, "src/lib.rs", 12, None, None),
    ];
    assert_eq!(
        search_symbols_text("hello", &hits),
        "Found 2 symbols matching 'hello':\n\n\
         - hello_world (function) in src/lib.rs:3\n  Signature: pub fn hello_world() -> String\n  \
         Description: A greeting function.\n\n\
         - Greeter (struct) in src/lib.rs:12\n\n"
    );
    let none = search_symbols_text("nonexistent_symbol_xyz", &vec![]);
    assert_eq!(none, "No symbols found matching 'nonexistent_symbol_xyz'");
    assert!(none.contains("No symbols found"));
}

#[test]
fn definition_lookup_disambiguates_unfiltered_multiple_hits() {
    assert_eq!(definition_listing_text("x", false, &vec![]).as_deref(), Some("Symbol 'x' not found"));
    assert_eq!(not_found_text("x"), "Symbol 'x' not found");
    let one = vec![sym("run", SymbolKind::Function, "a.rs", 1, None, None)];
    assert_eq!(definition_listing_text("run", false, &one), None);
    let two = vec![
        sym("run", SymbolKind::Function, "a.rs", 1, None, None),
        sym("run", SymbolKind::Method, "b.rs", 9, None, None),
    ];
    assert_eq!(definition_listing_text("run", true, &two), None);
    assert_eq!(
        definition_listing_text("run", false, &two).unwrap(),
        "Found 2 symbols named 'run'. Please narrow your search using 'file' or 'kind' parameters:\n\n\
         - run (function) in a.rs:1\n- run (method) in b.rs:9\n"
    );
    let many: Vec<Symbol> =
        (1..=12).map(|i| sym("run", SymbolKind::Function, "a.rs", i, None, None)).collect();
    let text = definition_listing_text("run", false, &many).unwrap();
    assert!(text.starts_with("Found 12 symbols named 'run'."));
    assert_eq!(text.matches("- run (function) in a.rs:").count(), 10);
    assert!(text.contains("a.rs:10\n"));
    assert!(!text.contains("a.rs:11\n"));
    assert!(text.ends_with("... and 2 more\n"));
}

#[test]
fn definition_shows_source_under_a_header() {
    let s = sym("greet", SymbolKind::Function, "src/lib.rs", 8, None, Some("Says hi."));
    assert_eq!(
        definition_text(&s, Some("pub fn greet() {}")),
        "// greet (function) - src/lib.rs:8\n// Says hi.\n\npub fn greet() {}"
    );
    let plain = sym("greet", SymbolKind::Function, "src/lib.rs", 8, None, None);
    assert_eq!(definition_text(&plain, Some("x")), "// greet (function) - src/lib.rs:8\n\nx");
    assert_eq!(definition_text(&s, None), "Source code not available for 'greet'");
}

#[test]
fn references_list_sources_and_count_every_edge() {
    assert_eq!(references_text("hello_world", &vec![]), "No references found for 'hello_world'");
    let greet = sym("greet", SymbolKind::Function, "src/lib.rs", 8, None, None);
    let main = sym("main", SymbolKind::Function, "src/main.rs", 2, None, None);
    let refs = vec![
        (edge(Some(9), Some("hello_world()")), Some(greet)),
        (edge(Some(4), None), None),
        (edge(None, None), Some(main)),
    ];
    assert_eq!(
        references_text("hello_world", &refs),
        "Found 3 references to 'hello_world':\n\n\
         - greet (src/lib.rs:9)\n  Context: hello_world()\n\
         - main (src/main.rs:2)\n"
    );
}

#[test]
fn file_tree_groups_files_under_directory_headings() {
    assert_eq!(file_tree_text(&vec![], None), "No files found matching the criteria");
    let entries = files(&[
        &["Cargo.toml"],
        &["src", "lib.rs"],
        &["src", "main.rs"],
        &["src", "a", "b.rs"],
        &["z.rs"],
    ]);
    assert_eq!(
        file_tree_text(&entries, None),
        "Project files (5 found):\n\n  Cargo.toml\n\nsrc:\n  lib.rs\n  main.rs\n\nsrc/a:\n  b.rs\n  z.rs\n"
    );
    assert_eq!(
        file_tree_text(&entries, Some(2)),
        "Project files (4 found):\n\n  Cargo.toml\n\nsrc:\n  lib.rs\n  main.rs\n  z.rs\n"
    );
    assert_eq!(file_tree_text(&entries, Some(0)), "Project files (0 found):\n\n");
}
