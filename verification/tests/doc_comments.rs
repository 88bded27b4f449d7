use ctx::model::{EdgeKind, Symbol, SymbolKind, Visibility};
use ctx::parser::python::extract_visibility;
use ctx::parser::rust::extract_docstring;
use ctx::parser::typescript::{create_inheritance_edge, extract_jsdoc};

fn siblings(v: &[(&str, &str)]) -> Vec<(String, String)> {
    v.iter().map(|(k, t)| (k.to_string(), t.to_string())).collect()
}

#[test]
fn rust_doc_lines_are_read_until_a_non_doc_sibling() {
    // Nearest sibling first.
    let prev = siblings(&[
        ("line_comment", "/// second line"),
        ("line_comment", "///   First line."),
        ("line_comment", "// plain comment"),
        ("line_comment", "/// too far"),
    ]);
    assert_eq!(extract_docstring(&prev).as_deref(), Some("First line.\nsecond line"));
    let inner = siblings(&[("line_comment", "//! crate docs")]);
    assert_eq!(extract_docstring(&inner).as_deref(), Some("crate docs"));
    let block = siblings(&[("line_comment", "/// after"), ("block_comment", "/** Block doc. */")]);
    assert_eq!(extract_docstring(&block).as_deref(), Some("Block doc.\nafter"));
    let plain_block = siblings(&[("block_comment", "/* not a doc */"), ("line_comment", "/// x")]);
    assert_eq!(extract_docstring(&plain_block), None);
    assert_eq!(extract_docstring(&siblings(&[("attribute_item", "#[test]")])), None);
    assert_eq!(extract_docstring(&vec![]), None);
}

#[test]
fn jsdoc_is_the_nearest_doc_or_line_comment() {
    let prev = siblings(&[("comment", "/** Adds numbers. */"), ("comment", "// older")]);
    assert_eq!(extract_jsdoc(&prev).as_deref(), Some("Adds numbers."));
    let line = siblings(&[("comment", "//   Note  ")]);
    assert_eq!(extract_jsdoc(&line).as_deref(), Some("Note"));
    let skipped = siblings(&[("comment", "/* plain */"), ("comment", "// behind it")]);
    assert_eq!(extract_jsdoc(&skipped).as_deref(), Some("behind it"));
    let blocked = siblings(&[("decorator", "@x"), ("comment", "// hidden")]);
    assert_eq!(extract_jsdoc(&blocked), None);
    assert_eq!(extract_jsdoc(&vec![]), None);
}

#[test]
fn python_names_with_leading_underscores_are_private() {
    assert_eq!(extract_visibility("_helper"), Visibility::Private);
    assert_eq!(extract_visibility("__mangled"), Visibility::Private);
    assert_eq!(extract_visibility("__init__"), Visibility::Private);
    assert_eq!(extract_visibility("public_api"), Visibility::Public);
    assert_eq!(extract_visibility(""), Visibility::Public);
}

fn symbol(id: &str, name: &str, kind: SymbolKind) -> Symbol {
    Symbol {
        id: id.to_string(),
        file_path: "a.ts".to_string(),
        name: name.to_string(),
        qualified_name: None,
        kind,
        visibility: Visibility::Public,
        signature: None,
        brief: None,
        docstring: None,
        line_start: 1,
        line_end: 1,
        col_start: 0,
        col_end: 0,
        parent_id: None,
        source: None,
    }
}

#[test]
fn inheritance_edges_resolve_to_a_symbol_of_the_expected_kind() {
    let symbols = vec![
        symbol("a.ts::Base#fn", "Base", SymbolKind::Function),
        symbol("a.ts::Base", "Base", SymbolKind::Class),
        symbol("a.ts::Shape", "Shape", SymbolKind::Interface),
    ];
    let e = create_inheritance_edge(
        "a.ts::Circle",
        "Base",
        SymbolKind::Class,
        EdgeKind::Extends,
        "class Circle extends Base".to_string(),
        3,
        14,
        &symbols,
    );
    assert_eq!(e.source_id, "a.ts::Circle");
    assert_eq!(e.target_id.as_deref(), Some("a.ts::Base"));
    assert_eq!(e.target_name, "Base");
    assert_eq!(e.kind, EdgeKind::Extends);
    assert_eq!((e.line, e.col), (Some(3), Some(14)));
    assert_eq!(e.context.as_deref(), Some("class Circle extends Base"));
    let unknown = create_inheritance_edge(
        "a.ts::Circle",
        "Drawable",
        SymbolKind::Interface,
        EdgeKind::Implements,
        "implements Drawable".to_string(),
        3,
        30,
        &symbols,
    );
    assert_eq!(unknown.target_id, None);
}
