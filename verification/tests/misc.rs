use ctx::lsp::transport::TransportError;
use ctx::output::{get_separator, OutputFormat};
use ctx::parser::python::clean_docstring;
use ctx::parser::rust::parse_use_path;
use ctx::parser::typescript::JsVariant;

#[test]
fn test_separator_xml() {
    assert_eq!(get_separator(&OutputFormat::Xml), "\n");
}

#[test]
fn test_separator_markdown() {
    assert_eq!(get_separator(&OutputFormat::Markdown), "\n\n");
}

#[test]
fn other_separators() {
    assert_eq!(get_separator(&OutputFormat::Md), "\n\n");
    assert_eq!(get_separator(&OutputFormat::Plain), "\n");
    assert_eq!(get_separator(&OutputFormat::Json), ",");
}

#[test]
fn test_clean_docstring() {
    assert_eq!(clean_docstring("\"\"\"Simple docstring.\"\"\""), "Simple docstring.");
    assert_eq!(
        clean_docstring("'''Multi-line\n    docstring.'''"),
        "Multi-line\ndocstring."
    );
}

#[test]
fn docstring_dedent_uses_smallest_indent() {
    assert_eq!(
        clean_docstring("\"\"\"Title.\n\n      deep\n    shallow\n  \"\"\""),
        "Title.\n\n  deep\nshallow"
    );
}

#[test]
fn test_parse_use_path() {
    let import = parse_use_path("std::collections::HashMap");
    assert_eq!(import.from, "std::collections");
    assert_eq!(import.names, vec!["HashMap"]);

    let import = parse_use_path("std::io::{Read, Write}");
    assert_eq!(import.from, "std::io");
    assert_eq!(import.names, vec!["Read", "Write"]);

    let import = parse_use_path("std::prelude::*");
    assert_eq!(import.from, "std::prelude");
    assert_eq!(import.names, vec!["*"]);
}

#[test]
fn use_paths_with_alias_and_bare_names() {
    let import = parse_use_path("  std::io::Result as IoResult ");
    assert_eq!(import.from, "std::io::Result");
    assert_eq!(import.names, vec!["IoResult"]);
    assert_eq!(import.alias.as_deref(), Some("IoResult"));
    let import = parse_use_path("serde");
    assert_eq!(import.from, "serde");
    assert!(import.names.is_empty());
    let import = parse_use_path("a::{b, , c,}");
    assert_eq!(import.names, vec!["b", "c"]);
}

#[test]
fn variant_names_and_transport_errors() {
    assert_eq!(JsVariant::Tsx.as_str(), "tsx");
    assert_eq!(JsVariant::JavaScript.as_str(), "javascript");
    assert_eq!(TransportError::Timeout.message(), "request timed out");
    assert_eq!(TransportError::Rpc("boom".to_string()).message(), "server error: boom");
}
