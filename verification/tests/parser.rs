use ctx::parser::{
    get_context_snippet, CallCapturePatterns,
    extract_brief, extract_module_name, parse_block_doc_comment, truncate_context, CodeParser,
    Language,
};
use ctx::paths::{path_extension, path_file_stem, path_parent_name};

#[test]
fn test_language_detection() {
    assert_eq!(Language::from_path("main.rs"), Language::Rust);
    assert_eq!(Language::from_path("app.ts"), Language::TypeScript);
    assert_eq!(Language::from_path("App.tsx"), Language::Tsx);
    assert_eq!(Language::from_path("script.js"), Language::JavaScript);
    assert_eq!(Language::from_path("Button.jsx"), Language::Jsx);
    assert_eq!(Language::from_path("main.py"), Language::Python);
    assert_eq!(Language::from_path("main.go"), Language::Go);
    assert_eq!(Language::from_path("Token.sol"), Language::Solidity);
    assert_eq!(Language::from_path("config.yaml"), Language::Yaml);
    assert_eq!(Language::from_path("ci.yml"), Language::Yaml);
    assert_eq!(Language::from_path("data.json"), Language::Unknown);
}

#[test]
fn test_extract_brief() {
    assert_eq!(
        extract_brief("This is a brief.\nMore details here."),
        Some("This is a brief.".to_string())
    );
    assert_eq!(extract_brief("Single line"), Some("Single line".to_string()));
    assert_eq!(extract_brief(""), None);
}

#[test]
fn brief_cuts_after_first_sentence() {
    assert_eq!(
        extract_brief("  Adds numbers. Returns the sum\nrest"),
        Some("Adds numbers.".to_string())
    );
    assert_eq!(extract_brief("   \n\t "), None);
    assert_eq!(extract_brief("line one\r\nline two"), Some("line one".to_string()));
}

#[test]
fn language_names_and_support() {
    assert_eq!(Language::Rust.as_str(), "rust");
    assert_eq!(Language::Unknown.as_str(), "unknown");
    let parser = CodeParser::new();
    assert!(parser.is_supported("a/b.py"));
    assert!(parser.is_supported("a/b.yaml"));
    assert!(!parser.is_supported("a/b.go"));
    assert!(!parser.is_supported("a/README"));
    assert!(CodeParser::is_supported_static("x.sol"));
    assert!(CodeParser::is_supported_static("x.go"));
    assert!(!CodeParser::is_supported_static("x.kt"));
}

#[test]
fn path_parts_follow_std_path() {
    assert_eq!(path_extension("a/b.tar.gz"), Some("gz".to_string()));
    assert_eq!(path_extension(".bashrc"), None);
    assert_eq!(path_extension("dir.d/file"), None);
    assert_eq!(path_extension("a/.."), None);
    assert_eq!(path_extension("a/b.rs/"), Some("rs".to_string()));
    assert_eq!(path_file_stem("src/lib.rs"), Some("lib".to_string()));
    assert_eq!(path_file_stem(".hidden"), Some(".hidden".to_string()));
    assert_eq!(path_parent_name("a/b/c.rs"), Some("b".to_string()));
    assert_eq!(path_parent_name("c.rs"), None);
    assert_eq!(path_parent_name("../c.rs"), None);
}

#[test]
fn module_names_from_paths() {
    let idx = ["index", "__init__", "mod"];
    assert_eq!(
        extract_module_name("src/utils/index.ts", &idx),
        Some("utils".to_string())
    );
    assert_eq!(
        extract_module_name("pkg/__init__.py", &idx),
        Some("pkg".to_string())
    );
    assert_eq!(extract_module_name("src/parser.rs", &idx), Some("parser".to_string()));
    assert_eq!(extract_module_name("mod.rs", &idx), None);
    assert_eq!(extract_module_name("", &idx), None);
}

#[test]
fn truncation_by_bytes() {
    assert_eq!(truncate_context("  short  ", 80), "short");
    assert_eq!(truncate_context("abcdefghij", 8), "abcde...");
    assert_eq!(truncate_context("abc", 3), "abc");
}

#[test]
fn block_doc_comments_are_cleaned() {
    assert_eq!(
        parse_block_doc_comment("/**\n * Adds two numbers.\n *\n * @param a first\n */"),
        "Adds two numbers.\n@param a first"
    );
    assert_eq!(parse_block_doc_comment("/*! Crate docs. */"), "Crate docs.");
    assert_eq!(parse_block_doc_comment("/** */"), "");
}

#[test]
fn context_snippets_around_a_column() {
    let source = "fn main() {\n    let value = compute_something_long(argument_one, argument_two);\n}\n";
    assert_eq!(get_context_snippet(source, 0, 0), None);
    assert_eq!(get_context_snippet(source, 4, 0), None);
    assert_eq!(get_context_snippet(source, 1, 3).as_deref(), Some("fn main() {"));
    assert_eq!(
        get_context_snippet(source, 2, 30).as_deref(),
        Some("lue = compute_something_long(argument_one, argument_two);")
    );
    assert_eq!(get_context_snippet(source, 2, 24).as_deref(), Some("let value = compute_something_long(argument_one, argument_two);"));
    assert_eq!(get_context_snippet(source, 3, 0).as_deref(), Some("}"));
}

#[test]
fn call_capture_patterns_per_language() {
    let standard = CallCapturePatterns::standard();
    assert_eq!(standard.name_patterns, &["call.name", "method_call.name"]);
    assert_eq!(standard.expr_patterns, &["call.expr", "method_call.expr"]);
    let rust = CallCapturePatterns::rust();
    assert_eq!(rust.name_patterns, &["call.name", "method_call.name", "scoped_call.name"]);
    assert_eq!(rust.expr_patterns, &["call.expr", "method_call.expr", "scoped_call.expr"]);
    let ts = CallCapturePatterns::typescript();
    assert_eq!(ts.name_patterns, &["call.name", "method_call.name", "new.name"]);
    assert_eq!(ts.expr_patterns, &["call.expr", "method_call.expr", "new.expr"]);
}

#[test]
fn code_parser_dispatches_by_extension() {
    let parser = CodeParser::new();
    let go = parser.parse("cmd/main.go", "package main").unwrap();
    assert_eq!(go.file_path, "cmd/main.go");
    assert_eq!(go.language, "go");
    assert!(go.symbols.is_empty() && go.edges.is_empty() && go.module.is_none());
    let other = parser.parse("notes.txt", "hello").unwrap();
    assert_eq!(other.language, "unknown");
    let sol = parser.parse("A.sol", "contract A { function f() public {} }").unwrap();
    assert_eq!(sol.language, "solidity");
    assert!(sol.symbols.iter().any(|s| s.name == "A"));
    assert!(parser.parse("B.sol", "contract {").is_none());
}
