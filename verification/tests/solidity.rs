use ctx::model::{EdgeKind, SymbolKind, Visibility};
use ctx::parser::solidity::{
    build_function_signature, call_edge, doc_comment_entry, extract_contract_name,
    extract_source, find_doc_comment, format_type, function_ranges, function_symbol,
    function_visibility, import_info, loc_to_lines, offset_to_line_col, parse_doc_block,
    solidity_symbol, using_edge, variable_visibility, FunctionName, ImportPath, SolImport,
    SolType, SolVisibility, TypeExpr,
};

const TOKEN: &str = "// SPDX-License-Identifier: MIT\npragma solidity ^0.8.0;\n\n/// @title A simple token contract\n/// @notice This contract implements a basic token\ncontract SimpleToken {\n    string public name;\n    uint256 public totalSupply;\n\n    /// @notice Transfer tokens to a recipient\n    /// @param to The recipient address\n    function transfer(address to, uint256 amount) public returns (bool) {\n        return true;\n    }\n}\n";

fn offset_of(source: &str, needle: &str) -> usize {
    source.find(needle).unwrap()
}

#[test]
fn offsets_become_lines_and_columns() {
    assert_eq!(offset_to_line_col(TOKEN, 0), (1, 0));
    let at = offset_of(TOKEN, "contract SimpleToken");
    assert_eq!(offset_to_line_col(TOKEN, at), (6, 0));
    let at = offset_of(TOKEN, "public name");
    assert_eq!(offset_to_line_col(TOKEN, at), (7, 11));
    // Columns count characters, offsets count bytes.
    assert_eq!(offset_to_line_col("é\nab", 3), (2, 0));
    assert_eq!(offset_to_line_col("éab", 3), (1, 2));
    assert_eq!(offset_to_line_col("ab", 99), (1, 2));
    assert_eq!(loc_to_lines(None, TOKEN), (1, 1, 0, 0));
    let start = offset_of(TOKEN, "function transfer");
    let end = offset_of(TOKEN, "    }\n}") + 5;
    assert_eq!(loc_to_lines(Some((start, end)), TOKEN), (12, 14, 4, 5));
}

#[test]
fn source_lines_are_clamped() {
    assert_eq!(extract_source(TOKEN, 6, 7).as_deref(), Some("contract SimpleToken {\n    string public name;"));
    assert_eq!(extract_source(TOKEN, 15, 99).as_deref(), Some("}"));
    assert_eq!(extract_source(TOKEN, 0, 3), None);
    assert_eq!(extract_source(TOKEN, 40, 41), None);
}

#[test]
fn natspec_comments_attach_to_the_next_declaration() {
    let at = offset_of(TOKEN, "/// @title");
    let line = doc_comment_entry(TOKEN, Some((at, at + 34)), "/// @title A simple token contract", false);
    assert_eq!(line, (4, "@title A simple token contract".to_string()));
    let block = doc_comment_entry(TOKEN, None, "/**\n * @notice Hi\n *\n * @dev there\n */", true);
    assert_eq!(block, (1, "@notice Hi\n@dev there".to_string()));
    assert_eq!(parse_doc_block("/** one */"), "one");

    let docs = vec![
        (4, "@title A simple token contract".to_string()),
        (5, "@notice This contract implements a basic token".to_string()),
        (10, "@notice Transfer tokens".to_string()),
        (11, "@param to The recipient".to_string()),
    ];
    assert_eq!(
        find_doc_comment(&docs, 6).as_deref(),
        Some("@title A simple token contract\n@notice This contract implements a basic token")
    );
    assert_eq!(
        find_doc_comment(&docs, 12).as_deref(),
        Some("@title A simple token contract\n@notice This contract implements a basic token\n@notice Transfer tokens\n@param to The recipient")
    );
    assert_eq!(find_doc_comment(&docs, 30), None);
    assert_eq!(find_doc_comment(&docs, 4), None);
}

#[test]
fn signatures_stop_at_the_body_or_semicolon() {
    assert_eq!(
        build_function_signature(TOKEN, 12).as_deref(),
        Some("function transfer(address to, uint256 amount) public returns (bool)")
    );
    let multi = "function f(\n    uint a,\n    uint b\n) external;;\n";
    assert_eq!(build_function_signature(multi, 1).as_deref(), Some("function f( uint a, uint b ) external"));
    assert_eq!(build_function_signature(multi, 0), None);
    assert_eq!(build_function_signature(multi, 9), None);
    assert_eq!(build_function_signature("{\n", 1), None);
}

#[test]
fn contract_names_come_from_line_starts() {
    assert_eq!(extract_contract_name(TOKEN).as_deref(), Some("SimpleToken"));
    assert_eq!(extract_contract_name("  interface IERC20 {}").as_deref(), Some("IERC20"));
    assert_eq!(extract_contract_name("library Math_2{").as_deref(), Some("Math_2"));
    assert_eq!(extract_contract_name("// contract Foo\ncontract  \nabstract contract X {}"), None);
}

#[test]
fn visibility_and_imports() {
    assert_eq!(function_visibility(&[]), Visibility::Private);
    assert_eq!(function_visibility(&[SolVisibility::External, SolVisibility::Private]), Visibility::Public);
    assert_eq!(variable_visibility(&[]), Visibility::Crate);
    assert_eq!(variable_visibility(&[SolVisibility::Internal]), Visibility::Crate);
    assert_eq!(variable_visibility(&[SolVisibility::Private]), Visibility::Private);

    let plain = import_info(&SolImport::Plain(ImportPath::Filename("./Token.sol".to_string())));
    assert_eq!(plain.from, "./Token.sol");
    assert!(plain.names.is_empty() && plain.alias.is_none());
    let aliased = import_info(&SolImport::GlobalSymbol(
        ImportPath::Path(vec!["a".to_string(), "b".to_string()]),
        "AB".to_string(),
    ));
    assert_eq!(aliased.from, "a.b");
    assert_eq!(aliased.alias.as_deref(), Some("AB"));
    let renamed = import_info(&SolImport::Rename(
        ImportPath::Filename("lib.sol".to_string()),
        vec!["X".to_string(), "Y".to_string()],
    ));
    assert_eq!(renamed.names, vec!["X", "Y"]);
}

#[test]
fn type_names_are_formatted() {
    let mapping = TypeExpr::Type(SolType::Mapping(
        Box::new(TypeExpr::Type(SolType::Address)),
        Box::new(TypeExpr::ArraySubscript(Box::new(TypeExpr::Type(SolType::Uint(256))), None)),
    ));
    assert_eq!(format_type(&mapping), "mapping(address => uint256[])");
    let fixed = TypeExpr::ArraySubscript(
        Box::new(TypeExpr::MemberAccess(Box::new(TypeExpr::Variable("Lib".to_string())), "Item".to_string())),
        Some(Box::new(TypeExpr::Variable("N".to_string()))),
    );
    assert_eq!(format_type(&fixed), "Lib.Item[N]");
    assert_eq!(format_type(&TypeExpr::Type(SolType::Bytes(32))), "bytes32");
    assert_eq!(format_type(&TypeExpr::Type(SolType::AddressPayable)), "address payable");
    assert_eq!(format_type(&TypeExpr::Other), "unknown");
    let edge = using_edge("Token.sol::Token", &TypeExpr::Type(SolType::Uint(256)));
    assert_eq!(edge.kind, EdgeKind::Uses);
    assert_eq!(edge.target_name, "uint256");
    assert!(edge.target_id.is_none());
}

const CALLS: &str = "contract Test {\n    function helper() internal pure returns (uint256) {\n        return 42;\n    }\n\n    function main() public pure returns (uint256) {\n        return helper();\n    }\n}\n";

#[test]
fn call_edges_come_from_enclosing_functions() {
    let contract_id = "Test.sol::Test";
    let parent = Some(("Test", contract_id));
    let span = |needle: &str, end_needle: &str| {
        let start = offset_of(CALLS, needle);
        let end = start + CALLS[start..].find(end_needle).unwrap() + end_needle.len();
        Some((start, end))
    };
    let contract = solidity_symbol(
        "Test.sol", CALLS, "Test", None, SymbolKind::Class, Visibility::Public,
        Some("contract Test".to_string()), Some((0, CALLS.len() - 1)), &[],
    );
    let helper = function_symbol(
        "Test.sol", CALLS, FunctionName::Named(Some("helper".to_string())), parent,
        Visibility::Crate, span("function helper", "    }"), &[],
    )
    .unwrap();
    let main = function_symbol(
        "Test.sol", CALLS, FunctionName::Named(Some("main".to_string())), parent,
        Visibility::Public, span("function main", "    }"), &[],
    )
    .unwrap();
    assert_eq!(helper.id, "Test.sol::Test::helper");
    assert_eq!(helper.qualified_name.as_deref(), Some("Test.helper"));
    assert_eq!(helper.parent_id.as_deref(), Some(contract_id));
    assert_eq!((helper.line_start, helper.line_end), (2, 4));
    assert_eq!(helper.signature.as_deref(), Some("function helper() internal pure returns (uint256)"));
    assert_eq!(main.source.as_deref(), Some("    function main() public pure returns (uint256) {\n        return helper();\n    }"));
    let symbols = vec![contract, helper, main];

    let ranges = function_ranges(&symbols);
    assert_eq!(ranges.len(), 2);
    let call_at = offset_of(CALLS, "helper();");
    let edge = call_edge(CALLS, &ranges, &symbols, Some((call_at, call_at + 8)), "helper", None).unwrap();
    assert_eq!(edge.kind, EdgeKind::Calls);
    assert_eq!(edge.target_name, "helper");
    assert_eq!(edge.source_id, "Test.sol::Test::main");
    assert_eq!(edge.target_id.as_deref(), Some("Test.sol::Test::helper"));
    assert_eq!((edge.line, edge.col), (Some(7), Some(15)));
    assert!(edge.context.is_none());

    let qualified = call_edge(CALLS, &ranges, &symbols, Some((call_at, call_at)), "max", Some("Math")).unwrap();
    assert_eq!(qualified.context.as_deref(), Some("Math.max"));
    assert!(qualified.target_id.is_none());
    // Outside every function: no edge.
    assert!(call_edge(CALLS, &ranges, &symbols, Some((0, 1)), "helper", None).is_none());
}

#[test]
fn unnamed_functions_and_special_names() {
    let src = "contract C {\n    constructor() {}\n}\n";
    let at = offset_of(src, "constructor");
    let ctor = function_symbol("C.sol", src, FunctionName::Constructor, None, Visibility::Private, Some((at, at + 16)), &[]).unwrap();
    assert_eq!(ctor.name, "constructor");
    assert_eq!(ctor.id, "C.sol::constructor");
    assert!(function_symbol("C.sol", src, FunctionName::Named(None), None, Visibility::Private, None, &[]).is_none());
}
