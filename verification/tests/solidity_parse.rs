//! Solidity extraction on real sources: parsed with `solang-parser`,
//! carried into the library's tree, and extracted.

use ctx::model::{EdgeKind, ParseResult, SymbolKind, Visibility};
use ctx::parser::solidity::{FunctionName, SolVisibility, SolidityParser};
use ctx::parser::solidity_tree::{
    ContractKind, ContractPart, SolAttribute, SolExpr, SolFunction, SolStmt, SourcePart,
};

fn parse(parser: &SolidityParser, file_path: &str, source: &str) -> Option<ParseResult> {
    parser.parse(file_path, source)
}

    #[test]
    fn test_parse_simple_contract() {
        let parser = SolidityParser::new();
        let source = r#"
// SPDX-License-Identifier: MIT
pragma solidity ^0.8.0;

/// @title A simple token contract
/// @notice This contract implements a basic token
contract SimpleToken {
    string public name;
    uint256 public totalSupply;

    /// @notice Transfer tokens to a recipient
    /// @param to The recipient address
    /// @param amount The amount to transfer
    function transfer(address to, uint256 amount) public returns (bool) {
        return true;
    }
}
"#;

        let result = parse(&parser, "Token.sol", source).unwrap();

        assert_eq!(result.language, "solidity");

        // Should have contract + state vars + function
        assert!(result.symbols.len() >= 3);

        let contract = result.symbols.iter().find(|s| s.name == "SimpleToken");
        assert!(contract.is_some());
        assert_eq!(contract.unwrap().kind, SymbolKind::Class);

        let transfer = result.symbols.iter().find(|s| s.name == "transfer");
        assert!(transfer.is_some());
        assert_eq!(transfer.unwrap().kind, SymbolKind::Function);
        assert_eq!(transfer.unwrap().visibility, Visibility::Public);
    }

    #[test]
    fn solidity_test_parse_interface() {
        let parser = SolidityParser::new();
        let source = r#"
// SPDX-License-Identifier: MIT
pragma solidity ^0.8.0;

interface IERC20 {
    function totalSupply() external view returns (uint256);
    function balanceOf(address account) external view returns (uint256);
    function transfer(address to, uint256 amount) external returns (bool);
}
"#;

        let result = parse(&parser, "IERC20.sol", source).unwrap();

        let interface = result.symbols.iter().find(|s| s.name == "IERC20");
        assert!(interface.is_some());
        assert_eq!(interface.unwrap().kind, SymbolKind::Interface);

        // Should have interface + 3 functions
        let functions: Vec<_> = result
            .symbols
            .iter()
            .filter(|s| s.kind == SymbolKind::Function)
            .collect();
        assert_eq!(functions.len(), 3);
    }

    #[test]
    fn test_parse_struct_and_enum() {
        let parser = SolidityParser::new();
        let source = r#"
// SPDX-License-Identifier: MIT
pragma solidity ^0.8.0;

contract Test {
    struct User {
        address addr;
        uint256 balance;
    }

    enum Status {
        Pending,
        Active,
        Completed
    }
}
"#;

        let result = parse(&parser, "Test.sol", source).unwrap();

        let user_struct = result.symbols.iter().find(|s| s.name == "User");
        assert!(user_struct.is_some());
        assert_eq!(user_struct.unwrap().kind, SymbolKind::Struct);

        let status_enum = result.symbols.iter().find(|s| s.name == "Status");
        assert!(status_enum.is_some());
        assert_eq!(status_enum.unwrap().kind, SymbolKind::Enum);
    }

    #[test]
    fn test_parse_events_and_errors() {
        let parser = SolidityParser::new();
        let source = r#"
// SPDX-License-Identifier: MIT
pragma solidity ^0.8.0;

contract Test {
    event Transfer(address indexed from, address indexed to, uint256 value);
    error InsufficientBalance(uint256 available, uint256 required);
}
"#;

        let result = parse(&parser, "Test.sol", source).unwrap();

        let transfer = result.symbols.iter().find(|s| s.name == "Transfer");
        assert!(transfer.is_some());

        let error = result
            .symbols
            .iter()
            .find(|s| s.name == "InsufficientBalance");
        assert!(error.is_some());
        assert_eq!(error.unwrap().kind, SymbolKind::Type);
    }

    #[test]
    fn test_parse_constructor_and_modifiers() {
        let parser = SolidityParser::new();
        let source = r#"
// SPDX-License-Identifier: MIT
pragma solidity ^0.8.0;

contract Ownable {
    address public owner;

    constructor() {
        owner = msg.sender;
    }

    modifier onlyOwner() {
        require(msg.sender == owner, "Not owner");
        _;
    }

    function transferOwnership(address newOwner) public onlyOwner {
        owner = newOwner;
    }
}
"#;

        let result = parse(&parser, "Ownable.sol", source).unwrap();

        let constructor = result.symbols.iter().find(|s| s.name == "constructor");
        assert!(constructor.is_some());

        let modifier = result.symbols.iter().find(|s| s.name == "onlyOwner");
        assert!(modifier.is_some());

        // Applying the `onlyOwner` modifier to `transferOwnership` should produce a
        // `calls` edge to the modifier, with `target_id` resolved to its symbol.
        let modifier_edge = result
            .edges
            .iter()
            .find(|e| e.target_name == "onlyOwner")
            .expect("expected a calls edge to the onlyOwner modifier");
        assert_eq!(modifier_edge.kind, EdgeKind::Calls);
        assert_eq!(
            modifier_edge.target_id.as_deref(),
            Some(modifier.unwrap().id.as_str()),
            "modifier edge target_id must resolve to the onlyOwner symbol"
        );
    }

    #[test]
    fn test_parse_imports() {
        let parser = SolidityParser::new();
        let source = r#"
// SPDX-License-Identifier: MIT
pragma solidity ^0.8.0;

import "./IERC20.sol";
import {Ownable} from "@openzeppelin/contracts/access/Ownable.sol";

contract MyToken is IERC20 {}
"#;

        let result = parse(&parser, "MyToken.sol", source).unwrap();

        assert!(result.module.is_some());
        let module = result.module.unwrap();
        assert_eq!(module.imports.len(), 2);
        assert_eq!(module.imports[0].from, "./IERC20.sol");
    }

    #[test]
    fn test_parse_library() {
        let parser = SolidityParser::new();
        let source = r#"
// SPDX-License-Identifier: MIT
pragma solidity ^0.8.0;

library SafeMath {
    function add(uint256 a, uint256 b) internal pure returns (uint256) {
        return a + b;
    }
}
"#;

        let result = parse(&parser, "SafeMath.sol", source).unwrap();

        let library = result.symbols.iter().find(|s| s.name == "SafeMath");
        assert!(library.is_some());
        assert_eq!(library.unwrap().kind, SymbolKind::Module);
    }

    #[test]
    fn test_function_calls_extracted() {
        let parser = SolidityParser::new();
        let source = r#"
// SPDX-License-Identifier: MIT
pragma solidity ^0.8.0;

contract Test {
    function helper() internal pure returns (uint256) {
        return 42;
    }

    function main() public pure returns (uint256) {
        return helper();
    }
}
"#;

        let result = parse(&parser, "Test.sol", source).unwrap();

        // Should have edges for the call from main to helper
        assert!(!result.edges.is_empty());
        let call = result.edges.iter().find(|e| e.target_name == "helper");
        assert!(call.is_some());
        assert_eq!(call.unwrap().kind, EdgeKind::Calls);
    }

#[test]
fn qualified_library_call_carries_its_context_and_resolves() {
    let parser = SolidityParser::new();
    let source = "library SafeMath {
    function add(uint256 a, uint256 b) internal pure returns (uint256) {
        return a + b;
    }
}
contract Bank {
    using SafeMath for uint256;
    function deposit(uint256 x) public pure returns (uint256) {
        return SafeMath.add(x, 1);
    }
}
";
    let result = parse(&parser, "Bank.sol", source).unwrap();
    let uses: Vec<_> = result.edges.iter().filter(|e| e.kind == EdgeKind::Uses).collect();
    assert_eq!(uses.len(), 1);
    assert_eq!(uses[0].source_id, "Bank.sol::Bank");
    assert_eq!(uses[0].target_name, "uint256");
    assert_eq!(uses[0].target_id, None);
    let call = result.edges.iter().find(|e| e.target_name == "add").unwrap();
    assert_eq!(call.kind, EdgeKind::Calls);
    assert_eq!(call.source_id, "Bank.sol::Bank::deposit");
    assert_eq!(call.target_id.as_deref(), Some("Bank.sol::SafeMath::add"));
    assert_eq!(call.context.as_deref(), Some("SafeMath.add"));
    assert_eq!(call.line, Some(9));
    let module = result.module.unwrap();
    assert_eq!(module.exports, vec!["SafeMath", "Bank"]);
    assert_eq!(module.module_name.as_deref(), Some("SafeMath"));
}

#[test]
fn chained_calls_record_only_the_outer_call() {
    let parser = SolidityParser::new();
    let source = "contract C {
    function f() public {
        a.b().c();
    }
}
";
    let result = parse(&parser, "C.sol", source).unwrap();
    let names: Vec<&str> = result.edges.iter().map(|e| e.target_name.as_str()).collect();
    assert_eq!(names, vec!["c"]);
    assert_eq!(result.edges[0].context, None);
    assert_eq!(result.edges[0].target_id, None);
}

#[test]
fn free_functions_are_symbols_and_call_sources() {
    let parser = SolidityParser::new();
    let source = "function helper() pure returns (uint256) { return 1; }
function run() pure returns (uint256) { return helper() + helper(); }
";
    let result = parse(&parser, "T.sol", source).unwrap();
    let ids: Vec<&str> = result.symbols.iter().map(|s| s.id.as_str()).collect();
    assert_eq!(ids, vec!["T.sol::helper", "T.sol::run"]);
    assert_eq!(result.symbols[0].visibility, Visibility::Private);
    assert_eq!(result.edges.len(), 2);
    for e in &result.edges {
        assert_eq!(e.source_id, "T.sol::run");
        assert_eq!(e.target_id.as_deref(), Some("T.sol::helper"));
        assert_eq!(e.line, Some(2));
    }
}

#[test]
fn doc_comments_attach_to_the_next_declaration() {
    let parser = SolidityParser::new();
    let source = "/// Holds funds.
contract Vault {
    uint256 internal total;
}
";
    let result = parse(&parser, "Vault.sol", source).unwrap();
    let vault = result.symbols.iter().find(|s| s.name == "Vault").unwrap();
    assert_eq!(vault.docstring.as_deref(), Some("Holds funds."));
    assert_eq!(vault.signature.as_deref(), Some("contract Vault"));
    assert_eq!(vault.line_start, 2);
    let total = result.symbols.iter().find(|s| s.name == "total").unwrap();
    assert_eq!(total.kind, SymbolKind::Field);
    assert_eq!(total.signature.as_deref(), Some("uint256 total"));
    assert_eq!(total.qualified_name.as_deref(), Some("Vault.total"));
    assert_eq!(total.parent_id.as_deref(), Some("Vault.sol::Vault"));
    assert_eq!(total.visibility, Visibility::Crate);
}

fn call_body(callee: &str, at: (usize, usize)) -> SolStmt {
    SolStmt::Block(vec![SolStmt::Expression(SolExpr::FunctionCall(
        Some(at),
        Box::new(SolExpr::Variable(callee.to_string())),
        vec![],
    ))])
}

fn function_f(body: SolStmt) -> SolFunction {
    SolFunction {
        name: FunctionName::Named(Some("f".to_string())),
        attributes: vec![SolAttribute::Visibility(SolVisibility::Public)],
        loc: Some((14, 43)),
        body: Some(body),
    }
}

#[test]
fn calls_outside_any_function_symbol_are_dropped() {
    let parser = SolidityParser::new();
    let source = "contract X {\n function f() public { g(); }\n}\n";
    // An unnamed contract yields no symbols, so its calls have no source.
    let unnamed = vec![SourcePart::Contract(
        ContractKind::Contract,
        None,
        Some((0, 45)),
        vec![ContractPart::Function(function_f(call_body("g", (35, 38))))],
    )];
    let result = parser.parse_tree("U.sol", source, &unnamed, &vec![]);
    assert!(result.symbols.is_empty());
    assert!(result.edges.is_empty());
    assert!(result.module.unwrap().exports.is_empty());

    let named = vec![SourcePart::Contract(
        ContractKind::Contract,
        Some("X".to_string()),
        Some((0, 45)),
        vec![ContractPart::Function(function_f(call_body("g", (35, 38))))],
    )];
    let result = parser.parse_tree("U.sol", source, &named, &vec![]);
    assert_eq!(result.symbols.len(), 2);
    assert_eq!(result.symbols[1].id, "U.sol::X::f");
    assert_eq!(result.symbols[1].line_start, 2);
    assert_eq!(result.edges.len(), 1);
    assert_eq!(result.edges[0].source_id, "U.sol::X::f");
    assert_eq!(result.edges[0].target_name, "g");
    assert_eq!(result.edges[0].target_id, None);
    assert_eq!(result.edges[0].line, Some(2));
}

#[test]
fn modifier_invocations_call_the_last_segment_and_visibility_comes_first() {
    let source = "contract C {\n    function f() internal onlyOwner base.Guard public {}\n}\n";
    let f = SolFunction {
        name: FunctionName::Named(Some("f".to_string())),
        attributes: vec![
            SolAttribute::Visibility(SolVisibility::Internal),
            SolAttribute::Invocation(Some((41, 50)), vec!["onlyOwner".to_string()]),
            SolAttribute::Invocation(Some((51, 61)), vec!["base".to_string(), "Guard".to_string()]),
            SolAttribute::Invocation(None, vec![]),
            SolAttribute::Visibility(SolVisibility::Public),
        ],
        loc: Some((17, 72)),
        body: None,
    };
    let parts = vec![SourcePart::Contract(
        ContractKind::Contract,
        Some("C".to_string()),
        Some((0, 74)),
        vec![ContractPart::Function(f)],
    )];
    let result = SolidityParser::new().parse_tree("C.sol", source, &parts, &vec![]);
    let f = result.symbols.iter().find(|s| s.name == "f").unwrap();
    assert_eq!(f.visibility, Visibility::Crate);
    let targets: Vec<&str> = result.edges.iter().map(|e| e.target_name.as_str()).collect();
    assert_eq!(targets, vec!["onlyOwner", "Guard"]);
}

#[test]
fn a_declaration_running_backwards_over_lines_is_not_extracted() {
    let source = "contract C {\n}\n\n\n";
    let parts = vec![SourcePart::Contract(
        ContractKind::Contract,
        Some("C".to_string()),
        Some((16, 0)),
        vec![],
    )];
    let parser = SolidityParser::new();
    assert!(!ctx::parser::solidity_tree::unit_can_slice(source, &parts));
    let ok = vec![SourcePart::Contract(ContractKind::Contract, Some("C".to_string()), Some((0, 14)), vec![])];
    assert!(ctx::parser::solidity_tree::unit_can_slice(source, &ok));
    assert_eq!(parser.parse_tree("C.sol", source, &ok, &vec![]).symbols.len(), 1);
}
