# ctx

Code-intelligence helpers, verified with Verus: the symbol and edge model,
architecture rules over file dependencies, change-score gates, language
detection and source-text helpers, Solidity parsing and extraction,
symbol-ranking graphs, language-server plumbing (configuration, backends,
URIs, framing, request accounting, reference resolution, status), the
harness doctor, and the text answers of the MCP tools.

Layout:

- `src/` — the verified library. Every public function states its result
  in `ensures` over spec functions; laws that relate several functions are
  public `proof fn law_*` items. Calls into `globset`, `semver`,
  `serde_json`, `solang-parser` and a few std functions go through small
  trusted wrappers whose contracts are documented where they are declared;
  `src/parser/solang.rs` carries the `solang-parser` tree into the
  library's own tree, which the verified extraction reads.
- `tests/` — tests of the library, including real Solidity sources.
- `app/` — the command-line program: file, process and network I/O and
  TOML/JSON (de)serialization.

Rust, TypeScript/JavaScript and Python files are parsed by tree-sitter
grammar queries. The grammar crates are not part of this build, so
`CodeParser::parse` takes Solidity files and files with nothing to extract
(Go, YAML, unknown languages); for the query-parsed languages the library
holds the extraction that reads the queries' matches (`parser::captures`,
`parser::rust`, `parser::python`, `parser::typescript`, `parser::go`).
