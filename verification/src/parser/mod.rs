//! Language detection and the text helpers shared by the language parsers:
//! brief descriptions from doc comments, context truncation, module names
//! from file paths, and block doc-comment cleanup.

use vstd::prelude::*;

use vstd::string::StringSliceAdditionalSpecFns;
use vstd::utf8::{decode_utf8, encode_utf8, is_char_boundary, valid_utf8};

use crate::paths::{extension, file_stem, parent_name, path_extension, path_file_stem, path_parent_name};
use crate::text::{
    chars_of, find_sub, find_sub_from, join_lines, join_pieces, lines_exec, pieces_view,
    push_str, slice_range, str_eq, str_lines, string_from, strip_prefixes, strip_prefixes_exec,
    strip_suffixes, strip_suffixes_exec, trim, trim_range, trim_str,
};

pub mod captures;
pub mod go;
pub mod python;
pub mod typescript;
pub mod rust;
pub mod solidity;
pub mod solang;
pub mod solidity_tree;

verus! {

/// Supported programming languages.
#[derive(Debug, Clone, Copy, PartialEq, Eq, Structural)]
pub enum Language {
    Rust,
    TypeScript,
    Tsx,
    JavaScript,
    Jsx,
    Python,
    Go,
    Solidity,
    Yaml,
    Unknown,
}

/// The language a file extension stands for.
pub open spec fn language_of_extension(ext: Option<Seq<char>>) -> Language {
    match ext {
        Some(e) => if e == "rs"@ {
            Language::Rust
        } else if e == "ts"@ {
            Language::TypeScript
        } else if e == "tsx"@ {
            Language::Tsx
        } else if e == "js"@ || e == "mjs"@ || e == "cjs"@ {
            Language::JavaScript
        } else if e == "jsx"@ {
            Language::Jsx
        } else if e == "py"@ || e == "pyi"@ {
            Language::Python
        } else if e == "go"@ {
            Language::Go
        } else if e == "sol"@ {
            Language::Solidity
        } else if e == "yaml"@ || e == "yml"@ {
            Language::Yaml
        } else {
            Language::Unknown
        },
        None => Language::Unknown,
    }
}

/// The name of a language.
pub open spec fn language_text(l: Language) -> Seq<char> {
    match l {
        Language::Rust => "rust"@,
        Language::TypeScript => "typescript"@,
        Language::Tsx => "tsx"@,
        Language::JavaScript => "javascript"@,
        Language::Jsx => "jsx"@,
        Language::Python => "python"@,
        Language::Go => "go"@,
        Language::Solidity => "solidity"@,
        Language::Yaml => "yaml"@,
        Language::Unknown => "unknown"@,
    }
}

/// Whether a builtin grammar covers the language (what backend selection
/// falls back to).
pub open spec fn has_builtin_grammar(l: Language) -> bool {
    l != Language::Unknown
}

/// Whether the languages has full parsing support.
pub open spec fn fully_parsed(l: Language) -> bool {
    match l {
        Language::Go | Language::Unknown => false,
        _ => true,
    }
}

impl Language {
    /// Detect the language from a path's file extension.
    pub fn from_path(path: &str) -> (r: Language)
        ensures
            r == language_of_extension(extension(path@)),
    {
        match path_extension(path) {
            None => Language::Unknown,
            Some(e) => {
                let e = e.as_str();
                if str_eq(e, "rs") {
                    Language::Rust
                } else if str_eq(e, "ts") {
                    Language::TypeScript
                } else if str_eq(e, "tsx") {
                    Language::Tsx
                } else if str_eq(e, "js") || str_eq(e, "mjs") || str_eq(e, "cjs") {
                    Language::JavaScript
                } else if str_eq(e, "jsx") {
                    Language::Jsx
                } else if str_eq(e, "py") || str_eq(e, "pyi") {
                    Language::Python
                } else if str_eq(e, "go") {
                    Language::Go
                } else if str_eq(e, "sol") {
                    Language::Solidity
                } else if str_eq(e, "yaml") || str_eq(e, "yml") {
                    Language::Yaml
                } else {
                    Language::Unknown
                }
            },
        }
    }

    /// The language name.
    pub fn as_str(&self) -> (r: &'static str)
        ensures
            r@ == language_text(*self),
    {
        match self {
            Language::Rust => "rust",
            Language::TypeScript => "typescript",
            Language::Tsx => "tsx",
            Language::JavaScript => "javascript",
            Language::Jsx => "jsx",
            Language::Python => "python",
            Language::Go => "go",
            Language::Solidity => "solidity",
            Language::Yaml => "yaml",
            Language::Unknown => "unknown",
        }
    }
}

/// Whether a language's files are parsed by grammar queries.
pub open spec fn query_parsed(l: Language) -> bool {
    match l {
        Language::Rust | Language::TypeScript | Language::Tsx | Language::JavaScript
        | Language::Jsx | Language::Python => true,
        _ => false,
    }
}

/// A parse result with nothing extracted: the file's path and language,
/// no symbols, edges or module.
pub open spec fn unparsed_result(r: crate::model::ParseResult, file_path: Seq<char>, l: Language) -> bool {
    &&& r.file_path@ == file_path
    &&& r.language@ == language_text(l)
    &&& r.symbols@.len() == 0
    &&& r.edges@.len() == 0
    &&& r.module is None
}

/// The result for a file of a language nothing is extracted from.
pub fn minimal_result(file_path: &str, language: Language) -> (r: crate::model::ParseResult)
    ensures
        unparsed_result(r, file_path@, language),
{
    crate::model::ParseResult {
        file_path: file_path.to_string(),
        language: language.as_str().to_string(),
        symbols: Vec::new(),
        edges: Vec::new(),
        module: None,
    }
}

/// Language support of the code parser.
pub struct CodeParser {}

impl CodeParser {
    /// Create a code parser.
    pub fn new() -> (r: CodeParser) {
        CodeParser {  }
    }

    /// Parse a source file and extract its symbols and edges, by the
    /// language of its extension: Solidity files with the Solidity parser;
    /// Go, YAML and files of no known language get a result with nothing
    /// extracted. Rust, TypeScript, JavaScript and Python files are parsed
    /// by grammar queries whose matches the parsers' extraction functions
    /// take (`rust`, `typescript`, `python`, `captures`): they do not come
    /// here.
    pub fn parse(&self, path: &str, source: &str) -> (r: Option<crate::model::ParseResult>)
        requires
            !query_parsed(language_of_extension(extension(path@))),
            language_of_extension(extension(path@)) == Language::Solidity ==> source@.len() < u32::MAX,
        ensures
            match language_of_extension(extension(path@)) {
                Language::Solidity => match crate::parser::solang::solang_unit(source@) {
                    None => r is None,
                    Some((parts, comments)) => if crate::parser::solidity_tree::unit_sliceable(
                        source@,
                        parts,
                    ) {
                        r matches Some(p) && crate::parser::solidity::extracted(
                            p,
                            path@,
                            source@,
                            parts,
                            comments,
                        )
                    } else {
                        r is None
                    },
                },
                l => r matches Some(p) && unparsed_result(p, path@, l),
            },
    {
        let language = Language::from_path(path);
        match language {
            Language::Solidity => crate::parser::solidity::SolidityParser::new().parse(path, source),
            _ => Some(minimal_result(path, language)),
        }
    }

    /// Whether files like `path` get full parsing.
    pub fn is_supported(&self, path: &str) -> (r: bool)
        ensures
            r == fully_parsed(language_of_extension(extension(path@))),
    {
        match Language::from_path(path) {
            Language::Go | Language::Unknown => false,
            _ => true,
        }
    }

    /// Whether a builtin grammar covers files like `path` (no parser
    /// needed).
    pub fn is_supported_static(path: &str) -> (r: bool)
        ensures
            r == has_builtin_grammar(language_of_extension(extension(path@))),
    {
        match Language::from_path(path) {
            Language::Unknown => false,
            _ => true,
        }
    }
}

/// The first line of `s`, as `str::lines` yields it.
pub open spec fn first_line(s: Seq<char>) -> Option<Seq<char>> {
    let ls = str_lines(s);
    if ls.len() > 0 {
        Some(ls[0])
    } else {
        None
    }
}

/// The brief description of a docstring: its first line, cut after the
/// first sentence when that line does not end with a period.
pub open spec fn brief_of(doc: Seq<char>) -> Option<Seq<char>> {
    let t = trim(doc);
    if t.len() == 0 {
        None
    } else {
        match first_line(t) {
            None => None,
            Some(l) => {
                let b = trim(l);
                if b.len() > 0 && b.last() == '.' {
                    Some(b)
                } else if find_sub(b, ". "@) >= 0 {
                    Some(b.take(find_sub(b, ". "@) + 1))
                } else {
                    Some(b)
                }
            },
        }
    }
}

/// Extract a brief description from a docstring.
pub fn extract_brief(docstring: &str) -> (r: Option<String>)
    ensures
        match r {
            Some(b) => brief_of(docstring@) == Some(b@),
            None => brief_of(docstring@) is None,
        },
{
    let trimmed = trim_str(docstring);
    if trimmed.as_str().is_empty() {
        return None;
    }
    let cs = chars_of(trimmed.as_str());
    let lines = lines_exec(cs.as_slice());
    if lines.len() == 0 {
        return None;
    }
    assert(pieces_view(lines@)[0] == lines@[0]@);
    let (a, b) = trim_range(lines[0].as_slice(), 0, lines[0].len());
    assert(lines@[0]@.subrange(0, lines@[0]@.len() as int) =~= lines@[0]@);
    let brief = slice_range(lines[0].as_slice(), a, b);
    if brief.len() > 0 && brief[brief.len() - 1] == '.' {
        return Some(string_from(brief.as_slice()));
    }
    let pat = vec!['.', ' '];
    proof {
        reveal_strlit(". ");
        assert(pat@ =~= ". "@);
        assert(brief@.skip(0) =~= brief@);
    }
    match find_sub_from(brief.as_slice(), pat.as_slice(), 0) {
        Some(idx) => {
            let head = slice_range(brief.as_slice(), 0, idx + 1);
            assert(head@ =~= brief@.take(idx + 1));
            Some(string_from(head.as_slice()))
        },
        None => Some(string_from(brief.as_slice())),
    }
}


/// `s` trimmed, and cut to its first `max_len - 3` bytes plus `...` when it
/// is longer than `max_len` bytes (in UTF-8).
pub open spec fn truncated(s: Seq<char>, max_len: usize) -> Seq<char> {
    let t = trim(s);
    let b = encode_utf8(t);
    if b.len() <= max_len {
        t
    } else {
        decode_utf8(b.take(max_len - 3)) + "..."@
    }
}

/// Whether `truncate_context` can cut `s` at `max_len` (it panics when the
/// cut is not at a character boundary or `max_len` is below 3).
pub open spec fn can_truncate(s: Seq<char>, max_len: usize) -> bool {
    let b = encode_utf8(trim(s));
    b.len() <= max_len || (3 <= max_len && is_char_boundary(b, max_len - 3))
}

/// Truncate a string to a maximum length in bytes, adding `...` if
/// truncated.
pub fn truncate_context(s: &str, max_len: usize) -> (r: String)
    requires
        can_truncate(s@, max_len),
    ensures
        r@ == truncated(s@, max_len),
{
    let t = trim_str(s);
    let ts = t.as_str();
    let bytes = ts.as_bytes();
    assert(bytes@ == encode_utf8(t@));
    if bytes.len() <= max_len {
        return t;
    }
    let (head, _rest) = t.as_str().split_at(max_len - 3);
    proof {
        vstd::utf8::encode_utf8_decode_utf8(head@);
        assert(encode_utf8(head@) =~= encode_utf8(t@).take(max_len - 3));
    }
    let mut out = String::new();
    push_str(&mut out, head);
    push_str(&mut out, "...");
    out
}

/// The character sequences of string slices.
pub open spec fn str_views(v: Seq<&str>) -> Seq<Seq<char>> {
    v.map_values(|n: &str| n@)
}

/// The module a file path names: its file stem, or for index files
/// (stems listed in `index_names`) the name of the parent directory.
pub open spec fn module_name_of(path: Seq<char>, index_names: Seq<Seq<char>>) -> Option<Seq<char>> {
    match file_stem(path) {
        None => None,
        Some(stem) => if index_names.contains(stem) {
            parent_name(path)
        } else {
            Some(stem)
        },
    }
}

/// Extract the module name from a file path.
///
/// File stems listed in `index_names` (such as `index`, `__init__`, `mod`)
/// use the parent directory's name instead.
pub fn extract_module_name(file_path: &str, index_names: &[&str]) -> (r: Option<String>)
    ensures
        match r {
            Some(m) => module_name_of(file_path@, str_views(index_names@)) == Some(m@),
            None => module_name_of(file_path@, str_views(index_names@)) is None,
        },
{
    let ghost names = str_views(index_names@);
    let stem = match path_file_stem(file_path) {
        Some(s) => s,
        None => return None,
    };
    let mut i: usize = 0;
    while i < index_names.len()
        invariant
            i <= index_names@.len(),
            names == str_views(index_names@),
            file_stem(file_path@) == Some(stem@),
            forall|k: int| 0 <= k < i ==> names[k] != stem@,
        decreases index_names@.len() - i,
    {
        if str_eq(index_names[i], stem.as_str()) {
            assert(names[i as int] == stem@);
            assert(names.contains(stem@));
            return path_parent_name(file_path);
        }
        i = i + 1;
    }
    Some(stem)
}

/// One line of a block doc comment, without surrounding whitespace and
/// leading asterisks.
pub open spec fn doc_line(l: Seq<char>) -> Seq<char> {
    trim(strip_prefixes(trim(l), seq!['*']))
}

/// The non-empty cleaned lines of a block doc comment.
pub open spec fn doc_lines(ls: Seq<Seq<char>>) -> Seq<Seq<char>>
    decreases ls.len(),
{
    if ls.len() == 0 {
        seq![]
    } else {
        let prev = doc_lines(ls.drop_last());
        let d = doc_line(ls.last());
        if d.len() == 0 {
            prev
        } else {
            prev.push(d)
        }
    }
}

/// The content of a block doc comment: delimiters (`/**`, `/*!`, `*/`)
/// stripped, each line cleaned, empty lines dropped, lines joined by `\n`.
pub open spec fn block_doc_text(text: Seq<char>) -> Seq<char> {
    let content = strip_suffixes(
        strip_prefixes(strip_prefixes(text, "/**"@), "/*!"@),
        "*/"@,
    );
    join_lines(doc_lines(str_lines(content)), "\n"@)
}

/// Parse a block doc comment (`/** ... */` or `/*! ... */`) into clean
/// content.
pub fn parse_block_doc_comment(text: &str) -> (r: String)
    ensures
        r@ == block_doc_text(text@),
{
    let cs = chars_of(text);
    let open_doc = vec!['/', '*', '*'];
    let open_inner = vec!['/', '*', '!'];
    let close = vec!['*', '/'];
    proof {
        reveal_strlit("/**");
        reveal_strlit("/*!");
        reveal_strlit("*/");
        assert(open_doc@ =~= "/**"@);
        assert(open_inner@ =~= "/*!"@);
        assert(close@ =~= "*/"@);
    }
    let a = strip_prefixes_exec(cs.as_slice(), open_doc.as_slice());
    let b = strip_prefixes_exec(a.as_slice(), open_inner.as_slice());
    let content = strip_suffixes_exec(b.as_slice(), close.as_slice());
    clean_doc_content(content.as_slice())
}

/// The cleaned lines of a doc comment's content (delimiters already
/// removed), joined by newlines.
pub fn clean_doc_content(content: &[char]) -> (r: String)
    ensures
        r@ == join_lines(doc_lines(str_lines(content@)), "\n"@),
{
    let star = vec!['*'];
    let nl = vec!['\n'];
    proof {
        reveal_strlit("\n");
        assert(star@ =~= seq!['*']);
        assert(nl@ =~= "\n"@);
    }
    let lines = lines_exec(content);
    let ghost ls = pieces_view(lines@);
    let mut kept: Vec<Vec<char>> = Vec::new();
    let mut i: usize = 0;
    while i < lines.len()
        invariant
            ls == pieces_view(lines@),
            star@ == seq!['*'],
            i <= ls.len(),
            pieces_view(kept@) == doc_lines(ls.take(i as int)),
        decreases ls.len() - i,
    {
        assert(ls.take(i + 1).drop_last() =~= ls.take(i as int));
        assert(ls[i as int] == lines@[i as int]@);
        let line = &lines[i];
        let (p, q) = trim_range(line.as_slice(), 0, line.len());
        assert(line@.subrange(0, line@.len() as int) =~= line@);
        let t = slice_range(line.as_slice(), p, q);
        let u = strip_prefixes_exec(t.as_slice(), star.as_slice());
        let (x, y) = trim_range(u.as_slice(), 0, u.len());
        assert(u@.subrange(0, u@.len() as int) =~= u@);
        let d = slice_range(u.as_slice(), x, y);
        if d.len() > 0 {
            let ghost before = pieces_view(kept@);
            let ghost dv = d@;
            kept.push(d);
            assert(pieces_view(kept@) =~= before.push(dv));
        }
        i = i + 1;
    }
    assert(ls.take(i as int) =~= ls);
    let joined = join_pieces(&kept, nl.as_slice());
    string_from(joined.as_slice())
}


/// First byte of the snippet window around column `col`.
pub open spec fn snippet_start(col: usize) -> int {
    if col >= 20 {
        col - 20
    } else {
        0
    }
}

/// End byte of the snippet window around column `col` in a line of bytes `b`.
pub open spec fn snippet_end(b: Seq<u8>, col: usize) -> int {
    if col + 60 <= b.len() {
        col + 60
    } else {
        b.len() as int
    }
}

/// The snippet around 1-based `line`, byte column `col`: the bytes from
/// `col - 20` (at least 0) to `col + 60` (at most the line's end), trimmed;
/// `None` when the line does not exist.
pub open spec fn context_snippet(source: Seq<char>, line: usize, col: usize) -> Option<Seq<char>> {
    let ls = str_lines(source);
    if line == 0 || line > ls.len() {
        None
    } else {
        let b = encode_utf8(ls[line - 1]);
        Some(trim(decode_utf8(b.subrange(snippet_start(col), snippet_end(b, col)))))
    }
}

/// Whether [`get_context_snippet`] can cut its window (it panics when the
/// window's ends are reversed or not at character boundaries, or when
/// `col + 60` overflows; all of that only when the line exists).
pub open spec fn can_snippet(source: Seq<char>, line: usize, col: usize) -> bool {
    let ls = str_lines(source);
    line == 0 || line > ls.len() || {
        let b = encode_utf8(ls[line - 1]);
        &&& col + 60 <= usize::MAX
        &&& snippet_start(col) <= snippet_end(b, col)
        &&& is_char_boundary(b, snippet_start(col))
        &&& is_char_boundary(b, snippet_end(b, col))
    }
}

/// A character boundary of `b` before a boundary `e` is a boundary of the
/// prefix ending at `e`.
proof fn lemma_boundary_in_prefix(b: Seq<u8>, s: int, e: int)
    requires
        valid_utf8(b),
        0 <= s <= e <= b.len(),
        is_char_boundary(b, s),
        is_char_boundary(b, e),
    ensures
        is_char_boundary(b.subrange(0, e), s),
{
    vstd::utf8::valid_utf8_split(b, e);
    let h = b.subrange(0, e);
    if s == e {
        vstd::utf8::is_char_boundary_start_end_of_seq(h);
    } else if s > 0 {
        vstd::utf8::is_char_boundary_iff_not_is_continuation_byte(b, s);
        vstd::utf8::is_char_boundary_iff_not_is_continuation_byte(h, s);
    }
}

/// Get a snippet of context around a line (1-based) and byte column.
pub fn get_context_snippet(source: &str, line: usize, col: usize) -> (r: Option<String>)
    requires
        can_snippet(source@, line, col),
    ensures
        crate::json::opt_view(r) == context_snippet(source@, line, col),
{
    let chars = chars_of(source);
    let lines = lines_exec(chars.as_slice());
    if line == 0 || line > lines.len() {
        return None;
    }
    let target = string_from(lines[line - 1].as_slice());
    let t = target.as_str();
    let bytes = t.as_bytes();
    let ghost b = encode_utf8(t@);
    assert(bytes@ == b);
    assert(t@ == pieces_view(lines@)[line - 1]);
    let start: usize = if col >= 20 {
        col - 20
    } else {
        0
    };
    let end: usize = if col + 60 <= bytes.len() {
        col + 60
    } else {
        bytes.len()
    };
    proof {
        vstd::utf8::encode_utf8_valid_utf8(t@);
        lemma_boundary_in_prefix(b, start as int, end as int);
    }
    let (head, _tail) = t.split_at(end);
    let (_before, mid) = head.split_at(start);
    proof {
        vstd::utf8::encode_utf8_decode_utf8(mid@);
        assert(mid.spec_bytes() =~= b.subrange(start as int, end as int));
    }
    Some(trim_str(mid))
}


/// Capture-name patterns for call extraction: the names that match the
/// called function or method, and those that match the call expression.
pub struct CallCapturePatterns {
    /// Patterns that match the function/method name being called.
    pub name_patterns: &'static [&'static str],
    /// Patterns that match the call expression node.
    pub expr_patterns: &'static [&'static str],
}

impl CallCapturePatterns {
    /// Standard patterns (`call`, `method_call`).
    pub fn standard() -> (r: CallCapturePatterns)
        ensures
            str_views(r.name_patterns@) == seq!["call.name"@, "method_call.name"@],
            str_views(r.expr_patterns@) == seq!["call.expr"@, "method_call.expr"@],
    {
        let r = CallCapturePatterns {
            name_patterns: &["call.name", "method_call.name"],
            expr_patterns: &["call.expr", "method_call.expr"],
        };
        assert(str_views(r.name_patterns@) =~= seq!["call.name"@, "method_call.name"@]);
        assert(str_views(r.expr_patterns@) =~= seq!["call.expr"@, "method_call.expr"@]);
        r
    }

    /// Rust patterns, which add scoped calls (`module::function()`).
    pub fn rust() -> (r: CallCapturePatterns)
        ensures
            str_views(r.name_patterns@) == seq![
                "call.name"@,
                "method_call.name"@,
                "scoped_call.name"@,
            ],
            str_views(r.expr_patterns@) == seq![
                "call.expr"@,
                "method_call.expr"@,
                "scoped_call.expr"@,
            ],
    {
        let r = CallCapturePatterns {
            name_patterns: &["call.name", "method_call.name", "scoped_call.name"],
            expr_patterns: &["call.expr", "method_call.expr", "scoped_call.expr"],
        };
        assert(str_views(r.name_patterns@) =~= seq![
            "call.name"@,
            "method_call.name"@,
            "scoped_call.name"@,
        ]);
        assert(str_views(r.expr_patterns@) =~= seq![
            "call.expr"@,
            "method_call.expr"@,
            "scoped_call.expr"@,
        ]);
        r
    }

    /// TypeScript/JavaScript patterns, which add `new` expressions.
    pub fn typescript() -> (r: CallCapturePatterns)
        ensures
            str_views(r.name_patterns@) == seq!["call.name"@, "method_call.name"@, "new.name"@],
            str_views(r.expr_patterns@) == seq!["call.expr"@, "method_call.expr"@, "new.expr"@],
    {
        let r = CallCapturePatterns {
            name_patterns: &["call.name", "method_call.name", "new.name"],
            expr_patterns: &["call.expr", "method_call.expr", "new.expr"],
        };
        assert(str_views(r.name_patterns@) =~= seq!["call.name"@, "method_call.name"@, "new.name"@]);
        assert(str_views(r.expr_patterns@) =~= seq!["call.expr"@, "method_call.expr"@, "new.expr"@]);
        r
    }
}

} // verus!
