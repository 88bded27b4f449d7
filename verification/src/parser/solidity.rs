//! The text and decision logic of Solidity extraction: positions from byte
//! offsets, source slices, signatures, NatSpec doc comments, visibility,
//! imports, type names and call edges.
//!
//! The parse tree itself comes from `solang-parser`; what is read from it
//! reaches these functions as plain values (byte offsets, names, the
//! library's small mirrors of types and imports).

use vstd::prelude::*;

use crate::json::opt_view;
use crate::model::{
    ParseResult,
    symbol_id_text, Edge, EdgeKind, EdgeView, ImportInfo, Symbol, SymbolKind, SymbolView,
    Visibility,
};
use crate::parser::{brief_of, clean_doc_content, doc_lines, extract_brief};
use crate::rules::{join, join_strs};
use crate::parser::rust::import_view;
use crate::parser::solang::{solang_tree, solang_unit};
use crate::parser::solidity_tree::{
    doc_table, edges_view, extract_unit, imports_view, unit_edges, unit_exports, unit_imports,
    unit_can_slice, unit_sliceable, unit_symbols, SolComment, SourcePart,
};
use crate::text::{
    chars_of, copy_strings, ends_with_char, find_char_from, index_of, join_lines, join_pieces, lines_exec,
    nat_text, pieces_view, push_chars, push_str, slice_range, str_eq, str_lines, string_from,
    strip_prefixes, strip_prefixes_exec, strip_suffixes, strip_suffixes_exec, strs, trim,
    trim_range, trim_str, u64_text,
};

verus! {

// ---------------------------------------------------------------------------
// Positions
// ---------------------------------------------------------------------------

/// The number of bytes of `c` in UTF-8.
pub open spec fn utf8_len(c: char) -> nat {
    let u = c as u32;
    if u < 0x80 {
        1
    } else if u < 0x800 {
        2
    } else if u < 0x10000 {
        3
    } else {
        4
    }
}

/// The (line, column) reached from (`line`, `col`) at byte `pos` after the
/// characters of `cs` that start before byte `offset`: a newline starts the
/// next line at column 0, any other character advances the column.
pub open spec fn line_col_from(cs: Seq<char>, pos: int, offset: int, line: nat, col: nat) -> (
    nat,
    nat,
)
    decreases cs.len(),
{
    if cs.len() == 0 || pos >= offset {
        (line, col)
    } else if cs[0] == '\n' {
        line_col_from(cs.drop_first(), pos + utf8_len(cs[0]), offset, line + 1, 0)
    } else {
        line_col_from(cs.drop_first(), pos + utf8_len(cs[0]), offset, line, col + 1)
    }
}

/// The 1-based line and 0-based column (in characters) of byte `offset`.
pub open spec fn line_col(source: Seq<char>, offset: int) -> (nat, nat) {
    line_col_from(source, 0, offset, 1, 0)
}

proof fn lemma_line_col_bounds(cs: Seq<char>, pos: int, offset: int, line: nat, col: nat)
    ensures
        line_col_from(cs, pos, offset, line, col).0 <= line + cs.len(),
        line_col_from(cs, pos, offset, line, col).1 <= col + cs.len(),
    decreases cs.len(),
{
    if cs.len() > 0 && pos < offset {
        if cs[0] == '\n' {
            lemma_line_col_bounds(cs.drop_first(), pos + utf8_len(cs[0]), offset, line + 1, 0);
        } else {
            lemma_line_col_bounds(cs.drop_first(), pos + utf8_len(cs[0]), offset, line, col + 1);
        }
    }
}

/// Convert a byte offset into a 1-based line and a 0-based column.
pub fn offset_to_line_col(source: &str, offset: usize) -> (r: (u32, u32))
    requires
        source@.len() < u32::MAX,
    ensures
        (r.0 as nat, r.1 as nat) == line_col(source@, offset as int),
{
    let cs = chars_of(source);
    let mut line: u32 = 1;
    let mut col: u32 = 0;
    let mut pos: u64 = 0;
    let mut i: usize = 0;
    proof {
        lemma_line_col_bounds(source@, 0, offset as int, 1, 0);
    }
    assert(cs@.skip(0) =~= cs@);
    while i < cs.len()
        invariant
            cs@ == source@,
            cs@.len() < u32::MAX,
            i <= cs@.len(),
            line <= 1 + i,
            col <= i,
            pos <= 4 * i,
            line_col(source@, offset as int) == line_col_from(
                cs@.skip(i as int),
                pos as int,
                offset as int,
                line as nat,
                col as nat,
            ),
        decreases cs@.len() - i,
    {
        let ghost rest = cs@.skip(i as int);
        if pos >= offset as u64 {
            return (line, col);
        }
        let c = cs[i];
        assert(rest[0] == c);
        assert(rest.drop_first() =~= cs@.skip(i + 1));
        let u = c as u32;
        let w: u64 = if u < 0x80 {
            1
        } else if u < 0x800 {
            2
        } else if u < 0x10000 {
            3
        } else {
            4
        };
        assert(w == utf8_len(c));
        if c == '\n' {
            line = line + 1;
            col = 0;
        } else {
            col = col + 1;
        }
        pos = pos + w;
        i = i + 1;
    }
    assert(cs@.skip(i as int).len() == 0);
    (line, col)
}

/// The (start line, end line, start column, end column) of a location given
/// as byte offsets; a location without offsets is (1, 1, 0, 0).
pub open spec fn loc_lines(source: Seq<char>, loc: Option<(usize, usize)>) -> (nat, nat, nat, nat) {
    match loc {
        Some((start, end)) => {
            let s = line_col(source, start as int);
            let e = line_col(source, end as int);
            (s.0, e.0, s.1, e.1)
        },
        None => (1, 1, 0, 0),
    }
}

/// Convert a location (byte offsets into `source`, when it has them) into
/// (start line, end line, start column, end column).
pub fn loc_to_lines(loc: Option<(usize, usize)>, source: &str) -> (r: (u32, u32, u32, u32))
    requires
        source@.len() < u32::MAX,
    ensures
        (r.0 as nat, r.1 as nat, r.2 as nat, r.3 as nat) == loc_lines(source@, loc),
{
    match loc {
        Some((start, end)) => {
            let (start_line, start_col) = offset_to_line_col(source, start);
            let (end_line, end_col) = offset_to_line_col(source, end);
            (start_line, end_line, start_col, end_col)
        },
        None => (1, 1, 0, 0),
    }
}

// ---------------------------------------------------------------------------
// Source slices
// ---------------------------------------------------------------------------

/// Lines `start_line..=end_line` (1-based, the end clamped to the last
/// line) of `source`, joined by newlines; `None` for a zero line or a start
/// past the end.
pub open spec fn source_lines(source: Seq<char>, start_line: u32, end_line: u32) -> Option<Seq<char>> {
    let ls = str_lines(source);
    if start_line == 0 || end_line == 0 {
        None
    } else {
        let s = start_line - 1;
        let e = if end_line <= ls.len() {
            end_line as int
        } else {
            ls.len() as int
        };
        if s >= ls.len() {
            None
        } else {
            Some(join_lines(ls.subrange(s, e), "\n"@))
        }
    }
}

/// Whether [`extract_source`] can slice its lines (slicing a range whose
/// clamped end comes before its start panics).
pub open spec fn can_slice_source(source: Seq<char>, start_line: u32, end_line: u32) -> bool {
    let n = str_lines(source).len();
    start_line == 0 || end_line == 0 || start_line - 1 >= n || start_line - 1 <= (if end_line
        <= n {
        end_line as int
    } else {
        n as int
    })
}

/// The source of lines `start_line..=end_line`.
pub fn extract_source(source: &str, start_line: u32, end_line: u32) -> (r: Option<String>)
    requires
        can_slice_source(source@, start_line, end_line),
    ensures
        opt_view(r) == source_lines(source@, start_line, end_line),
{
    if start_line == 0 || end_line == 0 {
        return None;
    }
    let cs = chars_of(source);
    let lines = lines_exec(cs.as_slice());
    let ghost ls = pieces_view(lines@);
    let start = (start_line - 1) as usize;
    let end: usize = if (end_line as usize) <= lines.len() {
        end_line as usize
    } else {
        lines.len()
    };
    if start >= lines.len() {
        return None;
    }
    let mut part: Vec<Vec<char>> = Vec::new();
    let mut i = start;
    while i < end
        invariant
            start <= i <= end,
            end <= lines@.len(),
            ls == pieces_view(lines@),
            pieces_view(part@) == ls.subrange(start as int, i as int),
        decreases end - i,
    {
        let copy = slice_range(lines[i].as_slice(), 0, lines[i].len());
        let ghost before = pieces_view(part@);
        let ghost cv = copy@;
        assert(cv =~= ls[i as int]);
        part.push(copy);
        assert(pieces_view(part@) =~= before.push(cv));
        assert(ls.subrange(start as int, i + 1) =~= ls.subrange(start as int, i as int).push(
            ls[i as int],
        ));
        i = i + 1;
    }
    let nl = vec!['\n'];
    proof {
        reveal_strlit("\n");
        assert(nl@ =~= "\n"@);
    }
    let joined = join_pieces(&part, nl.as_slice());
    Some(string_from(joined.as_slice()))
}

// ---------------------------------------------------------------------------
// Visibility
// ---------------------------------------------------------------------------

/// A Solidity visibility attribute.
#[derive(Debug, Clone, Copy, PartialEq, Eq, Structural)]
pub enum SolVisibility {
    Public,
    External,
    Internal,
    Private,
}

/// The extraction visibility of a Solidity visibility attribute.
pub open spec fn sol_visibility(v: SolVisibility) -> Visibility {
    match v {
        SolVisibility::Public | SolVisibility::External => Visibility::Public,
        SolVisibility::Internal => Visibility::Crate,
        SolVisibility::Private => Visibility::Private,
    }
}

pub(crate) fn map_visibility(v: SolVisibility) -> (r: Visibility)
    ensures
        r == sol_visibility(v),
{
    match v {
        SolVisibility::Public | SolVisibility::External => Visibility::Public,
        SolVisibility::Internal => Visibility::Crate,
        SolVisibility::Private => Visibility::Private,
    }
}

/// A function's visibility: its first visibility attribute, else private.
pub fn function_visibility(attrs: &[SolVisibility]) -> (r: Visibility)
    ensures
        r == if attrs@.len() > 0 {
            sol_visibility(attrs@[0])
        } else {
            Visibility::Private
        },
{
    if attrs.len() > 0 {
        map_visibility(attrs[0])
    } else {
        Visibility::Private
    }
}

/// A state variable's visibility: its first visibility attribute, else
/// internal.
pub fn variable_visibility(attrs: &[SolVisibility]) -> (r: Visibility)
    ensures
        r == if attrs@.len() > 0 {
            sol_visibility(attrs@[0])
        } else {
            Visibility::Crate
        },
{
    if attrs.len() > 0 {
        map_visibility(attrs[0])
    } else {
        Visibility::Crate
    }
}

// ---------------------------------------------------------------------------
// Imports
// ---------------------------------------------------------------------------

/// Where an import comes from.
#[derive(Debug)]
pub enum ImportPath {
    /// A quoted file name.
    Filename(String),
    /// A dotted identifier path, by identifier.
    Path(Vec<String>),
}

/// An import directive.
#[derive(Debug)]
pub enum SolImport {
    /// `import "path";`
    Plain(ImportPath),
    /// `import "path" as alias;`
    GlobalSymbol(ImportPath, String),
    /// `import {a, b as c} from "path";`, by imported name.
    Rename(ImportPath, Vec<String>),
}

/// The text of an import path.
pub open spec fn import_path_text(p: ImportPath) -> Seq<char> {
    match p {
        ImportPath::Filename(f) => f@,
        ImportPath::Path(ids) => join(strs(ids@), "."@),
    }
}

/// The import facts of a directive: where from, the names it imports, and
/// its alias.
pub open spec fn sol_import_view(import: SolImport) -> (Seq<char>, Seq<Seq<char>>, Option<Seq<char>>) {
    match import {
        SolImport::Plain(p) => (import_path_text(p), seq![], None),
        SolImport::GlobalSymbol(p, a) => (import_path_text(p), seq![], Some(a@)),
        SolImport::Rename(p, names) => (import_path_text(p), strs(names@), None),
    }
}

/// The import an import directive records (see [`sol_import_view`]).
pub fn import_info(import: &SolImport) -> (r: ImportInfo)
    ensures
        import_view(r) == sol_import_view(*import),
{
    match import {
        SolImport::Plain(p) => {
            let r = ImportInfo { from: path_text(p), names: Vec::new(), alias: None };
            assert(strs(r.names@) =~= seq![]);
            r
        },
        SolImport::GlobalSymbol(p, a) => {
            let r = ImportInfo { from: path_text(p), names: Vec::new(), alias: Some(a.clone()) };
            assert(strs(r.names@) =~= seq![]);
            r
        },
        SolImport::Rename(p, names) => ImportInfo {
            from: path_text(p),
            names: copy_strings(names),
            alias: None,
        },
    }
}

fn path_text(p: &ImportPath) -> (r: String)
    ensures
        r@ == import_path_text(*p),
{
    match p {
        ImportPath::Filename(f) => f.clone(),
        ImportPath::Path(ids) => {
            let parts = crate::rules::as_strs(ids);
            join_strs(&parts, ".")
        },
    }
}

// ---------------------------------------------------------------------------
// Type names
// ---------------------------------------------------------------------------

/// An elementary or mapping type.
#[derive(Debug)]
pub enum SolType {
    Address,
    AddressPayable,
    Payable,
    Bool,
    String,
    Int(u16),
    Uint(u16),
    Bytes(u8),
    Rational,
    DynamicBytes,
    Mapping(Box<TypeExpr>, Box<TypeExpr>),
    Function,
}

/// A type expression: what a declaration's type position holds.
#[derive(Debug)]
pub enum TypeExpr {
    Type(SolType),
    Variable(String),
    MemberAccess(Box<TypeExpr>, String),
    ArraySubscript(Box<TypeExpr>, Option<Box<TypeExpr>>),
    /// Anything else.
    Other,
}

/// The text of a type expression.
pub open spec fn type_expr_text(t: TypeExpr) -> Seq<char>
    decreases t, 0nat,
{
    match t {
        TypeExpr::Type(ty) => sol_type_text(ty),
        TypeExpr::Variable(name) => name@,
        TypeExpr::MemberAccess(e, member) => type_expr_text(*e) + "."@ + member@,
        TypeExpr::ArraySubscript(e, size) => match size {
            Some(s) => type_expr_text(*e) + "["@ + type_expr_text(*s) + "]"@,
            None => type_expr_text(*e) + "[]"@,
        },
        TypeExpr::Other => "unknown"@,
    }
}

/// The text of a type.
pub open spec fn sol_type_text(t: SolType) -> Seq<char>
    decreases t, 1nat,
{
    match t {
        SolType::Address => "address"@,
        SolType::AddressPayable => "address payable"@,
        SolType::Payable => "payable"@,
        SolType::Bool => "bool"@,
        SolType::String => "string"@,
        SolType::Int(n) => "int"@ + nat_text(n as nat),
        SolType::Uint(n) => "uint"@ + nat_text(n as nat),
        SolType::Bytes(n) => "bytes"@ + nat_text(n as nat),
        SolType::Rational => "rational"@,
        SolType::DynamicBytes => "bytes"@,
        SolType::Mapping(k, v) => "mapping("@ + type_expr_text(*k) + " => "@ + type_expr_text(*v)
            + ")"@,
        SolType::Function => "function"@,
    }
}

/// `prefix` followed by the decimal digits of `n`.
fn with_number(prefix: &str, n: u64) -> (r: String)
    ensures
        r@ == prefix@ + nat_text(n as nat),
{
    let mut out = String::new();
    push_str(&mut out, prefix);
    let digits = u64_text(n);
    push_chars(&mut out, digits.as_slice());
    out
}

/// Format a type expression.
pub fn format_type(t: &TypeExpr) -> (r: String)
    ensures
        r@ == type_expr_text(*t),
    decreases t, 0nat,
{
    match t {
        TypeExpr::Type(ty) => format_sol_type(ty),
        TypeExpr::Variable(name) => name.clone(),
        TypeExpr::MemberAccess(e, member) => {
            let mut out = format_type(e);
            push_str(&mut out, ".");
            push_str(&mut out, member.as_str());
            out
        },
        TypeExpr::ArraySubscript(e, size) => {
            let mut out = format_type(e);
            match size {
                Some(s) => {
                    push_str(&mut out, "[");
                    let inner = format_type(s);
                    push_str(&mut out, inner.as_str());
                    push_str(&mut out, "]");
                },
                None => push_str(&mut out, "[]"),
            }
            out
        },
        TypeExpr::Other => "unknown".to_string(),
    }
}

/// Format a type.
pub fn format_sol_type(t: &SolType) -> (r: String)
    ensures
        r@ == sol_type_text(*t),
    decreases t, 1nat,
{
    match t {
        SolType::Address => "address".to_string(),
        SolType::AddressPayable => "address payable".to_string(),
        SolType::Payable => "payable".to_string(),
        SolType::Bool => "bool".to_string(),
        SolType::String => "string".to_string(),
        SolType::Int(n) => with_number("int", *n as u64),
        SolType::Uint(n) => with_number("uint", *n as u64),
        SolType::Bytes(n) => with_number("bytes", *n as u64),
        SolType::Rational => "rational".to_string(),
        SolType::DynamicBytes => "bytes".to_string(),
        SolType::Mapping(k, v) => {
            let mut out = String::new();
            push_str(&mut out, "mapping(");
            let key = format_type(k);
            push_str(&mut out, key.as_str());
            push_str(&mut out, " => ");
            let value = format_type(v);
            push_str(&mut out, value.as_str());
            push_str(&mut out, ")");
            out
        },
        SolType::Function => "function".to_string(),
    }
}


// ---------------------------------------------------------------------------
// Doc comments
// ---------------------------------------------------------------------------

/// The content of a NatSpec block comment: `/**` and `*/` removed, each
/// line trimmed of whitespace and leading `*`, blank lines dropped.
pub open spec fn doc_block_text(text: Seq<char>) -> Seq<char> {
    join_lines(doc_lines(str_lines(strip_suffixes(strip_prefixes(text, "/**"@), "*/"@))), "\n"@)
}

/// Parse a NatSpec block comment.
pub fn parse_doc_block(text: &str) -> (r: String)
    ensures
        r@ == doc_block_text(text@),
{
    let cs = chars_of(text);
    let open = vec!['/', '*', '*'];
    let close = vec!['*', '/'];
    proof {
        reveal_strlit("/**");
        reveal_strlit("*/");
        assert(open@ =~= "/**"@);
        assert(close@ =~= "*/"@);
    }
    let a = strip_prefixes_exec(cs.as_slice(), open.as_slice());
    let content = strip_suffixes_exec(a.as_slice(), close.as_slice());
    clean_doc_content(content.as_slice())
}

/// The content of a NatSpec line comment: leading `///` removed, trimmed.
pub open spec fn doc_line_text(text: Seq<char>) -> Seq<char> {
    trim(strip_prefixes(text, "///"@))
}

/// The doc-comment table entry of a NatSpec comment at `loc`: the line it
/// ends on, and its content (a block comment when `block`).
pub fn doc_comment_entry(source: &str, loc: Option<(usize, usize)>, text: &str, block: bool) -> (r: (
    u32,
    String,
))
    requires
        source@.len() < u32::MAX,
    ensures
        r.0 as nat == loc_lines(source@, loc).1,
        r.1@ == if block {
            doc_block_text(text@)
        } else {
            doc_line_text(text@)
        },
{
    let (_, end_line, _, _) = loc_to_lines(loc, source);
    if block {
        (end_line, parse_doc_block(text))
    } else {
        let cs = chars_of(text);
        let open = vec!['/', '/', '/'];
        proof {
            reveal_strlit("///");
            assert(open@ =~= "///"@);
        }
        let rest = strip_prefixes_exec(cs.as_slice(), open.as_slice());
        let (a, b) = trim_range(rest.as_slice(), 0, rest.len());
        assert(rest@.subrange(0, rest@.len() as int) =~= rest@);
        let t = slice_range(rest.as_slice(), a, b);
        (end_line, string_from(t.as_slice()))
    }
}

/// `a - b`, or 0 when `b` is larger.
pub open spec fn sat_sub(a: u32, b: u32) -> int {
    if a >= b {
        a - b
    } else {
        0
    }
}

/// The latest end line, among the comments ending within the three lines
/// before `target`, in list order (the first of equal ends).
pub open spec fn best_end(cs: Seq<(u32, Seq<char>)>, target: u32) -> Option<u32>
    decreases cs.len(),
{
    if cs.len() == 0 {
        None
    } else {
        let prev = best_end(cs.drop_last(), target);
        let c = cs.last().0;
        if c < target && c >= sat_sub(target, 3) && (match prev {
            None => true,
            Some(b) => c > b,
        }) {
            Some(c)
        } else {
            prev
        }
    }
}

/// The texts of the comments ending within the ten lines up to `end`, in
/// order.
pub open spec fn near_texts(cs: Seq<(u32, Seq<char>)>, end: u32) -> Seq<Seq<char>>
    decreases cs.len(),
{
    if cs.len() == 0 {
        seq![]
    } else {
        let c = cs.last();
        near_texts(cs.drop_last(), end) + if c.0 <= end && c.0 >= sat_sub(end, 10) {
            seq![c.1]
        } else {
            seq![]
        }
    }
}

/// The doc comment of a declaration starting on `target`: the comments
/// leading up to the latest one that ends just before it, joined by
/// newlines.
pub open spec fn doc_comment_for(cs: Seq<(u32, Seq<char>)>, target: u32) -> Option<Seq<char>> {
    match best_end(cs, target) {
        Some(e) => {
            let texts = near_texts(cs, e);
            if texts.len() > 0 {
                Some(join(texts, "\n"@))
            } else {
                None
            }
        },
        None => None,
    }
}

/// The abstract value of a doc-comment table: end line and text of each
/// comment.
pub open spec fn docs_view(cs: Seq<(u32, String)>) -> Seq<(u32, Seq<char>)> {
    cs.map_values(|c: (u32, String)| (c.0, c.1@))
}

/// Find the doc comment of a declaration starting on line `target_line`.
pub fn find_doc_comment(comments: &[(u32, String)], target_line: u32) -> (r: Option<String>)
    ensures
        opt_view(r) == doc_comment_for(docs_view(comments@), target_line),
{
    let ghost table = docs_view(comments@);
    let low: u32 = if target_line >= 3 {
        target_line - 3
    } else {
        0
    };
    let mut best: Option<u32> = None;
    let mut i: usize = 0;
    while i < comments.len()
        invariant
            i <= comments@.len(),
            low == sat_sub(target_line, 3),
            table == docs_view(comments@),
            best == best_end(table.take(i as int), target_line),
        decreases comments@.len() - i,
    {
        assert(table.take(i + 1).drop_last() =~= table.take(i as int));
        let c = comments[i].0;
        if c < target_line && c >= low && (match best {
            None => true,
            Some(b) => c > b,
        }) {
            best = Some(c);
        }
        i = i + 1;
    }
    assert(table.take(i as int) =~= table);
    match best {
        None => None,
        Some(end) => {
            let from: u32 = if end >= 10 {
                end - 10
            } else {
                0
            };
            let mut texts: Vec<&str> = Vec::new();
            let mut k: usize = 0;
            while k < comments.len()
                invariant
                    k <= comments@.len(),
                    from == sat_sub(end, 10),
                    table == docs_view(comments@),
                    texts@.map_values(|t: &str| t@) == near_texts(table.take(k as int), end),
                decreases comments@.len() - k,
            {
                assert(table.take(k + 1).drop_last() =~= table.take(k as int));
                let ghost before = texts@;
                if comments[k].0 <= end && comments[k].0 >= from {
                    texts.push(comments[k].1.as_str());
                    assert(texts@.map_values(|t: &str| t@) =~= before.map_values(|t: &str| t@).push(
                        comments@[k as int].1@,
                    ));
                } else {
                    assert(texts@.map_values(|t: &str| t@) =~= before.map_values(|t: &str| t@));
                }
                k = k + 1;
            }
            assert(table.take(k as int) =~= table);
            if texts.len() > 0 {
                Some(join_strs(&texts, "\n"))
            } else {
                None
            }
        },
    }
}

// ---------------------------------------------------------------------------
// Signatures and contract names
// ---------------------------------------------------------------------------

/// The signature pieces of the lines `ls`: each line trimmed, up to the
/// line holding the first `{` (cut before it) or ending in `;` (without
/// trailing semicolons).
pub open spec fn sig_parts(ls: Seq<Seq<char>>) -> Seq<Seq<char>>
    decreases ls.len(),
{
    if ls.len() == 0 {
        seq![]
    } else {
        let l = ls[0];
        let i = index_of(l, '{');
        if i >= 0 {
            seq![trim(l.take(i))]
        } else if ends_with_char(trim(l), ';') {
            seq![strip_suffixes(trim(l), ";"@)]
        } else {
            seq![trim(l)] + sig_parts(ls.drop_first())
        }
    }
}

/// The signature of a function starting on line `start_line` (1-based):
/// its lines up to the body or the terminating `;`, joined by spaces;
/// `None` when empty or when the line does not exist.
pub open spec fn signature_text(source: Seq<char>, start_line: u32) -> Option<Seq<char>> {
    let ls = str_lines(source);
    if start_line == 0 || start_line > ls.len() {
        None
    } else {
        let sig = join(sig_parts(ls.skip(start_line - 1)), " "@);
        if sig.len() == 0 {
            None
        } else {
            Some(sig)
        }
    }
}

/// Build the signature of a function starting on line `start_line`.
pub fn build_function_signature(source: &str, start_line: u32) -> (r: Option<String>)
    ensures
        opt_view(r) == signature_text(source@, start_line),
{
    let cs = chars_of(source);
    let lines = lines_exec(cs.as_slice());
    let ghost ls = pieces_view(lines@);
    if start_line == 0 || start_line as usize > lines.len() {
        return None;
    }
    let first = (start_line - 1) as usize;
    let mut parts: Vec<String> = Vec::new();
    let mut i = first;
    let semi = vec![';'];
    proof {
        reveal_strlit(";");
        assert(semi@ =~= ";"@);
        assert(";"@ =~= seq![';']);
    }
    let ghost goal = sig_parts(ls.skip(first as int));
    assert(strs(parts@) =~= Seq::<Seq<char>>::empty());
    assert(goal =~= strs(parts@) + sig_parts(ls.skip(first as int)));
    loop
        invariant_except_break
            goal == strs(parts@) + sig_parts(ls.skip(i as int)),
        invariant
            first <= i <= ls.len(),
            ls == pieces_view(lines@),
            semi@ == seq![';'],
            ";"@ == seq![';'],
        ensures
            goal == strs(parts@),
        decreases ls.len() - i,
    {
        if i >= lines.len() {
            assert(ls.skip(i as int).len() == 0);
            assert(goal =~= strs(parts@));
            break;
        }
        let line = &lines[i];
        let ghost l = ls[i as int];
        assert(line@ == l);
        assert(ls.skip(i as int)[0] == l);
        assert(ls.skip(i as int).drop_first() =~= ls.skip(i + 1));
        let ghost before = strs(parts@);
        assert(line@.skip(0) =~= line@);
        match find_char_from(line.as_slice(), '{', 0) {
            Some(idx) => {
                let (a, b) = trim_range(line.as_slice(), 0, idx);
                let t = slice_range(line.as_slice(), a, b);
                assert(line@.subrange(0, idx as int) =~= l.take(idx as int));
                parts.push(string_from(t.as_slice()));
                assert(strs(parts@) =~= before.push(trim(l.take(idx as int))));
                assert(goal =~= strs(parts@));
                break;
            },
            None => {
                let (a, b) = trim_range(line.as_slice(), 0, line.len());
                assert(line@.subrange(0, line@.len() as int) =~= l);
                let t = slice_range(line.as_slice(), a, b);
                if t.len() > 0 && t[t.len() - 1] == ';' {
                    let u = strip_suffixes_exec(t.as_slice(), semi.as_slice());
                    parts.push(string_from(u.as_slice()));
                    assert(strs(parts@) =~= before.push(strip_suffixes(trim(l), ";"@)));
                    assert(goal =~= strs(parts@));
                    break;
                } else {
                    parts.push(string_from(t.as_slice()));
                    assert(strs(parts@) =~= before.push(trim(l)));
                    assert(goal =~= strs(parts@) + sig_parts(ls.skip(i + 1)));
                }
            },
        }
        i = i + 1;
    }
    let refs = crate::rules::as_strs(&parts);
    let sig = join_strs(&refs, " ");
    if sig.as_str().is_empty() {
        None
    } else {
        Some(sig)
    }
}

/// Whether `c` is alphanumeric in Unicode (`char::is_alphanumeric`).
pub uninterp spec fn unicode_alnum(c: char) -> bool;

/// `char::is_alphanumeric`: alphabetic or numeric in Unicode; which
/// characters those are is left to the name.
#[verifier::external_body]
fn is_alnum(c: char) -> (r: bool)
    ensures
        r == unicode_alnum(c),
{
    c.is_alphanumeric()
}

/// Whether `c` can be part of a contract name.
pub open spec fn name_char(c: char) -> bool {
    unicode_alnum(c) || c == '_'
}

/// The leading run of name characters of `s`.
pub open spec fn leading_name(s: Seq<char>) -> Seq<char>
    decreases s.len(),
{
    if s.len() > 0 && name_char(s[0]) {
        seq![s[0]] + leading_name(s.drop_first())
    } else {
        seq![]
    }
}

/// The name after `keyword` at the start of a trimmed line (empty when the
/// line does not start with it or no name follows).
pub open spec fn keyword_name(t: Seq<char>, keyword: Seq<char>) -> Seq<char> {
    if keyword.len() <= t.len() && t.take(keyword.len() as int) == keyword {
        leading_name(t.skip(keyword.len() as int))
    } else {
        seq![]
    }
}

/// The contract name a trimmed line declares, trying `contract `,
/// `interface ` and `library ` in turn.
pub open spec fn line_contract_name(t: Seq<char>) -> Option<Seq<char>> {
    if keyword_name(t, "contract "@).len() > 0 {
        Some(keyword_name(t, "contract "@))
    } else if keyword_name(t, "interface "@).len() > 0 {
        Some(keyword_name(t, "interface "@))
    } else if keyword_name(t, "library "@).len() > 0 {
        Some(keyword_name(t, "library "@))
    } else {
        None
    }
}

/// The first contract, interface or library name declared at the start of
/// a line.
pub open spec fn first_contract_name(ls: Seq<Seq<char>>) -> Option<Seq<char>>
    decreases ls.len(),
{
    if ls.len() == 0 {
        None
    } else {
        match line_contract_name(trim(ls[0])) {
            Some(n) => Some(n),
            None => first_contract_name(ls.drop_first()),
        }
    }
}

/// Executable [`keyword_name`].
fn keyword_name_exec(t: &[char], keyword: &str) -> (r: Vec<char>)
    ensures
        r@ == keyword_name(t@, keyword@),
{
    let k = chars_of(keyword);
    if k.len() > t.len() || !crate::text::matches_at(t, k.as_slice(), 0) {
        assert(k@.len() <= t@.len() ==> t@.subrange(0, k@.len() as int) =~= t@.take(
            k@.len() as int,
        ));
        return Vec::new();
    }
    assert(t@.subrange(0, k@.len() as int) =~= t@.take(k@.len() as int));
    let mut j = k.len();
    let ghost rest = t@.skip(k@.len() as int);
    let mut out: Vec<char> = Vec::new();
    assert(rest.skip(0) =~= rest);
    while j < t.len() && (is_alnum(t[j]) || t[j] == '_')
        invariant
            k@.len() <= j <= t@.len(),
            rest == t@.skip(k@.len() as int),
            leading_name(rest) == out@ + leading_name(t@.skip(j as int)),
        decreases t@.len() - j,
    {
        let ghost r = t@.skip(j as int);
        assert(r[0] == t@[j as int]);
        assert(r.drop_first() =~= t@.skip(j + 1));
        out.push(t[j]);
        assert(leading_name(rest) =~= out@ + leading_name(t@.skip(j + 1)));
        j = j + 1;
    }
    assert(leading_name(t@.skip(j as int)) =~= Seq::<char>::empty()) by {
        if j < t@.len() {
            assert(t@.skip(j as int)[0] == t@[j as int]);
        }
    }
    assert(leading_name(rest) =~= out@);
    out
}

/// Extract the main contract name from source: the first `contract`,
/// `interface` or `library` declared at the start of a line.
pub fn extract_contract_name(source: &str) -> (r: Option<String>)
    ensures
        opt_view(r) == first_contract_name(str_lines(source@)),
{
    let cs = chars_of(source);
    let lines = lines_exec(cs.as_slice());
    let ghost ls = pieces_view(lines@);
    let mut i: usize = 0;
    assert(ls.skip(0) =~= ls);
    while i < lines.len()
        invariant
            i <= ls.len(),
            ls == pieces_view(lines@),
            ls == str_lines(source@),
            first_contract_name(ls) == first_contract_name(ls.skip(i as int)),
        decreases ls.len() - i,
    {
        let line = &lines[i];
        assert(ls.skip(i as int)[0] == line@);
        assert(ls.skip(i as int).drop_first() =~= ls.skip(i + 1));
        let (a, b) = trim_range(line.as_slice(), 0, line.len());
        assert(line@.subrange(0, line@.len() as int) =~= line@);
        let t = slice_range(line.as_slice(), a, b);
        let n1 = keyword_name_exec(t.as_slice(), "contract ");
        if n1.len() > 0 {
            return Some(string_from(n1.as_slice()));
        }
        let n2 = keyword_name_exec(t.as_slice(), "interface ");
        if n2.len() > 0 {
            return Some(string_from(n2.as_slice()));
        }
        let n3 = keyword_name_exec(t.as_slice(), "library ");
        if n3.len() > 0 {
            return Some(string_from(n3.as_slice()));
        }
        i = i + 1;
    }
    None
}


// ---------------------------------------------------------------------------
// Symbols
// ---------------------------------------------------------------------------


proof fn lemma_line_col_base(cs: Seq<char>, pos: int, b: int, line: nat, col: nat)
    ensures
        line <= line_col_from(cs, pos, b, line, col).0,
    decreases cs.len(),
{
    if cs.len() > 0 && pos < b {
        if cs[0] == '\n' {
            lemma_line_col_base(cs.drop_first(), pos + utf8_len(cs[0]), b, line + 1, 0);
        } else {
            lemma_line_col_base(cs.drop_first(), pos + utf8_len(cs[0]), b, line, col + 1);
        }
    }
}

/// Whether the lines of a declaration at `loc` can be cut from `source`
/// for its symbol (the source is read from its start line through its
/// end line, which cannot run backwards).
pub open spec fn loc_sliceable(source: Seq<char>, loc: Option<(usize, usize)>) -> bool {
    let l = loc_lines(source, loc);
    can_slice_source(source, l.0 as u32, l.1 as u32)
}

/// Whether the lines of a declaration at `loc` can be cut from `source`
/// (see [`loc_sliceable`]), given the number of lines of `source`.
pub fn loc_can_slice(source: &str, line_count: usize, loc: Option<(usize, usize)>) -> (r: bool)
    requires
        source@.len() < u32::MAX,
        line_count == str_lines(source@).len(),
    ensures
        r == loc_sliceable(source@, loc),
{
    let (start, end, _, _) = loc_to_lines(loc, source);
    if start == 0 || end == 0 {
        return true;
    }
    let s = (start - 1) as usize;
    let e: usize = if (end as usize) <= line_count {
        end as usize
    } else {
        line_count
    };
    s >= line_count || s <= e
}

/// The parent of a contract member: the contract's name and id.
pub open spec fn parent_view(parent: Option<(&str, &str)>) -> Option<(Seq<char>, Seq<char>)> {
    match parent {
        Some((n, i)) => Some((n@, i@)),
        None => None,
    }
}

/// The symbol of a declaration named `name` at `loc`: its id, its
/// qualified name and parent id under a contract, its lines and columns,
/// its doc comment and brief, and its source lines.
pub open spec fn solidity_symbol_view(
    file_path: Seq<char>,
    source: Seq<char>,
    name: Seq<char>,
    parent: Option<(Seq<char>, Seq<char>)>,
    kind: SymbolKind,
    visibility: Visibility,
    signature: Option<Seq<char>>,
    loc: Option<(usize, usize)>,
    doc_comments: Seq<(u32, Seq<char>)>,
) -> SymbolView {
    let (ls, le, cs, ce) = loc_lines(source, loc);
    let doc = doc_comment_for(doc_comments, ls as u32);
    SymbolView {
        id: symbol_id_text(
            file_path,
            name,
            match parent {
                Some(p) => Some(p.0),
                None => None,
            },
        ),
        file_path,
        name,
        qualified_name: match parent {
            Some(p) => Some(p.0 + "."@ + name),
            None => None,
        },
        kind,
        visibility,
        signature,
        brief: match doc {
            Some(d) => brief_of(d),
            None => None,
        },
        docstring: doc,
        line_start: ls as u32,
        line_end: le as u32,
        col_start: cs as u32,
        col_end: ce as u32,
        parent_id: match parent {
            Some(p) => Some(p.1),
            None => None,
        },
        source: source_lines(source, ls as u32, le as u32),
    }
}

/// Build the symbol of a declaration (see [`solidity_symbol_view`]).
pub fn solidity_symbol(
    file_path: &str,
    source: &str,
    name: &str,
    parent: Option<(&str, &str)>,
    kind: SymbolKind,
    visibility: Visibility,
    signature: Option<String>,
    loc: Option<(usize, usize)>,
    doc_comments: &[(u32, String)],
) -> (r: Symbol)
    requires
        source@.len() < u32::MAX,
        loc_sliceable(source@, loc),
    ensures
        r@ == solidity_symbol_view(
            file_path@,
            source@,
            name@,
            parent_view(parent),
            kind,
            visibility,
            opt_view(signature),
            loc,
            docs_view(doc_comments@),
        ),
{
    let (line_start, line_end, col_start, col_end) = loc_to_lines(loc, source);
    let docstring = find_doc_comment(doc_comments, line_start);
    let brief = match &docstring {
        Some(d) => extract_brief(d.as_str()),
        None => None,
    };
    let parent_name: Option<&str> = match parent {
        Some((n, _)) => Some(n),
        None => None,
    };
    let qualified_name = match parent {
        Some((n, _)) => {
            let mut q = String::new();
            push_str(&mut q, n);
            push_str(&mut q, ".");
            push_str(&mut q, name);
            Some(q)
        },
        None => None,
    };
    let parent_id = match parent {
        Some((_, id)) => Some(id.to_string()),
        None => None,
    };
    Symbol {
        id: Symbol::make_id(file_path, name, parent_name),
        file_path: file_path.to_string(),
        name: name.to_string(),
        qualified_name,
        kind,
        visibility,
        signature,
        brief,
        docstring,
        line_start,
        line_end,
        col_start,
        col_end,
        parent_id,
        source: extract_source(source, line_start, line_end),
    }
}

/// What names a function definition.
#[derive(Debug)]
pub enum FunctionName {
    Constructor,
    Fallback,
    Receive,
    /// A function or modifier, with its name when it has one.
    Named(Option<String>),
}

/// The symbol name of a function definition (`None` for an unnamed
/// function or modifier).
pub open spec fn function_name_text(f: FunctionName) -> Option<Seq<char>> {
    match f {
        FunctionName::Constructor => Some("constructor"@),
        FunctionName::Fallback => Some("fallback"@),
        FunctionName::Receive => Some("receive"@),
        FunctionName::Named(n) => opt_view(n),
    }
}

/// The symbol of a function definition at `loc`: a function named as
/// [`function_name_text`] says, with its signature read from the source;
/// `None` when it has no name.
pub fn function_symbol(
    file_path: &str,
    source: &str,
    name: FunctionName,
    parent: Option<(&str, &str)>,
    visibility: Visibility,
    loc: Option<(usize, usize)>,
    doc_comments: &[(u32, String)],
) -> (r: Option<Symbol>)
    requires
        source@.len() < u32::MAX,
        function_name_text(name) is Some ==> loc_sliceable(source@, loc),
    ensures
        match function_name_text(name) {
            None => r is None,
            Some(n) => r matches Some(sym) && sym@ == solidity_symbol_view(
                file_path@,
                source@,
                n,
                parent_view(parent),
                SymbolKind::Function,
                visibility,
                signature_text(source@, loc_lines(source@, loc).0 as u32),
                loc,
                docs_view(doc_comments@),
            ),
        },
{
    let ghost nv = function_name_text(name);
    let n: String = match name {
        FunctionName::Constructor => "constructor".to_string(),
        FunctionName::Fallback => "fallback".to_string(),
        FunctionName::Receive => "receive".to_string(),
        FunctionName::Named(Some(n)) => n,
        FunctionName::Named(None) => {
            return None;
        },
    };
    assert(nv == Some(n@));
    let (line_start, _, _, _) = loc_to_lines(loc, source);
    let signature = build_function_signature(source, line_start);
    Some(
        solidity_symbol(
            file_path,
            source,
            n.as_str(),
            parent,
            SymbolKind::Function,
            visibility,
            signature,
            loc,
            doc_comments,
        ),
    )
}

// ---------------------------------------------------------------------------
// Call edges
// ---------------------------------------------------------------------------

/// The line ranges and ids of the function symbols, in order.
pub open spec fn function_ranges_of(symbols: Seq<SymbolView>) -> Seq<(u32, u32, Seq<char>)>
    decreases symbols.len(),
{
    if symbols.len() == 0 {
        seq![]
    } else {
        let s = symbols.last();
        function_ranges_of(symbols.drop_last()) + if s.kind == SymbolKind::Function {
            seq![(s.line_start, s.line_end, s.id)]
        } else {
            seq![]
        }
    }
}

/// The abstract values of symbols.
pub open spec fn symbols_view(v: Seq<Symbol>) -> Seq<SymbolView> {
    v.map_values(|s: Symbol| s@)
}

/// The abstract values of function ranges.
pub open spec fn ranges_view(v: Seq<(u32, u32, String)>) -> Seq<(u32, u32, Seq<char>)> {
    v.map_values(|r: (u32, u32, String)| (r.0, r.1, r.2@))
}

/// The line ranges and ids of the function symbols.
pub fn function_ranges(symbols: &[Symbol]) -> (r: Vec<(u32, u32, String)>)
    ensures
        ranges_view(r@) == function_ranges_of(symbols_view(symbols@)),
{
    let ghost sv = symbols_view(symbols@);
    let mut out: Vec<(u32, u32, String)> = Vec::new();
    let mut i: usize = 0;
    while i < symbols.len()
        invariant
            i <= symbols@.len(),
            sv == symbols_view(symbols@),
            ranges_view(out@) == function_ranges_of(sv.take(i as int)),
        decreases symbols@.len() - i,
    {
        assert(sv.take(i + 1).drop_last() =~= sv.take(i as int));
        assert(sv.take(i + 1).last() == symbols@[i as int]@);
        let ghost before = ranges_view(out@);
        let s = &symbols[i];
        if s.kind == SymbolKind::Function {
            out.push((s.line_start, s.line_end, s.id.clone()));
            assert(ranges_view(out@) =~= before.push((s.line_start, s.line_end, s.id@)));
        } else {
            assert(ranges_view(out@) =~= before + Seq::<(u32, u32, Seq<char>)>::empty());
        }
        i = i + 1;
    }
    assert(sv.take(i as int) =~= sv);
    out
}

/// The id of the first function range holding `line`.
pub open spec fn enclosing_function(ranges: Seq<(u32, u32, Seq<char>)>, line: nat) -> Option<
    Seq<char>,
>
    decreases ranges.len(),
{
    if ranges.len() == 0 {
        None
    } else if ranges[0].0 <= line && line <= ranges[0].1 {
        Some(ranges[0].2)
    } else {
        enclosing_function(ranges.drop_first(), line)
    }
}

/// The id of the first function symbol named `name`.
pub open spec fn function_named(symbols: Seq<SymbolView>, name: Seq<char>) -> Option<Seq<char>>
    decreases symbols.len(),
{
    if symbols.len() == 0 {
        None
    } else if symbols[0].name == name && symbols[0].kind == SymbolKind::Function {
        Some(symbols[0].id)
    } else {
        function_named(symbols.drop_first(), name)
    }
}

/// The call edge of a call to `name` at `loc`, made from the function whose
/// lines hold the call and aimed at the first function of that name; a
/// qualified call (`Library.name`) carries its qualified name as context.
/// No edge when no function holds the call.
pub open spec fn call_edge_view(
    source: Seq<char>,
    ranges: Seq<(u32, u32, Seq<char>)>,
    symbols: Seq<SymbolView>,
    loc: Option<(usize, usize)>,
    name: Seq<char>,
    qualifier: Option<Seq<char>>,
) -> Option<EdgeView> {
    let (line, _, col, _) = loc_lines(source, loc);
    match enclosing_function(ranges, line) {
        None => None,
        Some(source_id) => Some(
            EdgeView {
                source_id,
                target_id: function_named(symbols, name),
                target_name: name,
                kind: EdgeKind::Calls,
                line: Some(line as u32),
                col: Some(col as u32),
                context: match qualifier {
                    Some(q) => Some(q + "."@ + name),
                    None => None,
                },
            },
        ),
    }
}

pub(crate) fn find_enclosing(ranges: &[(u32, u32, String)], line: u32) -> (r: Option<String>)
    ensures
        opt_view(r) == enclosing_function(ranges_view(ranges@), line as nat),
{
    let ghost rv = ranges_view(ranges@);
    let mut i: usize = 0;
    assert(rv.skip(0) =~= rv);
    while i < ranges.len()
        invariant
            i <= ranges@.len(),
            rv == ranges_view(ranges@),
            enclosing_function(rv, line as nat) == enclosing_function(rv.skip(i as int), line as nat),
        decreases ranges@.len() - i,
    {
        assert(rv.skip(i as int)[0] == (ranges@[i as int].0, ranges@[i as int].1, ranges@[i as int].2@));
        assert(rv.skip(i as int).drop_first() =~= rv.skip(i + 1));
        if ranges[i].0 <= line && line <= ranges[i].1 {
            return Some(ranges[i].2.clone());
        }
        i = i + 1;
    }
    None
}

fn find_function_named(symbols: &[Symbol], name: &str) -> (r: Option<String>)
    ensures
        opt_view(r) == function_named(symbols_view(symbols@), name@),
{
    let ghost sv = symbols_view(symbols@);
    let mut i: usize = 0;
    assert(sv.skip(0) =~= sv);
    while i < symbols.len()
        invariant
            i <= symbols@.len(),
            sv == symbols_view(symbols@),
            function_named(sv, name@) == function_named(sv.skip(i as int), name@),
        decreases symbols@.len() - i,
    {
        assert(sv.skip(i as int)[0] == symbols@[i as int]@);
        assert(sv.skip(i as int).drop_first() =~= sv.skip(i + 1));
        if str_eq(symbols[i].name.as_str(), name) && symbols[i].kind == SymbolKind::Function {
            return Some(symbols[i].id.clone());
        }
        i = i + 1;
    }
    None
}

/// The call edge of a call site (see [`call_edge_view`]).
pub fn call_edge(
    source: &str,
    ranges: &[(u32, u32, String)],
    symbols: &[Symbol],
    loc: Option<(usize, usize)>,
    name: &str,
    qualifier: Option<&str>,
) -> (r: Option<Edge>)
    requires
        source@.len() < u32::MAX,
    ensures
        match r {
            Some(e) => call_edge_view(
                source@,
                ranges_view(ranges@),
                symbols_view(symbols@),
                loc,
                name@,
                match qualifier {
                    Some(q) => Some(q@),
                    None => None,
                },
            ) == Some(e@),
            None => call_edge_view(
                source@,
                ranges_view(ranges@),
                symbols_view(symbols@),
                loc,
                name@,
                match qualifier {
                    Some(q) => Some(q@),
                    None => None,
                },
            ) is None,
        },
{
    let (line, _, col, _) = loc_to_lines(loc, source);
    let source_id = match find_enclosing(ranges, line) {
        Some(id) => id,
        None => {
            return None;
        },
    };
    let context = match qualifier {
        Some(q) => {
            let mut c = String::new();
            push_str(&mut c, q);
            push_str(&mut c, ".");
            push_str(&mut c, name);
            Some(c)
        },
        None => None,
    };
    Some(
        Edge {
            source_id,
            target_id: find_function_named(symbols, name),
            target_name: name.to_string(),
            kind: EdgeKind::Calls,
            line: Some(line),
            col: Some(col),
            context,
        },
    )
}

/// The `Uses` edge of a `using ... for <type>` directive in a contract.
pub fn using_edge(contract_id: &str, ty: &TypeExpr) -> (r: Edge)
    ensures
        r@ == (EdgeView {
            source_id: contract_id@,
            target_id: None,
            target_name: type_expr_text(*ty),
            kind: EdgeKind::Uses,
            line: None,
            col: None,
            context: None,
        }),
{
    Edge {
        source_id: contract_id.to_string(),
        target_id: None,
        target_name: format_type(ty),
        kind: EdgeKind::Uses,
        line: None,
        col: None,
        context: None,
    }
}

// ---------------------------------------------------------------------------
// The parser
// ---------------------------------------------------------------------------

/// Solidity extraction over a `solang-parser` tree.
pub struct SolidityParser {}

impl SolidityParser {
    /// Create a Solidity parser.
    pub fn new() -> (r: SolidityParser) {
        SolidityParser {  }
    }

    /// Extract a source file from its parse tree and comments (see
    /// [`extract_unit`]).
    pub fn parse_tree(
        &self,
        file_path: &str,
        source: &str,
        parts: &Vec<SourcePart>,
        comments: &Vec<SolComment>,
    ) -> (r: ParseResult)
        requires
            source@.len() < u32::MAX,
            unit_sliceable(source@, parts@),
        ensures
            extracted(r, file_path@, source@, parts@, comments@),
    {
        extract_unit(file_path, source, parts, comments)
    }

    /// Parse a Solidity source file with `solang-parser` and extract its
    /// symbols, edges and module: `None` when the source does not parse,
    /// or when a declaration's location runs so far backwards that its
    /// source lines cannot be cut.
    pub fn parse(&self, file_path: &str, source: &str) -> (r: Option<ParseResult>)
        requires
            source@.len() < u32::MAX,
        ensures
            match solang_unit(source@) {
                None => r is None,
                Some((parts, comments)) => if unit_sliceable(source@, parts) {
                    r matches Some(p) && extracted(p, file_path@, source@, parts, comments)
                } else {
                    r is None
                },
            },
    {
        match solang_tree(source) {
            Some((parts, comments)) => {
                if unit_can_slice(source, &parts) {
                    Some(self.parse_tree(file_path, source, &parts, &comments))
                } else {
                    None
                }
            },
            None => None,
        }
    }
}

/// What extraction gives for a source file and its parse tree and comments:
/// the file's symbols, edges and module (see [`unit_symbols`],
/// [`unit_edges`], [`unit_exports`], [`unit_imports`]), in the language
/// `solidity`.
pub open spec fn extracted(
    r: ParseResult,
    file_path: Seq<char>,
    source: Seq<char>,
    parts: Seq<SourcePart>,
    comments: Seq<SolComment>,
) -> bool {
    &&& r.file_path@ == file_path
    &&& r.language@ == "solidity"@
    &&& symbols_view(r.symbols@) == unit_symbols(file_path, source, parts, doc_table(source, comments))
    &&& edges_view(r.edges@) == unit_edges(file_path, source, parts, doc_table(source, comments))
    &&& r.module matches Some(m) && m.file_path@ == file_path && opt_view(m.module_name)
        == first_contract_name(str_lines(source)) && strs(m.exports@) == unit_exports(parts)
        && imports_view(m.imports@) == unit_imports(parts)
}

impl Default for SolidityParser {
    fn default() -> (r: SolidityParser)
        ensures
            r == (SolidityParser {  }),
    {
        SolidityParser::new()
    }
}

} // verus!
