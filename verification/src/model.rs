//! The extraction model: symbols, edges and per-file parse results.

use vstd::prelude::*;

use crate::text::{push_str, str_eq};

verus! {

/// Kind of an extracted symbol.
#[derive(Debug, Clone, Copy, PartialEq, Eq, Structural)]
pub enum SymbolKind {
    Function,
    Method,
    Class,
    Struct,
    Enum,
    Interface,
    Trait,
    Module,
    Field,
    Variant,
    Const,
    Static,
    Type,
    Variable,
    Macro,
}

/// Lower-case name of a symbol kind.
pub open spec fn symbol_kind_text(k: SymbolKind) -> Seq<char> {
    match k {
        SymbolKind::Function => "function"@,
        SymbolKind::Method => "method"@,
        SymbolKind::Class => "class"@,
        SymbolKind::Struct => "struct"@,
        SymbolKind::Enum => "enum"@,
        SymbolKind::Interface => "interface"@,
        SymbolKind::Trait => "trait"@,
        SymbolKind::Module => "module"@,
        SymbolKind::Field => "field"@,
        SymbolKind::Variant => "variant"@,
        SymbolKind::Const => "const"@,
        SymbolKind::Static => "static"@,
        SymbolKind::Type => "type"@,
        SymbolKind::Variable => "variable"@,
        SymbolKind::Macro => "macro"@,
    }
}

impl SymbolKind {
    /// The kind's lower-case name (`"function"`, `"class"`, ...).
    pub fn as_str(&self) -> (r: &'static str)
        ensures
            r@ == symbol_kind_text(*self),
    {
        match self {
            SymbolKind::Function => "function",
            SymbolKind::Method => "method",
            SymbolKind::Class => "class",
            SymbolKind::Struct => "struct",
            SymbolKind::Enum => "enum",
            SymbolKind::Interface => "interface",
            SymbolKind::Trait => "trait",
            SymbolKind::Module => "module",
            SymbolKind::Field => "field",
            SymbolKind::Variant => "variant",
            SymbolKind::Const => "const",
            SymbolKind::Static => "static",
            SymbolKind::Type => "type",
            SymbolKind::Variable => "variable",
            SymbolKind::Macro => "macro",
        }
    }
}

/// Whether a kind is a function or a method (the callable kinds).
pub open spec fn is_callable_kind(k: SymbolKind) -> bool {
    k == SymbolKind::Function || k == SymbolKind::Method
}

/// Visibility of an extracted symbol.
#[derive(Debug, Clone, Copy, PartialEq, Eq, Structural)]
pub enum Visibility {
    Public,
    Crate,
    Super,
    InPath,
    Private,
    Internal,
    External,
}

/// Kind of a relationship between symbols.
#[derive(Debug, Clone, Copy, PartialEq, Eq, Structural)]
pub enum EdgeKind {
    Calls,
    Implements,
    Extends,
    Uses,
    Imports,
}

/// One extracted symbol.
#[derive(Debug)]
pub struct Symbol {
    pub id: String,
    pub file_path: String,
    pub name: String,
    pub qualified_name: Option<String>,
    pub kind: SymbolKind,
    pub visibility: Visibility,
    pub signature: Option<String>,
    pub brief: Option<String>,
    pub docstring: Option<String>,
    pub line_start: u32,
    pub line_end: u32,
    pub col_start: u32,
    pub col_end: u32,
    pub parent_id: Option<String>,
    pub source: Option<String>,
}

/// The provisional id of a symbol: `file::[parent::]name`.
pub open spec fn symbol_id_text(file_path: Seq<char>, name: Seq<char>, parent: Option<Seq<char>>) -> Seq<char> {
    match parent {
        Some(p) => file_path + "::"@ + p + "::"@ + name,
        None => file_path + "::"@ + name,
    }
}

impl Symbol {
    /// Build the provisional id `file::[parent::]name`.
    pub fn make_id(file_path: &str, name: &str, parent: Option<&str>) -> (r: String)
        ensures
            r@ == symbol_id_text(file_path@, name@, match parent { Some(p) => Some(p@), None => None }),
    {
        let mut out = String::new();
        push_str(&mut out, file_path);
        push_str(&mut out, "::");
        match parent {
            Some(p) => {
                push_str(&mut out, p);
                push_str(&mut out, "::");
            },
            None => {},
        }
        push_str(&mut out, name);
        out
    }
}

/// One extracted relationship.
#[derive(Debug)]
pub struct Edge {
    pub source_id: String,
    pub target_id: Option<String>,
    pub target_name: String,
    pub kind: EdgeKind,
    pub line: Option<u32>,
    pub col: Option<u32>,
    pub context: Option<String>,
}

/// One import statement.
#[derive(Debug)]
pub struct ImportInfo {
    pub from: String,
    pub names: Vec<String>,
    pub alias: Option<String>,
}

/// Module-level facts of a file: its name, exports and imports.
#[derive(Debug)]
pub struct ModuleInfo {
    pub file_path: String,
    pub module_name: Option<String>,
    pub exports: Vec<String>,
    pub imports: Vec<ImportInfo>,
}

/// Everything extracted from one file.
#[derive(Debug)]
pub struct ParseResult {
    pub file_path: String,
    pub language: String,
    pub symbols: Vec<Symbol>,
    pub edges: Vec<Edge>,
    pub module: Option<ModuleInfo>,
}

/// Whether two optional strings are equal.
pub fn opt_str_eq(a: &Option<String>, b: &Option<String>) -> (r: bool)
    ensures
        r == (match (a, b) {
            (Some(x), Some(y)) => x@ == y@,
            (None, None) => true,
            _ => false,
        }),
{
    match (a, b) {
        (Some(x), Some(y)) => str_eq(x.as_str(), y.as_str()),
        (None, None) => true,
        _ => false,
    }
}

/// The abstract value of a [`Symbol`].
pub struct SymbolView {
    pub id: Seq<char>,
    pub file_path: Seq<char>,
    pub name: Seq<char>,
    pub qualified_name: Option<Seq<char>>,
    pub kind: SymbolKind,
    pub visibility: Visibility,
    pub signature: Option<Seq<char>>,
    pub brief: Option<Seq<char>>,
    pub docstring: Option<Seq<char>>,
    pub line_start: u32,
    pub line_end: u32,
    pub col_start: u32,
    pub col_end: u32,
    pub parent_id: Option<Seq<char>>,
    pub source: Option<Seq<char>>,
}

impl View for Symbol {
    type V = SymbolView;

    open spec fn view(&self) -> SymbolView {
        SymbolView {
            id: self.id@,
            file_path: self.file_path@,
            name: self.name@,
            qualified_name: crate::json::opt_view(self.qualified_name),
            kind: self.kind,
            visibility: self.visibility,
            signature: crate::json::opt_view(self.signature),
            brief: crate::json::opt_view(self.brief),
            docstring: crate::json::opt_view(self.docstring),
            line_start: self.line_start,
            line_end: self.line_end,
            col_start: self.col_start,
            col_end: self.col_end,
            parent_id: crate::json::opt_view(self.parent_id),
            source: crate::json::opt_view(self.source),
        }
    }
}

/// The abstract value of an [`Edge`].
pub struct EdgeView {
    pub source_id: Seq<char>,
    pub target_id: Option<Seq<char>>,
    pub target_name: Seq<char>,
    pub kind: EdgeKind,
    pub line: Option<u32>,
    pub col: Option<u32>,
    pub context: Option<Seq<char>>,
}

impl View for Edge {
    type V = EdgeView;

    open spec fn view(&self) -> EdgeView {
        EdgeView {
            source_id: self.source_id@,
            target_id: crate::json::opt_view(self.target_id),
            target_name: self.target_name@,
            kind: self.kind,
            line: self.line,
            col: self.col,
            context: crate::json::opt_view(self.context),
        }
    }
}

} // verus!
