//! The Solidity parse tree as extraction reads it, and the walks over it.
//!
//! `solang-parser` produces the tree; these types keep, as plain values,
//! what extraction looks at: declaration kinds, names, locations and
//! visibility attributes, and, in function bodies, the statements and
//! expressions that may hold calls. Declarations become symbols, imports
//! and `using` edges; calls and modifier invocations become call edges.

use vstd::prelude::*;

use crate::json::opt_view;
use crate::model::{
    symbol_id_text, Edge, EdgeKind, EdgeView, ImportInfo, ModuleInfo, ParseResult, Symbol, SymbolKind,
    SymbolView, Visibility,
};
use crate::parser::solidity::{extract_contract_name, first_contract_name};
use crate::text::str_lines;
use crate::parser::rust::import_view;
use crate::parser::solidity::{
    enclosing_function, function_named, call_edge, call_edge_view, doc_block_text, doc_comment_entry, doc_line_text, docs_view,
    format_type, function_name_text, function_ranges, function_ranges_of, function_symbol,
    import_info, loc_lines, loc_sliceable, loc_can_slice, parent_view, ranges_view,
    signature_text, sol_import_view, sol_visibility, solidity_symbol, solidity_symbol_view,
    symbols_view, type_expr_text, using_edge, FunctionName, SolImport,
    SolVisibility, TypeExpr,
};
use crate::text::{chars_of, lines_exec, push_str, strs};

verus! {

// ---------------------------------------------------------------------------
// Function bodies
// ---------------------------------------------------------------------------

/// An expression, as far as call extraction reads it.
#[derive(Debug)]
pub enum SolExpr {
    /// An identifier.
    Variable(String),
    /// `object.member`.
    MemberAccess(Box<SolExpr>, String),
    /// `callee(args)`, with its location.
    FunctionCall(Option<(usize, usize)>, Box<SolExpr>, Vec<SolExpr>),
    /// `callee{...}`, with its location; the braces are not entered.
    FunctionCallBlock(Option<(usize, usize)>, Box<SolExpr>),
    /// An expression with one operand that is entered: a unary operator,
    /// an increment or decrement, parentheses, `new`.
    Unary(Box<SolExpr>),
    /// A binary operator or an assignment.
    Binary(Box<SolExpr>, Box<SolExpr>),
    /// `cond ? a : b`.
    Conditional(Box<SolExpr>, Box<SolExpr>, Box<SolExpr>),
    /// `array[index]`.
    ArraySubscript(Box<SolExpr>, Option<Box<SolExpr>>),
    /// `array[start:end]`.
    ArraySlice(Box<SolExpr>, Option<Box<SolExpr>>, Option<Box<SolExpr>>),
    /// `[a, b, ...]`.
    ArrayLiteral(Vec<SolExpr>),
    /// `delete x`: not entered.
    Delete(Box<SolExpr>),
    /// Anything else (literals, types, lists, named-argument calls, ...):
    /// not entered.
    Other,
}

/// A call site: its location, the called name, and the identifier it is
/// called on (`Lib` in `Lib.f(...)`), if any.
pub type SiteView = (Option<(usize, usize)>, Seq<char>, Option<Seq<char>>);

/// The called name of a callee expression and its qualifier: an
/// identifier is called unqualified; `object.member` calls `member`,
/// qualified by `object` when that is an identifier; anything else names
/// no function.
pub open spec fn callee_of(f: SolExpr) -> Option<(Seq<char>, Option<Seq<char>>)> {
    match f {
        SolExpr::Variable(id) => Some((id@, None)),
        SolExpr::MemberAccess(object, member) => Some(
            (
                member@,
                match *object {
                    SolExpr::Variable(id) => Some(id@),
                    _ => None,
                },
            ),
        ),
        _ => None,
    }
}

/// The site of a call at `loc` through `callee`, if it names a function.
pub open spec fn call_site(loc: Option<(usize, usize)>, callee: SolExpr) -> Seq<SiteView> {
    match callee_of(callee) {
        Some((name, qualifier)) => seq![(loc, name, qualifier)],
        None => seq![],
    }
}

/// The call sites of an expression, in source order: a call's own site
/// comes before those in its arguments; a callee expression is not entered.
pub open spec fn expr_sites(e: SolExpr) -> Seq<SiteView>
    decreases e,
{
    match e {
        SolExpr::FunctionCall(loc, callee, args) => call_site(loc, *callee) + exprs_sites(args@),
        SolExpr::FunctionCallBlock(loc, callee) => call_site(loc, *callee),
        SolExpr::MemberAccess(object, _) => expr_sites(*object),
        SolExpr::Unary(x) => expr_sites(*x),
        SolExpr::Binary(a, b) => expr_sites(*a) + expr_sites(*b),
        SolExpr::Conditional(c, a, b) => expr_sites(*c) + expr_sites(*a) + expr_sites(*b),
        SolExpr::ArraySubscript(a, i) => expr_sites(*a) + match i {
            Some(x) => expr_sites(*x),
            None => seq![],
        },
        SolExpr::ArraySlice(a, s, t) => expr_sites(*a) + match s {
            Some(x) => expr_sites(*x),
            None => seq![],
        } + match t {
            Some(x) => expr_sites(*x),
            None => seq![],
        },
        SolExpr::ArrayLiteral(es) => exprs_sites(es@),
        SolExpr::Variable(_) | SolExpr::Delete(_) | SolExpr::Other => seq![],
    }
}

/// The call sites of a list of expressions, in order.
pub open spec fn exprs_sites(es: Seq<SolExpr>) -> Seq<SiteView>
    decreases es,
{
    if es.len() == 0 {
        seq![]
    } else {
        exprs_sites(es.drop_last()) + expr_sites(es.last())
    }
}

/// A call site found in a body.
#[derive(Debug)]
pub struct CallSite {
    pub loc: Option<(usize, usize)>,
    pub name: String,
    pub qualifier: Option<String>,
}

impl View for CallSite {
    type V = SiteView;

    open spec fn view(&self) -> SiteView {
        (self.loc, self.name@, opt_view(self.qualifier))
    }
}

/// The abstract values of call sites.
pub open spec fn sites_view(v: Seq<CallSite>) -> Seq<SiteView> {
    v.map_values(|c: CallSite| c@)
}

proof fn lemma_sites_push(v: Seq<CallSite>, c: CallSite)
    ensures
        sites_view(v.push(c)) == sites_view(v) + seq![c@],
{
    assert(sites_view(v.push(c)) =~= sites_view(v) + seq![c@]);
}

proof fn lemma_exprs_sites_step(es: Seq<SolExpr>, i: int)
    requires
        0 <= i < es.len(),
    ensures
        exprs_sites(es.take(i + 1)) == exprs_sites(es.take(i)) + expr_sites(es[i]),
{
    assert(es.take(i + 1).drop_last() =~= es.take(i));
}

/// Push the site of a call at `loc` through `callee`, if it names a function.
fn push_call_site(loc: Option<(usize, usize)>, callee: &SolExpr, out: &mut Vec<CallSite>)
    ensures
        sites_view(final(out)@) == sites_view(old(out)@) + call_site(loc, *callee),
{
    let ghost before = out@;
    match callee {
        SolExpr::Variable(id) => {
            out.push(CallSite { loc, name: id.clone(), qualifier: None });
            proof { lemma_sites_push(before, out@.last()); }
        },
        SolExpr::MemberAccess(object, member) => {
            let qualifier = match &**object {
                SolExpr::Variable(id) => Some(id.clone()),
                _ => None,
            };
            out.push(CallSite { loc, name: member.clone(), qualifier });
            proof { lemma_sites_push(before, out@.last()); }
        },
        _ => {
            assert(sites_view(out@) =~= sites_view(before) + call_site(loc, *callee));
        },
    }
}

/// Append the call sites of each expression of `es`, in order.
fn push_exprs_sites(es: &Vec<SolExpr>, out: &mut Vec<CallSite>)
    ensures
        sites_view(final(out)@) == sites_view(old(out)@) + exprs_sites(es@),
    decreases es, 1nat,
{
    let ghost start = sites_view(out@);
    let mut i: usize = 0;
    while i < es.len()
        invariant
            i <= es@.len(),
            sites_view(out@) == start + exprs_sites(es@.take(i as int)),
        decreases es@.len() - i,
    {
        push_expr_sites(&es[i], out);
        proof {
            lemma_exprs_sites_step(es@, i as int);
        }
        i = i + 1;
    }
    assert(es@.take(i as int) =~= es@);
}

/// Append the call sites of `e` (see [`expr_sites`]).
fn push_expr_sites(e: &SolExpr, out: &mut Vec<CallSite>)
    ensures
        sites_view(final(out)@) == sites_view(old(out)@) + expr_sites(*e),
    decreases e, 0nat,
{
    let ghost start = sites_view(out@);
    match e {
        SolExpr::FunctionCall(loc, callee, args) => {
            push_call_site(*loc, callee, out);
            push_exprs_sites(args, out);
        },
        SolExpr::FunctionCallBlock(loc, callee) => {
            push_call_site(*loc, callee, out);
        },
        SolExpr::MemberAccess(object, _) => {
            push_expr_sites(object, out);
        },
        SolExpr::Unary(x) => {
            push_expr_sites(x, out);
        },
        SolExpr::Binary(a, b) => {
            push_expr_sites(a, out);
            push_expr_sites(b, out);
        },
        SolExpr::Conditional(c, a, b) => {
            push_expr_sites(c, out);
            push_expr_sites(a, out);
            push_expr_sites(b, out);
        },
        SolExpr::ArraySubscript(a, i) => {
            push_expr_sites(a, out);
            match i {
                Some(x) => push_expr_sites(x, out),
                None => {},
            }
        },
        SolExpr::ArraySlice(a, s, t) => {
            push_expr_sites(a, out);
            match s {
                Some(x) => push_expr_sites(x, out),
                None => {},
            }
            match t {
                Some(x) => push_expr_sites(x, out),
                None => {},
            }
        },
        SolExpr::ArrayLiteral(es) => {
            push_exprs_sites(es, out);
        },
        SolExpr::Variable(_) | SolExpr::Delete(_) | SolExpr::Other => {},
    }
    assert(sites_view(out@) =~= start + expr_sites(*e));
}

/// A statement, as far as call extraction reads it.
#[derive(Debug)]
pub enum SolStmt {
    /// An expression statement.
    Expression(SolExpr),
    /// A local variable declaration, with its initializer if it has one.
    VariableDefinition(Option<SolExpr>),
    /// `if (cond) then else`.
    If(SolExpr, Box<SolStmt>, Option<Box<SolStmt>>),
    /// `while (cond) body`.
    While(SolExpr, Box<SolStmt>),
    /// `for (init; cond; update) body`.
    For(Option<Box<SolStmt>>, Option<SolExpr>, Option<SolExpr>, Option<Box<SolStmt>>),
    /// `do body while (cond)`.
    DoWhile(Box<SolStmt>, SolExpr),
    /// `{ statements }`.
    Block(Vec<SolStmt>),
    /// `return [value]`.
    Return(Option<SolExpr>),
    /// `emit event(...)`.
    Emit(SolExpr),
    /// `try expr ... catch ...`: the tried expression and the bodies of the
    /// catch clauses (the success block is not entered).
    Try(SolExpr, Vec<SolStmt>),
    /// Anything else (assembly, reverts, `break`, ...): not entered.
    Other,
}

/// The call sites of an optional expression.
pub open spec fn opt_expr_sites(e: Option<SolExpr>) -> Seq<SiteView> {
    match e {
        Some(x) => expr_sites(x),
        None => seq![],
    }
}

/// The call sites of a statement, in source order.
pub open spec fn stmt_sites(s: SolStmt) -> Seq<SiteView>
    decreases s,
{
    match s {
        SolStmt::Expression(e) => expr_sites(e),
        SolStmt::VariableDefinition(init) => opt_expr_sites(init),
        SolStmt::If(c, t, f) => expr_sites(c) + stmt_sites(*t) + match f {
            Some(x) => stmt_sites(*x),
            None => seq![],
        },
        SolStmt::While(c, b) => expr_sites(c) + stmt_sites(*b),
        SolStmt::For(init, c, u, b) => (match init {
            Some(x) => stmt_sites(*x),
            None => seq![],
        }) + opt_expr_sites(c) + opt_expr_sites(u) + match b {
            Some(x) => stmt_sites(*x),
            None => seq![],
        },
        SolStmt::DoWhile(b, c) => stmt_sites(*b) + expr_sites(c),
        SolStmt::Block(ss) => stmts_sites(ss@),
        SolStmt::Return(v) => opt_expr_sites(v),
        SolStmt::Emit(e) => expr_sites(e),
        SolStmt::Try(e, catches) => expr_sites(e) + stmts_sites(catches@),
        SolStmt::Other => seq![],
    }
}

/// The call sites of a list of statements, in order.
pub open spec fn stmts_sites(ss: Seq<SolStmt>) -> Seq<SiteView>
    decreases ss,
{
    if ss.len() == 0 {
        seq![]
    } else {
        stmts_sites(ss.drop_last()) + stmt_sites(ss.last())
    }
}

proof fn lemma_stmts_sites_step(ss: Seq<SolStmt>, i: int)
    requires
        0 <= i < ss.len(),
    ensures
        stmts_sites(ss.take(i + 1)) == stmts_sites(ss.take(i)) + stmt_sites(ss[i]),
{
    assert(ss.take(i + 1).drop_last() =~= ss.take(i));
}

fn push_opt_expr_sites(e: &Option<SolExpr>, out: &mut Vec<CallSite>)
    ensures
        sites_view(final(out)@) == sites_view(old(out)@) + opt_expr_sites(*e),
{
    match e {
        Some(x) => push_expr_sites(x, out),
        None => {
            assert(sites_view(out@) =~= sites_view(out@) + opt_expr_sites(*e));
        },
    }
}

/// Append the call sites of each statement of `ss`, in order.
fn push_stmts_sites(ss: &Vec<SolStmt>, out: &mut Vec<CallSite>)
    ensures
        sites_view(final(out)@) == sites_view(old(out)@) + stmts_sites(ss@),
    decreases ss, 1nat,
{
    let ghost start = sites_view(out@);
    let mut i: usize = 0;
    while i < ss.len()
        invariant
            i <= ss@.len(),
            sites_view(out@) == start + stmts_sites(ss@.take(i as int)),
        decreases ss@.len() - i,
    {
        push_stmt_sites(&ss[i], out);
        proof {
            lemma_stmts_sites_step(ss@, i as int);
        }
        i = i + 1;
    }
    assert(ss@.take(i as int) =~= ss@);
}

/// Append the call sites of `s` (see [`stmt_sites`]).
fn push_stmt_sites(s: &SolStmt, out: &mut Vec<CallSite>)
    ensures
        sites_view(final(out)@) == sites_view(old(out)@) + stmt_sites(*s),
    decreases s, 0nat,
{
    let ghost start = sites_view(out@);
    match s {
        SolStmt::Expression(e) => push_expr_sites(e, out),
        SolStmt::VariableDefinition(init) => push_opt_expr_sites(init, out),
        SolStmt::If(c, t, f) => {
            push_expr_sites(c, out);
            push_stmt_sites(t, out);
            match f {
                Some(x) => push_stmt_sites(x, out),
                None => {},
            }
        },
        SolStmt::While(c, b) => {
            push_expr_sites(c, out);
            push_stmt_sites(b, out);
        },
        SolStmt::For(init, c, u, b) => {
            match init {
                Some(x) => push_stmt_sites(x, out),
                None => {},
            }
            push_opt_expr_sites(c, out);
            push_opt_expr_sites(u, out);
            match b {
                Some(x) => push_stmt_sites(x, out),
                None => {},
            }
        },
        SolStmt::DoWhile(b, c) => {
            push_stmt_sites(b, out);
            push_expr_sites(c, out);
        },
        SolStmt::Block(ss) => push_stmts_sites(ss, out),
        SolStmt::Return(v) => push_opt_expr_sites(v, out),
        SolStmt::Emit(e) => push_expr_sites(e, out),
        SolStmt::Try(e, catches) => {
            push_expr_sites(e, out);
            push_stmts_sites(catches, out);
        },
        SolStmt::Other => {},
    }
    assert(sites_view(out@) =~= start + stmt_sites(*s));
}

// ---------------------------------------------------------------------------
// Functions and call edges
// ---------------------------------------------------------------------------

/// A function or state-variable attribute: a visibility, a modifier or
/// base-constructor invocation (its location and the identifiers of the
/// invoked name, in order), or anything else.
#[derive(Debug)]
pub enum SolAttribute {
    Visibility(SolVisibility),
    Invocation(Option<(usize, usize)>, Vec<String>),
    Other,
}

/// A function definition (also a modifier, constructor, fallback or
/// receive function).
#[derive(Debug)]
pub struct SolFunction {
    pub name: FunctionName,
    /// The attributes, in order.
    pub attributes: Vec<SolAttribute>,
    pub loc: Option<(usize, usize)>,
    pub body: Option<SolStmt>,
}

/// The call sites of a function's invocations: each one whose name has
/// identifiers is a call of its last identifier, unqualified.
pub open spec fn invocation_sites(attrs: Seq<SolAttribute>) -> Seq<SiteView>
    decreases attrs.len(),
{
    if attrs.len() == 0 {
        seq![]
    } else {
        invocation_sites(attrs.drop_last()) + match attrs.last() {
            SolAttribute::Invocation(loc, path) => if path@.len() > 0 {
                seq![(loc, path@.last()@, None)]
            } else {
                seq![]
            },
            _ => seq![],
        }
    }
}

/// The visibility given by the first visibility attribute, or `default`.
pub open spec fn attr_visibility(attrs: Seq<SolAttribute>, default: Visibility) -> Visibility
    decreases attrs.len(),
{
    if attrs.len() == 0 {
        default
    } else {
        match attrs[0] {
            SolAttribute::Visibility(v) => sol_visibility(v),
            _ => attr_visibility(attrs.drop_first(), default),
        }
    }
}

/// The visibility given by the first visibility attribute, or `default`
/// (see [`attr_visibility`]).
pub fn first_attr_visibility(attrs: &Vec<SolAttribute>, default: Visibility) -> (r: Visibility)
    ensures
        r == attr_visibility(attrs@, default),
{
    let mut i: usize = 0;
    assert(attrs@.skip(0) =~= attrs@);
    while i < attrs.len()
        invariant
            i <= attrs@.len(),
            attr_visibility(attrs@.skip(i as int), default) == attr_visibility(attrs@, default),
        decreases attrs@.len() - i,
    {
        assert(attrs@.skip(i as int)[0] == attrs@[i as int]);
        assert(attrs@.skip(i as int).drop_first() =~= attrs@.skip(i + 1));
        match &attrs[i] {
            SolAttribute::Visibility(v) => {
                return crate::parser::solidity::map_visibility(*v);
            },
            _ => {},
        }
        i = i + 1;
    }
    assert(attrs@.skip(i as int).len() == 0);
    default
}

/// The call sites of a function: its invocations, then its body.
pub open spec fn function_sites(f: SolFunction) -> Seq<SiteView> {
    invocation_sites(f.attributes@) + match f.body {
        Some(b) => stmt_sites(b),
        None => seq![],
    }
}

fn push_function_sites(f: &SolFunction, out: &mut Vec<CallSite>)
    ensures
        sites_view(final(out)@) == sites_view(old(out)@) + function_sites(*f),
{
    let ghost start = sites_view(out@);
    let mut i: usize = 0;
    while i < f.attributes.len()
        invariant
            i <= f.attributes@.len(),
            sites_view(out@) == start + invocation_sites(f.attributes@.take(i as int)),
        decreases f.attributes@.len() - i,
    {
        assert(f.attributes@.take(i + 1).drop_last() =~= f.attributes@.take(i as int));
        let ghost before = out@;
        match &f.attributes[i] {
            SolAttribute::Invocation(loc, path) => {
                if path.len() > 0 {
                    let name = path[path.len() - 1].clone();
                    out.push(CallSite { loc: *loc, name, qualifier: None });
                    proof {
                        lemma_sites_push(before, out@.last());
                    }
                }
            },
            _ => {},
        }
        assert(sites_view(out@) =~= start + invocation_sites(f.attributes@.take(i + 1)));
        i = i + 1;
    }
    assert(f.attributes@.take(i as int) =~= f.attributes@);
    match &f.body {
        Some(b) => push_stmt_sites(b, out),
        None => {},
    }
    assert(sites_view(out@) =~= start + function_sites(*f));
}

/// The edges of call sites: each site inside a function becomes a call
/// edge (see [`call_edge_view`]); the others are dropped.
pub open spec fn site_edges(
    source: Seq<char>,
    ranges: Seq<(u32, u32, Seq<char>)>,
    symbols: Seq<SymbolView>,
    sites: Seq<SiteView>,
) -> Seq<EdgeView>
    decreases sites.len(),
{
    if sites.len() == 0 {
        seq![]
    } else {
        let s = sites.last();
        site_edges(source, ranges, symbols, sites.drop_last()) + match call_edge_view(
            source,
            ranges,
            symbols,
            s.0,
            s.1,
            s.2,
        ) {
            Some(e) => seq![e],
            None => seq![],
        }
    }
}

/// The abstract values of edges.
pub open spec fn edges_view(v: Seq<Edge>) -> Seq<EdgeView> {
    v.map_values(|e: Edge| e@)
}

/// The call edges of call sites, against the function symbols of
/// `symbols` (see [`site_edges`]).
pub fn edges_of_sites(source: &str, symbols: &Vec<Symbol>, sites: &Vec<CallSite>) -> (r: Vec<Edge>)
    requires
        source@.len() < u32::MAX,
    ensures
        edges_view(r@) == site_edges(
            source@,
            function_ranges_of(symbols_view(symbols@)),
            symbols_view(symbols@),
            sites_view(sites@),
        ),
{
    let ranges = function_ranges(symbols.as_slice());
    let ghost rv = function_ranges_of(symbols_view(symbols@));
    let ghost sv = sites_view(sites@);
    let mut out: Vec<Edge> = Vec::new();
    let mut i: usize = 0;
    while i < sites.len()
        invariant
            i <= sites@.len(),
            source@.len() < u32::MAX,
            ranges_view(ranges@) == rv,
            rv == function_ranges_of(symbols_view(symbols@)),
            sv == sites_view(sites@),
            edges_view(out@) == site_edges(source@, rv, symbols_view(symbols@), sv.take(i as int)),
        decreases sites@.len() - i,
    {
        assert(sv.take(i + 1).drop_last() =~= sv.take(i as int));
        let site = &sites[i];
        let qualifier: Option<&str> = match &site.qualifier {
            Some(q) => Some(q.as_str()),
            None => None,
        };
        let ghost before = out@;
        match call_edge(source, ranges.as_slice(), symbols.as_slice(), site.loc, site.name.as_str(), qualifier) {
            Some(e) => {
                out.push(e);
                assert(edges_view(out@) =~= edges_view(before) + seq![out@.last()@]);
            },
            None => {},
        }
        assert(edges_view(out@) =~= site_edges(source@, rv, symbols_view(symbols@), sv.take(i + 1)));
        i = i + 1;
    }
    assert(sv.take(i as int) =~= sv);
    out
}

// ---------------------------------------------------------------------------
// Declarations
// ---------------------------------------------------------------------------

/// The kind of a contract definition.
#[derive(Debug, Clone, Copy, PartialEq, Eq, Structural)]
pub enum ContractKind {
    Contract,
    Interface,
    Library,
    Abstract,
}

/// The symbol kind of a contract definition.
pub open spec fn contract_symbol_kind(k: ContractKind) -> SymbolKind {
    match k {
        ContractKind::Contract | ContractKind::Abstract => SymbolKind::Class,
        ContractKind::Interface => SymbolKind::Interface,
        ContractKind::Library => SymbolKind::Module,
    }
}

/// The keyword of a contract definition in its signature.
pub open spec fn contract_keyword(k: ContractKind) -> Seq<char> {
    match k {
        ContractKind::Contract => "contract"@,
        ContractKind::Interface => "interface"@,
        ContractKind::Library => "library"@,
        ContractKind::Abstract => "abstract contract"@,
    }
}

fn contract_kind_info(k: ContractKind) -> (r: (SymbolKind, &'static str))
    ensures
        r.0 == contract_symbol_kind(k),
        r.1@ == contract_keyword(k),
{
    match k {
        ContractKind::Contract => (SymbolKind::Class, "contract"),
        ContractKind::Interface => (SymbolKind::Interface, "interface"),
        ContractKind::Library => (SymbolKind::Module, "library"),
        ContractKind::Abstract => (SymbolKind::Class, "abstract contract"),
    }
}

/// The kind of a struct, enum, error or event definition.
#[derive(Debug, Clone, Copy, PartialEq, Eq, Structural)]
pub enum DefinitionKind {
    Struct,
    Enum,
    Error,
    Event,
}

/// The symbol kind of a definition (an event is recorded as a function,
/// an error as a type).
pub open spec fn definition_symbol_kind(k: DefinitionKind) -> SymbolKind {
    match k {
        DefinitionKind::Struct => SymbolKind::Struct,
        DefinitionKind::Enum => SymbolKind::Enum,
        DefinitionKind::Error => SymbolKind::Type,
        DefinitionKind::Event => SymbolKind::Function,
    }
}

/// The keyword of a definition in its signature.
pub open spec fn definition_keyword(k: DefinitionKind) -> Seq<char> {
    match k {
        DefinitionKind::Struct => "struct"@,
        DefinitionKind::Enum => "enum"@,
        DefinitionKind::Error => "error"@,
        DefinitionKind::Event => "event"@,
    }
}

fn definition_kind_info(k: DefinitionKind) -> (r: (SymbolKind, &'static str))
    ensures
        r.0 == definition_symbol_kind(k),
        r.1@ == definition_keyword(k),
{
    match k {
        DefinitionKind::Struct => (SymbolKind::Struct, "struct"),
        DefinitionKind::Enum => (SymbolKind::Enum, "enum"),
        DefinitionKind::Error => (SymbolKind::Type, "error"),
        DefinitionKind::Event => (SymbolKind::Function, "event"),
    }
}

/// A part of a contract.
#[derive(Debug)]
pub enum ContractPart {
    Function(SolFunction),
    /// A state variable: name, attributes, type, location.
    Variable(Option<String>, Vec<SolAttribute>, TypeExpr, Option<(usize, usize)>),
    /// A struct, enum, error or event: kind, name, location.
    Definition(DefinitionKind, Option<String>, Option<(usize, usize)>),
    /// `using L for T`: the type, when one is given.
    Using(Option<TypeExpr>),
    /// Anything else: nothing is extracted.
    Other,
}

/// A top-level part of a source unit.
#[derive(Debug)]
pub enum SourcePart {
    /// A contract, interface, library or abstract contract: kind, name,
    /// location, parts.
    Contract(ContractKind, Option<String>, Option<(usize, usize)>, Vec<ContractPart>),
    Import(SolImport),
    /// A free function.
    Function(SolFunction),
    /// A struct, enum, error or event: kind, name, location.
    Definition(DefinitionKind, Option<String>, Option<(usize, usize)>),
    /// Anything else (pragmas, type definitions, ...): nothing is extracted.
    Other,
}

/// A comment of a source unit.
#[derive(Debug)]
pub enum SolComment {
    /// A `///` doc comment: location and text.
    DocLine(Option<(usize, usize)>, String),
    /// A `/** */` doc comment: location and text.
    DocBlock(Option<(usize, usize)>, String),
    /// Any other comment.
    Other,
}

/// The doc-comment table of a source: each doc comment's end line and
/// cleaned text, in order.
pub open spec fn doc_table(source: Seq<char>, cs: Seq<SolComment>) -> Seq<(u32, Seq<char>)>
    decreases cs.len(),
{
    if cs.len() == 0 {
        seq![]
    } else {
        doc_table(source, cs.drop_last()) + match cs.last() {
            SolComment::DocLine(loc, t) => seq![(loc_lines(source, loc).1 as u32, doc_line_text(t@))],
            SolComment::DocBlock(loc, t) => seq![(loc_lines(source, loc).1 as u32, doc_block_text(t@))],
            SolComment::Other => seq![],
        }
    }
}

/// Build the doc-comment table of a source (see [`doc_table`]).
pub fn doc_comment_table(source: &str, comments: &Vec<SolComment>) -> (r: Vec<(u32, String)>)
    requires
        source@.len() < u32::MAX,
    ensures
        docs_view(r@) == doc_table(source@, comments@),
{
    let mut out: Vec<(u32, String)> = Vec::new();
    let mut i: usize = 0;
    while i < comments.len()
        invariant
            i <= comments@.len(),
            source@.len() < u32::MAX,
            docs_view(out@) == doc_table(source@, comments@.take(i as int)),
        decreases comments@.len() - i,
    {
        assert(comments@.take(i + 1).drop_last() =~= comments@.take(i as int));
        let ghost before = out@;
        match &comments[i] {
            SolComment::DocLine(loc, t) => {
                out.push(doc_comment_entry(source, *loc, t.as_str(), false));
                assert(docs_view(out@) =~= docs_view(before) + seq![(out@.last().0, out@.last().1@)]);
            },
            SolComment::DocBlock(loc, t) => {
                out.push(doc_comment_entry(source, *loc, t.as_str(), true));
                assert(docs_view(out@) =~= docs_view(before) + seq![(out@.last().0, out@.last().1@)]);
            },
            SolComment::Other => {},
        }
        assert(docs_view(out@) =~= doc_table(source@, comments@.take(i + 1)));
        i = i + 1;
    }
    assert(comments@.take(i as int) =~= comments@);
    out
}


/// The symbol of a function definition (none when it has no name): a
/// function whose signature is read from the source at its first line.
pub open spec fn function_symbols(
    file_path: Seq<char>,
    source: Seq<char>,
    f: SolFunction,
    parent: Option<(Seq<char>, Seq<char>)>,
    docs: Seq<(u32, Seq<char>)>,
) -> Seq<SymbolView> {
    match function_name_text(f.name) {
        None => seq![],
        Some(n) => seq![
            solidity_symbol_view(
                file_path,
                source,
                n,
                parent,
                SymbolKind::Function,
                attr_visibility(f.attributes@, Visibility::Private),
                signature_text(source, loc_lines(source, f.loc).0 as u32),
                f.loc,
                docs,
            ),
        ],
    }
}

/// The symbol of a named definition: public, signed with its keyword and
/// name.
pub open spec fn definition_symbols(
    file_path: Seq<char>,
    source: Seq<char>,
    k: DefinitionKind,
    name: Option<String>,
    loc: Option<(usize, usize)>,
    parent: Option<(Seq<char>, Seq<char>)>,
    docs: Seq<(u32, Seq<char>)>,
) -> Seq<SymbolView> {
    match name {
        Some(n) => seq![
            solidity_symbol_view(
                file_path,
                source,
                n@,
                parent,
                definition_symbol_kind(k),
                Visibility::Public,
                Some(definition_keyword(k) + " "@ + n@),
                loc,
                docs,
            ),
        ],
        None => seq![],
    }
}

/// The symbols of a contract part, under the contract named `contract`
/// with id `id`: functions, named state variables (fields, signed with
/// their type and name; internal unless marked otherwise) and named
/// definitions.
pub open spec fn member_symbols(
    file_path: Seq<char>,
    source: Seq<char>,
    contract: Seq<char>,
    id: Seq<char>,
    m: ContractPart,
    docs: Seq<(u32, Seq<char>)>,
) -> Seq<SymbolView> {
    match m {
        ContractPart::Function(f) => function_symbols(file_path, source, f, Some((contract, id)), docs),
        ContractPart::Variable(name, vs, ty, loc) => match name {
            Some(n) => seq![
                solidity_symbol_view(
                    file_path,
                    source,
                    n@,
                    Some((contract, id)),
                    SymbolKind::Field,
                    attr_visibility(vs@, Visibility::Crate),
                    Some(type_expr_text(ty) + " "@ + n@),
                    loc,
                    docs,
                ),
            ],
            None => seq![],
        },
        ContractPart::Definition(k, name, loc) => definition_symbols(
            file_path,
            source,
            k,
            name,
            loc,
            Some((contract, id)),
            docs,
        ),
        ContractPart::Using(_) | ContractPart::Other => seq![],
    }
}

/// The symbols of the parts of a contract, in order.
pub open spec fn members_symbols(
    file_path: Seq<char>,
    source: Seq<char>,
    contract: Seq<char>,
    id: Seq<char>,
    ms: Seq<ContractPart>,
    docs: Seq<(u32, Seq<char>)>,
) -> Seq<SymbolView>
    decreases ms.len(),
{
    if ms.len() == 0 {
        seq![]
    } else {
        members_symbols(file_path, source, contract, id, ms.drop_last(), docs) + member_symbols(
            file_path,
            source,
            contract,
            id,
            ms.last(),
            docs,
        )
    }
}

/// The `uses` edges of a contract's parts: one from the contract to each
/// type named by a `using` directive.
pub open spec fn members_edges(id: Seq<char>, ms: Seq<ContractPart>) -> Seq<EdgeView>
    decreases ms.len(),
{
    if ms.len() == 0 {
        seq![]
    } else {
        members_edges(id, ms.drop_last()) + match ms.last() {
            ContractPart::Using(Some(ty)) => seq![
                EdgeView {
                    source_id: id,
                    target_id: None,
                    target_name: type_expr_text(ty),
                    kind: EdgeKind::Uses,
                    line: None,
                    col: None,
                    context: None,
                },
            ],
            _ => seq![],
        }
    }
}

/// Whether the symbol of a contract part, when it makes one, can have its
/// source lines cut (see [`loc_sliceable`]).
pub open spec fn member_sliceable(source: Seq<char>, m: ContractPart) -> bool {
    match m {
        ContractPart::Function(f) => function_name_text(f.name) is Some ==> loc_sliceable(source, f.loc),
        ContractPart::Variable(name, _, _, loc) => name is Some ==> loc_sliceable(source, loc),
        ContractPart::Definition(_, name, loc) => name is Some ==> loc_sliceable(source, loc),
        ContractPart::Using(_) | ContractPart::Other => true,
    }
}

/// Whether the symbols of a top-level part (a named contract with its
/// parts) can have their source lines cut.
pub open spec fn part_sliceable(source: Seq<char>, p: SourcePart) -> bool {
    match p {
        SourcePart::Contract(_, name, loc, ms) => name is Some ==> (loc_sliceable(source, loc)
            && forall|i: int| 0 <= i < ms@.len() ==> member_sliceable(source, #[trigger] ms@[i])),
        SourcePart::Function(f) => function_name_text(f.name) is Some ==> loc_sliceable(source, f.loc),
        SourcePart::Definition(_, name, loc) => name is Some ==> loc_sliceable(source, loc),
        SourcePart::Import(_) | SourcePart::Other => true,
    }
}

/// Whether every symbol of a source unit can have its source lines cut.
pub open spec fn unit_sliceable(source: Seq<char>, ps: Seq<SourcePart>) -> bool {
    forall|i: int| 0 <= i < ps.len() ==> part_sliceable(source, #[trigger] ps[i])
}

fn member_can_slice(source: &str, line_count: usize, m: &ContractPart) -> (r: bool)
    requires
        source@.len() < u32::MAX,
        line_count == str_lines(source@).len(),
    ensures
        r == member_sliceable(source@, *m),
{
    match m {
        ContractPart::Function(f) => match &f.name {
            FunctionName::Named(None) => true,
            _ => loc_can_slice(source, line_count, f.loc),
        },
        ContractPart::Variable(Some(_), _, _, loc) => loc_can_slice(source, line_count, *loc),
        ContractPart::Definition(_, Some(_), loc) => loc_can_slice(source, line_count, *loc),
        _ => true,
    }
}

#[verifier::loop_isolation(false)]
fn part_can_slice(source: &str, line_count: usize, p: &SourcePart) -> (r: bool)
    requires
        source@.len() < u32::MAX,
        line_count == str_lines(source@).len(),
    ensures
        r == part_sliceable(source@, *p),
{
    match p {
        SourcePart::Contract(_, Some(_), loc, ms) => {
            if !loc_can_slice(source, line_count, *loc) {
                return false;
            }
            let mut i: usize = 0;
            while i < ms.len()
                invariant
                    i <= ms@.len(),
                    source@.len() < u32::MAX,
                    line_count == str_lines(source@).len(),
                    forall|j: int| 0 <= j < i ==> member_sliceable(source@, #[trigger] ms@[j]),
                decreases ms@.len() - i,
            {
                if !member_can_slice(source, line_count, &ms[i]) {
                    assert(!member_sliceable(source@, ms@[i as int]));
                    return false;
                }
                i = i + 1;
            }
            true
        },
        SourcePart::Function(f) => match &f.name {
            FunctionName::Named(None) => true,
            _ => loc_can_slice(source, line_count, f.loc),
        },
        SourcePart::Definition(_, Some(_), loc) => loc_can_slice(source, line_count, *loc),
        _ => true,
    }
}

/// Whether every symbol of a source unit can have its source lines cut
/// (see [`unit_sliceable`]).
pub fn unit_can_slice(source: &str, parts: &Vec<SourcePart>) -> (r: bool)
    requires
        source@.len() < u32::MAX,
    ensures
        r == unit_sliceable(source@, parts@),
{
    let cs = chars_of(source);
    let lines = lines_exec(cs.as_slice());
    let line_count = lines.len();
    assert(line_count == str_lines(source@).len());
    let mut i: usize = 0;
    while i < parts.len()
        invariant
            i <= parts@.len(),
            source@.len() < u32::MAX,
            line_count == str_lines(source@).len(),
            forall|j: int| 0 <= j < i ==> part_sliceable(source@, #[trigger] parts@[j]),
        decreases parts@.len() - i,
    {
        if !part_can_slice(source, line_count, &parts[i]) {
            return false;
        }
        i = i + 1;
    }
    true
}

fn push_definition(
    file_path: &str,
    source: &str,
    k: DefinitionKind,
    name: &Option<String>,
    loc: Option<(usize, usize)>,
    parent: Option<(&str, &str)>,
    docs: &Vec<(u32, String)>,
    symbols: &mut Vec<Symbol>,
)
    requires
        source@.len() < u32::MAX,
        name is Some ==> loc_sliceable(source@, loc),
    ensures
        symbols_view(final(symbols)@) == symbols_view(old(symbols)@) + definition_symbols(
            file_path@,
            source@,
            k,
            *name,
            loc,
            parent_view(parent),
            docs_view(docs@),
        ),
{
    let ghost before = symbols@;
    match name {
        Some(n) => {
            let (kind, keyword) = definition_kind_info(k);
            let mut sig = String::new();
            push_str(&mut sig, keyword);
            push_str(&mut sig, " ");
            push_str(&mut sig, n.as_str());
            symbols.push(
                solidity_symbol(
                    file_path,
                    source,
                    n.as_str(),
                    parent,
                    kind,
                    Visibility::Public,
                    Some(sig),
                    loc,
                    docs.as_slice(),
                ),
            );
            assert(symbols_view(symbols@) =~= symbols_view(before) + seq![symbols@.last()@]);
        },
        None => {
            assert(symbols_view(symbols@) =~= symbols_view(before));
        },
    }
}

fn push_function(
    file_path: &str,
    source: &str,
    f: &SolFunction,
    parent: Option<(&str, &str)>,
    docs: &Vec<(u32, String)>,
    symbols: &mut Vec<Symbol>,
)
    requires
        source@.len() < u32::MAX,
        function_name_text(f.name) is Some ==> loc_sliceable(source@, f.loc),
    ensures
        symbols_view(final(symbols)@) == symbols_view(old(symbols)@) + function_symbols(
            file_path@,
            source@,
            *f,
            parent_view(parent),
            docs_view(docs@),
        ),
{
    let ghost before = symbols@;
    let visibility = first_attr_visibility(&f.attributes, Visibility::Private);
    let name = match &f.name {
        FunctionName::Constructor => FunctionName::Constructor,
        FunctionName::Fallback => FunctionName::Fallback,
        FunctionName::Receive => FunctionName::Receive,
        FunctionName::Named(n) => FunctionName::Named(crate::json::copy_opt(n)),
    };
    assert(function_name_text(name) == function_name_text(f.name));
    match function_symbol(file_path, source, name, parent, visibility, f.loc, docs.as_slice()) {
        Some(sym) => {
            symbols.push(sym);
            assert(symbols_view(symbols@) =~= symbols_view(before) + seq![symbols@.last()@]);
        },
        None => {
            assert(symbols_view(symbols@) =~= symbols_view(before));
        },
    }
}

fn push_members(
    file_path: &str,
    source: &str,
    contract: &str,
    id: &str,
    ms: &Vec<ContractPart>,
    docs: &Vec<(u32, String)>,
    symbols: &mut Vec<Symbol>,
    edges: &mut Vec<Edge>,
)
    requires
        source@.len() < u32::MAX,
        forall|i: int| 0 <= i < ms@.len() ==> member_sliceable(source@, #[trigger] ms@[i]),
    ensures
        symbols_view(final(symbols)@) == symbols_view(old(symbols)@) + members_symbols(
            file_path@,
            source@,
            contract@,
            id@,
            ms@,
            docs_view(docs@),
        ),
        edges_view(final(edges)@) == edges_view(old(edges)@) + members_edges(id@, ms@),
{
    let ghost s0 = symbols_view(symbols@);
    let ghost e0 = edges_view(edges@);
    let ghost dv = docs_view(docs@);
    let parent = Some((contract, id));
    let mut i: usize = 0;
    while i < ms.len()
        invariant
            i <= ms@.len(),
            source@.len() < u32::MAX,
            forall|j: int| 0 <= j < ms@.len() ==> member_sliceable(source@, #[trigger] ms@[j]),
            parent == Some((contract, id)),
            dv == docs_view(docs@),
            symbols_view(symbols@) == s0 + members_symbols(
                file_path@,
                source@,
                contract@,
                id@,
                ms@.take(i as int),
                dv,
            ),
            edges_view(edges@) == e0 + members_edges(id@, ms@.take(i as int)),
        decreases ms@.len() - i,
    {
        assert(ms@.take(i + 1).drop_last() =~= ms@.take(i as int));
        assert(member_sliceable(source@, ms@[i as int]));
        let ghost sb = symbols_view(symbols@);
        let ghost eb = edges_view(edges@);
        match &ms[i] {
            ContractPart::Function(f) => {
                push_function(file_path, source, f, parent, docs, symbols);
            },
            ContractPart::Variable(name, vs, ty, loc) => {
                match name {
                    Some(n) => {
                        let visibility = first_attr_visibility(vs, Visibility::Crate);
                        let mut sig = format_type(ty);
                        push_str(&mut sig, " ");
                        push_str(&mut sig, n.as_str());
                        let ghost before = symbols@;
                        symbols.push(
                            solidity_symbol(
                                file_path,
                                source,
                                n.as_str(),
                                parent,
                                SymbolKind::Field,
                                visibility,
                                Some(sig),
                                *loc,
                                docs.as_slice(),
                            ),
                        );
                        assert(symbols_view(symbols@) =~= symbols_view(before) + seq![
                            symbols@.last()@,
                        ]);
                    },
                    None => {},
                }
            },
            ContractPart::Definition(k, name, loc) => {
                push_definition(file_path, source, *k, name, *loc, parent, docs, symbols);
            },
            ContractPart::Using(ty) => {
                match ty {
                    Some(t) => {
                        let ghost before = edges@;
                        edges.push(using_edge(id, t));
                        assert(edges_view(edges@) =~= edges_view(before) + seq![edges@.last()@]);
                    },
                    None => {},
                }
            },
            ContractPart::Other => {},
        }
        assert(symbols_view(symbols@) =~= s0 + members_symbols(
            file_path@,
            source@,
            contract@,
            id@,
            ms@.take(i + 1),
            dv,
        ));
        assert(edges_view(edges@) =~= e0 + members_edges(id@, ms@.take(i + 1)));
        i = i + 1;
    }
    assert(ms@.take(i as int) =~= ms@);
}

// ---------------------------------------------------------------------------
// Source units
// ---------------------------------------------------------------------------

/// The symbols of a top-level part: a named contract (public, signed with
/// its keyword and name) followed by its parts' symbols under it, a free
/// function, or a named definition.
pub open spec fn part_symbols(
    file_path: Seq<char>,
    source: Seq<char>,
    p: SourcePart,
    docs: Seq<(u32, Seq<char>)>,
) -> Seq<SymbolView> {
    match p {
        SourcePart::Contract(k, name, loc, ms) => match name {
            Some(n) => seq![
                solidity_symbol_view(
                    file_path,
                    source,
                    n@,
                    None,
                    contract_symbol_kind(k),
                    Visibility::Public,
                    Some(contract_keyword(k) + " "@ + n@),
                    loc,
                    docs,
                ),
            ] + members_symbols(
                file_path,
                source,
                n@,
                symbol_id_text(file_path, n@, None),
                ms@,
                docs,
            ),
            None => seq![],
        },
        SourcePart::Function(f) => function_symbols(file_path, source, f, None, docs),
        SourcePart::Definition(k, name, loc) => definition_symbols(
            file_path,
            source,
            k,
            name,
            loc,
            None,
            docs,
        ),
        SourcePart::Import(_) | SourcePart::Other => seq![],
    }
}

/// The symbols of a source unit, in order.
pub open spec fn unit_symbols(
    file_path: Seq<char>,
    source: Seq<char>,
    ps: Seq<SourcePart>,
    docs: Seq<(u32, Seq<char>)>,
) -> Seq<SymbolView>
    decreases ps.len(),
{
    if ps.len() == 0 {
        seq![]
    } else {
        unit_symbols(file_path, source, ps.drop_last(), docs) + part_symbols(
            file_path,
            source,
            ps.last(),
            docs,
        )
    }
}

/// The `uses` edges of a source unit: those of each named contract, in
/// order.
pub open spec fn unit_uses(file_path: Seq<char>, ps: Seq<SourcePart>) -> Seq<EdgeView>
    decreases ps.len(),
{
    if ps.len() == 0 {
        seq![]
    } else {
        unit_uses(file_path, ps.drop_last()) + match ps.last() {
            SourcePart::Contract(_, Some(n), _, ms) => members_edges(
                symbol_id_text(file_path, n@, None),
                ms@,
            ),
            _ => seq![],
        }
    }
}

/// The names a source unit exports: its named contracts, in order.
pub open spec fn unit_exports(ps: Seq<SourcePart>) -> Seq<Seq<char>>
    decreases ps.len(),
{
    if ps.len() == 0 {
        seq![]
    } else {
        unit_exports(ps.drop_last()) + match ps.last() {
            SourcePart::Contract(_, Some(n), _, _) => seq![n@],
            _ => seq![],
        }
    }
}

/// The imports of a source unit, in order.
pub open spec fn unit_imports(ps: Seq<SourcePart>) -> Seq<(Seq<char>, Seq<Seq<char>>, Option<Seq<char>>)>
    decreases ps.len(),
{
    if ps.len() == 0 {
        seq![]
    } else {
        unit_imports(ps.drop_last()) + match ps.last() {
            SourcePart::Import(i) => seq![sol_import_view(i)],
            _ => seq![],
        }
    }
}

/// The call sites of the functions of a contract's parts, in order.
pub open spec fn members_sites(ms: Seq<ContractPart>) -> Seq<SiteView>
    decreases ms.len(),
{
    if ms.len() == 0 {
        seq![]
    } else {
        members_sites(ms.drop_last()) + match ms.last() {
            ContractPart::Function(f) => function_sites(f),
            _ => seq![],
        }
    }
}

/// The call sites of a source unit: those of the functions of every
/// contract (named or not) and of the free functions, in order.
pub open spec fn unit_sites(ps: Seq<SourcePart>) -> Seq<SiteView>
    decreases ps.len(),
{
    if ps.len() == 0 {
        seq![]
    } else {
        unit_sites(ps.drop_last()) + match ps.last() {
            SourcePart::Contract(_, _, _, ms) => members_sites(ms@),
            SourcePart::Function(f) => function_sites(f),
            _ => seq![],
        }
    }
}

/// The edges of a source unit: the `uses` edges, then the call edges of
/// its call sites against its symbols.
pub open spec fn unit_edges(
    file_path: Seq<char>,
    source: Seq<char>,
    ps: Seq<SourcePart>,
    docs: Seq<(u32, Seq<char>)>,
) -> Seq<EdgeView> {
    let symbols = unit_symbols(file_path, source, ps, docs);
    unit_uses(file_path, ps) + site_edges(
        source,
        function_ranges_of(symbols),
        symbols,
        unit_sites(ps),
    )
}

/// The abstract values of imports.
pub open spec fn imports_view(v: Seq<ImportInfo>) -> Seq<(Seq<char>, Seq<Seq<char>>, Option<Seq<char>>)> {
    v.map_values(|i: ImportInfo| import_view(i))
}

fn push_members_sites(ms: &Vec<ContractPart>, out: &mut Vec<CallSite>)
    ensures
        sites_view(final(out)@) == sites_view(old(out)@) + members_sites(ms@),
{
    let ghost start = sites_view(out@);
    let mut i: usize = 0;
    while i < ms.len()
        invariant
            i <= ms@.len(),
            sites_view(out@) == start + members_sites(ms@.take(i as int)),
        decreases ms@.len() - i,
    {
        assert(ms@.take(i + 1).drop_last() =~= ms@.take(i as int));
        match &ms[i] {
            ContractPart::Function(f) => push_function_sites(f, out),
            _ => {},
        }
        assert(sites_view(out@) =~= start + members_sites(ms@.take(i + 1)));
        i = i + 1;
    }
    assert(ms@.take(i as int) =~= ms@);
}

/// The call sites of a source unit (see [`unit_sites`]).
pub fn unit_call_sites(parts: &Vec<SourcePart>) -> (r: Vec<CallSite>)
    ensures
        sites_view(r@) == unit_sites(parts@),
{
    let mut out: Vec<CallSite> = Vec::new();
    let mut i: usize = 0;
    while i < parts.len()
        invariant
            i <= parts@.len(),
            sites_view(out@) == unit_sites(parts@.take(i as int)),
        decreases parts@.len() - i,
    {
        assert(parts@.take(i + 1).drop_last() =~= parts@.take(i as int));
        match &parts[i] {
            SourcePart::Contract(_, _, _, ms) => push_members_sites(ms, &mut out),
            SourcePart::Function(f) => push_function_sites(f, &mut out),
            _ => {},
        }
        assert(sites_view(out@) =~= unit_sites(parts@.take(i + 1)));
        i = i + 1;
    }
    assert(parts@.take(i as int) =~= parts@);
    out
}

/// Extract a source unit: its symbols (see [`unit_symbols`]), its edges
/// (see [`unit_edges`]), and its module facts: the first contract name
/// declared at the start of a line, the exported contract names and the
/// imports. Doc comments come from `comments` (see [`doc_table`]).
pub fn extract_unit(
    file_path: &str,
    source: &str,
    parts: &Vec<SourcePart>,
    comments: &Vec<SolComment>,
) -> (r: ParseResult)
    requires
        source@.len() < u32::MAX,
        unit_sliceable(source@, parts@),
    ensures
        r.file_path@ == file_path@,
        r.language@ == "solidity"@,
        symbols_view(r.symbols@) == unit_symbols(
            file_path@,
            source@,
            parts@,
            doc_table(source@, comments@),
        ),
        edges_view(r.edges@) == unit_edges(
            file_path@,
            source@,
            parts@,
            doc_table(source@, comments@),
        ),
        r.module matches Some(m) && m.file_path@ == file_path@ && opt_view(m.module_name)
            == first_contract_name(str_lines(source@)) && strs(m.exports@) == unit_exports(parts@)
            && imports_view(m.imports@) == unit_imports(parts@),
{
    let docs = doc_comment_table(source, comments);
    let ghost dv = docs_view(docs@);
    let mut symbols: Vec<Symbol> = Vec::new();
    let mut edges: Vec<Edge> = Vec::new();
    let mut exports: Vec<String> = Vec::new();
    let mut imports: Vec<ImportInfo> = Vec::new();
    let mut i: usize = 0;
    while i < parts.len()
        invariant
            i <= parts@.len(),
            source@.len() < u32::MAX,
            unit_sliceable(source@, parts@),
            dv == docs_view(docs@),
            symbols_view(symbols@) == unit_symbols(file_path@, source@, parts@.take(i as int), dv),
            edges_view(edges@) == unit_uses(file_path@, parts@.take(i as int)),
            strs(exports@) == unit_exports(parts@.take(i as int)),
            imports_view(imports@) == unit_imports(parts@.take(i as int)),
        decreases parts@.len() - i,
    {
        assert(parts@.take(i + 1).drop_last() =~= parts@.take(i as int));
        assert(part_sliceable(source@, parts@[i as int]));
        let ghost s0 = symbols_view(symbols@);
        let ghost e0 = edges_view(edges@);
        let ghost x0 = strs(exports@);
        let ghost m0 = imports_view(imports@);
        match &parts[i] {
            SourcePart::Contract(k, name, loc, ms) => {
                match name {
                    Some(n) => {
                        let (kind, keyword) = contract_kind_info(*k);
                        let id = Symbol::make_id(file_path, n.as_str(), None);
                        let mut sig = String::new();
                        push_str(&mut sig, keyword);
                        push_str(&mut sig, " ");
                        push_str(&mut sig, n.as_str());
                        symbols.push(
                            solidity_symbol(
                                file_path,
                                source,
                                n.as_str(),
                                None,
                                kind,
                                Visibility::Public,
                                Some(sig),
                                *loc,
                                docs.as_slice(),
                            ),
                        );
                        assert(symbols_view(symbols@) =~= s0 + seq![symbols@.last()@]);
                        exports.push(n.clone());
                        assert(strs(exports@) =~= x0 + seq![n@]);
                        push_members(
                            file_path,
                            source,
                            n.as_str(),
                            id.as_str(),
                            ms,
                            &docs,
                            &mut symbols,
                            &mut edges,
                        );
                    },
                    None => {},
                }
            },
            SourcePart::Import(import) => {
                imports.push(import_info(import));
                assert(imports_view(imports@) =~= m0 + seq![import_view(imports@.last())]);
            },
            SourcePart::Function(f) => {
                push_function(file_path, source, f, None, &docs, &mut symbols);
            },
            SourcePart::Definition(k, name, loc) => {
                push_definition(file_path, source, *k, name, *loc, None, &docs, &mut symbols);
            },
            SourcePart::Other => {},
        }
        assert(symbols_view(symbols@) =~= unit_symbols(
            file_path@,
            source@,
            parts@.take(i + 1),
            dv,
        ));
        assert(edges_view(edges@) =~= unit_uses(file_path@, parts@.take(i + 1)));
        assert(strs(exports@) =~= unit_exports(parts@.take(i + 1)));
        assert(imports_view(imports@) =~= unit_imports(parts@.take(i + 1)));
        i = i + 1;
    }
    assert(parts@.take(i as int) =~= parts@);
    let sites = unit_call_sites(parts);
    let mut calls = edges_of_sites(source, &symbols, &sites);
    let ghost e1 = edges_view(edges@);
    let ghost c1 = edges_view(calls@);
    edges.append(&mut calls);
    assert(edges_view(edges@) =~= e1 + c1);
    let module = ModuleInfo {
        file_path: file_path.to_string(),
        module_name: extract_contract_name(source),
        exports,
        imports,
    };
    ParseResult {
        file_path: file_path.to_string(),
        language: "solidity".to_string(),
        symbols,
        edges,
        module: Some(module),
    }
}

// ---------------------------------------------------------------------------
// Laws
// ---------------------------------------------------------------------------

/// Whether `e` is a call edge made inside a function of `symbols`: it
/// starts at a function symbol whose lines hold its line, and a resolved
/// target is a function symbol of the called name.
pub open spec fn call_edge_inside(symbols: Seq<SymbolView>, e: EdgeView) -> bool {
    &&& e.kind == EdgeKind::Calls
    &&& e.line matches Some(line) && exists|j: int|
        0 <= j < symbols.len() && symbols[j].kind == SymbolKind::Function && symbols[j].id
            == e.source_id && symbols[j].line_start <= line <= symbols[j].line_end
    &&& e.target_id matches Some(t) ==> exists|j: int|
        0 <= j < symbols.len() && symbols[j].kind == SymbolKind::Function && symbols[j].name
            == e.target_name && symbols[j].id == t
}

proof fn lemma_enclosing_found(ranges: Seq<(u32, u32, Seq<char>)>, line: nat)
    ensures
        enclosing_function(ranges, line) matches Some(id) ==> exists|k: int|
            0 <= k < ranges.len() && ranges[k].0 <= line <= ranges[k].1 && ranges[k].2 == id,
    decreases ranges.len(),
{
    if ranges.len() > 0 && !(ranges[0].0 <= line && line <= ranges[0].1) {
        lemma_enclosing_found(ranges.drop_first(), line);
        if let Some(id) = enclosing_function(ranges, line) {
            let k = choose|k: int|
                0 <= k < ranges.drop_first().len() && ranges.drop_first()[k].0 <= line
                    <= ranges.drop_first()[k].1 && ranges.drop_first()[k].2 == id;
            assert(ranges[k + 1] == ranges.drop_first()[k]);
        }
    }
}

proof fn lemma_ranges_are_functions(symbols: Seq<SymbolView>, k: int)
    requires
        0 <= k < function_ranges_of(symbols).len(),
    ensures
        exists|j: int|
            0 <= j < symbols.len() && symbols[j].kind == SymbolKind::Function && (
            symbols[j].line_start,
            symbols[j].line_end,
            symbols[j].id,
        ) == function_ranges_of(symbols)[k],
    decreases symbols.len(),
{
    let rest = function_ranges_of(symbols.drop_last());
    if k < rest.len() {
        lemma_ranges_are_functions(symbols.drop_last(), k);
        let j = choose|j: int|
            0 <= j < symbols.drop_last().len() && symbols.drop_last()[j].kind == SymbolKind::Function
                && (symbols.drop_last()[j].line_start, symbols.drop_last()[j].line_end, symbols.drop_last()[j].id)
                == rest[k];
        assert(symbols[j] == symbols.drop_last()[j]);
    } else {
        assert(symbols[symbols.len() - 1] == symbols.last());
    }
}

proof fn lemma_named_found(symbols: Seq<SymbolView>, name: Seq<char>)
    ensures
        function_named(symbols, name) matches Some(t) ==> exists|j: int|
            0 <= j < symbols.len() && symbols[j].kind == SymbolKind::Function && symbols[j].name
                == name && symbols[j].id == t,
    decreases symbols.len(),
{
    if symbols.len() > 0 && !(symbols[0].name == name && symbols[0].kind == SymbolKind::Function) {
        lemma_named_found(symbols.drop_first(), name);
        if let Some(t) = function_named(symbols, name) {
            let j = choose|j: int|
                0 <= j < symbols.drop_first().len() && symbols.drop_first()[j].kind
                    == SymbolKind::Function && symbols.drop_first()[j].name == name
                    && symbols.drop_first()[j].id == t;
            assert(symbols[j + 1] == symbols.drop_first()[j]);
        }
    }
}

proof fn lemma_site_edges_inside(source: Seq<char>, symbols: Seq<SymbolView>, sites: Seq<SiteView>)
    ensures
        forall|i: int|
            0 <= i < site_edges(source, function_ranges_of(symbols), symbols, sites).len()
                ==> call_edge_inside(
                symbols,
                #[trigger] site_edges(source, function_ranges_of(symbols), symbols, sites)[i],
            ),
    decreases sites.len(),
{
    if sites.len() > 0 {
        let ranges = function_ranges_of(symbols);
        lemma_site_edges_inside(source, symbols, sites.drop_last());
        let s = sites.last();
        let prev = site_edges(source, ranges, symbols, sites.drop_last());
        let all = site_edges(source, ranges, symbols, sites);
        if let Some(e) = call_edge_view(source, ranges, symbols, s.0, s.1, s.2) {
            let line = loc_lines(source, s.0).0;
            lemma_enclosing_found(ranges, line);
            let k = choose|k: int|
                0 <= k < ranges.len() && ranges[k].0 <= line <= ranges[k].1 && ranges[k].2
                    == e.source_id;
            lemma_ranges_are_functions(symbols, k);
            lemma_named_found(symbols, s.1);
            assert(call_edge_inside(symbols, e));
            assert(all == prev + seq![e]);
            assert forall|i: int| 0 <= i < all.len() implies call_edge_inside(symbols, #[trigger] all[i]) by {
                if i < prev.len() {
                    assert(all[i] == prev[i]);
                }
            }
        } else {
            assert(all == prev);
        }
    }
}

proof fn lemma_uses_kind(file_path: Seq<char>, ps: Seq<SourcePart>)
    ensures
        forall|i: int| 0 <= i < unit_uses(file_path, ps).len() ==> (#[trigger] unit_uses(file_path, ps)[i]).kind
            == EdgeKind::Uses,
    decreases ps.len(),
{
    if ps.len() > 0 {
        lemma_uses_kind(file_path, ps.drop_last());
        if let SourcePart::Contract(_, Some(n), _, ms) = ps.last() {
            lemma_members_uses_kind(symbol_id_text(file_path, n@, None), ms@);
        }
        let prev = unit_uses(file_path, ps.drop_last());
        let all = unit_uses(file_path, ps);
        assert forall|i: int| 0 <= i < all.len() implies (#[trigger] all[i]).kind == EdgeKind::Uses by {
            if i < prev.len() {
                assert(all[i] == prev[i]);
            }
        }
    }
}

proof fn lemma_members_uses_kind(id: Seq<char>, ms: Seq<ContractPart>)
    ensures
        forall|i: int| 0 <= i < members_edges(id, ms).len() ==> (#[trigger] members_edges(id, ms)[i]).kind
            == EdgeKind::Uses,
    decreases ms.len(),
{
    if ms.len() > 0 {
        lemma_members_uses_kind(id, ms.drop_last());
        let prev = members_edges(id, ms.drop_last());
        let all = members_edges(id, ms);
        assert forall|i: int| 0 <= i < all.len() implies (#[trigger] all[i]).kind == EdgeKind::Uses by {
            if i < prev.len() {
                assert(all[i] == prev[i]);
            }
        }
    }
}

/// Every call edge of a source unit is made inside one of its functions:
/// it starts at a function symbol of the unit whose lines hold the call,
/// and a resolved target is a function symbol of the unit with the called
/// name. Every other edge of the unit is a `uses` edge.
pub proof fn law_call_edges_start_in_enclosing_function(
    file_path: Seq<char>,
    source: Seq<char>,
    parts: Seq<SourcePart>,
    docs: Seq<(u32, Seq<char>)>,
)
    ensures
        forall|i: int|
            0 <= i < unit_edges(file_path, source, parts, docs).len() ==> {
                let e = #[trigger] unit_edges(file_path, source, parts, docs)[i];
                e.kind == EdgeKind::Uses || call_edge_inside(
                    unit_symbols(file_path, source, parts, docs),
                    e,
                )
            },
{
    let symbols = unit_symbols(file_path, source, parts, docs);
    let uses = unit_uses(file_path, parts);
    let calls = site_edges(source, function_ranges_of(symbols), symbols, unit_sites(parts));
    lemma_uses_kind(file_path, parts);
    lemma_site_edges_inside(source, symbols, unit_sites(parts));
    let all = unit_edges(file_path, source, parts, docs);
    assert(all == uses + calls);
    assert forall|i: int| 0 <= i < all.len() implies {
        let e = #[trigger] all[i];
        e.kind == EdgeKind::Uses || call_edge_inside(symbols, e)
    } by {
        if i < uses.len() {
            assert(all[i] == uses[i]);
        } else {
            assert(all[i] == calls[i - uses.len()]);
        }
    }
}

} // verus!
