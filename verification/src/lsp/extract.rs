//! Conversion of language-server answers (document symbols, outgoing calls)
//! into the extraction model.
//!
//! The answers are held in plain structures mirroring the protocol's JSON
//! shape. Provisional symbol ids use [`Symbol::make_id`] (no line suffix),
//! like the builtin parsers.

use vstd::prelude::*;

use crate::json::{copy_opt, opt_view};
use crate::model::{
    symbol_id_text, Edge, EdgeKind, EdgeView, Symbol, SymbolKind, SymbolView, Visibility,
};
use crate::rules::{join, join_strs};
use crate::text::{
    chars_of, join_lines, join_pieces, lines_exec, pieces_view, push_str, slice_range, str_eq,
    str_lines, string_from, trim, trim_str,
};

verus! {

/// A 0-based position (line, character).
#[derive(Debug, Clone, Copy)]
pub struct LspPosition {
    pub line: u32,
    pub character: u32,
}

/// A range between two positions.
#[derive(Debug, Clone, Copy)]
pub struct LspRange {
    pub start: LspPosition,
    pub end: LspPosition,
}

/// One node of a hierarchical document-symbol answer.
#[derive(Debug)]
pub struct DocumentSymbol {
    pub name: String,
    pub detail: Option<String>,
    /// The protocol's numeric symbol kind.
    pub kind: u32,
    pub range: LspRange,
    pub selection_range: LspRange,
    pub children: Option<Vec<DocumentSymbol>>,
}

/// One entry of a flat document-symbol answer.
#[derive(Debug)]
pub struct SymbolInformation {
    pub name: String,
    /// The protocol's numeric symbol kind.
    pub kind: u32,
    pub container_name: Option<String>,
    /// The range of the symbol's location.
    pub range: LspRange,
}

/// A document-symbol answer.
#[derive(Debug)]
pub enum DocumentSymbolResponse {
    Nested(Vec<DocumentSymbol>),
    Flat(Vec<SymbolInformation>),
}

/// The callee of an outgoing call.
#[derive(Debug)]
pub struct CallHierarchyItem {
    pub name: String,
    pub uri: String,
    pub range: LspRange,
    pub selection_range: LspRange,
}

/// One outgoing call of a symbol.
#[derive(Debug)]
pub struct OutgoingCall {
    pub to: CallHierarchyItem,
    pub from_ranges: Vec<LspRange>,
}

/// A converted symbol plus the 0-based selection position needed for
/// follow-up requests.
#[derive(Debug)]
pub struct ExtractedSymbol {
    pub symbol: Symbol,
    /// 0-based line of the symbol's selection range (its name).
    pub sel_line: u32,
    /// 0-based character of the symbol's selection range.
    pub sel_col: u32,
}

/// The abstract value of an [`ExtractedSymbol`].
pub struct ExtractedView {
    pub symbol: SymbolView,
    pub sel_line: u32,
    pub sel_col: u32,
}

impl View for ExtractedSymbol {
    type V = ExtractedView;

    open spec fn view(&self) -> ExtractedView {
        ExtractedView { symbol: self.symbol@, sel_line: self.sel_line, sel_col: self.sel_col }
    }
}

/// The abstract values of extracted symbols.
pub open spec fn extracted_view(v: Seq<ExtractedSymbol>) -> Seq<ExtractedView> {
    v.map_values(|e: ExtractedSymbol| e@)
}

/// The extraction kind of a protocol symbol kind; unknown kinds are dropped.
pub open spec fn kind_of(kind: u32) -> Option<SymbolKind> {
    if 1 <= kind <= 4 {
        Some(SymbolKind::Module)
    } else if kind == 5 {
        Some(SymbolKind::Class)
    } else if kind == 6 || kind == 9 || kind == 25 {
        Some(SymbolKind::Method)
    } else if kind == 7 || kind == 8 || kind == 24 {
        Some(SymbolKind::Field)
    } else if kind == 10 {
        Some(SymbolKind::Enum)
    } else if kind == 22 {
        Some(SymbolKind::Variant)
    } else if kind == 11 {
        Some(SymbolKind::Interface)
    } else if kind == 12 {
        Some(SymbolKind::Function)
    } else if kind == 14 {
        Some(SymbolKind::Const)
    } else if kind == 23 {
        Some(SymbolKind::Struct)
    } else if kind == 26 {
        Some(SymbolKind::Type)
    } else if kind == 13 || (15 <= kind <= 21) {
        Some(SymbolKind::Variable)
    } else {
        None
    }
}

/// Map a protocol symbol kind (file, module, namespace, package, class,
/// method, property, field, constructor, enum, interface, function,
/// variable, constant, string, number, boolean, array, object, key, null,
/// enum member, struct, event, operator, type parameter: 1 to 26) to an
/// extraction kind.
pub fn map_kind(kind: u32) -> (r: Option<SymbolKind>)
    ensures
        r == kind_of(kind),
{
    if 1 <= kind && kind <= 4 {
        Some(SymbolKind::Module)
    } else if kind == 5 {
        Some(SymbolKind::Class)
    } else if kind == 6 || kind == 9 || kind == 25 {
        Some(SymbolKind::Method)
    } else if kind == 7 || kind == 8 || kind == 24 {
        Some(SymbolKind::Field)
    } else if kind == 10 {
        Some(SymbolKind::Enum)
    } else if kind == 22 {
        Some(SymbolKind::Variant)
    } else if kind == 11 {
        Some(SymbolKind::Interface)
    } else if kind == 12 {
        Some(SymbolKind::Function)
    } else if kind == 14 {
        Some(SymbolKind::Const)
    } else if kind == 23 {
        Some(SymbolKind::Struct)
    } else if kind == 26 {
        Some(SymbolKind::Type)
    } else if kind == 13 || (15 <= kind && kind <= 21) {
        Some(SymbolKind::Variable)
    } else {
        None
    }
}

/// Whether a kind is function-like (locals below it are skipped).
pub open spec fn function_like(k: SymbolKind) -> bool {
    k == SymbolKind::Function || k == SymbolKind::Method
}

/// The inclusive 0-based line range `start..=end` of the file text (the end
/// clamped to the last line), joined by newlines; `None` when empty.
pub open spec fn slice_lines_of(lines: Seq<Seq<char>>, start: u32, end: u32) -> Option<Seq<char>> {
    let last = if lines.len() == 0 {
        0
    } else {
        lines.len() - 1
    };
    let e = if end as int <= last {
        end as int
    } else {
        last
    };
    if start as int >= lines.len() || start as int > e {
        None
    } else {
        Some(join_lines(lines.subrange(start as int, e + 1), "\n"@))
    }
}

/// Inclusive 0-based line slice of the file text.
pub fn slice_lines(lines: &Vec<Vec<char>>, start: u32, end: u32) -> (r: Option<String>)
    ensures
        opt_view(r) == slice_lines_of(pieces_view(lines@), start, end),
{
    let ghost ls = pieces_view(lines@);
    let n = lines.len();
    let last: usize = if n == 0 {
        0
    } else {
        n - 1
    };
    let e: usize = if (end as usize) <= last {
        end as usize
    } else {
        last
    };
    let s = start as usize;
    if s >= n || s > e {
        return None;
    }
    let mut part: Vec<Vec<char>> = Vec::new();
    let mut i = s;
    while i <= e
        invariant
            s <= i <= e + 1,
            e < n,
            n == lines@.len(),
            ls == pieces_view(lines@),
            pieces_view(part@) == ls.subrange(s as int, i as int),
        decreases e + 1 - i,
    {
        let copy = slice_range(lines[i].as_slice(), 0, lines[i].len());
        let ghost before = pieces_view(part@);
        let ghost cv = copy@;
        assert(cv =~= ls[i as int]);
        part.push(copy);
        assert(pieces_view(part@) =~= before.push(cv));
        assert(ls.subrange(s as int, i + 1) =~= ls.subrange(s as int, i as int).push(ls[i as int]));
        i = i + 1;
    }
    let nl = vec!['\n'];
    proof {
        reveal_strlit("\n");
        assert(nl@ =~= "\n"@);
    }
    let joined = join_pieces(&part, nl.as_slice());
    Some(string_from(joined.as_slice()))
}

/// The abstract value of an ancestor chain (names and kinds).
pub open spec fn chain_view(v: Seq<(String, SymbolKind)>) -> Seq<(Seq<char>, SymbolKind)> {
    v.map_values(|a: (String, SymbolKind)| (a.0@, a.1))
}

/// Names of an ancestor chain.
pub open spec fn chain_names(c: Seq<(Seq<char>, SymbolKind)>) -> Seq<Seq<char>> {
    c.map_values(|a: (Seq<char>, SymbolKind)| a.0)
}

/// Whether the 1-based line numbers of a range fit in `u32`.
pub open spec fn range_fits(r: LspRange) -> bool {
    r.start.line < u32::MAX && r.end.line < u32::MAX
}

/// Whether every node of a symbol tree that is converted (see
/// [`nested_symbols`]) has a range whose 1-based lines fit in `u32`;
/// `in_function` tells whether the node's parent is function-like.
pub open spec fn ranges_fit(node: DocumentSymbol, in_function: bool) -> bool
    decreases node, 1nat,
{
    match kind_of(node.kind) {
        None => true,
        Some(kind) => if (kind == SymbolKind::Variable && in_function) || trim(node.name@).len()
            == 0 {
            true
        } else {
            &&& range_fits(node.range)
            &&& match node.children {
                Some(c) => children_fit(c@, function_like(kind)),
                None => true,
            }
        },
    }
}

/// [`ranges_fit`] for every tree of a list.
pub open spec fn children_fit(cs: Seq<DocumentSymbol>, in_function: bool) -> bool
    decreases cs, 0nat,
{
    if cs.len() == 0 {
        true
    } else {
        children_fit(cs.drop_last(), in_function) && ranges_fit(cs.last(), in_function)
    }
}

/// Whether the ancestor chain ends in a function-like symbol.
pub open spec fn in_function(anc: Seq<(Seq<char>, SymbolKind)>) -> bool {
    anc.len() > 0 && function_like(anc.last().1)
}

/// A trimmed, non-empty optional text.
pub open spec fn nonblank(o: Option<Seq<char>>) -> Option<Seq<char>> {
    match o {
        Some(d) => if trim(d).len() > 0 {
            Some(trim(d))
        } else {
            None
        },
        None => None,
    }
}

/// Visibility by naming convention: a leading underscore is private.
pub open spec fn visibility_of(name: Seq<char>) -> Visibility {
    if name.len() > 0 && name[0] == '_' {
        Visibility::Private
    } else {
        Visibility::Public
    }
}

/// The symbol of one tree node named `name` (trimmed) of kind `kind` under
/// the ancestors `anc`.
pub open spec fn node_symbol(
    rel: Seq<char>,
    lines: Seq<Seq<char>>,
    node: DocumentSymbol,
    anc: Seq<(Seq<char>, SymbolKind)>,
    name: Seq<char>,
    kind: SymbolKind,
) -> ExtractedView {
    let parent = if anc.len() > 0 {
        Some(anc.last().0)
    } else {
        None
    };
    ExtractedView {
        symbol: SymbolView {
            id: symbol_id_text(rel, name, parent),
            file_path: rel,
            name,
            qualified_name: if anc.len() == 0 {
                None
            } else {
                Some(join(chain_names(anc).push(name), "."@))
            },
            kind,
            visibility: visibility_of(name),
            signature: nonblank(opt_view(node.detail)),
            brief: None,
            docstring: None,
            line_start: (node.range.start.line + 1) as u32,
            line_end: (node.range.end.line + 1) as u32,
            col_start: node.range.start.character,
            col_end: node.range.end.character,
            parent_id: match parent {
                Some(p) => Some(symbol_id_text(rel, p, None)),
                None => None,
            },
            source: slice_lines_of(lines, node.range.start.line, node.range.end.line),
        },
        sel_line: node.selection_range.start.line,
        sel_col: node.selection_range.start.character,
    }
}

/// The symbols of one tree, preorder: a node of known kind and non-blank
/// name, then its children's symbols; variable-like nodes directly under a
/// function or method are locals and are skipped with their subtrees.
pub open spec fn nested_symbols(
    rel: Seq<char>,
    lines: Seq<Seq<char>>,
    node: DocumentSymbol,
    anc: Seq<(Seq<char>, SymbolKind)>,
) -> Seq<ExtractedView>
    decreases node, 1nat,
{
    match kind_of(node.kind) {
        None => seq![],
        Some(kind) => {
            let name = trim(node.name@);
            if kind == SymbolKind::Variable && in_function(anc) {
                seq![]
            } else if name.len() == 0 {
                seq![]
            } else {
                let own = node_symbol(rel, lines, node, anc, name, kind);
                match node.children {
                    Some(c) => seq![own] + children_symbols(rel, lines, c@, anc.push((name, kind))),
                    None => seq![own],
                }
            }
        },
    }
}

/// The symbols of a list of trees, in order.
pub open spec fn children_symbols(
    rel: Seq<char>,
    lines: Seq<Seq<char>>,
    cs: Seq<DocumentSymbol>,
    anc: Seq<(Seq<char>, SymbolKind)>,
) -> Seq<ExtractedView>
    decreases cs, 0nat,
{
    if cs.len() == 0 {
        seq![]
    } else {
        children_symbols(rel, lines, cs.drop_last(), anc) + nested_symbols(rel, lines, cs.last(), anc)
    }
}

/// A copy of an ancestor chain.
fn copy_chain(v: &Vec<(String, SymbolKind)>) -> (r: Vec<(String, SymbolKind)>)
    ensures
        chain_view(r@) == chain_view(v@),
{
    let mut out: Vec<(String, SymbolKind)> = Vec::new();
    let mut i: usize = 0;
    while i < v.len()
        invariant
            i <= v@.len(),
            chain_view(out@) == chain_view(v@).take(i as int),
        decreases v@.len() - i,
    {
        let ghost before = out@;
        out.push((v[i].0.clone(), v[i].1));
        assert(chain_view(out@) =~= chain_view(before).push((v@[i as int].0@, v@[i as int].1)));
        assert(chain_view(v@).take(i + 1) =~= chain_view(v@).take(i as int).push(
            (v@[i as int].0@, v@[i as int].1),
        ));
        i = i + 1;
    }
    assert(chain_view(v@).take(i as int) =~= chain_view(v@));
    out
}

/// The dotted qualified name of `name` under an ancestor chain.
fn qualified(ancestors: &Vec<(String, SymbolKind)>, name: &str) -> (r: String)
    ensures
        r@ == join(chain_names(chain_view(ancestors@)).push(name@), "."@),
{
    let mut parts: Vec<&str> = Vec::new();
    let mut i: usize = 0;
    while i < ancestors.len()
        invariant
            i <= ancestors@.len(),
            parts@.map_values(|p: &str| p@) == chain_names(chain_view(ancestors@)).take(i as int),
        decreases ancestors@.len() - i,
    {
        let ghost before = parts@;
        parts.push(ancestors[i].0.as_str());
        assert(parts@.map_values(|p: &str| p@) =~= before.map_values(|p: &str| p@).push(
            ancestors@[i as int].0@,
        ));
        assert(chain_names(chain_view(ancestors@)).take(i + 1) =~= chain_names(
            chain_view(ancestors@),
        ).take(i as int).push(ancestors@[i as int].0@));
        i = i + 1;
    }
    let ghost before = parts@;
    parts.push(name);
    assert(chain_names(chain_view(ancestors@)).take(i as int) =~= chain_names(chain_view(ancestors@)));
    assert(parts@.map_values(|p: &str| p@) =~= before.map_values(|p: &str| p@).push(name@));
    join_strs(&parts, ".")
}

/// A trimmed copy of an optional text, when not blank.
fn nonblank_exec(o: &Option<String>) -> (r: Option<String>)
    ensures
        opt_view(r) == nonblank(opt_view(*o)),
{
    match o {
        Some(d) => {
            let t = trim_str(d.as_str());
            if t.as_str().is_empty() {
                None
            } else {
                Some(t)
            }
        },
        None => None,
    }
}

/// Visibility by naming convention.
fn visibility_exec(name: &str) -> (r: Visibility)
    ensures
        r == visibility_of(name@),
{
    let cs = chars_of(name);
    if cs.len() > 0 && cs[0] == '_' {
        Visibility::Private
    } else {
        Visibility::Public
    }
}

/// Recursively convert a symbol tree (see [`nested_symbols`]).
pub fn convert_nested(
    rel_path: &str,
    lines: &Vec<Vec<char>>,
    node: &DocumentSymbol,
    ancestors: &Vec<(String, SymbolKind)>,
    out: &mut Vec<ExtractedSymbol>,
)
    requires
        ranges_fit(*node, in_function(chain_view(ancestors@))),
    ensures
        extracted_view(final(out)@) == extracted_view(old(out)@) + nested_symbols(
            rel_path@,
            pieces_view(lines@),
            *node,
            chain_view(ancestors@),
        ),
    decreases node,
{
    let ghost anc = chain_view(ancestors@);
    let ghost ls = pieces_view(lines@);
    let kind = match map_kind(node.kind) {
        Some(k) => k,
        None => {
            assert(extracted_view(out@) =~= extracted_view(old(out)@) + Seq::<ExtractedView>::empty());
            return ;
        },
    };
    let inside_function = ancestors.len() > 0 && (ancestors[ancestors.len() - 1].1
        == SymbolKind::Function || ancestors[ancestors.len() - 1].1 == SymbolKind::Method);
    assert(ancestors@.len() > 0 ==> anc.last() == (
    ancestors@[ancestors@.len() - 1].0@,
    ancestors@[ancestors@.len() - 1].1,
    ));
    let name = trim_str(node.name.as_str());
    if kind == SymbolKind::Variable && inside_function {
        assert(extracted_view(out@) =~= extracted_view(old(out)@) + Seq::<ExtractedView>::empty());
        return ;
    }
    if name.as_str().is_empty() {
        assert(extracted_view(out@) =~= extracted_view(old(out)@) + Seq::<ExtractedView>::empty());
        return ;
    }
    let parent: Option<&str> = if ancestors.len() > 0 {
        Some(ancestors[ancestors.len() - 1].0.as_str())
    } else {
        None
    };
    let id = Symbol::make_id(rel_path, name.as_str(), parent);
    let parent_id = match parent {
        Some(p) => Some(Symbol::make_id(rel_path, p, None)),
        None => None,
    };
    let qualified_name = if ancestors.len() == 0 {
        None
    } else {
        Some(qualified(ancestors, name.as_str()))
    };
    let symbol = Symbol {
        id,
        file_path: rel_path.to_string(),
        name: name.clone(),
        qualified_name,
        kind,
        visibility: visibility_exec(name.as_str()),
        signature: nonblank_exec(&node.detail),
        brief: None,
        docstring: None,
        line_start: node.range.start.line + 1,
        line_end: node.range.end.line + 1,
        col_start: node.range.start.character,
        col_end: node.range.end.character,
        parent_id,
        source: slice_lines(lines, node.range.start.line, node.range.end.line),
    };
    let extracted = ExtractedSymbol {
        symbol,
        sel_line: node.selection_range.start.line,
        sel_col: node.selection_range.start.character,
    };
    let ghost own = extracted@;
    assert(own == node_symbol(rel_path@, ls, *node, anc, name@, kind));
    out.push(extracted);
    assert(extracted_view(out@) =~= extracted_view(old(out)@) + seq![own]);
    match &node.children {
        None => {},
        Some(children) => {
            let mut chain = copy_chain(ancestors);
            chain.push((name.clone(), kind));
            let ghost ch = chain_view(chain@);
            assert(ch =~= anc.push((name@, kind)));
            let ghost base = extracted_view(out@);
            let mut i: usize = 0;
            while i < children.len()
                invariant
                    i <= children@.len(),
                    node.children == Some(*children),
                    children_fit(children@, function_like(kind)),
                    ch.last().1 == kind,
                    ch.len() > 0,
                    ch == chain_view(chain@),
                    ls == pieces_view(lines@),
                    extracted_view(out@) == base + children_symbols(
                        rel_path@,
                        ls,
                        children@.take(i as int),
                        ch,
                    ),
                decreases children@.len() - i,
            {
                assert(children@.take(i + 1).drop_last() =~= children@.take(i as int));
                assert(children@.take(i + 1).last() == children@[i as int]);
                proof {
                    lemma_children_fit_at(children@, function_like(kind), i as int);
                }
                assert(decreases_to!(*node => children@[i as int])) by {
                    assert(decreases_to!(*node => node.children));
                    assert(decreases_to!(node.children => node.children->0));
                    assert(decreases_to!(*children => children@));
                    assert(decreases_to!(children@ => children@[i as int]));
                }
                convert_nested(rel_path, lines, &children[i], &chain, out);
                assert(extracted_view(out@) =~= base + children_symbols(
                    rel_path@,
                    ls,
                    children@.take(i + 1),
                    ch,
                ));
                i = i + 1;
            }
            assert(children@.take(i as int) =~= children@);
        },
    }
}

/// Each tree of a fitting list fits.
proof fn lemma_children_fit_at(cs: Seq<DocumentSymbol>, f: bool, i: int)
    requires
        children_fit(cs, f),
        0 <= i < cs.len(),
    ensures
        ranges_fit(cs[i], f),
    decreases cs.len(),
{
    if i < cs.len() - 1 {
        lemma_children_fit_at(cs.drop_last(), f, i);
        assert(cs.drop_last()[i] == cs[i]);
    }
}


/// Whether a flat entry is function-like.
pub open spec fn is_function_info(info: SymbolInformation) -> bool {
    match kind_of(info.kind) {
        Some(k) => function_like(k),
        None => false,
    }
}

/// Whether `c` is the (untrimmed) name of a function-like entry of `infos`.
pub open spec fn names_function(infos: Seq<SymbolInformation>, c: Seq<char>) -> bool {
    exists|j: int| 0 <= j < infos.len() && #[trigger] is_function_info(infos[j]) && infos[j].name@ == c
}

/// The trimmed, non-blank container name of a flat entry.
pub open spec fn container_of(info: SymbolInformation) -> Option<Seq<char>> {
    nonblank(opt_view(info.container_name))
}

/// Whether a flat entry is converted: known kind, not a variable whose
/// container is a function-like entry of the list, and a non-blank name.
pub open spec fn flat_kept(infos: Seq<SymbolInformation>, info: SymbolInformation) -> bool {
    match kind_of(info.kind) {
        None => false,
        Some(kind) => {
            &&& !(kind == SymbolKind::Variable && container_of(info) is Some && names_function(
                infos,
                container_of(info)->0,
            ))
            &&& trim(info.name@).len() > 0
        },
    }
}

/// The symbol of a kept flat entry.
pub open spec fn flat_symbol(rel: Seq<char>, lines: Seq<Seq<char>>, info: SymbolInformation) -> ExtractedView {
    let container = container_of(info);
    let name = trim(info.name@);
    ExtractedView {
        symbol: SymbolView {
            id: symbol_id_text(rel, name, container),
            file_path: rel,
            name,
            qualified_name: match container {
                Some(c) => Some(c + "."@ + name),
                None => None,
            },
            kind: kind_of(info.kind)->0,
            visibility: visibility_of(name),
            signature: None,
            brief: None,
            docstring: None,
            line_start: (info.range.start.line + 1) as u32,
            line_end: (info.range.end.line + 1) as u32,
            col_start: info.range.start.character,
            col_end: info.range.end.character,
            parent_id: match container {
                Some(p) => Some(symbol_id_text(rel, p, None)),
                None => None,
            },
            source: slice_lines_of(lines, info.range.start.line, info.range.end.line),
        },
        sel_line: info.range.start.line,
        sel_col: info.range.start.character,
    }
}

/// The symbols of the first `n` flat entries, in order.
pub open spec fn flat_symbols(
    rel: Seq<char>,
    lines: Seq<Seq<char>>,
    infos: Seq<SymbolInformation>,
    n: int,
) -> Seq<ExtractedView>
    decreases n,
{
    if n <= 0 {
        seq![]
    } else if flat_kept(infos, infos[n - 1]) {
        flat_symbols(rel, lines, infos, n - 1).push(flat_symbol(rel, lines, infos[n - 1]))
    } else {
        flat_symbols(rel, lines, infos, n - 1)
    }
}

/// Whether every kept flat entry has lines that fit in `u32` once 1-based.
pub open spec fn flat_fit(infos: Seq<SymbolInformation>) -> bool {
    forall|j: int| 0 <= j < infos.len() && #[trigger] flat_kept(infos, infos[j]) ==> range_fits(
        infos[j].range,
    )
}

/// Whether `c` names a function-like entry (executable [`names_function`]).
fn names_function_exec(infos: &Vec<SymbolInformation>, c: &str) -> (r: bool)
    ensures
        r == names_function(infos@, c@),
{
    let mut i: usize = 0;
    while i < infos.len()
        invariant
            i <= infos@.len(),
            forall|j: int|
                0 <= j < i ==> !(#[trigger] is_function_info(infos@[j]) && infos@[j].name@ == c@),
        decreases infos@.len() - i,
    {
        let function_like = match map_kind(infos[i].kind) {
            Some(k) => k == SymbolKind::Function || k == SymbolKind::Method,
            None => false,
        };
        if function_like && str_eq(infos[i].name.as_str(), c) {
            assert(is_function_info(infos@[i as int]));
            return true;
        }
        i = i + 1;
    }
    false
}

/// Convert a flat symbol list (servers without hierarchical document
/// symbols); containers are known by name only.
fn convert_flat(rel_path: &str, lines: &Vec<Vec<char>>, infos: &Vec<SymbolInformation>) -> (r: Vec<
    ExtractedSymbol,
>)
    requires
        flat_fit(infos@),
    ensures
        extracted_view(r@) == flat_symbols(rel_path@, pieces_view(lines@), infos@, infos@.len() as int),
{
    let ghost ls = pieces_view(lines@);
    let mut out: Vec<ExtractedSymbol> = Vec::new();
    let mut i: usize = 0;
    while i < infos.len()
        invariant
            i <= infos@.len(),
            flat_fit(infos@),
            ls == pieces_view(lines@),
            extracted_view(out@) == flat_symbols(rel_path@, ls, infos@, i as int),
        decreases infos@.len() - i,
    {
        let info = &infos[i];
        let ghost before = extracted_view(out@);
        match map_kind(info.kind) {
            None => {},
            Some(kind) => {
                let container = nonblank_exec(&info.container_name);
                let local = match &container {
                    Some(c) => kind == SymbolKind::Variable && names_function_exec(infos, c.as_str()),
                    None => false,
                };
                let name = trim_str(info.name.as_str());
                if !local && !name.as_str().is_empty() {
                    assert(flat_kept(infos@, infos@[i as int]));
                    let parent: Option<&str> = match &container {
                        Some(c) => Some(c.as_str()),
                        None => None,
                    };
                    let id = Symbol::make_id(rel_path, name.as_str(), parent);
                    let parent_id = match parent {
                        Some(p) => Some(Symbol::make_id(rel_path, p, None)),
                        None => None,
                    };
                    let qualified_name = match &container {
                        Some(c) => {
                            let mut q = c.clone();
                            push_str(&mut q, ".");
                            push_str(&mut q, name.as_str());
                            Some(q)
                        },
                        None => None,
                    };
                    let extracted = ExtractedSymbol {
                        symbol: Symbol {
                            id,
                            file_path: rel_path.to_string(),
                            name: name.clone(),
                            qualified_name,
                            kind,
                            visibility: visibility_exec(name.as_str()),
                            signature: None,
                            brief: None,
                            docstring: None,
                            line_start: info.range.start.line + 1,
                            line_end: info.range.end.line + 1,
                            col_start: info.range.start.character,
                            col_end: info.range.end.character,
                            parent_id,
                            source: slice_lines(lines, info.range.start.line, info.range.end.line),
                        },
                        sel_line: info.range.start.line,
                        sel_col: info.range.start.character,
                    };
                    assert(extracted@ == flat_symbol(rel_path@, ls, infos@[i as int]));
                    out.push(extracted);
                    assert(extracted_view(out@) =~= before.push(
                        flat_symbol(rel_path@, ls, infos@[i as int]),
                    ));
                }
            },
        }
        i = i + 1;
    }
    out
}

/// The symbols of a document-symbol answer for the file `rel` with text
/// `text`.
pub open spec fn response_symbols(
    rel: Seq<char>,
    text: Seq<char>,
    response: DocumentSymbolResponse,
) -> Seq<ExtractedView> {
    match response {
        DocumentSymbolResponse::Nested(roots) => children_symbols(
            rel,
            str_lines(text),
            roots@,
            seq![],
        ),
        DocumentSymbolResponse::Flat(infos) => flat_symbols(
            rel,
            str_lines(text),
            infos@,
            infos@.len() as int,
        ),
    }
}

/// Whether the converted symbols of an answer have lines that fit in `u32`
/// once 1-based.
pub open spec fn response_fits(response: DocumentSymbolResponse) -> bool {
    match response {
        DocumentSymbolResponse::Nested(roots) => children_fit(roots@, false),
        DocumentSymbolResponse::Flat(infos) => flat_fit(infos@),
    }
}

/// Convert a document-symbol answer into symbols.
pub fn symbols_from_response(rel_path: &str, text: &str, response: DocumentSymbolResponse) -> (r: Vec<
    ExtractedSymbol,
>)
    requires
        response_fits(response),
    ensures
        extracted_view(r@) == response_symbols(rel_path@, text@, response),
{
    let chars = chars_of(text);
    let lines = lines_exec(chars.as_slice());
    match response {
        DocumentSymbolResponse::Nested(roots) => {
            let ghost ls = pieces_view(lines@);
            let root_chain: Vec<(String, SymbolKind)> = Vec::new();
            assert(chain_view(root_chain@) =~= Seq::<(Seq<char>, SymbolKind)>::empty());
            let mut out: Vec<ExtractedSymbol> = Vec::new();
            let mut i: usize = 0;
            while i < roots.len()
                invariant
                    i <= roots@.len(),
                    children_fit(roots@, false),
                    chain_view(root_chain@) == Seq::<(Seq<char>, SymbolKind)>::empty(),
                    ls == pieces_view(lines@),
                    extracted_view(out@) == children_symbols(
                        rel_path@,
                        ls,
                        roots@.take(i as int),
                        seq![],
                    ),
                decreases roots@.len() - i,
            {
                assert(roots@.take(i + 1).drop_last() =~= roots@.take(i as int));
                assert(roots@.take(i + 1).last() == roots@[i as int]);
                proof {
                    lemma_children_fit_at(roots@, false, i as int);
                }
                convert_nested(rel_path, &lines, &roots[i], &root_chain, &mut out);
                i = i + 1;
            }
            assert(roots@.take(i as int) =~= roots@);
            out
        },
        DocumentSymbolResponse::Flat(infos) => convert_flat(rel_path, &lines, &infos),
    }
}


/// The id of the first symbol whose selection starts at (`line`, `col`).
pub open spec fn id_at_selection(syms: Seq<ExtractedView>, line: u32, col: u32) -> Option<Seq<char>>
    decreases syms.len(),
{
    if syms.len() == 0 {
        None
    } else if syms[0].sel_line == line && syms[0].sel_col == col {
        Some(syms[0].symbol.id)
    } else {
        id_at_selection(syms.drop_first(), line, col)
    }
}

/// The id of the first symbol named `name` whose first line is `line`.
pub open spec fn id_named_at(syms: Seq<ExtractedView>, name: Seq<char>, line: int) -> Option<Seq<char>>
    decreases syms.len(),
{
    if syms.len() == 0 {
        None
    } else if syms[0].symbol.name == name && syms[0].symbol.line_start == line {
        Some(syms[0].symbol.id)
    } else {
        id_named_at(syms.drop_first(), name, line)
    }
}

/// The resolved target of a call: for a callee in the same file, the symbol
/// whose selection starts where the callee's does, else the symbol of the
/// callee's name starting on the callee's first line; none across files.
pub open spec fn call_target(call: OutgoingCall, file_uri: Seq<char>, syms: Seq<ExtractedView>) -> Option<
    Seq<char>,
> {
    if call.to.uri@ == file_uri {
        match id_at_selection(syms, call.to.selection_range.start.line, call.to.selection_range.start.character) {
            Some(id) => Some(id),
            None => id_named_at(syms, trim(call.to.name@), call.to.range.start.line + 1),
        }
    } else {
        None
    }
}

/// The edge of one call site.
pub open spec fn site_edge(
    source_id: Seq<char>,
    target: Option<Seq<char>>,
    name: Seq<char>,
    r: LspRange,
) -> EdgeView {
    EdgeView {
        source_id,
        target_id: target,
        target_name: name,
        kind: EdgeKind::Calls,
        line: Some((r.start.line + 1) as u32),
        col: Some(r.start.character),
        context: Some(name),
    }
}

/// The edges of the call sites `rs`, in order.
pub open spec fn site_edges(
    source_id: Seq<char>,
    target: Option<Seq<char>>,
    name: Seq<char>,
    rs: Seq<LspRange>,
) -> Seq<EdgeView>
    decreases rs.len(),
{
    if rs.len() == 0 {
        seq![]
    } else {
        site_edges(source_id, target, name, rs.drop_last()).push(
            site_edge(source_id, target, name, rs.last()),
        )
    }
}

/// The edges of one outgoing call: none for a blank callee name, one per
/// call site, or a single edge without a location when there is no site.
pub open spec fn call_edges(
    source_id: Seq<char>,
    call: OutgoingCall,
    file_uri: Seq<char>,
    syms: Seq<ExtractedView>,
) -> Seq<EdgeView> {
    let name = trim(call.to.name@);
    let target = call_target(call, file_uri, syms);
    if name.len() == 0 {
        seq![]
    } else if call.from_ranges@.len() == 0 {
        seq![
            EdgeView {
                source_id,
                target_id: target,
                target_name: name,
                kind: EdgeKind::Calls,
                line: None,
                col: None,
                context: Some(name),
            },
        ]
    } else {
        site_edges(source_id, target, name, call.from_ranges@)
    }
}

/// The edges of the first `n` outgoing calls, in order.
pub open spec fn outgoing_edges(
    source_id: Seq<char>,
    calls: Seq<OutgoingCall>,
    file_uri: Seq<char>,
    syms: Seq<ExtractedView>,
    n: int,
) -> Seq<EdgeView>
    decreases n,
{
    if n <= 0 {
        seq![]
    } else {
        outgoing_edges(source_id, calls, file_uri, syms, n - 1) + call_edges(
            source_id,
            calls[n - 1],
            file_uri,
            syms,
        )
    }
}

/// Whether the 1-based call-site lines of every call with a callee name fit
/// in `u32`.
pub open spec fn sites_fit(calls: Seq<OutgoingCall>) -> bool {
    forall|j: int, k: int|
        0 <= j < calls.len() && trim(calls[j].to.name@).len() > 0 && 0 <= k
            < calls[j].from_ranges@.len() ==> #[trigger] calls[j].from_ranges@[k].start.line
            < u32::MAX
}

/// Executable [`id_at_selection`].
fn find_at_selection(syms: &[ExtractedSymbol], line: u32, col: u32) -> (r: Option<String>)
    ensures
        opt_view(r) == id_at_selection(extracted_view(syms@), line, col),
{
    let ghost all = extracted_view(syms@);
    let mut i: usize = 0;
    assert(all.skip(0) =~= all);
    while i < syms.len()
        invariant
            i <= syms@.len(),
            all == extracted_view(syms@),
            id_at_selection(all, line, col) == id_at_selection(all.skip(i as int), line, col),
        decreases syms@.len() - i,
    {
        assert(all.skip(i as int)[0] == syms@[i as int]@);
        if syms[i].sel_line == line && syms[i].sel_col == col {
            return Some(syms[i].symbol.id.clone());
        }
        assert(all.skip(i as int).drop_first() =~= all.skip(i + 1));
        i = i + 1;
    }
    None
}

/// Executable [`id_named_at`].
fn find_named_at(syms: &[ExtractedSymbol], name: &str, line: u64) -> (r: Option<String>)
    ensures
        opt_view(r) == id_named_at(extracted_view(syms@), name@, line as int),
{
    let ghost all = extracted_view(syms@);
    let mut i: usize = 0;
    assert(all.skip(0) =~= all);
    while i < syms.len()
        invariant
            i <= syms@.len(),
            all == extracted_view(syms@),
            id_named_at(all, name@, line as int) == id_named_at(all.skip(i as int), name@, line as int),
        decreases syms@.len() - i,
    {
        assert(all.skip(i as int)[0] == syms@[i as int]@);
        if str_eq(syms[i].symbol.name.as_str(), name) && syms[i].symbol.line_start as u64 == line {
            return Some(syms[i].symbol.id.clone());
        }
        assert(all.skip(i as int).drop_first() =~= all.skip(i + 1));
        i = i + 1;
    }
    None
}

/// Convert the outgoing calls of `source` into call edges. Callees in the
/// file `file_uri` are resolved against `file_symbols`; callees elsewhere
/// stay unresolved and keep their call-site position.
pub fn edges_from_outgoing_calls(
    source: &ExtractedSymbol,
    file_uri: &str,
    file_symbols: &[ExtractedSymbol],
    calls: &[OutgoingCall],
) -> (r: Vec<Edge>)
    requires
        sites_fit(calls@),
    ensures
        r@.map_values(|e: Edge| e@) == outgoing_edges(
            source.symbol.id@,
            calls@,
            file_uri@,
            extracted_view(file_symbols@),
            calls@.len() as int,
        ),
{
    let ghost syms = extracted_view(file_symbols@);
    let ghost sid = source.symbol.id@;
    let mut edges: Vec<Edge> = Vec::new();
    let mut i: usize = 0;
    while i < calls.len()
        invariant
            i <= calls@.len(),
            sites_fit(calls@),
            syms == extracted_view(file_symbols@),
            sid == source.symbol.id@,
            edges@.map_values(|e: Edge| e@) == outgoing_edges(sid, calls@, file_uri@, syms, i as int),
        decreases calls@.len() - i,
    {
        let call = &calls[i];
        let ghost base = edges@.map_values(|e: Edge| e@);
        let name = trim_str(call.to.name.as_str());
        if !name.as_str().is_empty() {
            let target: Option<String> = if str_eq(call.to.uri.as_str(), file_uri) {
                match find_at_selection(
                    file_symbols,
                    call.to.selection_range.start.line,
                    call.to.selection_range.start.character,
                ) {
                    Some(id) => Some(id),
                    None => find_named_at(file_symbols, name.as_str(), call.to.range.start.line as u64 + 1),
                }
            } else {
                None
            };
            let ghost tv = opt_view(target);
            assert(tv == call_target(*call, file_uri@, syms));
            if call.from_ranges.len() == 0 {
                edges.push(
                    Edge {
                        source_id: source.symbol.id.clone(),
                        target_id: copy_opt(&target),
                        target_name: name.clone(),
                        kind: EdgeKind::Calls,
                        line: None,
                        col: None,
                        context: Some(name.clone()),
                    },
                );
                assert(edges@.map_values(|e: Edge| e@) =~= base + call_edges(sid, *call, file_uri@, syms));
            } else {
                let mut k: usize = 0;
                while k < call.from_ranges.len()
                    invariant
                        k <= call.from_ranges@.len(),
                        call.from_ranges@.len() > 0,
                        name@ == trim(call.to.name@),
                        name@.len() > 0,
                        call == calls@[i as int],
                        i < calls@.len(),
                        sites_fit(calls@),
                        sid == source.symbol.id@,
                        tv == opt_view(target),
                        edges@.map_values(|e: Edge| e@) == base + site_edges(
                            sid,
                            tv,
                            name@,
                            call.from_ranges@.take(k as int),
                        ),
                    decreases call.from_ranges@.len() - k,
                {
                    let ghost before = edges@.map_values(|e: Edge| e@);
                    let r = call.from_ranges[k];
                    assert(calls@[i as int].from_ranges@[k as int].start.line < u32::MAX);
                    let e = Edge {
                        source_id: source.symbol.id.clone(),
                        target_id: copy_opt(&target),
                        target_name: name.clone(),
                        kind: EdgeKind::Calls,
                        line: Some(r.start.line + 1),
                        col: Some(r.start.character),
                        context: Some(name.clone()),
                    };
                    assert(e@ == site_edge(sid, tv, name@, call.from_ranges@[k as int]));
                    edges.push(e);
                    assert(call.from_ranges@.take(k + 1).drop_last() =~= call.from_ranges@.take(
                        k as int,
                    ));
                    assert(edges@.map_values(|e: Edge| e@) =~= before.push(
                        site_edge(sid, tv, name@, call.from_ranges@[k as int]),
                    ));
                    k = k + 1;
                }
                assert(call.from_ranges@.take(k as int) =~= call.from_ranges@);
            }
        } else {
            assert(call_edges(sid, *call, file_uri@, syms) =~= Seq::<EdgeView>::empty());
            assert(edges@.map_values(|e: Edge| e@) =~= base + call_edges(sid, *call, file_uri@, syms));
        }
        i = i + 1;
    }
    edges
}


/// The positions, among the first `n` symbols, of the functions and
/// methods (whose outgoing calls are requested), in order.
pub open spec fn callable_positions(syms: Seq<ExtractedView>, n: int) -> Seq<int>
    decreases n,
{
    if n <= 0 {
        seq![]
    } else if crate::model::is_callable_kind(syms[n - 1].symbol.kind) {
        callable_positions(syms, n - 1).push(n - 1)
    } else {
        callable_positions(syms, n - 1)
    }
}

/// The positions of the symbols whose outgoing calls are requested.
pub fn call_hierarchy_targets(symbols: &[ExtractedSymbol]) -> (r: Vec<usize>)
    ensures
        r@.map_values(|k: usize| k as int) == callable_positions(
            extracted_view(symbols@),
            symbols@.len() as int,
        ),
{
    let ghost syms = extracted_view(symbols@);
    let mut out: Vec<usize> = Vec::new();
    let mut i: usize = 0;
    while i < symbols.len()
        invariant
            i <= symbols@.len(),
            syms == extracted_view(symbols@),
            out@.map_values(|k: usize| k as int) == callable_positions(syms, i as int),
        decreases symbols@.len() - i,
    {
        let ghost before = out@;
        let kind = symbols[i].symbol.kind;
        assert(syms[i as int].symbol.kind == kind);
        if kind == SymbolKind::Function || kind == SymbolKind::Method {
            out.push(i);
            assert(out@.map_values(|k: usize| k as int) =~= before.map_values(|k: usize| k as int).push(
                i as int,
            ));
        }
        i = i + 1;
    }
    out
}

/// The parse result of a file extracted by a language server: its symbols
/// in order, its call edges, and no module information.
pub fn into_parse_result(
    rel_path: &str,
    language: &str,
    extracted: Vec<ExtractedSymbol>,
    edges: Vec<Edge>,
) -> (r: crate::model::ParseResult)
    ensures
        r.file_path@ == rel_path@,
        r.language@ == language@,
        r.symbols@.map_values(|s: Symbol| s@) == extracted_view(extracted@).map_values(
            |e: ExtractedView| e.symbol,
        ),
        r.edges == edges,
        r.module is None,
{
    let ghost want = extracted_view(extracted@).map_values(|e: ExtractedView| e.symbol);
    let mut rest = extracted;
    let mut reversed: Vec<Symbol> = Vec::new();
    while rest.len() > 0
        invariant
            rest@.len() + reversed@.len() == want.len(),
            forall|k: int|
                0 <= k < rest@.len() ==> #[trigger] rest@[k].symbol@ == want[k],
            forall|k: int|
                0 <= k < reversed@.len() ==> #[trigger] reversed@[k]@ == want[want.len() - 1 - k],
        decreases rest@.len(),
    {
        let e = rest.pop().unwrap();
        reversed.push(e.symbol);
    }
    let mut symbols: Vec<Symbol> = Vec::new();
    while reversed.len() > 0
        invariant
            symbols@.len() + reversed@.len() == want.len(),
            forall|k: int| 0 <= k < symbols@.len() ==> #[trigger] symbols@[k]@ == want[k],
            forall|k: int|
                0 <= k < reversed@.len() ==> #[trigger] reversed@[k]@ == want[want.len() - 1 - k],
        decreases reversed@.len(),
    {
        let s = reversed.pop().unwrap();
        symbols.push(s);
    }
    assert(symbols@.map_values(|s: Symbol| s@) =~= want);
    crate::model::ParseResult {
        file_path: rel_path.to_string(),
        language: language.to_string(),
        symbols,
        edges,
        module: None,
    }
}

} // verus!
