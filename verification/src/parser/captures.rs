//! Query matches as the extraction reads them, and the call edges they
//! yield.
//!
//! A grammar query reports matches; each reaches these functions as its
//! captures, in match order: the capture's name, the source text it covers
//! and where that text starts.

use vstd::prelude::*;

use crate::model::{Edge, EdgeKind, EdgeView, Symbol, SymbolKind, SymbolView};
use crate::parser::solidity::{enclosing_function, find_enclosing, ranges_view, symbols_view};
use crate::parser::{can_truncate, str_views, truncate_context, truncated, CallCapturePatterns};
use crate::parser::typescript::{create_inheritance_edge, symbol_named};
use crate::text::{push_str, str_eq};

verus! {

/// A capture of a query match: the capture's name, the text it covers, and
/// where that text starts (0-based row and column).
#[derive(Debug)]
pub struct Capture {
    pub name: String,
    pub text: String,
    pub row: u32,
    pub column: u32,
}

/// The last capture named by one of `names`.
pub open spec fn last_among(cs: Seq<Capture>, names: Seq<Seq<char>>) -> Option<Capture>
    decreases cs.len(),
{
    if cs.len() == 0 {
        None
    } else if names.contains(cs.last().name@) {
        Some(cs.last())
    } else {
        last_among(cs.drop_last(), names)
    }
}

/// The last capture named by one of `exprs` but none of `names`.
pub open spec fn last_expr(cs: Seq<Capture>, names: Seq<Seq<char>>, exprs: Seq<Seq<char>>) -> Option<
    Capture,
>
    decreases cs.len(),
{
    if cs.len() == 0 {
        None
    } else if !names.contains(cs.last().name@) && exprs.contains(cs.last().name@) {
        Some(cs.last())
    } else {
        last_expr(cs.drop_last(), names, exprs)
    }
}

/// The call a match describes: the called name (the last name capture's
/// text) and the call expression (the last expression capture), when it
/// has both.
pub open spec fn call_of(cs: Seq<Capture>, names: Seq<Seq<char>>, exprs: Seq<Seq<char>>) -> Option<
    (Seq<char>, Capture),
> {
    match (last_among(cs, names), last_expr(cs, names, exprs)) {
        (Some(n), Some(e)) => Some((n.text@, e)),
        _ => None,
    }
}

/// The line ranges and ids of the function and method symbols, in order.
pub open spec fn callable_ranges_of(symbols: Seq<SymbolView>) -> Seq<(u32, u32, Seq<char>)>
    decreases symbols.len(),
{
    if symbols.len() == 0 {
        seq![]
    } else {
        let s = symbols.last();
        callable_ranges_of(symbols.drop_last()) + if s.kind == SymbolKind::Function || s.kind
            == SymbolKind::Method {
            seq![(s.line_start, s.line_end, s.id)]
        } else {
            seq![]
        }
    }
}

/// The id of the first symbol named `name`, of any kind.
pub open spec fn first_symbol_named(symbols: Seq<SymbolView>, name: Seq<char>) -> Option<Seq<char>>
    decreases symbols.len(),
{
    if symbols.len() == 0 {
        None
    } else if symbols[0].name == name {
        Some(symbols[0].id)
    } else {
        first_symbol_named(symbols.drop_first(), name)
    }
}

/// The edge of one match: a call from the first function or method whose
/// lines hold the call's (1-based) line, to the first symbol of the called
/// name, with the call's text (trimmed, cut at 80 bytes) as context; none
/// when the match describes no call or no function holds it.
pub open spec fn match_edge(
    cs: Seq<Capture>,
    symbols: Seq<SymbolView>,
    names: Seq<Seq<char>>,
    exprs: Seq<Seq<char>>,
) -> Seq<EdgeView> {
    match call_of(cs, names, exprs) {
        Some((name, node)) => {
            let line = node.row + 1;
            match enclosing_function(callable_ranges_of(symbols), line as nat) {
                Some(source_id) => seq![
                    EdgeView {
                        source_id,
                        target_id: first_symbol_named(symbols, name),
                        target_name: name,
                        kind: EdgeKind::Calls,
                        line: Some(line as u32),
                        col: Some(node.column),
                        context: Some(truncated(node.text@, 80)),
                    },
                ],
                None => seq![],
            }
        },
        None => seq![],
    }
}

/// The call edges of query matches, in order.
pub open spec fn call_edges_of(
    matches: Seq<Vec<Capture>>,
    symbols: Seq<SymbolView>,
    names: Seq<Seq<char>>,
    exprs: Seq<Seq<char>>,
) -> Seq<EdgeView>
    decreases matches.len(),
{
    if matches.len() == 0 {
        seq![]
    } else {
        call_edges_of(matches.drop_last(), symbols, names, exprs) + match_edge(
            matches.last()@,
            symbols,
            names,
            exprs,
        )
    }
}

/// Whether a match can be read without failing: a call's line fits, and
/// the text of a call inside a function can be cut for its context.
pub open spec fn match_readable(
    cs: Seq<Capture>,
    symbols: Seq<SymbolView>,
    names: Seq<Seq<char>>,
    exprs: Seq<Seq<char>>,
) -> bool {
    match call_of(cs, names, exprs) {
        Some((_, node)) => node.row < u32::MAX && (enclosing_function(
            callable_ranges_of(symbols),
            (node.row + 1) as nat,
        ) is Some ==> can_truncate(node.text@, 80)),
        None => true,
    }
}

fn callable_ranges(symbols: &Vec<Symbol>) -> (r: Vec<(u32, u32, String)>)
    ensures
        ranges_view(r@) == callable_ranges_of(symbols_view(symbols@)),
{
    let ghost sv = symbols_view(symbols@);
    let mut out: Vec<(u32, u32, String)> = Vec::new();
    let mut i: usize = 0;
    while i < symbols.len()
        invariant
            i <= symbols@.len(),
            sv == symbols_view(symbols@),
            ranges_view(out@) == callable_ranges_of(sv.take(i as int)),
        decreases symbols@.len() - i,
    {
        assert(sv.take(i + 1).drop_last() =~= sv.take(i as int));
        assert(sv[i as int] == symbols@[i as int]@);
        let s = &symbols[i];
        let ghost before = out@;
        if s.kind == SymbolKind::Function || s.kind == SymbolKind::Method {
            out.push((s.line_start, s.line_end, s.id.clone()));
            assert(ranges_view(out@) =~= ranges_view(before).push((s.line_start, s.line_end, s.id@)));
        }
        assert(ranges_view(out@) =~= callable_ranges_of(sv.take(i + 1)));
        i = i + 1;
    }
    assert(sv.take(i as int) =~= sv);
    out
}

fn find_symbol_named(symbols: &Vec<Symbol>, name: &str) -> (r: Option<String>)
    ensures
        crate::json::opt_view(r) == first_symbol_named(symbols_view(symbols@), name@),
{
    let ghost sv = symbols_view(symbols@);
    let mut i: usize = 0;
    assert(sv.skip(0) =~= sv);
    while i < symbols.len()
        invariant
            i <= symbols@.len(),
            sv == symbols_view(symbols@),
            first_symbol_named(sv.skip(i as int), name@) == first_symbol_named(sv, name@),
        decreases symbols@.len() - i,
    {
        let ghost rest = sv.skip(i as int);
        assert(rest[0] == symbols@[i as int]@);
        assert(rest.drop_first() =~= sv.skip(i + 1));
        if str_eq(symbols[i].name.as_str(), name) {
            return Some(symbols[i].id.clone());
        }
        i = i + 1;
    }
    assert(sv.skip(i as int) =~= Seq::<SymbolView>::empty());
    None
}

fn is_among(names: &[&str], s: &str) -> (r: bool)
    ensures
        r == str_views(names@).contains(s@),
{
    let mut i: usize = 0;
    while i < names.len()
        invariant
            i <= names@.len(),
            forall|j: int| 0 <= j < i ==> names@[j]@ != s@,
        decreases names@.len() - i,
    {
        if str_eq(names[i], s) {
            assert(str_views(names@)[i as int] == s@);
            return true;
        }
        i = i + 1;
    }
    assert forall|j: int| 0 <= j < str_views(names@).len() implies str_views(names@)[j] != s@ by {
        assert(str_views(names@)[j] == names@[j]@);
    }
    false
}

/// The called name and call expression of one match (see [`call_of`]).
fn call_in<'a>(cs: &'a Vec<Capture>, patterns: &CallCapturePatterns) -> (r: Option<(&'a String, &'a Capture)>)
    ensures
        match r {
            Some((n, e)) => call_of(
                cs@,
                str_views(patterns.name_patterns@),
                str_views(patterns.expr_patterns@),
            ) == Some((n@, *e)),
            None => call_of(
                cs@,
                str_views(patterns.name_patterns@),
                str_views(patterns.expr_patterns@),
            ) is None,
        },
{
    let ghost np = str_views(patterns.name_patterns@);
    let ghost ep = str_views(patterns.expr_patterns@);
    let mut name: Option<&String> = None;
    let mut node: Option<&Capture> = None;
    let mut i: usize = 0;
    while i < cs.len()
        invariant
            i <= cs@.len(),
            np == str_views(patterns.name_patterns@),
            ep == str_views(patterns.expr_patterns@),
            match name {
                Some(n) => last_among(cs@.take(i as int), np) matches Some(c) && c.text@ == n@,
                None => last_among(cs@.take(i as int), np) is None,
            },
            match node {
                Some(e) => last_expr(cs@.take(i as int), np, ep) == Some(*e),
                None => last_expr(cs@.take(i as int), np, ep) is None,
            },
        decreases cs@.len() - i,
    {
        assert(cs@.take(i + 1).drop_last() =~= cs@.take(i as int));
        assert(cs@.take(i + 1).last() == cs@[i as int]);
        let c = &cs[i];
        if is_among(patterns.name_patterns, c.name.as_str()) {
            name = Some(&c.text);
        } else if is_among(patterns.expr_patterns, c.name.as_str()) {
            node = Some(c);
        }
        i = i + 1;
    }
    assert(cs@.take(i as int) =~= cs@);
    match (name, node) {
        (Some(n), Some(e)) => Some((n, e)),
        _ => None,
    }
}

/// Push the call edges of query matches (see [`call_edges_of`]) against
/// the extracted `symbols`.
pub fn extract_call_edges(
    matches: &Vec<Vec<Capture>>,
    symbols: &Vec<Symbol>,
    edges: &mut Vec<Edge>,
    patterns: &CallCapturePatterns,
)
    requires
        forall|i: int|
            0 <= i < matches@.len() ==> match_readable(
                (#[trigger] matches@[i])@,
                symbols_view(symbols@),
                str_views(patterns.name_patterns@),
                str_views(patterns.expr_patterns@),
            ),
    ensures
        final(edges)@.map_values(|e: Edge| e@) == old(edges)@.map_values(|e: Edge| e@)
            + call_edges_of(
            matches@,
            symbols_view(symbols@),
            str_views(patterns.name_patterns@),
            str_views(patterns.expr_patterns@),
        ),
{
    let ghost sv = symbols_view(symbols@);
    let ghost np = str_views(patterns.name_patterns@);
    let ghost ep = str_views(patterns.expr_patterns@);
    let ghost start = edges@.map_values(|e: Edge| e@);
    let ranges = callable_ranges(symbols);
    let mut i: usize = 0;
    while i < matches.len()
        invariant
            i <= matches@.len(),
            sv == symbols_view(symbols@),
            np == str_views(patterns.name_patterns@),
            ep == str_views(patterns.expr_patterns@),
            ranges_view(ranges@) == callable_ranges_of(sv),
            forall|k: int| 0 <= k < matches@.len() ==> match_readable((#[trigger] matches@[k])@, sv, np, ep),
            edges@.map_values(|e: Edge| e@) == start + call_edges_of(matches@.take(i as int), sv, np, ep),
        decreases matches@.len() - i,
    {
        assert(matches@.take(i + 1).drop_last() =~= matches@.take(i as int));
        assert(match_readable(matches@[i as int]@, sv, np, ep));
        let ghost before = edges@;
        match call_in(&matches[i], patterns) {
            Some((name, node)) => {
                let line: u32 = node.row + 1;
                match find_enclosing(ranges.as_slice(), line) {
                    Some(source_id) => {
                        let target_id = find_symbol_named(symbols, name.as_str());
                        let context = truncate_context(node.text.as_str(), 80);
                        edges.push(
                            Edge {
                                source_id,
                                target_id,
                                target_name: name.clone(),
                                kind: EdgeKind::Calls,
                                line: Some(line),
                                col: Some(node.column),
                                context: Some(context),
                            },
                        );
                        assert(edges@.map_values(|e: Edge| e@) =~= before.map_values(|e: Edge| e@).push(
                            edges@.last()@,
                        ));
                    },
                    None => {},
                }
            },
            None => {},
        }
        assert(edges@.map_values(|e: Edge| e@) =~= start + call_edges_of(
            matches@.take(i + 1),
            sv,
            np,
            ep,
        ));
        i = i + 1;
    }
    assert(matches@.take(i as int) =~= matches@);
}

// ---------------------------------------------------------------------------
// Reading captures by name
// ---------------------------------------------------------------------------

/// The last capture named `a` or `b`.
pub open spec fn last_of(cs: Seq<Capture>, a: Seq<char>, b: Seq<char>) -> Option<Capture>
    decreases cs.len(),
{
    if cs.len() == 0 {
        None
    } else if cs.last().name@ == a || cs.last().name@ == b {
        Some(cs.last())
    } else {
        last_of(cs.drop_last(), a, b)
    }
}

/// The texts of the captures named `a` or `b`, in order.
pub open spec fn texts_of(cs: Seq<Capture>, a: Seq<char>, b: Seq<char>) -> Seq<Seq<char>>
    decreases cs.len(),
{
    if cs.len() == 0 {
        seq![]
    } else {
        texts_of(cs.drop_last(), a, b) + if cs.last().name@ == a || cs.last().name@ == b {
            seq![cs.last().text@]
        } else {
            seq![]
        }
    }
}

/// The last capture named `a` or `b` (see [`last_of`]).
pub fn find_last_of<'a>(cs: &'a Vec<Capture>, a: &str, b: &str) -> (r: Option<&'a Capture>)
    ensures
        match r {
            Some(c) => last_of(cs@, a@, b@) == Some(*c),
            None => last_of(cs@, a@, b@) is None,
        },
{
    let mut found: Option<&Capture> = None;
    let mut i: usize = 0;
    while i < cs.len()
        invariant
            i <= cs@.len(),
            match found {
                Some(c) => last_of(cs@.take(i as int), a@, b@) == Some(*c),
                None => last_of(cs@.take(i as int), a@, b@) is None,
            },
        decreases cs@.len() - i,
    {
        assert(cs@.take(i + 1).drop_last() =~= cs@.take(i as int));
        assert(cs@.take(i + 1).last() == cs@[i as int]);
        if str_eq(cs[i].name.as_str(), a) || str_eq(cs[i].name.as_str(), b) {
            found = Some(&cs[i]);
        }
        i = i + 1;
    }
    assert(cs@.take(i as int) =~= cs@);
    found
}

/// The texts of the captures named `a` or `b` (see [`texts_of`]).
pub fn collect_texts_of<'a>(cs: &'a Vec<Capture>, a: &str, b: &str) -> (r: Vec<&'a str>)
    ensures
        r@.map_values(|t: &str| t@) == texts_of(cs@, a@, b@),
{
    let mut out: Vec<&str> = Vec::new();
    let mut i: usize = 0;
    while i < cs.len()
        invariant
            i <= cs@.len(),
            out@.map_values(|t: &str| t@) == texts_of(cs@.take(i as int), a@, b@),
        decreases cs@.len() - i,
    {
        assert(cs@.take(i + 1).drop_last() =~= cs@.take(i as int));
        assert(cs@.take(i + 1).last() == cs@[i as int]);
        let ghost before = out@;
        if str_eq(cs[i].name.as_str(), a) || str_eq(cs[i].name.as_str(), b) {
            out.push(cs[i].text.as_str());
            assert(out@.map_values(|t: &str| t@) =~= before.map_values(|t: &str| t@).push(
                cs@[i as int].text@,
            ));
        } else {
            assert(out@ == before);
        }
        assert(out@.map_values(|t: &str| t@) =~= texts_of(cs@.take(i + 1), a@, b@));
        i = i + 1;
    }
    assert(cs@.take(i as int) =~= cs@);
    out
}

/// The id of the first symbol named `name` whose kind is `k1` or `k2`.
pub open spec fn symbol_of_kinds(symbols: Seq<SymbolView>, name: Seq<char>, k1: SymbolKind, k2: SymbolKind) -> Option<
    Seq<char>,
>
    decreases symbols.len(),
{
    if symbols.len() == 0 {
        None
    } else if symbols[0].name == name && (symbols[0].kind == k1 || symbols[0].kind == k2) {
        Some(symbols[0].id)
    } else {
        symbol_of_kinds(symbols.drop_first(), name, k1, k2)
    }
}

/// The id of the first symbol named `name` of kind `k1` or `k2` (see
/// [`symbol_of_kinds`]).
pub fn find_symbol_of_kinds(symbols: &Vec<Symbol>, name: &str, k1: SymbolKind, k2: SymbolKind) -> (r: Option<
    String,
>)
    ensures
        crate::json::opt_view(r) == symbol_of_kinds(symbols_view(symbols@), name@, k1, k2),
{
    let ghost sv = symbols_view(symbols@);
    let mut i: usize = 0;
    assert(sv.skip(0) =~= sv);
    while i < symbols.len()
        invariant
            i <= symbols@.len(),
            sv == symbols_view(symbols@),
            symbol_of_kinds(sv.skip(i as int), name@, k1, k2) == symbol_of_kinds(sv, name@, k1, k2),
        decreases symbols@.len() - i,
    {
        let ghost rest = sv.skip(i as int);
        assert(rest[0] == symbols@[i as int]@);
        assert(rest.drop_first() =~= sv.skip(i + 1));
        if str_eq(symbols[i].name.as_str(), name) && (symbols[i].kind == k1 || symbols[i].kind == k2) {
            return Some(symbols[i].id.clone());
        }
        i = i + 1;
    }
    assert(sv.skip(i as int) =~= Seq::<SymbolView>::empty());
    None
}

/// One edge per target name, in order, from `source_id` at (`line`,
/// `col`): aimed at the first symbol of that name and `target_kind` when
/// there is one, with `prefix` + the name + `suffix` as context. A target
/// named `skip` gives no edge.
pub open spec fn target_edges(
    targets: Seq<Seq<char>>,
    skip: Option<Seq<char>>,
    source_id: Seq<char>,
    target_kind: SymbolKind,
    edge_kind: EdgeKind,
    prefix: Seq<char>,
    suffix: Seq<char>,
    line: u32,
    col: u32,
    symbols: Seq<SymbolView>,
) -> Seq<EdgeView>
    decreases targets.len(),
{
    if targets.len() == 0 {
        seq![]
    } else {
        let t = targets.last();
        target_edges(
            targets.drop_last(),
            skip,
            source_id,
            target_kind,
            edge_kind,
            prefix,
            suffix,
            line,
            col,
            symbols,
        ) + if skip == Some(t) {
            seq![]
        } else {
            seq![
                EdgeView {
                    source_id,
                    target_id: symbol_named(symbols, t, target_kind),
                    target_name: t,
                    kind: edge_kind,
                    line: Some(line),
                    col: Some(col),
                    context: Some(prefix + t + suffix),
                },
            ]
        }
    }
}

/// Push the edges of [`target_edges`].
pub fn push_target_edges(
    edges: &mut Vec<Edge>,
    targets: &Vec<&str>,
    skip: Option<&str>,
    source_id: &str,
    target_kind: SymbolKind,
    edge_kind: EdgeKind,
    prefix: &str,
    suffix: &str,
    line: u32,
    col: u32,
    symbols: &Vec<Symbol>,
)
    ensures
        final(edges)@.map_values(|e: Edge| e@) == old(edges)@.map_values(|e: Edge| e@) + target_edges(
            targets@.map_values(|t: &str| t@),
            match skip {
                Some(k) => Some(k@),
                None => None,
            },
            source_id@,
            target_kind,
            edge_kind,
            prefix@,
            suffix@,
            line,
            col,
            symbols_view(symbols@),
        ),
{
    let ghost tv = targets@.map_values(|t: &str| t@);
    let ghost kv = match skip {
        Some(k) => Some(k@),
        None => None,
    };
    let ghost sv = symbols_view(symbols@);
    let ghost start = edges@.map_values(|e: Edge| e@);
    let mut i: usize = 0;
    while i < targets.len()
        invariant
            i <= targets@.len(),
            tv == targets@.map_values(|t: &str| t@),
            kv == match skip {
                Some(k) => Some(k@),
                None => None::<Seq<char>>,
            },
            sv == symbols_view(symbols@),
            edges@.map_values(|e: Edge| e@) == start + target_edges(
                tv.take(i as int),
                kv,
                source_id@,
                target_kind,
                edge_kind,
                prefix@,
                suffix@,
                line,
                col,
                sv,
            ),
        decreases targets@.len() - i,
    {
        assert(tv.take(i + 1).drop_last() =~= tv.take(i as int));
        assert(tv.take(i + 1).last() == targets@[i as int]@);
        let t = targets[i];
        let skipped = match skip {
            Some(k) => str_eq(k, t),
            None => false,
        };
        let ghost before = edges@;
        if !skipped {
            let mut context = String::new();
            push_str(&mut context, prefix);
            push_str(&mut context, t);
            push_str(&mut context, suffix);
            let edge = create_inheritance_edge(
                source_id,
                t,
                target_kind,
                edge_kind,
                context,
                line,
                col,
                symbols.as_slice(),
            );
            edges.push(edge);
            assert(edges@.map_values(|e: Edge| e@) =~= before.map_values(|e: Edge| e@).push(
                edges@.last()@,
            ));
        }
        assert(edges@.map_values(|e: Edge| e@) =~= start + target_edges(
            tv.take(i + 1),
            kv,
            source_id@,
            target_kind,
            edge_kind,
            prefix@,
            suffix@,
            line,
            col,
            sv,
        ));
        i = i + 1;
    }
    assert(tv.take(i as int) =~= tv);
}

} // verus!
