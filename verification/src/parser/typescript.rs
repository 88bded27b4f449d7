//! JavaScript and TypeScript dialects, and the inheritance edges of the
//! inheritance query's matches.

use vstd::prelude::*;

use crate::json::opt_view;
use crate::model::{Edge, EdgeKind, EdgeView, Symbol, SymbolKind, SymbolView};
use crate::parser::captures::{
    collect_texts_of, find_last_of, find_symbol_of_kinds, last_of, push_target_edges, symbol_of_kinds,
    target_edges, texts_of, Capture,
};
use crate::parser::solidity::symbols_view;
use crate::parser::rust::pairs_view;
use crate::parser::{block_doc_text, parse_block_doc_comment};
use crate::text::{
    push_str, chars_of, matches_at, occurs_at, slice_range, str_eq, string_from, strip_prefixes,
    strip_prefixes_exec, trim, trim_range,
};

verus! {

/// Variant of JS/TS language being parsed.
#[derive(Debug, Clone, Copy, PartialEq, Eq, Structural)]
pub enum JsVariant {
    JavaScript,
    TypeScript,
    Jsx,
    Tsx,
}

/// The language name of a variant.
pub open spec fn js_variant_text(v: JsVariant) -> Seq<char> {
    match v {
        JsVariant::JavaScript => "javascript"@,
        JsVariant::TypeScript => "typescript"@,
        JsVariant::Jsx => "jsx"@,
        JsVariant::Tsx => "tsx"@,
    }
}

impl JsVariant {
    pub fn as_str(&self) -> (r: &'static str)
        ensures
            r@ == js_variant_text(*self),
    {
        match self {
            JsVariant::JavaScript => "javascript",
            JsVariant::TypeScript => "typescript",
            JsVariant::Jsx => "jsx",
            JsVariant::Tsx => "tsx",
        }
    }
}

/// The JSDoc of a declaration from the siblings before it, given as
/// (kind, text) nearest first: the nearest comment that is a block doc
/// comment (`/**`, cleaned) or a line comment (`//`, without its markers
/// and surrounding whitespace); other comments are passed over, and
/// anything that is not a comment ends the search.
pub open spec fn jsdoc(prev: Seq<(Seq<char>, Seq<char>)>) -> Option<Seq<char>>
    decreases prev.len(),
{
    if prev.len() == 0 {
        None
    } else if prev[0].0 == "comment"@ {
        let text = prev[0].1;
        if occurs_at(text, "/**"@, 0) {
            Some(block_doc_text(text))
        } else if occurs_at(text, "//"@, 0) {
            Some(trim(strip_prefixes(text, "//"@)))
        } else {
            jsdoc(prev.drop_first())
        }
    } else {
        None
    }
}

/// Extract the JSDoc of a declaration from its preceding siblings, nearest
/// first (see [`jsdoc`]).
pub fn extract_jsdoc(prev: &Vec<(String, String)>) -> (r: Option<String>)
    ensures
        opt_view(r) == jsdoc(pairs_view(prev@)),
{
    let ghost pv = pairs_view(prev@);
    let block = vec!['/', '*', '*'];
    let line = vec!['/', '/'];
    proof {
        reveal_strlit("/**");
        reveal_strlit("//");
        assert(block@ =~= "/**"@);
        assert(line@ =~= "//"@);
    }
    let mut i: usize = 0;
    assert(pv.skip(0) =~= pv);
    while i < prev.len()
        invariant
            i <= prev@.len(),
            pv == pairs_view(prev@),
            block@ == "/**"@,
            line@ == "//"@,
            line@.len() == 2,
            jsdoc(pv.skip(i as int)) == jsdoc(pv),
        decreases prev@.len() - i,
    {
        let ghost rest = pv.skip(i as int);
        assert(rest[0] == (prev@[i as int].0@, prev@[i as int].1@));
        assert(rest.drop_first() =~= pv.skip(i + 1));
        if !str_eq(prev[i].0.as_str(), "comment") {
            return None;
        }
        let text = chars_of(prev[i].1.as_str());
        if matches_at(text.as_slice(), block.as_slice(), 0) {
            return Some(parse_block_doc_comment(prev[i].1.as_str()));
        }
        if matches_at(text.as_slice(), line.as_slice(), 0) {
            let rest_chars = strip_prefixes_exec(text.as_slice(), line.as_slice());
            let (a, b) = trim_range(rest_chars.as_slice(), 0, rest_chars.len());
            assert(rest_chars@.subrange(0, rest_chars@.len() as int) =~= rest_chars@);
            let t = slice_range(rest_chars.as_slice(), a, b);
            return Some(string_from(t.as_slice()));
        }
        i = i + 1;
    }
    assert(pv.skip(i as int).len() == 0);
    None
}

/// The id of the first symbol named `name` of kind `kind`.
pub open spec fn symbol_named(symbols: Seq<SymbolView>, name: Seq<char>, kind: SymbolKind) -> Option<
    Seq<char>,
>
    decreases symbols.len(),
{
    if symbols.len() == 0 {
        None
    } else if symbols[0].name == name && symbols[0].kind == kind {
        Some(symbols[0].id)
    } else {
        symbol_named(symbols.drop_first(), name, kind)
    }
}

/// The edge from `source_id` to the type `target_name` it extends or
/// implements, at (`line`, `col`): aimed at the first symbol of that name
/// and kind when there is one.
pub fn create_inheritance_edge(
    source_id: &str,
    target_name: &str,
    target_kind: SymbolKind,
    edge_kind: EdgeKind,
    context: String,
    line: u32,
    col: u32,
    symbols: &[Symbol],
) -> (r: Edge)
    ensures
        r@ == (EdgeView {
            source_id: source_id@,
            target_id: symbol_named(symbols_view(symbols@), target_name@, target_kind),
            target_name: target_name@,
            kind: edge_kind,
            line: Some(line),
            col: Some(col),
            context: Some(context@),
        }),
{
    let ghost sv = symbols_view(symbols@);
    let mut i: usize = 0;
    assert(sv.skip(0) =~= sv);
    while i < symbols.len()
        invariant
            i <= symbols@.len(),
            sv == symbols_view(symbols@),
            symbol_named(sv.skip(i as int), target_name@, target_kind) == symbol_named(
                sv,
                target_name@,
                target_kind,
            ),
        decreases symbols@.len() - i,
    {
        let ghost rest = sv.skip(i as int);
        assert(rest[0] == symbols@[i as int]@);
        assert(rest.drop_first() =~= sv.skip(i + 1));
        if str_eq(symbols[i].name.as_str(), target_name) && symbols[i].kind == target_kind {
            return Edge {
                source_id: source_id.to_string(),
                target_id: Some(symbols[i].id.clone()),
                target_name: target_name.to_string(),
                kind: edge_kind,
                line: Some(line),
                col: Some(col),
                context: Some(context),
            };
        }
        i = i + 1;
    }
    assert(sv.skip(i as int) =~= Seq::<SymbolView>::empty());
    Edge {
        source_id: source_id.to_string(),
        target_id: None,
        target_name: target_name.to_string(),
        kind: edge_kind,
        line: Some(line),
        col: Some(col),
        context: Some(context),
    }
}

/// The edges of one inheritance match. The definition is the last
/// `class.def` or `interface.def` capture, and the edges start there
/// (1-based line). With a `class.name` of an extracted class: an `Extends`
/// edge per `extends.name` (`class N extends E`), then an `Implements`
/// edge per `implements.name` (`class N implements I`). Then, with an
/// `interface.name` of an extracted interface: an `Extends` edge per
/// `interface_extends.name` (`interface N extends E`).
pub open spec fn heritage_match_edges(cs: Seq<Capture>, symbols: Seq<SymbolView>) -> Seq<EdgeView> {
    let def = last_of(cs, "class.def"@, "interface.def"@);
    (match (last_of(cs, "class.name"@, "class.name"@), def) {
        (Some(n), Some(d)) => match symbol_named(symbols, n.text@, SymbolKind::Class) {
            Some(source_id) => target_edges(
                texts_of(cs, "extends.name"@, "extends.name"@),
                None,
                source_id,
                SymbolKind::Class,
                EdgeKind::Extends,
                "class "@ + n.text@ + " extends "@,
                ""@,
                (d.row + 1) as u32,
                d.column,
                symbols,
            ) + target_edges(
                texts_of(cs, "implements.name"@, "implements.name"@),
                None,
                source_id,
                SymbolKind::Interface,
                EdgeKind::Implements,
                "class "@ + n.text@ + " implements "@,
                ""@,
                (d.row + 1) as u32,
                d.column,
                symbols,
            ),
            None => seq![],
        },
        _ => seq![],
    }) + (match (last_of(cs, "interface.name"@, "interface.name"@), def) {
        (Some(n), Some(d)) => match symbol_named(symbols, n.text@, SymbolKind::Interface) {
            Some(source_id) => target_edges(
                texts_of(cs, "interface_extends.name"@, "interface_extends.name"@),
                None,
                source_id,
                SymbolKind::Interface,
                EdgeKind::Extends,
                "interface "@ + n.text@ + " extends "@,
                ""@,
                (d.row + 1) as u32,
                d.column,
                symbols,
            ),
            None => seq![],
        },
        _ => seq![],
    })
}

/// The inheritance edges of inheritance matches, in order.
pub open spec fn heritage_edges_of(matches: Seq<Vec<Capture>>, symbols: Seq<SymbolView>) -> Seq<EdgeView>
    decreases matches.len(),
{
    if matches.len() == 0 {
        seq![]
    } else {
        heritage_edges_of(matches.drop_last(), symbols) + heritage_match_edges(matches.last()@, symbols)
    }
}

/// Whether the line of an inheritance match fits: it is computed when the
/// match captures a definition and a class or interface name.
pub open spec fn heritage_match_readable(cs: Seq<Capture>) -> bool {
    match last_of(cs, "class.def"@, "interface.def"@) {
        Some(d) => (last_of(cs, "class.name"@, "class.name"@) is Some || last_of(
            cs,
            "interface.name"@,
            "interface.name"@,
        ) is Some) ==> d.row < u32::MAX,
        None => true,
    }
}

/// Looking a symbol up by one kind given twice is looking it up by that
/// kind.
pub(crate) proof fn lemma_one_kind(symbols: Seq<SymbolView>, name: Seq<char>, k: SymbolKind)
    ensures
        symbol_of_kinds(symbols, name, k, k) == symbol_named(symbols, name, k),
    decreases symbols.len(),
{
    if symbols.len() > 0 {
        lemma_one_kind(symbols.drop_first(), name, k);
    }
}

/// Push the edges from `source` of the targets captured as `target`,
/// with `lead` + the source's name + `verb` as the context's start.
fn push_heritage(
    edges: &mut Vec<Edge>,
    cs: &Vec<Capture>,
    target: &str,
    source_id: &str,
    name: &str,
    lead: &str,
    verb: &str,
    target_kind: SymbolKind,
    edge_kind: EdgeKind,
    line: u32,
    col: u32,
    symbols: &Vec<Symbol>,
)
    ensures
        final(edges)@.map_values(|e: Edge| e@) == old(edges)@.map_values(|e: Edge| e@) + target_edges(
            texts_of(cs@, target@, target@),
            None,
            source_id@,
            target_kind,
            edge_kind,
            lead@ + name@ + verb@,
            ""@,
            line,
            col,
            symbols_view(symbols@),
        ),
{
    let targets = collect_texts_of(cs, target, target);
    let mut prefix = String::new();
    push_str(&mut prefix, lead);
    push_str(&mut prefix, name);
    push_str(&mut prefix, verb);
    push_target_edges(
        edges,
        &targets,
        None,
        source_id,
        target_kind,
        edge_kind,
        prefix.as_str(),
        "",
        line,
        col,
        symbols,
    );
}

/// Push the inheritance edges of inheritance matches (see
/// [`heritage_edges_of`]) against the extracted `symbols`.
pub fn extract_inheritance_edges(matches: &Vec<Vec<Capture>>, symbols: &Vec<Symbol>, edges: &mut Vec<Edge>)
    requires
        forall|i: int| 0 <= i < matches@.len() ==> heritage_match_readable((#[trigger] matches@[i])@),
    ensures
        final(edges)@.map_values(|e: Edge| e@) == old(edges)@.map_values(|e: Edge| e@)
            + heritage_edges_of(matches@, symbols_view(symbols@)),
{
    let ghost sv = symbols_view(symbols@);
    let ghost start = edges@.map_values(|e: Edge| e@);
    let mut i: usize = 0;
    while i < matches.len()
        invariant
            i <= matches@.len(),
            sv == symbols_view(symbols@),
            forall|k: int| 0 <= k < matches@.len() ==> heritage_match_readable((#[trigger] matches@[k])@),
            edges@.map_values(|e: Edge| e@) == start + heritage_edges_of(matches@.take(i as int), sv),
        decreases matches@.len() - i,
    {
        assert(matches@.take(i + 1).drop_last() =~= matches@.take(i as int));
        assert(heritage_match_readable(matches@[i as int]@));
        let cs = &matches[i];
        let def = find_last_of(cs, "class.def", "interface.def");
        let class_name = find_last_of(cs, "class.name", "class.name");
        let interface_name = find_last_of(cs, "interface.name", "interface.name");
        match (class_name, def) {
            (Some(n), Some(d)) => {
                let line: u32 = d.row + 1;
                proof {
                    lemma_one_kind(sv, n.text@, SymbolKind::Class);
                }
                match find_symbol_of_kinds(symbols, n.text.as_str(), SymbolKind::Class, SymbolKind::Class) {
                    Some(source_id) => {
                        push_heritage(
                            edges,
                            cs,
                            "extends.name",
                            source_id.as_str(),
                            n.text.as_str(),
                            "class ",
                            " extends ",
                            SymbolKind::Class,
                            EdgeKind::Extends,
                            line,
                            d.column,
                            symbols,
                        );
                        push_heritage(
                            edges,
                            cs,
                            "implements.name",
                            source_id.as_str(),
                            n.text.as_str(),
                            "class ",
                            " implements ",
                            SymbolKind::Interface,
                            EdgeKind::Implements,
                            line,
                            d.column,
                            symbols,
                        );
                    },
                    None => {},
                }
            },
            _ => {},
        }
        match (interface_name, def) {
            (Some(n), Some(d)) => {
                let line: u32 = d.row + 1;
                proof {
                    lemma_one_kind(sv, n.text@, SymbolKind::Interface);
                }
                match find_symbol_of_kinds(
                    symbols,
                    n.text.as_str(),
                    SymbolKind::Interface,
                    SymbolKind::Interface,
                ) {
                    Some(source_id) => {
                        push_heritage(
                            edges,
                            cs,
                            "interface_extends.name",
                            source_id.as_str(),
                            n.text.as_str(),
                            "interface ",
                            " extends ",
                            SymbolKind::Interface,
                            EdgeKind::Extends,
                            line,
                            d.column,
                            symbols,
                        );
                    },
                    None => {},
                }
            },
            _ => {},
        }
        assert(edges@.map_values(|e: Edge| e@) =~= start + heritage_edges_of(matches@.take(i + 1), sv));
        i = i + 1;
    }
    assert(matches@.take(i as int) =~= matches@);
}

} // verus!
