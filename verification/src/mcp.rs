//! The text answers of the code-intelligence tools served over MCP: symbol
//! search, definition lookup, references, and the project file tree.
//!
//! The tools query the index and walk the project; what they answer is
//! decided here from the rows they found.

use vstd::prelude::*;

use crate::json::opt_view;
use crate::model::{symbol_kind_text, Edge, EdgeView, Symbol, SymbolView};
use crate::parser::solidity::symbols_view;
use crate::rules::{join, join_strs};
use crate::text::str_eq;
use crate::text::{nat_text, push_chars, push_str, strs, u64_text};

verus! {

fn push_number(out: &mut String, n: u64)
    ensures
        final(out)@ == old(out)@ + nat_text(n as nat),
{
    let digits = u64_text(n);
    push_chars(out, digits.as_slice());
}

/// `"{name} ({kind}) in {file}:{line}"`, the way a symbol is listed.
pub open spec fn listed(s: SymbolView) -> Seq<char> {
    s.name + " ("@ + symbol_kind_text(s.kind) + ") in "@ + s.file_path + ":"@ + nat_text(
        s.line_start as nat,
    )
}

fn push_listed(out: &mut String, s: &Symbol)
    ensures
        final(out)@ == old(out)@ + listed(s@),
{
    push_str(out, s.name.as_str());
    push_str(out, " (");
    push_str(out, s.kind.as_str());
    push_str(out, ") in ");
    push_str(out, s.file_path.as_str());
    push_str(out, ":");
    push_number(out, s.line_start as u64);
}

// ---------------------------------------------------------------------------
// Symbol search
// ---------------------------------------------------------------------------

/// The entry of one search hit: its listing, then its signature and its
/// description when it has them, then a blank line.
pub open spec fn search_entry(s: SymbolView) -> Seq<char> {
    "- "@ + listed(s) + "\n"@ + match s.signature {
        Some(sig) => "  Signature: "@ + sig + "\n"@,
        None => seq![],
    } + match s.brief {
        Some(b) => "  Description: "@ + b + "\n"@,
        None => seq![],
    } + "\n"@
}

/// The entries of search hits, in order.
pub open spec fn search_entries(ss: Seq<SymbolView>) -> Seq<char>
    decreases ss.len(),
{
    if ss.len() == 0 {
        seq![]
    } else {
        search_entries(ss.drop_last()) + search_entry(ss.last())
    }
}

/// The answer to a symbol search for `query` that found `hits`.
pub open spec fn search_answer(query: Seq<char>, hits: Seq<SymbolView>) -> Seq<char> {
    if hits.len() == 0 {
        "No symbols found matching '"@ + query + "'"@
    } else {
        "Found "@ + nat_text(hits.len()) + " symbols matching '"@ + query + "':\n\n"@
            + search_entries(hits)
    }
}

fn push_search_entry(out: &mut String, s: &Symbol)
    ensures
        final(out)@ == old(out)@ + search_entry(s@),
{
    let ghost start = out@;
    push_str(out, "- ");
    push_listed(out, s);
    push_str(out, "\n");
    let ghost a = out@;
    match &s.signature {
        Some(sig) => {
            push_str(out, "  Signature: ");
            push_str(out, sig.as_str());
            push_str(out, "\n");
        },
        None => {},
    }
    let ghost b = out@;
    assert(b == a + match s@.signature {
        Some(sig) => "  Signature: "@ + sig + "\n"@,
        None => seq![],
    });
    match &s.brief {
        Some(d) => {
            push_str(out, "  Description: ");
            push_str(out, d.as_str());
            push_str(out, "\n");
        },
        None => {},
    }
    let ghost c = out@;
    assert(c == b + match s@.brief {
        Some(d) => "  Description: "@ + d + "\n"@,
        None => seq![],
    });
    push_str(out, "\n");
    assert(out@ =~= start + search_entry(s@));
}

/// Answer a symbol search (see [`search_answer`]).
pub fn search_symbols_text(query: &str, hits: &Vec<Symbol>) -> (r: String)
    ensures
        r@ == search_answer(query@, symbols_view(hits@)),
{
    let ghost hv = symbols_view(hits@);
    let mut out = String::new();
    if hits.len() == 0 {
        push_str(&mut out, "No symbols found matching '");
        push_str(&mut out, query);
        push_str(&mut out, "'");
        return out;
    }
    push_str(&mut out, "Found ");
    push_number(&mut out, hits.len() as u64);
    push_str(&mut out, " symbols matching '");
    push_str(&mut out, query);
    push_str(&mut out, "':\n\n");
    let ghost head = out@;
    let mut i: usize = 0;
    while i < hits.len()
        invariant
            i <= hits@.len(),
            hv == symbols_view(hits@),
            out@ == head + search_entries(hv.take(i as int)),
        decreases hits@.len() - i,
    {
        assert(hv.take(i + 1).drop_last() =~= hv.take(i as int));
        let s = &hits[i];
        assert(hv[i as int] == s@);
        push_search_entry(&mut out, s);
        assert(out@ =~= head + search_entries(hv.take(i + 1)));
        i = i + 1;
    }
    assert(hv.take(i as int) =~= hv);
    out
}

// ---------------------------------------------------------------------------
// Definitions
// ---------------------------------------------------------------------------

/// The answer when no symbol is named `symbol`.
pub open spec fn not_found_answer(symbol: Seq<char>) -> Seq<char> {
    "Symbol '"@ + symbol + "' not found"@
}

/// Answer that no symbol is named `symbol`.
pub fn not_found_text(symbol: &str) -> (r: String)
    ensures
        r@ == not_found_answer(symbol@),
{
    let mut out = String::new();
    push_str(&mut out, "Symbol '");
    push_str(&mut out, symbol);
    push_str(&mut out, "' not found");
    out
}

/// One line per symbol: `- ` and its listing.
pub open spec fn listing_lines(ss: Seq<SymbolView>) -> Seq<char>
    decreases ss.len(),
{
    if ss.len() == 0 {
        seq![]
    } else {
        listing_lines(ss.drop_last()) + "- "@ + listed(ss.last()) + "\n"@
    }
}

/// What a definition lookup for `symbol` answers from its hits alone: that
/// nothing was found; or, when several symbols match and no file or kind
/// narrowed the search, the first ten of them and how many more there
/// are. `None` when the first hit's source is to be shown.
pub open spec fn definition_listing(symbol: Seq<char>, filtered: bool, hits: Seq<SymbolView>) -> Option<
    Seq<char>,
> {
    if hits.len() == 0 {
        Some(not_found_answer(symbol))
    } else if hits.len() > 1 && !filtered {
        Some(
            "Found "@ + nat_text(hits.len()) + " symbols named '"@ + symbol
                + "'. Please narrow your search using 'file' or 'kind' parameters:\n\n"@
                + listing_lines(hits.take(if hits.len() < 10 {
                hits.len() as int
            } else {
                10
            })) + if hits.len() > 10 {
                "... and "@ + nat_text((hits.len() - 10) as nat) + " more\n"@
            } else {
                seq![]
            },
        )
    } else {
        None
    }
}

/// Decide a definition lookup from its hits (see [`definition_listing`]);
/// `filtered` tells whether a file or a kind narrowed the search.
pub fn definition_listing_text(symbol: &str, filtered: bool, hits: &Vec<Symbol>) -> (r: Option<String>)
    ensures
        opt_view(r) == definition_listing(symbol@, filtered, symbols_view(hits@)),
{
    let ghost hv = symbols_view(hits@);
    if hits.len() == 0 {
        return Some(not_found_text(symbol));
    }
    if hits.len() <= 1 || filtered {
        return None;
    }
    let mut out = String::new();
    push_str(&mut out, "Found ");
    push_number(&mut out, hits.len() as u64);
    push_str(&mut out, " symbols named '");
    push_str(&mut out, symbol);
    push_str(&mut out, "'. Please narrow your search using 'file' or 'kind' parameters:\n\n");
    let ghost head = out@;
    let shown: usize = if hits.len() < 10 {
        hits.len()
    } else {
        10
    };
    let mut i: usize = 0;
    while i < shown
        invariant
            i <= shown <= hits@.len(),
            hv == symbols_view(hits@),
            out@ == head + listing_lines(hv.take(i as int)),
        decreases shown - i,
    {
        assert(hv.take(i + 1).drop_last() =~= hv.take(i as int));
        assert(hv[i as int] == hits@[i as int]@);
        push_str(&mut out, "- ");
        push_listed(&mut out, &hits[i]);
        push_str(&mut out, "\n");
        assert(out@ =~= head + listing_lines(hv.take(i + 1)));
        i = i + 1;
    }
    let ghost body = out@;
    if hits.len() > 10 {
        push_str(&mut out, "... and ");
        push_number(&mut out, (hits.len() - 10) as u64);
        push_str(&mut out, " more\n");
    }
    assert(out@ =~= definition_listing(symbol@, filtered, hv)->0);
    Some(out)
}

/// The answer showing a symbol's definition: a comment line with its kind
/// and place, its description as a comment when it has one, a blank line
/// and the source; or that its source is not available.
pub open spec fn definition_answer(s: SymbolView, source: Option<Seq<char>>) -> Seq<char> {
    match source {
        Some(src) => "// "@ + s.name + " ("@ + symbol_kind_text(s.kind) + ") - "@ + s.file_path + ":"@
            + nat_text(s.line_start as nat) + "\n"@ + match s.brief {
            Some(b) => "// "@ + b + "\n"@,
            None => seq![],
        } + "\n"@ + src,
        None => "Source code not available for '"@ + s.name + "'"@,
    }
}

/// Show a symbol's definition (see [`definition_answer`]).
pub fn definition_text(s: &Symbol, source: Option<&str>) -> (r: String)
    ensures
        r@ == definition_answer(
            s@,
            match source {
                Some(src) => Some(src@),
                None => None,
            },
        ),
{
    let mut out = String::new();
    match source {
        Some(src) => {
            push_str(&mut out, "// ");
            push_str(&mut out, s.name.as_str());
            push_str(&mut out, " (");
            push_str(&mut out, s.kind.as_str());
            push_str(&mut out, ") - ");
            push_str(&mut out, s.file_path.as_str());
            push_str(&mut out, ":");
            push_number(&mut out, s.line_start as u64);
            push_str(&mut out, "\n");
            let ghost a = out@;
            match &s.brief {
                Some(b) => {
                    push_str(&mut out, "// ");
                    push_str(&mut out, b.as_str());
                    push_str(&mut out, "\n");
                },
                None => {},
            }
            assert(out@ == a + match s@.brief {
                Some(b) => "// "@ + b + "\n"@,
                None => seq![],
            });
            push_str(&mut out, "\n");
            push_str(&mut out, src);
        },
        None => {
            push_str(&mut out, "Source code not available for '");
            push_str(&mut out, s.name.as_str());
            push_str(&mut out, "'");
        },
    }
    out
}

// ---------------------------------------------------------------------------
// References
// ---------------------------------------------------------------------------

/// The line of a reference: the referencing symbol's name and place (the
/// edge's line, else the symbol's first line), and the edge's context when
/// it has one. An edge whose source symbol is gone shows nothing.
pub open spec fn reference_entry(e: EdgeView, source: Option<SymbolView>) -> Seq<char> {
    match source {
        Some(s) => "- "@ + s.name + " ("@ + s.file_path + ":"@ + nat_text(
            match e.line {
                Some(l) => l as nat,
                None => s.line_start as nat,
            },
        ) + ")\n"@ + match e.context {
            Some(c) => "  Context: "@ + c + "\n"@,
            None => seq![],
        },
        None => seq![],
    }
}

/// The abstract values of references: each edge with its source symbol.
pub open spec fn refs_view(v: Seq<(Edge, Option<Symbol>)>) -> Seq<(EdgeView, Option<SymbolView>)> {
    v.map_values(
        |r: (Edge, Option<Symbol>)|
            (
                r.0@,
                match r.1 {
                    Some(s) => Some(s@),
                    None => None,
                },
            ),
    )
}

/// The lines of references, in order.
pub open spec fn reference_entries(rs: Seq<(EdgeView, Option<SymbolView>)>) -> Seq<char>
    decreases rs.len(),
{
    if rs.len() == 0 {
        seq![]
    } else {
        reference_entries(rs.drop_last()) + reference_entry(rs.last().0, rs.last().1)
    }
}

/// The answer listing the references to the symbol `name`: the incoming
/// edges, each with its source symbol if it still exists.
pub open spec fn references_answer(name: Seq<char>, refs: Seq<(EdgeView, Option<SymbolView>)>) -> Seq<
    char,
> {
    if refs.len() == 0 {
        "No references found for '"@ + name + "'"@
    } else {
        "Found "@ + nat_text(refs.len()) + " references to '"@ + name + "':\n\n"@
            + reference_entries(refs)
    }
}

fn push_reference(out: &mut String, e: &Edge, source: &Option<Symbol>)
    ensures
        final(out)@ == old(out)@ + reference_entry(
            e@,
            match *source {
                Some(s) => Some(s@),
                None => None,
            },
        ),
{
    match source {
        Some(s) => {
            let ghost start = out@;
            push_str(out, "- ");
            push_str(out, s.name.as_str());
            push_str(out, " (");
            push_str(out, s.file_path.as_str());
            push_str(out, ":");
            let line: u32 = match e.line {
                Some(l) => l,
                None => s.line_start,
            };
            push_number(out, line as u64);
            push_str(out, ")\n");
            let ghost a = out@;
            match &e.context {
                Some(c) => {
                    push_str(out, "  Context: ");
                    push_str(out, c.as_str());
                    push_str(out, "\n");
                },
                None => {},
            }
            assert(out@ == a + match e@.context {
                Some(c) => "  Context: "@ + c + "\n"@,
                None => seq![],
            });
        },
        None => {},
    }
}

/// List the references to `name` (see [`references_answer`]).
pub fn references_text(name: &str, refs: &Vec<(Edge, Option<Symbol>)>) -> (r: String)
    ensures
        r@ == references_answer(name@, refs_view(refs@)),
{
    let ghost rv = refs_view(refs@);
    let mut out = String::new();
    if refs.len() == 0 {
        push_str(&mut out, "No references found for '");
        push_str(&mut out, name);
        push_str(&mut out, "'");
        return out;
    }
    push_str(&mut out, "Found ");
    push_number(&mut out, refs.len() as u64);
    push_str(&mut out, " references to '");
    push_str(&mut out, name);
    push_str(&mut out, "':\n\n");
    let ghost head = out@;
    let mut i: usize = 0;
    while i < refs.len()
        invariant
            i <= refs@.len(),
            rv == refs_view(refs@),
            out@ == head + reference_entries(rv.take(i as int)),
        decreases refs@.len() - i,
    {
        assert(rv.take(i + 1).drop_last() =~= rv.take(i as int));
        push_reference(&mut out, &refs[i].0, &refs[i].1);
        assert(out@ =~= head + reference_entries(rv.take(i + 1)));
        i = i + 1;
    }
    assert(rv.take(i as int) =~= rv);
    out
}

// ---------------------------------------------------------------------------
// File tree
// ---------------------------------------------------------------------------

/// The directory of a relative path, given by its components: all but the
/// last, joined with `/`.
pub open spec fn parent_text(c: Seq<Seq<char>>) -> Seq<char> {
    if c.len() == 0 {
        seq![]
    } else {
        join(c.drop_last(), "/"@)
    }
}

/// The file name of a relative path: its last component.
pub open spec fn file_name_text(c: Seq<Seq<char>>) -> Seq<char> {
    if c.len() == 0 {
        seq![]
    } else {
        c.last()
    }
}

/// The line of a file in the tree, after a file whose directory is `prev`:
/// a heading for its directory when that changes (and is not the root),
/// then its name, indented.
pub open spec fn tree_entry(c: Seq<Seq<char>>, prev: Seq<char>) -> Seq<char> {
    (if parent_text(c) != prev && parent_text(c).len() > 0 {
        "\n"@ + parent_text(c) + ":\n"@
    } else {
        seq![]
    }) + "  "@ + file_name_text(c) + "\n"@
}

/// The lines of files in the tree, in order, starting at the root.
pub open spec fn tree_lines(es: Seq<Seq<Seq<char>>>) -> Seq<char>
    decreases es.len(),
{
    if es.len() == 0 {
        seq![]
    } else {
        let prev = if es.len() > 1 {
            parent_text(es[es.len() - 2])
        } else {
            seq![]
        };
        tree_lines(es.drop_last()) + tree_entry(es.last(), prev)
    }
}

/// The files at most `depth` components deep, in order.
pub open spec fn within_depth(es: Seq<Seq<Seq<char>>>, depth: u32) -> Seq<Seq<Seq<char>>>
    decreases es.len(),
{
    if es.len() == 0 {
        seq![]
    } else {
        within_depth(es.drop_last(), depth) + if es.last().len() <= depth {
            seq![es.last()]
        } else {
            seq![]
        }
    }
}

/// The project file tree answer for the files found (each given by its
/// relative path's components), keeping only those at most `depth` deep
/// when a depth is given.
pub open spec fn file_tree_answer(es: Seq<Seq<Seq<char>>>, depth: Option<u32>) -> Seq<char> {
    if es.len() == 0 {
        "No files found matching the criteria"@
    } else {
        let kept = match depth {
            Some(d) => within_depth(es, d),
            None => es,
        };
        "Project files ("@ + nat_text(kept.len()) + " found):\n\n"@ + tree_lines(kept)
    }
}

/// The abstract value of files given by path components.
pub open spec fn entries_view(v: Seq<Vec<String>>) -> Seq<Seq<Seq<char>>> {
    v.map_values(|e: Vec<String>| strs(e@))
}

fn parent_of(c: &Vec<String>) -> (r: String)
    ensures
        r@ == parent_text(strs(c@)),
{
    if c.len() == 0 {
        return String::new();
    }
    let mut parts: Vec<&str> = Vec::new();
    let mut i: usize = 0;
    let last: usize = c.len() - 1;
    while i < last
        invariant
            last == c@.len() - 1,
            i <= last,
            parts@.map_values(|p: &str| p@) == strs(c@).take(i as int),
        decreases last - i,
    {
        let ghost before = parts@;
        parts.push(c[i].as_str());
        assert(strs(c@)[i as int] == c@[i as int]@);
        assert(parts@.map_values(|p: &str| p@) =~= before.map_values(|p: &str| p@).push(c@[i as int]@));
        assert(strs(c@).take(i + 1) =~= strs(c@).take(i as int).push(strs(c@)[i as int]));
        i = i + 1;
    }
    assert(strs(c@).take(i as int) =~= strs(c@).drop_last());
    join_strs(&parts, "/")
}

/// Answer the project file tree request (see [`file_tree_answer`]).
pub fn file_tree_text(entries: &Vec<Vec<String>>, depth: Option<u32>) -> (r: String)
    ensures
        r@ == file_tree_answer(entries_view(entries@), depth),
{
    let ghost ev = entries_view(entries@);
    let mut out = String::new();
    if entries.len() == 0 {
        push_str(&mut out, "No files found matching the criteria");
        return out;
    }
    let mut kept: Vec<&Vec<String>> = Vec::new();
    let mut i: usize = 0;
    while i < entries.len()
        invariant
            i <= entries@.len(),
            ev == entries_view(entries@),
            kept@.map_values(|e: &Vec<String>| strs(e@)) == match depth {
                Some(d) => within_depth(ev.take(i as int), d),
                None => ev.take(i as int),
            },
        decreases entries@.len() - i,
    {
        assert(ev.take(i + 1).drop_last() =~= ev.take(i as int));
        assert(ev[i as int] == strs(entries@[i as int]@));
        let ghost before = kept@;
        let keep = match depth {
            Some(d) => (entries[i].len() as u64) <= (d as u64),
            None => true,
        };
        if keep {
            kept.push(&entries[i]);
            assert(kept@.map_values(|e: &Vec<String>| strs(e@)) =~= before.map_values(
                |e: &Vec<String>| strs(e@),
            ).push(ev[i as int]));
        } else {
            assert(kept@ == before);
        }
        assert(ev.take(i + 1) =~= ev.take(i as int).push(ev[i as int]));
        i = i + 1;
    }
    assert(ev.take(i as int) =~= ev);
    let ghost kv = kept@.map_values(|e: &Vec<String>| strs(e@));
    push_str(&mut out, "Project files (");
    push_number(&mut out, kept.len() as u64);
    push_str(&mut out, " found):\n\n");
    let ghost head = out@;
    let mut current = String::new();
    let mut k: usize = 0;
    while k < kept.len()
        invariant
            k <= kept@.len(),
            kv == kept@.map_values(|e: &Vec<String>| strs(e@)),
            out@ == head + tree_lines(kv.take(k as int)),
            current@ == if k > 0 {
                parent_text(kv[k - 1])
            } else {
                seq![]
            },
        decreases kept@.len() - k,
    {
        assert(kv.take(k + 1).drop_last() =~= kv.take(k as int));
        let e = kept[k];
        assert(kv[k as int] == strs(e@));
        if k > 0 {
            assert(kv.take(k + 1)[k - 1] == kv[k - 1]);
        }
        let parent = parent_of(e);
        if !str_eq(parent.as_str(), current.as_str()) && !parent.as_str().is_empty() {
            push_str(&mut out, "\n");
            push_str(&mut out, parent.as_str());
            push_str(&mut out, ":\n");
        }
        push_str(&mut out, "  ");
        if e.len() > 0 {
            push_str(&mut out, e[e.len() - 1].as_str());
            assert(strs(e@).last() == e@[e@.len() - 1]@);
        }
        push_str(&mut out, "\n");
        assert(out@ =~= head + tree_lines(kv.take(k + 1)));
        current = parent;
        k = k + 1;
    }
    assert(kv.take(k as int) =~= kv);
    out
}

} // verus!
