//! Rust-specific text helpers, and the trait implementation edges of the
//! impl query's matches.

use vstd::prelude::*;

use crate::model::{Edge, EdgeKind, EdgeView, ImportInfo, Symbol, SymbolKind, SymbolView};
use crate::parser::captures::{find_last_of, find_symbol_of_kinds, last_of, symbol_of_kinds, Capture};
use crate::parser::solidity::symbols_view;
use crate::parser::typescript::{create_inheritance_edge, symbol_named};
use crate::json::opt_view;
use crate::text::{matches_at, push_str, str_eq};
use crate::text::{
    chars_of, chars_eq, find_char_from, index_of, lemma_index_of, occurs_at, pieces_view,
    rfind_sub, rfind_sub_exec, slice_range, split_char, split_exec, string_from, strip_prefixes,
    strip_prefixes_exec, strip_suffixes, strip_suffixes_exec, trim, trim_range, trim_str, strs,
};

verus! {

/// `s` without leading and trailing braces (`{` or `}`).
pub open spec fn trim_braces_start(s: Seq<char>) -> Seq<char>
    decreases s.len(),
{
    if s.len() > 0 && (s[0] == '{' || s[0] == '}') {
        trim_braces_start(s.skip(1))
    } else {
        s
    }
}

/// `s` without trailing braces.
pub open spec fn trim_braces_end(s: Seq<char>) -> Seq<char>
    decreases s.len(),
{
    if s.len() > 0 && (s.last() == '{' || s.last() == '}') {
        trim_braces_end(s.drop_last())
    } else {
        s
    }
}

/// The non-empty trimmed items of a comma-separated list.
pub open spec fn list_items(parts: Seq<Seq<char>>) -> Seq<Seq<char>>
    decreases parts.len(),
{
    if parts.len() == 0 {
        seq![]
    } else {
        let prev = list_items(parts.drop_last());
        let t = trim(parts.last());
        if t.len() == 0 {
            prev
        } else {
            prev.push(t)
        }
    }
}

/// The import a `use` path describes, as (from, names, alias): aliased
/// (`a::b as c`), grouped (`a::{b, c}`), glob (`a::*`) or simple (`a::b`).
pub open spec fn use_path_import(path: Seq<char>) -> (Seq<char>, Seq<Seq<char>>, Option<Seq<char>>) {
    let p = trim(path);
    let a = rfind_sub(p, " as "@);
    if a >= 0 {
        let alias = trim(strip_prefixes(p.skip(a), " as "@));
        (trim(p.take(a)), seq![alias], Some(alias))
    } else if index_of(p, '{') >= 0 {
        let i = index_of(p, '{');
        let base = trim(strip_suffixes(p.take(i), seq![':']));
        let names = list_items(split_char(trim_braces_end(trim_braces_start(p.skip(i))), ','));
        (base, names, None)
    } else if p.len() >= 3 && p.skip(p.len() - 3) == "::*"@ {
        (strip_suffixes(p, "::*"@), seq!["*"@], None)
    } else if rfind_sub(p, "::"@) >= 0 {
        let j = rfind_sub(p, "::"@);
        (p.take(j), seq![p.skip(j + 2)], None)
    } else {
        (p, seq![], None)
    }
}

/// The abstract value of an import.
pub open spec fn import_view(i: ImportInfo) -> (Seq<char>, Seq<Seq<char>>, Option<Seq<char>>) {
    (
        i.from@,
        strs(i.names@),
        match i.alias {
            Some(a) => Some(a@),
            None => None,
        },
    )
}

/// Parse a `use` path into an import.
pub fn parse_use_path(path: &str) -> (r: ImportInfo)
    ensures
        import_view(r) == use_path_import(path@),
{
    let t = trim_str(path);
    let p = chars_of(t.as_str());
    let as_pat = vec![' ', 'a', 's', ' '];
    let colons = vec![':', ':'];
    let glob = vec![':', ':', '*'];
    proof {
        reveal_strlit(" as ");
        reveal_strlit("::");
        reveal_strlit("::*");
        reveal_strlit("*");
        assert(as_pat@ =~= " as "@);
        assert(colons@ =~= "::"@);
        assert(glob@ =~= "::*"@);
    }
    if let Some(a) = rfind_sub_exec(p.as_slice(), as_pat.as_slice()) {
        let head = slice_range(p.as_slice(), 0, a);
        let tail = slice_range(p.as_slice(), a, p.len());
        assert(head@ =~= p@.take(a as int));
        assert(tail@ =~= p@.skip(a as int));
        let stripped = strip_prefixes_exec(tail.as_slice(), as_pat.as_slice());
        let alias = trim_str(string_from(stripped.as_slice()).as_str());
        let from = trim_str(string_from(head.as_slice()).as_str());
        let mut names: Vec<String> = Vec::new();
        names.push(alias.clone());
        assert(strs(names@) =~= seq![alias@]);
        return ImportInfo { from, names, alias: Some(alias) };
    }
    assert(p@.skip(0) =~= p@);
    if let Some(i) = find_char_from(p.as_slice(), '{', 0) {
        let head = slice_range(p.as_slice(), 0, i);
        assert(head@ =~= p@.take(i as int));
        let colon = vec![':'];
        assert(colon@ =~= seq![':']);
        let base_chars = strip_suffixes_exec(head.as_slice(), colon.as_slice());
        let base = trim_str(string_from(base_chars.as_slice()).as_str());
        let mut s = i;
        while s < p.len() && (p[s] == '{' || p[s] == '}')
            invariant
                i <= s <= p@.len(),
                trim_braces_start(p@.skip(i as int)) == trim_braces_start(p@.skip(s as int)),
            decreases p@.len() - s,
        {
            assert(p@.skip(s as int).skip(1) =~= p@.skip(s + 1));
            s = s + 1;
        }
        let mut e = p.len();
        assert(p@.skip(s as int) =~= p@.subrange(s as int, e as int));
        while e > s && (p[e - 1] == '{' || p[e - 1] == '}')
            invariant
                s <= e <= p@.len(),
                trim_braces_end(trim_braces_start(p@.skip(i as int))) == trim_braces_end(
                    p@.subrange(s as int, e as int),
                ),
            decreases e,
        {
            assert(p@.subrange(s as int, e as int).drop_last() =~= p@.subrange(s as int, e - 1));
            e = e - 1;
        }
        let inner = slice_range(p.as_slice(), s, e);
        let parts = split_exec(inner.as_slice(), ',');
        let ghost ps = pieces_view(parts@);
        let mut names: Vec<String> = Vec::new();
        let mut k: usize = 0;
        while k < parts.len()
            invariant
                ps == pieces_view(parts@),
                k <= ps.len(),
                strs(names@) == list_items(ps.take(k as int)),
            decreases ps.len() - k,
        {
            assert(ps.take(k + 1).drop_last() =~= ps.take(k as int));
            assert(ps[k as int] == parts@[k as int]@);
            let item = trim_str(string_from(parts[k].as_slice()).as_str());
            if !item.as_str().is_empty() {
                let ghost before = strs(names@);
                let ghost iv = item@;
                names.push(item);
                assert(strs(names@) =~= before.push(iv));
            }
            k = k + 1;
        }
        assert(ps.take(k as int) =~= ps);
        return ImportInfo { from: base, names, alias: None };
    }
    if p.len() >= 3 && p[p.len() - 3] == ':' && p[p.len() - 2] == ':' && p[p.len() - 1] == '*' {
        assert(p@.skip(p@.len() - 3) =~= "::*"@);
        let base = strip_suffixes_exec(p.as_slice(), glob.as_slice());
        let mut names: Vec<String> = Vec::new();
        names.push("*".to_string());
        assert(strs(names@) =~= seq!["*"@]);
        return ImportInfo { from: string_from(base.as_slice()), names, alias: None };
    }
    proof {
        if p@.len() >= 3 {
            if p@.skip(p@.len() - 3) == "::*"@ {
                assert(p@.skip(p@.len() - 3)[0] == ':');
                assert(p@.skip(p@.len() - 3)[2] == '*');
            }
        }
    }
    match rfind_sub_exec(p.as_slice(), colons.as_slice()) {
        Some(j) => {
            let from = slice_range(p.as_slice(), 0, j);
            let last = slice_range(p.as_slice(), j + 2, p.len());
            assert(from@ =~= p@.take(j as int));
            assert(last@ =~= p@.skip(j + 2));
            let mut names: Vec<String> = Vec::new();
            let l = string_from(last.as_slice());
            names.push(l);
            assert(strs(names@) =~= seq![last@]);
            ImportInfo { from: string_from(from.as_slice()), names, alias: None }
        },
        None => {
            let names: Vec<String> = Vec::new();
            assert(strs(names@) =~= Seq::<Seq<char>>::empty());
            ImportInfo { from: string_from(p.as_slice()), names, alias: None }
        },
    }
}

/// The doc comment lines read from the siblings before a declaration,
/// given as (kind, text) nearest first: doc line comments (`///`, `//!`)
/// are read, without their markers, and the walk goes on; a doc block
/// comment (`/**`, `/*!`) is read and ends it; anything else ends it.
pub open spec fn rust_doc_lines(prev: Seq<(Seq<char>, Seq<char>)>) -> Seq<Seq<char>>
    decreases prev.len(),
{
    if prev.len() == 0 {
        seq![]
    } else {
        let kind = prev[0].0;
        let text = prev[0].1;
        if kind == "line_comment"@ {
            if occurs_at(text, "///"@, 0) || occurs_at(text, "//!"@, 0) {
                seq![trim(strip_prefixes(strip_prefixes(text, "///"@), "//!"@))] + rust_doc_lines(
                    prev.drop_first(),
                )
            } else {
                seq![]
            }
        } else if kind == "block_comment"@ {
            if occurs_at(text, "/**"@, 0) || occurs_at(text, "/*!"@, 0) {
                seq![crate::parser::block_doc_text(text)]
            } else {
                seq![]
            }
        } else {
            seq![]
        }
    }
}

/// The doc comment of a declaration: the lines read (see
/// [`rust_doc_lines`]) in source order, joined by newlines; none without
/// any.
pub open spec fn rust_doc(prev: Seq<(Seq<char>, Seq<char>)>) -> Option<Seq<char>> {
    let ls = rust_doc_lines(prev);
    if ls.len() == 0 {
        None
    } else {
        Some(crate::rules::join(ls.reverse(), "\n"@))
    }
}

/// The abstract value of (kind, text) pairs.
pub open spec fn pairs_view(v: Seq<(String, String)>) -> Seq<(Seq<char>, Seq<char>)> {
    v.map_values(|p: (String, String)| (p.0@, p.1@))
}

fn marker(c0: char, c1: char, c2: char) -> (r: Vec<char>)
    ensures
        r@ == seq![c0, c1, c2],
{
    let mut v: Vec<char> = Vec::new();
    v.push(c0);
    v.push(c1);
    v.push(c2);
    assert(v@ =~= seq![c0, c1, c2]);
    v
}

/// Extract the doc comment of a declaration from its preceding siblings,
/// nearest first (see [`rust_doc`]).
pub fn extract_docstring(prev: &Vec<(String, String)>) -> (r: Option<String>)
    ensures
        opt_view(r) == rust_doc(pairs_view(prev@)),
{
    let ghost pv = pairs_view(prev@);
    let line3 = marker('/', '/', '/');
    let bang = marker('/', '/', '!');
    let block = marker('/', '*', '*');
    let block_bang = marker('/', '*', '!');
    proof {
        reveal_strlit("///");
        reveal_strlit("//!");
        reveal_strlit("/**");
        reveal_strlit("/*!");
        assert(line3@ =~= "///"@);
        assert(bang@ =~= "//!"@);
        assert(block@ =~= "/**"@);
        assert(block_bang@ =~= "/*!"@);
    }
    let mut lines: Vec<String> = Vec::new();
    let mut done = false;
    let mut i: usize = 0;
    assert(pv.skip(0) =~= pv);
    assert(strs(lines@) + rust_doc_lines(pv) =~= rust_doc_lines(pv));
    while i < prev.len() && !done
        invariant
            i <= prev@.len(),
            pv == pairs_view(prev@),
            line3@.len() == 3,
            bang@.len() == 3,
            line3@ == "///"@,
            bang@ == "//!"@,
            block@ == "/**"@,
            block_bang@ == "/*!"@,
            strs(lines@) + (if done {
                seq![]
            } else {
                rust_doc_lines(pv.skip(i as int))
            }) == rust_doc_lines(pv),
        decreases prev@.len() - i, if done { 0int } else { 1int },
    {
        let ghost rest = pv.skip(i as int);
        assert(rest[0] == (prev@[i as int].0@, prev@[i as int].1@));
        assert(rest.drop_first() =~= pv.skip(i + 1));
        let ghost before = lines@;
        let kind = prev[i].0.as_str();
        let text = chars_of(prev[i].1.as_str());
        if str_eq(kind, "line_comment") {
            if matches_at(text.as_slice(), line3.as_slice(), 0) || matches_at(text.as_slice(), bang.as_slice(), 0) {
                let a = strip_prefixes_exec(text.as_slice(), line3.as_slice());
                let b = strip_prefixes_exec(a.as_slice(), bang.as_slice());
                let (x, y) = trim_range(b.as_slice(), 0, b.len());
                assert(b@.subrange(0, b@.len() as int) =~= b@);
                let t = slice_range(b.as_slice(), x, y);
                lines.push(string_from(t.as_slice()));
                assert(strs(lines@) =~= strs(before).push(lines@.last()@));
                i = i + 1;
            } else {
                done = true;
            }
        } else if str_eq(kind, "block_comment") {
            if matches_at(text.as_slice(), block.as_slice(), 0) || matches_at(text.as_slice(), block_bang.as_slice(), 0) {
                lines.push(crate::parser::parse_block_doc_comment(prev[i].1.as_str()));
                assert(strs(lines@) =~= strs(before).push(lines@.last()@));
            }
            done = true;
        } else {
            done = true;
        }
    }
    proof {
        if !done {
            assert(pv.skip(i as int).len() == 0);
        }
    }
    assert(strs(lines@) =~= rust_doc_lines(pv));
    if lines.len() == 0 {
        return None;
    }
    let ghost ls = strs(lines@);
    let mut rev: Vec<&str> = Vec::new();
    let mut k: usize = lines.len();
    while k > 0
        invariant
            k <= lines@.len(),
            ls == strs(lines@),
            rev@.map_values(|p: &str| p@) == ls.reverse().take(lines@.len() - k),
        decreases k,
    {
        k = k - 1;
        let ghost b = rev@;
        rev.push(lines[k].as_str());
        proof {
            let n = lines@.len() as int;
            assert(ls.reverse()[n - 1 - k] == ls[k as int]);
            assert(ls[k as int] == lines@[k as int]@);
            assert(rev@.map_values(|p: &str| p@) =~= b.map_values(|p: &str| p@).push(ls[k as int]));
            assert(ls.reverse().take(n - k) =~= ls.reverse().take(n - 1 - k).push(ls.reverse()[n - 1 - k]));
        }
    }
    assert(ls.reverse().take(lines@.len() as int) =~= ls.reverse());
    Some(crate::rules::join_strs(&rev, "\n"))
}

/// The edge of one impl match: from the first struct or enum named by the
/// last `type.name` capture to the trait of the last `trait.name` capture
/// (aimed at the first trait of that name when there is one), at the start
/// of the last `impl.def` capture (1-based line), with `impl T for Ty` as
/// context. None when a capture is missing or no struct or enum has the
/// type's name.
pub open spec fn impl_match_edge(cs: Seq<Capture>, symbols: Seq<SymbolView>) -> Seq<EdgeView> {
    match (
        last_of(cs, "trait.name"@, "trait.name"@),
        last_of(cs, "type.name"@, "type.name"@),
        last_of(cs, "impl.def"@, "impl.def"@),
    ) {
        (Some(t), Some(ty), Some(d)) => match symbol_of_kinds(
            symbols,
            ty.text@,
            SymbolKind::Struct,
            SymbolKind::Enum,
        ) {
            Some(source_id) => seq![
                EdgeView {
                    source_id,
                    target_id: symbol_named(symbols, t.text@, SymbolKind::Trait),
                    target_name: t.text@,
                    kind: EdgeKind::Implements,
                    line: Some((d.row + 1) as u32),
                    col: Some(d.column),
                    context: Some("impl "@ + t.text@ + " for "@ + ty.text@),
                },
            ],
            None => seq![],
        },
        _ => seq![],
    }
}

/// The trait implementation edges of impl matches, in order.
pub open spec fn impl_edges_of(matches: Seq<Vec<Capture>>, symbols: Seq<SymbolView>) -> Seq<EdgeView>
    decreases matches.len(),
{
    if matches.len() == 0 {
        seq![]
    } else {
        impl_edges_of(matches.drop_last(), symbols) + impl_match_edge(matches.last()@, symbols)
    }
}

/// Whether the line of an impl match fits: it is computed when the match
/// has all three captures.
pub open spec fn impl_match_readable(cs: Seq<Capture>) -> bool {
    match (
        last_of(cs, "trait.name"@, "trait.name"@),
        last_of(cs, "type.name"@, "type.name"@),
        last_of(cs, "impl.def"@, "impl.def"@),
    ) {
        (Some(_), Some(_), Some(d)) => d.row < u32::MAX,
        _ => true,
    }
}

/// Push the trait implementation edges of impl matches (see
/// [`impl_edges_of`]) against the extracted `symbols`.
pub fn extract_impl_edges(matches: &Vec<Vec<Capture>>, symbols: &Vec<Symbol>, edges: &mut Vec<Edge>)
    requires
        forall|i: int| 0 <= i < matches@.len() ==> impl_match_readable((#[trigger] matches@[i])@),
    ensures
        final(edges)@.map_values(|e: Edge| e@) == old(edges)@.map_values(|e: Edge| e@)
            + impl_edges_of(matches@, symbols_view(symbols@)),
{
    let ghost sv = symbols_view(symbols@);
    let ghost start = edges@.map_values(|e: Edge| e@);
    let mut i: usize = 0;
    while i < matches.len()
        invariant
            i <= matches@.len(),
            sv == symbols_view(symbols@),
            forall|k: int| 0 <= k < matches@.len() ==> impl_match_readable((#[trigger] matches@[k])@),
            edges@.map_values(|e: Edge| e@) == start + impl_edges_of(matches@.take(i as int), sv),
        decreases matches@.len() - i,
    {
        assert(matches@.take(i + 1).drop_last() =~= matches@.take(i as int));
        assert(impl_match_readable(matches@[i as int]@));
        let cs = &matches[i];
        let ghost before = edges@;
        let t = find_last_of(cs, "trait.name", "trait.name");
        let ty = find_last_of(cs, "type.name", "type.name");
        let d = find_last_of(cs, "impl.def", "impl.def");
        match (t, ty, d) {
            (Some(t), Some(ty), Some(d)) => {
                let line: u32 = d.row + 1;
                match find_symbol_of_kinds(symbols, ty.text.as_str(), SymbolKind::Struct, SymbolKind::Enum) {
                    Some(source_id) => {
                        let mut context = String::new();
                        push_str(&mut context, "impl ");
                        push_str(&mut context, t.text.as_str());
                        push_str(&mut context, " for ");
                        push_str(&mut context, ty.text.as_str());
                        let edge = create_inheritance_edge(
                            source_id.as_str(),
                            t.text.as_str(),
                            SymbolKind::Trait,
                            EdgeKind::Implements,
                            context,
                            line,
                            d.column,
                            symbols.as_slice(),
                        );
                        edges.push(edge);
                        assert(edges@.map_values(|e: Edge| e@) =~= before.map_values(|e: Edge| e@).push(
                            edges@.last()@,
                        ));
                    },
                    None => {},
                }
            },
            _ => {},
        }
        assert(edges@.map_values(|e: Edge| e@) =~= start + impl_edges_of(matches@.take(i + 1), sv));
        i = i + 1;
    }
    assert(matches@.take(i as int) =~= matches@);
}

} // verus!
