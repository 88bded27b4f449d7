//! Go declarations as the symbol query captures them: signatures, doc
//! comments and import edges.
//!
//! A query match reaches these functions as its captures, each a capture
//! name with the source text it covers, in match order.

use vstd::prelude::*;

use crate::json::opt_view;
use crate::parser::captures::Capture;
use crate::model::{Edge, EdgeKind, EdgeView, SymbolKind};
use crate::rules::{join, join_strs};
use crate::text::{
    chars_of, push_str, slice_range, str_eq, string_from, strip_prefixes,
    strip_prefixes_exec, strip_suffixes, strip_suffixes_exec, trim, trim_range,
};

verus! {

/// The abstract value of captures: (capture name, text) pairs.
pub open spec fn captures_view(v: Seq<Capture>) -> Seq<(Seq<char>, Seq<char>)> {
    v.map_values(|c: Capture| (c.name@, c.text@))
}

/// Whether `s` ends with `t`.
pub open spec fn ends_with(s: Seq<char>, t: Seq<char>) -> bool {
    t.len() <= s.len() && s.skip(s.len() - t.len()) == t
}

/// The text of the last capture whose name ends with `suffix`.
pub open spec fn last_suffixed(cs: Seq<(Seq<char>, Seq<char>)>, suffix: Seq<char>) -> Option<Seq<char>>
    decreases cs.len(),
{
    if cs.len() == 0 {
        None
    } else if ends_with(cs.last().0, suffix) {
        Some(cs.last().1)
    } else {
        last_suffixed(cs.drop_last(), suffix)
    }
}

/// The text of the last capture named `name`.
pub open spec fn last_named(cs: Seq<(Seq<char>, Seq<char>)>, name: Seq<char>) -> Option<Seq<char>>
    decreases cs.len(),
{
    if cs.len() == 0 {
        None
    } else if cs.last().0 == name {
        Some(cs.last().1)
    } else {
        last_named(cs.drop_last(), name)
    }
}

/// The text of the first capture named `name`.
pub open spec fn first_named(cs: Seq<(Seq<char>, Seq<char>)>, name: Seq<char>) -> Option<Seq<char>>
    decreases cs.len(),
{
    if cs.len() == 0 {
        None
    } else if cs[0].0 == name {
        Some(cs[0].1)
    } else {
        first_named(cs.drop_first(), name)
    }
}

/// `prefix` + the first text captured as `name` + `suffix`.
pub open spec fn named_signature(
    cs: Seq<(Seq<char>, Seq<char>)>,
    name: Seq<char>,
    prefix: Seq<char>,
    suffix: Seq<char>,
) -> Option<Seq<char>> {
    match first_named(cs, name) {
        Some(n) => Some(prefix + n + suffix),
        None => None,
    }
}

/// The signature of a Go declaration of `kind` from its match's captures:
/// `func [(receiver) ]name(params)[ result]` for functions and methods
/// (`()` without parameters), `type N struct`, `type N interface`,
/// `type N`, `const N` and `var N` for the others, none for other kinds or
/// when the name is missing.
pub open spec fn go_signature(kind: SymbolKind, cs: Seq<(Seq<char>, Seq<char>)>) -> Option<Seq<char>> {
    match kind {
        SymbolKind::Function | SymbolKind::Method => Some(
            "func "@ + match last_named(cs, "method.receiver_type"@) {
                Some(r) => "("@ + r + ") "@,
                None => seq![],
            } + match last_suffixed(cs, ".name"@) {
                Some(n) => n,
                None => seq![],
            } + match last_suffixed(cs, ".params"@) {
                Some(p) => p,
                None => "()"@,
            } + match last_suffixed(cs, ".return"@) {
                Some(t) => " "@ + t,
                None => seq![],
            },
        ),
        SymbolKind::Struct => named_signature(cs, "struct.name"@, "type "@, " struct"@),
        SymbolKind::Interface => named_signature(cs, "interface.name"@, "type "@, " interface"@),
        SymbolKind::Type => named_signature(cs, "type.name"@, "type "@, ""@),
        SymbolKind::Const => named_signature(cs, "const.name"@, "const "@, ""@),
        SymbolKind::Variable => named_signature(cs, "var.name"@, "var "@, ""@),
        _ => None,
    }
}

fn ends_with_exec(s: &str, t: &str) -> (r: bool)
    ensures
        r == ends_with(s@, t@),
{
    let a = chars_of(s);
    let b = chars_of(t);
    if b.len() > a.len() {
        return false;
    }
    let off: usize = a.len() - b.len();
    let mut j: usize = off;
    while j < a.len()
        invariant
            a@ == s@,
            b@ == t@,
            off == a@.len() - b@.len(),
            off <= j <= a@.len(),
            forall|k: int| 0 <= k < j - off ==> a@[off + k] == b@[k],
        decreases a@.len() - j,
    {
        if a[j] != b[j - off] {
            assert(s@.skip(off as int)[j - off] != t@[j - off]);
            return false;
        }
        j = j + 1;
    }
    assert(s@.skip(off as int) =~= t@);
    true
}

/// The last capture text whose name ends with `suffix` (see
/// [`last_suffixed`]).
fn find_last_suffixed<'a>(cs: &'a Vec<Capture>, suffix: &str) -> (r: Option<&'a String>)
    ensures
        match r {
            Some(t) => last_suffixed(captures_view(cs@), suffix@) == Some(t@),
            None => last_suffixed(captures_view(cs@), suffix@) is None,
        },
{
    let ghost cv = captures_view(cs@);
    let mut found: Option<&String> = None;
    let mut i: usize = 0;
    while i < cs.len()
        invariant
            i <= cs@.len(),
            cv == captures_view(cs@),
            match found {
                Some(t) => last_suffixed(cv.take(i as int), suffix@) == Some(t@),
                None => last_suffixed(cv.take(i as int), suffix@) is None,
            },
        decreases cs@.len() - i,
    {
        assert(cv.take(i + 1).drop_last() =~= cv.take(i as int));
        assert(cv[i as int] == (cs@[i as int].name@, cs@[i as int].text@));
        if ends_with_exec(cs[i].name.as_str(), suffix) {
            found = Some(&cs[i].text);
        }
        i = i + 1;
    }
    assert(cv.take(i as int) =~= cv);
    found
}

/// The last capture text named `name` (see [`last_named`]).
fn find_last_named<'a>(cs: &'a Vec<Capture>, name: &str) -> (r: Option<&'a String>)
    ensures
        match r {
            Some(t) => last_named(captures_view(cs@), name@) == Some(t@),
            None => last_named(captures_view(cs@), name@) is None,
        },
{
    let ghost cv = captures_view(cs@);
    let mut found: Option<&String> = None;
    let mut i: usize = 0;
    while i < cs.len()
        invariant
            i <= cs@.len(),
            cv == captures_view(cs@),
            match found {
                Some(t) => last_named(cv.take(i as int), name@) == Some(t@),
                None => last_named(cv.take(i as int), name@) is None,
            },
        decreases cs@.len() - i,
    {
        assert(cv.take(i + 1).drop_last() =~= cv.take(i as int));
        assert(cv[i as int] == (cs@[i as int].name@, cs@[i as int].text@));
        if str_eq(cs[i].name.as_str(), name) {
            found = Some(&cs[i].text);
        }
        i = i + 1;
    }
    assert(cv.take(i as int) =~= cv);
    found
}

proof fn lemma_first_named(cs: Seq<(Seq<char>, Seq<char>)>, name: Seq<char>, i: int)
    requires
        0 <= i <= cs.len(),
        forall|j: int| 0 <= j < i ==> cs[j].0 != name,
    ensures
        first_named(cs, name) == first_named(cs.skip(i), name),
    decreases i,
{
    if i > 0 {
        lemma_first_named(cs.drop_first(), name, i - 1);
        assert(cs.drop_first().skip(i - 1) =~= cs.skip(i));
    } else {
        assert(cs.skip(0) =~= cs);
    }
}

/// `prefix` + the first capture text named `name` + `suffix` (see
/// [`named_signature`]).
fn named_signature_exec(cs: &Vec<Capture>, name: &str, prefix: &str, suffix: &str) -> (r:
    Option<String>)
    ensures
        opt_view(r) == named_signature(captures_view(cs@), name@, prefix@, suffix@),
{
    let ghost cv = captures_view(cs@);
    let mut i: usize = 0;
    while i < cs.len()
        invariant
            i <= cs@.len(),
            cv == captures_view(cs@),
            forall|j: int| 0 <= j < i ==> cv[j].0 != name@,
        decreases cs@.len() - i,
    {
        assert(cv[i as int] == (cs@[i as int].name@, cs@[i as int].text@));
        if str_eq(cs[i].name.as_str(), name) {
            proof {
                lemma_first_named(cv, name@, i as int);
                assert(cv.skip(i as int)[0] == cv[i as int]);
            }
            let mut out = String::new();
            push_str(&mut out, prefix);
            push_str(&mut out, cs[i].text.as_str());
            push_str(&mut out, suffix);
            return Some(out);
        }
        i = i + 1;
    }
    proof {
        lemma_first_named(cv, name@, i as int);
        assert(cv.skip(i as int).len() == 0);
    }
    None
}

/// Build the signature of a Go declaration (see [`go_signature`]).
pub fn build_go_signature(kind: SymbolKind, captures: &Vec<Capture>) -> (r: Option<String>)
    ensures
        opt_view(r) == go_signature(kind, captures_view(captures@)),
{
    match kind {
        SymbolKind::Function | SymbolKind::Method => {
            let ghost cv = captures_view(captures@);
            let mut sig = String::new();
            push_str(&mut sig, "func ");
            let ghost s0 = sig@;
            match find_last_named(captures, "method.receiver_type") {
                Some(r) => {
                    push_str(&mut sig, "(");
                    push_str(&mut sig, r.as_str());
                    push_str(&mut sig, ") ");
                },
                None => {},
            }
            let ghost s1 = sig@;
            assert(s1 == s0 + match last_named(cv, "method.receiver_type"@) {
                Some(r) => "("@ + r + ") "@,
                None => seq![],
            });
            match find_last_suffixed(captures, ".name") {
                Some(n) => push_str(&mut sig, n.as_str()),
                None => {},
            }
            let ghost s2 = sig@;
            assert(s2 == s1 + match last_suffixed(cv, ".name"@) {
                Some(n) => n,
                None => seq![],
            });
            match find_last_suffixed(captures, ".params") {
                Some(p) => push_str(&mut sig, p.as_str()),
                None => push_str(&mut sig, "()"),
            }
            let ghost s3 = sig@;
            assert(s3 == s2 + match last_suffixed(cv, ".params"@) {
                Some(p) => p,
                None => "()"@,
            });
            match find_last_suffixed(captures, ".return") {
                Some(t) => {
                    push_str(&mut sig, " ");
                    push_str(&mut sig, t.as_str());
                },
                None => {},
            }
            assert(sig@ == s3 + match last_suffixed(cv, ".return"@) {
                Some(t) => " "@ + t,
                None => seq![],
            });
            assert(go_signature(kind, cv) == Some(sig@));
            Some(sig)
        },
        SymbolKind::Struct => named_signature_exec(captures, "struct.name", "type ", " struct"),
        SymbolKind::Interface => named_signature_exec(captures, "interface.name", "type ", " interface"),
        SymbolKind::Type => named_signature_exec(captures, "type.name", "type ", ""),
        SymbolKind::Const => named_signature_exec(captures, "const.name", "const ", ""),
        SymbolKind::Variable => named_signature_exec(captures, "var.name", "var ", ""),
        _ => None,
    }
}

// ---------------------------------------------------------------------------
// Doc comments
// ---------------------------------------------------------------------------

/// A comment line without its `//` (once) and surrounding whitespace.
pub open spec fn comment_line_text(t: Seq<char>) -> Seq<char> {
    trim(
        if 2 <= t.len() && t.take(2) == "//"@ {
            t.skip(2)
        } else {
            t
        },
    )
}

/// The doc comment of a declaration from the comments right before it,
/// nearest first: their texts in source order, joined by newlines; none
/// without comments.
pub open spec fn go_doc(nearest_first: Seq<Seq<char>>) -> Option<Seq<char>> {
    if nearest_first.len() == 0 {
        None
    } else {
        Some(join(nearest_first.reverse().map_values(|t: Seq<char>| comment_line_text(t)), "\n"@))
    }
}

fn comment_line(t: &str) -> (r: String)
    ensures
        r@ == comment_line_text(t@),
{
    let cs = chars_of(t);
    let rest: Vec<char> = if cs.len() >= 2 && cs[0] == '/' && cs[1] == '/' {
        proof {
            reveal_strlit("//");
            assert(t@.take(2) =~= "//"@);
        }
        slice_range(cs.as_slice(), 2, cs.len())
    } else {
        proof {
            reveal_strlit("//");
            if 2 <= t@.len() {
                assert(t@.take(2)[0] == t@[0]);
                assert(t@.take(2)[1] == t@[1]);
            }
        }
        slice_range(cs.as_slice(), 0, cs.len())
    };
    assert(cs@.subrange(0, cs@.len() as int) =~= t@);
    assert(cs@.subrange(2, cs@.len() as int) =~= t@.skip(2));
    let (a, b) = trim_range(rest.as_slice(), 0, rest.len());
    assert(rest@.subrange(0, rest@.len() as int) =~= rest@);
    let out = slice_range(rest.as_slice(), a, b);
    string_from(out.as_slice())
}

/// The doc comment of a declaration (see [`go_doc`]).
pub fn extract_go_docstring(nearest_first: &Vec<String>) -> (r: Option<String>)
    ensures
        opt_view(r) == go_doc(crate::text::strs(nearest_first@)),
{
    let ghost v = crate::text::strs(nearest_first@);
    if nearest_first.len() == 0 {
        return None;
    }
    let ghost target = v.reverse().map_values(|t: Seq<char>| comment_line_text(t));
    let mut lines: Vec<String> = Vec::new();
    let mut k: usize = nearest_first.len();
    while k > 0
        invariant
            k <= nearest_first@.len(),
            v == crate::text::strs(nearest_first@),
            target == v.reverse().map_values(|t: Seq<char>| comment_line_text(t)),
            crate::text::strs(lines@) == target.take(nearest_first@.len() - k),
        decreases k,
    {
        k = k - 1;
        let ghost before = lines@;
        lines.push(comment_line(nearest_first[k].as_str()));
        proof {
            let n = nearest_first@.len() as int;
            assert(v[k as int] == nearest_first@[k as int]@);
            assert(v.reverse()[n - 1 - k] == v[k as int]);
            assert(target[n - 1 - k] == comment_line_text(v[k as int]));
            assert(crate::text::strs(lines@) =~= crate::text::strs(before).push(lines@.last()@));
            assert(target.take(n - k) =~= target.take(n - 1 - k).push(target[n - 1 - k]));
        }
    }
    assert(target.take(nearest_first@.len() as int) =~= target);
    let parts = crate::rules::as_strs(&lines);
    Some(join_strs(&parts, "\n"))
}

// ---------------------------------------------------------------------------
// Imports
// ---------------------------------------------------------------------------

/// An import path's text without surrounding double quotes.
pub open spec fn unquoted_path(t: Seq<char>) -> Seq<char> {
    strip_prefixes(strip_suffixes(t, "\""@), "\""@)
}

/// The import edges of an import match: one per non-empty path captured
/// as `import.path`, from the file to the path, at the path's position
/// (1-based line).
pub open spec fn go_import_edges(file_path: Seq<char>, cs: Seq<Capture>) -> Seq<EdgeView>
    decreases cs.len(),
{
    if cs.len() == 0 {
        seq![]
    } else {
        let c = cs.last();
        let path = unquoted_path(c.text@);
        go_import_edges(file_path, cs.drop_last()) + if c.name@ == "import.path"@ && path.len() > 0 {
            seq![
                EdgeView {
                    source_id: file_path,
                    target_id: Some(path),
                    target_name: path,
                    kind: EdgeKind::Imports,
                    line: Some((c.row + 1) as u32),
                    col: Some(c.column),
                    context: None,
                },
            ]
        } else {
            seq![]
        }
    }
}

/// Push the import edges of an import match (see [`go_import_edges`]).
pub fn push_go_import_edges(file_path: &str, captures: &Vec<Capture>, edges: &mut Vec<Edge>)
    requires
        forall|i: int|
            0 <= i < captures@.len() && (#[trigger] captures@[i]).name@ == "import.path"@
                ==> captures@[i].row < u32::MAX,
    ensures
        final(edges)@.map_values(|e: Edge| e@) == old(edges)@.map_values(|e: Edge| e@)
            + go_import_edges(file_path@, captures@),
{
    let ghost start = edges@.map_values(|e: Edge| e@);
    let quote = vec!['"'];
    proof {
        reveal_strlit("\"");
        assert(quote@ =~= "\""@);
    }
    let mut i: usize = 0;
    while i < captures.len()
        invariant
            i <= captures@.len(),
            quote@ == "\""@,
            quote@.len() == 1,
            forall|j: int|
                0 <= j < captures@.len() && (#[trigger] captures@[j]).name@ == "import.path"@
                    ==> captures@[j].row < u32::MAX,
            edges@.map_values(|e: Edge| e@) == start + go_import_edges(
                file_path@,
                captures@.take(i as int),
            ),
        decreases captures@.len() - i,
    {
        assert(captures@.take(i + 1).drop_last() =~= captures@.take(i as int));
        let c = &captures[i];
        let ghost before = edges@;
        if str_eq(c.name.as_str(), "import.path") {
            let cs = chars_of(c.text.as_str());
            let tail = strip_suffixes_exec(cs.as_slice(), quote.as_slice());
            let path = strip_prefixes_exec(tail.as_slice(), quote.as_slice());
            if path.len() > 0 {
                let p = string_from(path.as_slice());
                edges.push(
                    Edge {
                        source_id: file_path.to_string(),
                        target_id: Some(p.clone()),
                        target_name: p,
                        kind: EdgeKind::Imports,
                        line: Some(c.row + 1),
                        col: Some(c.column),
                        context: None,
                    },
                );
                assert(edges@.map_values(|e: Edge| e@) =~= before.map_values(|e: Edge| e@).push(
                    edges@.last()@,
                ));
            }
        }
        assert(edges@.map_values(|e: Edge| e@) =~= start + go_import_edges(
            file_path@,
            captures@.take(i + 1),
        ));
        i = i + 1;
    }
    assert(captures@.take(i as int) =~= captures@);
}

} // verus!
