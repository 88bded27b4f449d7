//! Python-specific text helpers, and the class inheritance edges of the
//! inheritance query's matches.

use vstd::prelude::*;

use vstd::string::StringSliceAdditionalSpecFns;
use vstd::utf8::{decode_utf8, encode_utf8, is_char_boundary};

use crate::model::{Edge, EdgeKind, EdgeView, Symbol, SymbolKind, SymbolView};
use crate::parser::captures::{
    collect_texts_of, find_last_of, last_of, push_target_edges, target_edges, texts_of, Capture,
};
use crate::parser::solidity::symbols_view;
use crate::parser::typescript::symbol_named;
use crate::text::{
    chars_of, join_lines, join_pieces, lines_exec, pieces_view, push_str, slice_range, str_lines,
    string_from, strip_prefixes, strip_prefixes_exec, strip_suffixes, strip_suffixes_exec, trim,
    trim_range, trim_start, trim_str, skip_ws_from,
};

verus! {

/// A docstring with surrounding whitespace and quotes stripped (triple
/// quotes first, then single quote characters).
pub open spec fn unquoted(raw: Seq<char>) -> Seq<char> {
    let t = trim(raw);
    let t = strip_prefixes(t, "\"\"\""@);
    let t = strip_prefixes(t, "'''"@);
    let t = strip_suffixes(t, "\"\"\""@);
    let t = strip_suffixes(t, "'''"@);
    let t = strip_prefixes(t, "\""@);
    let t = strip_prefixes(t, "'"@);
    let t = strip_suffixes(t, "\""@);
    strip_suffixes(t, "'"@)
}

/// Byte length of a text in UTF-8.
pub open spec fn byte_len(s: Seq<char>) -> int {
    encode_utf8(s).len() as int
}

/// Bytes of leading whitespace of a line.
pub open spec fn indent_of(l: Seq<char>) -> int {
    byte_len(l) - byte_len(trim_start(l))
}

/// The smallest indentation among the non-blank lines, if any.
pub open spec fn min_indent(lines: Seq<Seq<char>>) -> Option<int>
    decreases lines.len(),
{
    if lines.len() == 0 {
        None
    } else {
        let prev = min_indent(lines.drop_last());
        let l = lines.last();
        if trim(l).len() == 0 {
            prev
        } else {
            match prev {
                None => Some(indent_of(l)),
                Some(m) => Some(if indent_of(l) < m {
                    indent_of(l)
                } else {
                    m
                }),
            }
        }
    }
}

/// The indentation removed from the lines after the first.
pub open spec fn dedent_amount(lines: Seq<Seq<char>>) -> int {
    match min_indent(lines.skip(1)) {
        Some(m) => m,
        None => 0,
    }
}

/// One line of a docstring after dedenting: the first line trimmed, a line
/// at least `m` bytes long without its first `m` bytes, others trimmed.
pub open spec fn dedented_line(l: Seq<char>, i: int, m: int) -> Seq<char> {
    if i == 0 {
        trim(l)
    } else if byte_len(l) >= m {
        decode_utf8(encode_utf8(l).skip(m))
    } else {
        trim(l)
    }
}

/// Whether dedenting can cut every long-enough line at a character boundary
/// (the cleanup panics otherwise).
pub open spec fn can_dedent(raw: Seq<char>) -> bool {
    let lines = str_lines(unquoted(raw));
    let m = dedent_amount(lines);
    lines.len() <= 1 || forall|i: int|
        1 <= i < lines.len() && byte_len(#[trigger] lines[i]) >= m ==> is_char_boundary(
            encode_utf8(lines[i]),
            m,
        )
}

/// A docstring's text: quotes stripped, continuation lines dedented by
/// their common indentation, trimmed.
pub open spec fn docstring_text(raw: Seq<char>) -> Seq<char> {
    let t = unquoted(raw);
    let lines = str_lines(t);
    if lines.len() <= 1 {
        trim(t)
    } else {
        let m = dedent_amount(lines);
        trim(join_lines(Seq::new(lines.len(), |i: int| dedented_line(lines[i], i, m)), "\n"@))
    }
}

/// Byte length of a character slice in UTF-8.
fn byte_len_exec(cs: &Vec<char>) -> (r: usize)
    ensures
        r == byte_len(cs@),
{
    let s = string_from(cs.as_slice());
    let b = s.as_str().as_bytes();
    b.len()
}

/// Clean a raw Python docstring.
pub fn clean_docstring(raw: &str) -> (r: String)
    requires
        can_dedent(raw@),
    ensures
        r@ == docstring_text(raw@),
{
    let c0 = chars_of(trim_str(raw).as_str());
    let tq = vec!['"', '"', '"'];
    let ts = vec!['\'', '\'', '\''];
    let dq = vec!['"'];
    let sq = vec!['\''];
    proof {
        reveal_strlit("\"\"\"");
        reveal_strlit("'''");
        reveal_strlit("\"");
        reveal_strlit("'");
        assert(tq@ =~= "\"\"\""@);
        assert(ts@ =~= "'''"@);
        assert(dq@ =~= "\""@);
        assert(sq@ =~= "'"@);
    }
    let c1 = strip_prefixes_exec(c0.as_slice(), tq.as_slice());
    let c2 = strip_prefixes_exec(c1.as_slice(), ts.as_slice());
    let c3 = strip_suffixes_exec(c2.as_slice(), tq.as_slice());
    let c4 = strip_suffixes_exec(c3.as_slice(), ts.as_slice());
    let c5 = strip_prefixes_exec(c4.as_slice(), dq.as_slice());
    let c6 = strip_prefixes_exec(c5.as_slice(), sq.as_slice());
    let c7 = strip_suffixes_exec(c6.as_slice(), dq.as_slice());
    let t = strip_suffixes_exec(c7.as_slice(), sq.as_slice());
    assert(t@ == unquoted(raw@));
    let lines = lines_exec(t.as_slice());
    let ghost ls = pieces_view(lines@);
    if lines.len() <= 1 {
        let (a, b) = trim_range(t.as_slice(), 0, t.len());
        assert(t@.subrange(0, t@.len() as int) =~= t@);
        let out = slice_range(t.as_slice(), a, b);
        return string_from(out.as_slice());
    }
    // Smallest indentation of the non-blank continuation lines.
    let mut min: Option<usize> = None;
    let mut i: usize = 1;
    assert(ls.skip(1).take(0) =~= Seq::<Seq<char>>::empty());
    while i < lines.len()
        invariant
            ls == pieces_view(lines@),
            1 <= i <= ls.len(),
            match min {
                Some(m) => min_indent(ls.skip(1).take(i - 1)) == Some(m as int),
                None => min_indent(ls.skip(1).take(i - 1)) is None,
            },
        decreases ls.len() - i,
    {
        assert(ls.skip(1).take(i as int).drop_last() =~= ls.skip(1).take(i - 1));
        assert(ls.skip(1).take(i as int).last() == ls[i as int]);
        assert(ls[i as int] == lines@[i as int]@);
        let line = &lines[i];
        let (a, b) = trim_range(line.as_slice(), 0, line.len());
        assert(line@.subrange(0, line@.len() as int) =~= line@);
        if a < b {
            let full = byte_len_exec(line);
            assert(line@.skip(0) =~= line@);
            let w = skip_ws_from(line.as_slice(), 0);
            let rest = slice_range(line.as_slice(), w, line.len());
            assert(rest@ =~= trim_start(line@));
            let rest_len = byte_len_exec(&rest);
            proof {
                lemma_byte_len_skip(line@, w as int);
            }
            let indent = full - rest_len;
            min = match min {
                None => Some(indent),
                Some(m) => Some(if indent < m { indent } else { m }),
            };
        }
        i = i + 1;
    }
    assert(ls.skip(1).take(ls.len() - 1) =~= ls.skip(1));
    let m: usize = match min {
        Some(m) => m,
        None => 0,
    };
    let mut out: Vec<Vec<char>> = Vec::new();
    let mut k: usize = 0;
    while k < lines.len()
        invariant
            ls == pieces_view(lines@),
            m == dedent_amount(ls),
            can_dedent(raw@),
            ls == str_lines(unquoted(raw@)),
            k <= ls.len(),
            pieces_view(out@) == Seq::new(k as nat, |q: int| dedented_line(ls[q], q, m as int)),
        decreases ls.len() - k,
    {
        assert(ls[k as int] == lines@[k as int]@);
        let line = &lines[k];
        let piece: Vec<char> = if k == 0 {
            let (a, b) = trim_range(line.as_slice(), 0, line.len());
            assert(line@.subrange(0, line@.len() as int) =~= line@);
            slice_range(line.as_slice(), a, b)
        } else {
            let s = string_from(line.as_slice());
            let bytes = s.as_str().as_bytes();
            if bytes.len() >= m {
                assert(is_char_boundary(encode_utf8(ls[k as int]), m as int));
                let (_head, tail) = s.as_str().split_at(m);
                proof {
                    vstd::utf8::encode_utf8_decode_utf8(tail@);
                    assert(encode_utf8(tail@) =~= encode_utf8(line@).skip(m as int));
                }
                chars_of(tail)
            } else {
                let (a, b) = trim_range(line.as_slice(), 0, line.len());
                assert(line@.subrange(0, line@.len() as int) =~= line@);
                slice_range(line.as_slice(), a, b)
            }
        };
        let ghost before = pieces_view(out@);
        let ghost pv = piece@;
        out.push(piece);
        assert(pieces_view(out@) =~= before.push(pv));
        assert(pieces_view(out@) =~= Seq::new((k + 1) as nat, |q: int| dedented_line(ls[q], q, m as int)));
        k = k + 1;
    }
    let nl = vec!['\n'];
    proof {
        reveal_strlit("\n");
        assert(nl@ =~= "\n"@);
        assert(pieces_view(out@) =~= Seq::new(ls.len(), |q: int| dedented_line(ls[q], q, m as int)));
    }
    let joined = join_pieces(&out, nl.as_slice());
    let (a, b) = trim_range(joined.as_slice(), 0, joined.len());
    assert(joined@.subrange(0, joined@.len() as int) =~= joined@);
    let res = slice_range(joined.as_slice(), a, b);
    string_from(res.as_slice())
}

/// The UTF-8 length of a text is that of its prefix plus that of the rest.
proof fn lemma_byte_len_skip(s: Seq<char>, a: int)
    requires
        0 <= a <= s.len(),
    ensures
        byte_len(s) == byte_len(s.take(a)) + byte_len(s.skip(a)),
        byte_len(s.take(a)) >= 0,
{
    lemma_encode_concat(s.take(a), s.skip(a));
    assert(s.take(a) + s.skip(a) =~= s);
}

/// UTF-8 encoding distributes over concatenation.
pub proof fn lemma_encode_concat(a: Seq<char>, b: Seq<char>)
    ensures
        encode_utf8(a + b) == encode_utf8(a) + encode_utf8(b),
    decreases a.len(),
{
    if a.len() == 0 {
        assert(a + b =~= b);
        assert(encode_utf8(a) =~= Seq::<u8>::empty());
        assert(encode_utf8(a) + encode_utf8(b) =~= encode_utf8(b));
    } else {
        assert((a + b).drop_first() =~= a.drop_first() + b);
        assert((a + b)[0] == a[0]);
        lemma_encode_concat(a.drop_first(), b);
        assert(encode_utf8(a + b) =~= encode_utf8(a) + encode_utf8(b));
    }
}

/// The visibility of a Python name: private when it starts with an
/// underscore (a single one by convention, a double one by name mangling),
/// public otherwise.
pub open spec fn python_visibility(name: Seq<char>) -> crate::model::Visibility {
    if name.len() > 0 && name[0] == '_' {
        crate::model::Visibility::Private
    } else {
        crate::model::Visibility::Public
    }
}

/// The visibility of a Python name (see [`python_visibility`]).
pub fn extract_visibility(name: &str) -> (r: crate::model::Visibility)
    ensures
        r == python_visibility(name@),
{
    let cs = chars_of(name);
    if cs.len() > 0 && cs[0] == '_' {
        crate::model::Visibility::Private
    } else {
        crate::model::Visibility::Public
    }
}

/// The edges of one inheritance match: when it captures a class name and
/// definition (the last `class.name` or `class_attr.name`, the last
/// `class.def` or `class_attr.def`) and a class of that name was
/// extracted, one `Extends` edge per captured base (`base.name` or
/// `base_attr.name`, in order) but `object`, at the start of the
/// definition (1-based line), with `class N(B):` as context.
pub open spec fn class_match_edges(cs: Seq<Capture>, symbols: Seq<SymbolView>) -> Seq<EdgeView> {
    match (
        last_of(cs, "class.name"@, "class_attr.name"@),
        last_of(cs, "class.def"@, "class_attr.def"@),
    ) {
        (Some(n), Some(d)) => match symbol_named(symbols, n.text@, SymbolKind::Class) {
            Some(source_id) => target_edges(
                texts_of(cs, "base.name"@, "base_attr.name"@),
                Some("object"@),
                source_id,
                SymbolKind::Class,
                EdgeKind::Extends,
                "class "@ + n.text@ + "("@,
                "):"@,
                (d.row + 1) as u32,
                d.column,
                symbols,
            ),
            None => seq![],
        },
        _ => seq![],
    }
}

/// The inheritance edges of inheritance matches, in order.
pub open spec fn class_edges_of(matches: Seq<Vec<Capture>>, symbols: Seq<SymbolView>) -> Seq<EdgeView>
    decreases matches.len(),
{
    if matches.len() == 0 {
        seq![]
    } else {
        class_edges_of(matches.drop_last(), symbols) + class_match_edges(matches.last()@, symbols)
    }
}

/// Whether the line of an inheritance match fits: it is computed when the
/// match captures a class name and definition.
pub open spec fn class_match_readable(cs: Seq<Capture>) -> bool {
    match (
        last_of(cs, "class.name"@, "class_attr.name"@),
        last_of(cs, "class.def"@, "class_attr.def"@),
    ) {
        (Some(_), Some(d)) => d.row < u32::MAX,
        _ => true,
    }
}

/// Push the inheritance edges of inheritance matches (see
/// [`class_edges_of`]) against the extracted `symbols`.
pub fn extract_inheritance_edges(matches: &Vec<Vec<Capture>>, symbols: &Vec<Symbol>, edges: &mut Vec<Edge>)
    requires
        forall|i: int| 0 <= i < matches@.len() ==> class_match_readable((#[trigger] matches@[i])@),
    ensures
        final(edges)@.map_values(|e: Edge| e@) == old(edges)@.map_values(|e: Edge| e@)
            + class_edges_of(matches@, symbols_view(symbols@)),
{
    let ghost sv = symbols_view(symbols@);
    let ghost start = edges@.map_values(|e: Edge| e@);
    let mut i: usize = 0;
    while i < matches.len()
        invariant
            i <= matches@.len(),
            sv == symbols_view(symbols@),
            forall|k: int| 0 <= k < matches@.len() ==> class_match_readable((#[trigger] matches@[k])@),
            edges@.map_values(|e: Edge| e@) == start + class_edges_of(matches@.take(i as int), sv),
        decreases matches@.len() - i,
    {
        assert(matches@.take(i + 1).drop_last() =~= matches@.take(i as int));
        assert(class_match_readable(matches@[i as int]@));
        let cs = &matches[i];
        let name = find_last_of(cs, "class.name", "class_attr.name");
        let def = find_last_of(cs, "class.def", "class_attr.def");
        let bases = collect_texts_of(cs, "base.name", "base_attr.name");
        match (name, def) {
            (Some(n), Some(d)) => {
                let line: u32 = d.row + 1;
                match crate::parser::captures::find_symbol_of_kinds(
                    symbols,
                    n.text.as_str(),
                    SymbolKind::Class,
                    SymbolKind::Class,
                ) {
                    Some(source_id) => {
                        proof {
                            crate::parser::typescript::lemma_one_kind(sv, n.text@, SymbolKind::Class);
                        }
                        let mut prefix = String::new();
                        push_str(&mut prefix, "class ");
                        push_str(&mut prefix, n.text.as_str());
                        push_str(&mut prefix, "(");
                        push_target_edges(
                            edges,
                            &bases,
                            Some("object"),
                            source_id.as_str(),
                            SymbolKind::Class,
                            EdgeKind::Extends,
                            prefix.as_str(),
                            "):",
                            line,
                            d.column,
                            symbols,
                        );
                    },
                    None => {
                        proof {
                            crate::parser::typescript::lemma_one_kind(sv, n.text@, SymbolKind::Class);
                        }
                    },
                }
            },
            _ => {},
        }
        assert(edges@.map_values(|e: Edge| e@) =~= start + class_edges_of(matches@.take(i + 1), sv));
        i = i + 1;
    }
    assert(matches@.take(i as int) =~= matches@);
}

} // verus!
