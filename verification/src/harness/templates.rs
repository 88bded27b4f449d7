//! Template rendering for generated harness files.
//!
//! Templates use `{{TOKEN}}` placeholders:
//!
//! - `{{CTX_VERSION}}` -- this library's version
//! - `{{AUTHOR_NAME}}` -- package authors with `<email>` stripped
//! - `{{DEFAULT_BRANCH}}` -- the repository's default branch

use vstd::prelude::*;

use crate::text::{
    chars_of, find_sub, find_sub_from, index_of, find_char_from, lemma_index_of, push_chars,
    push_str, slice_range, split_char, split_exec, pieces_view, string_from, trim, trim_range,
    join_lines, join_pieces,
};

verus! {

/// This library's version (the value baked into `{{CTX_VERSION}}`).
pub const CTX_VERSION: &'static str = "0.1.0";

/// Every non-overlapping occurrence of the non-empty `p` in `s`, from the
/// left, replaced by `r` (`str::replace`).
pub open spec fn replace_all(s: Seq<char>, p: Seq<char>, r: Seq<char>) -> Seq<char>
    decreases s.len(),
{
    let i = find_sub(s, p);
    if p.len() == 0 || i < 0 || i + p.len() > s.len() {
        s
    } else {
        s.take(i) + r + replace_all(s.skip(i + p.len()), p, r)
    }
}

/// The placeholder of a token: `{{KEY}}`.
pub open spec fn placeholder(key: Seq<char>) -> Seq<char> {
    "{{"@ + key + "}}"@
}

/// A template with each `(key, value)` substituted in turn.
pub open spec fn rendered(tmpl: Seq<char>, vars: Seq<(Seq<char>, Seq<char>)>) -> Seq<char>
    decreases vars.len(),
{
    if vars.len() == 0 {
        tmpl
    } else {
        let prev = rendered(tmpl, vars.drop_last());
        replace_all(prev, placeholder(vars.last().0), vars.last().1)
    }
}

/// The abstract value of token pairs.
pub open spec fn vars_view(vars: Seq<(&str, &str)>) -> Seq<(Seq<char>, Seq<char>)> {
    vars.map_values(|v: (&str, &str)| (v.0@, v.1@))
}

/// `s` with every occurrence of `p` replaced by `r`.
pub fn replace_exec(s: &[char], p: &[char], r: &[char]) -> (out: Vec<char>)
    requires
        p@.len() > 0,
    ensures
        out@ == replace_all(s@, p@, r@),
{
    let mut out: Vec<char> = Vec::new();
    let mut i: usize = 0;
    assert(s@.skip(0) =~= s@);
    assert(out@ + replace_all(s@.skip(0), p@, r@) =~= replace_all(s@, p@, r@));
    loop
        invariant
            i <= s@.len(),
            s@.len() == s.len(),
            p@.len() > 0,
            out@ + replace_all(s@.skip(i as int), p@, r@) == replace_all(s@, p@, r@),
        decreases s@.len() - i,
    {
        let ghost rest = s@.skip(i as int);
        match find_sub_from(s, p, i) {
            Some(j) => {
                let head = slice_range(s, i, j);
                push_chars_vec(&mut out, head.as_slice());
                push_chars_vec(&mut out, r);
                proof {
                    assert(head@ =~= rest.take(j - i));
                    assert(rest.skip(j - i + p@.len()) =~= s@.skip(j + p@.len()));
                }
                i = j + p.len();
            },
            None => {
                let tail = slice_range(s, i, s.len());
                assert(tail@ =~= rest);
                push_chars_vec(&mut out, tail.as_slice());
                return out;
            },
        }
    }
}

/// Append `cs` to `v`.
fn push_chars_vec(v: &mut Vec<char>, cs: &[char])
    ensures
        final(v)@ == old(v)@ + cs@,
{
    let mut k: usize = 0;
    while k < cs.len()
        invariant
            k <= cs@.len(),
            v@ == old(v)@ + cs@.take(k as int),
        decreases cs@.len() - k,
    {
        v.push(cs[k]);
        assert(cs@.take(k + 1) =~= cs@.take(k as int).push(cs@[k as int]));
        k = k + 1;
    }
    assert(cs@.take(k as int) =~= cs@);
}

/// Replace every `{{KEY}}` in `tmpl` with its value, token by token.
pub fn render(tmpl: &str, vars: &[(&str, &str)]) -> (r: String)
    ensures
        r@ == rendered(tmpl@, vars_view(vars@)),
{
    let ghost vs = vars_view(vars@);
    let mut out = chars_of(tmpl);
    let mut i: usize = 0;
    while i < vars.len()
        invariant
            i <= vars@.len(),
            vs == vars_view(vars@),
            out@ == rendered(tmpl@, vs.take(i as int)),
        decreases vars@.len() - i,
    {
        let (key, value) = vars[i];
        let mut pat: Vec<char> = vec!['{', '{'];
        let kc = chars_of(key);
        push_chars_vec(&mut pat, kc.as_slice());
        push_chars_vec(&mut pat, vec!['}', '}'].as_slice());
        proof {
            reveal_strlit("{{");
            reveal_strlit("}}");
            assert(pat@ =~= placeholder(key@));
            assert(vs.take(i + 1).drop_last() =~= vs.take(i as int));
            assert(vs[i as int] == (key@, value@));
        }
        let vc = chars_of(value);
        out = replace_exec(out.as_slice(), pat.as_slice(), vc.as_slice());
        i = i + 1;
    }
    assert(vs.take(i as int) =~= vs);
    string_from(out.as_slice())
}

/// A template without `{{` renders to itself, whatever the tokens.
pub proof fn law_render_without_placeholders(tmpl: Seq<char>, vars: Seq<(Seq<char>, Seq<char>)>)
    requires
        find_sub(tmpl, "{{"@) < 0,
    ensures
        rendered(tmpl, vars) == tmpl,
    decreases vars.len(),
{
    if vars.len() > 0 {
        law_render_without_placeholders(tmpl, vars.drop_last());
        lemma_no_braces_no_placeholder(tmpl, vars.last().0);
    }
}

/// A text without `{{` holds no placeholder.
proof fn lemma_no_braces_no_placeholder(s: Seq<char>, key: Seq<char>)
    requires
        find_sub(s, "{{"@) < 0,
    ensures
        find_sub(s, placeholder(key)) < 0,
    decreases s.len(),
{
    reveal_strlit("{{");
    let p = placeholder(key);
    let b = "{{"@;
    assert(p.take(2) =~= b);
    if s.len() >= p.len() {
        if s.take(p.len() as int) == p {
            assert(s.take(2) =~= p.take(2));
            assert(find_sub(s, b) == 0);
        }
        if s.len() > 0 {
            assert(s.len() >= 2);
            assert(s.take(2) != b);
            lemma_find_sub_drop_first(s, b);
            lemma_no_braces_no_placeholder(s.drop_first(), key);
        }
    }
}

/// No match in `s` means no match in its tail.
proof fn lemma_find_sub_drop_first(s: Seq<char>, p: Seq<char>)
    requires
        find_sub(s, p) < 0,
        s.len() > 0,
    ensures
        find_sub(s.drop_first(), p) < 0,
{
}

/// One author entry without its `<email>` part, trimmed.
pub open spec fn author_part(a: Seq<char>) -> Seq<char> {
    let i = index_of(a, '<');
    if i >= 0 {
        trim(a.take(i))
    } else {
        trim(a)
    }
}

/// The non-empty author names of `:`-separated entries.
pub open spec fn author_names(entries: Seq<Seq<char>>) -> Seq<Seq<char>>
    decreases entries.len(),
{
    if entries.len() == 0 {
        seq![]
    } else {
        let prev = author_names(entries.drop_last());
        let n = author_part(entries.last());
        if n.len() == 0 {
            prev
        } else {
            prev.push(n)
        }
    }
}

/// Package authors (`:`-separated, as Cargo lists them) with `<email>` parts
/// stripped and joined by `, ` (`a <x@y>:b` becomes `a, b`).
pub open spec fn author_list(authors: Seq<char>) -> Seq<char> {
    join_lines(author_names(split_char(authors, ':')), ", "@)
}

/// The crate authors, given as the package manifest lists them
/// (`:`-separated), with `<email>` parts stripped and blank entries
/// dropped (`a <x@y>:b` becomes `a, b`).
pub fn author_name(authors: &str) -> (r: String)
    ensures
        r@ == author_list(authors@),
{
    let cs = chars_of(authors);
    let parts = split_exec(cs.as_slice(), ':');
    let ghost ps = pieces_view(parts@);
    let mut names: Vec<Vec<char>> = Vec::new();
    let mut i: usize = 0;
    while i < parts.len()
        invariant
            ps == pieces_view(parts@),
            ps == split_char(authors@, ':'),
            i <= ps.len(),
            pieces_view(names@) == author_names(ps.take(i as int)),
        decreases ps.len() - i,
    {
        assert(ps.take(i + 1).drop_last() =~= ps.take(i as int));
        assert(ps[i as int] == parts@[i as int]@);
        let a = &parts[i];
        let end = match find_char_from(a.as_slice(), '<', 0) {
            Some(j) => j,
            None => a.len(),
        };
        proof {
            assert(a@.skip(0) =~= a@);
            lemma_index_of(a@, '<');
        }
        let (x, y) = trim_range(a.as_slice(), 0, end);
        proof {
            if index_of(a@, '<') >= 0 {
                assert(a@.subrange(0, end as int) =~= a@.take(index_of(a@, '<')));
            } else {
                assert(a@.subrange(0, end as int) =~= a@);
            }
        }
        let n = slice_range(a.as_slice(), x, y);
        if n.len() > 0 {
            let ghost before = pieces_view(names@);
            let ghost nv = n@;
            names.push(n);
            assert(pieces_view(names@) =~= before.push(nv));
        }
        i = i + 1;
    }
    assert(ps.take(i as int) =~= ps);
    let sep = vec![',', ' '];
    proof {
        reveal_strlit(", ");
        assert(sep@ =~= ", "@);
    }
    let joined = join_pieces(&names, sep.as_slice());
    string_from(joined.as_slice())
}

/// The standard token set for rendering, with this library's version.
pub fn standard_vars<'a>(default_branch: &'a str, author: &'a str) -> (r: Vec<(&'static str, &'a str)>)
    ensures
        vars_view(r@) == seq![
            ("CTX_VERSION"@, CTX_VERSION@),
            ("AUTHOR_NAME"@, author@),
            ("DEFAULT_BRANCH"@, default_branch@),
        ],
{
    let r = vec![("CTX_VERSION", CTX_VERSION), ("AUTHOR_NAME", author), ("DEFAULT_BRANCH", default_branch)];
    assert(vars_view(r@) =~= seq![
        ("CTX_VERSION"@, CTX_VERSION@),
        ("AUTHOR_NAME"@, author@),
        ("DEFAULT_BRANCH"@, default_branch@),
    ]);
    r
}

} // verus!
