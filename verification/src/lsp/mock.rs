//! The definition table of the scripted mock language server.
//!
//! A scenario maps keys to definition targets. A key is either a bare URI
//! suffix (matching any position in that file) or `suffix:line:col` with
//! the 0-based request position. The table is given in ascending key
//! order, the order in which the scenario's map is walked.

use vstd::prelude::*;

use crate::lsp::transport::{parse_u64, parse_u64_spec};
use crate::text::{chars_of, matches_at, occurs_at, rfind_sub, rfind_sub_exec, slice_range};

verus! {

/// A scripted definition target.
#[derive(Debug)]
pub struct MockDefinition {
    /// Target file, relative to the workspace root.
    pub path: String,
    /// 0-based target line.
    pub line: u32,
    /// 0-based target character.
    pub character: u32,
}

/// The parts of a position key `suffix:line:col` (split at the last two
/// colons, with numeric line and column); `None` for any other key.
pub open spec fn exact_key(key: Seq<char>) -> Option<(Seq<char>, u64, u64)> {
    let j = rfind_sub(key, ":"@);
    if j < 0 {
        None
    } else {
        let head = key.take(j);
        let i = rfind_sub(head, ":"@);
        if i < 0 {
            None
        } else {
            match (parse_u64_spec(head.skip(i + 1)), parse_u64_spec(key.skip(j + 1))) {
                (Some(l), Some(c)) => Some((head.take(i), l, c)),
                _ => None,
            }
        }
    }
}

/// Whether `s` ends with `suffix`.
pub open spec fn ends_with(s: Seq<char>, suffix: Seq<char>) -> bool {
    suffix.len() <= s.len() && s.skip(s.len() - suffix.len()) == suffix
}

/// Whether the position key `key` names the request position.
pub open spec fn exact_hit(key: Seq<char>, uri: Seq<char>, line: u64, col: u64) -> bool {
    match exact_key(key) {
        Some((suffix, l, c)) => ends_with(uri, suffix) && l == line && c == col,
        None => false,
    }
}

/// Whether the bare-suffix key `key` names the request's file.
pub open spec fn wildcard_hit(key: Seq<char>, uri: Seq<char>) -> bool {
    exact_key(key) is None && ends_with(uri, key)
}

/// The first key naming the request position.
pub open spec fn first_exact(keys: Seq<Seq<char>>, uri: Seq<char>, line: u64, col: u64) -> Option<int>
    decreases keys.len(),
{
    if keys.len() == 0 {
        None
    } else if exact_hit(keys[0], uri, line, col) {
        Some(0)
    } else {
        match first_exact(keys.drop_first(), uri, line, col) {
            Some(k) => Some(k + 1),
            None => None,
        }
    }
}

/// The last bare-suffix key naming the request's file.
pub open spec fn last_wildcard(keys: Seq<Seq<char>>, uri: Seq<char>) -> Option<int>
    decreases keys.len(),
{
    if keys.len() == 0 {
        None
    } else if wildcard_hit(keys.last(), uri) {
        Some(keys.len() - 1)
    } else {
        last_wildcard(keys.drop_last(), uri)
    }
}

/// The entry answering a definition request: an exact position entry
/// first, else the last matching bare-suffix entry.
pub open spec fn lookup_index(keys: Seq<Seq<char>>, uri: Seq<char>, line: u64, col: u64) -> Option<int> {
    match first_exact(keys, uri, line, col) {
        Some(k) => Some(k),
        None => last_wildcard(keys, uri),
    }
}

/// The keys of a definition table.
pub open spec fn def_keys(defs: Seq<(String, MockDefinition)>) -> Seq<Seq<char>> {
    defs.map_values(|e: (String, MockDefinition)| e.0@)
}

/// Executable [`exact_key`].
fn exact_key_exec(key: &[char]) -> (r: Option<(Vec<char>, u64, u64)>)
    ensures
        match r {
            Some((s, l, c)) => exact_key(key@) == Some((s@, l, c)),
            None => exact_key(key@) is None,
        },
{
    let colon = vec![':'];
    proof {
        reveal_strlit(":");
        assert(colon@ =~= ":"@);
        assert(colon@.len() == 1);
    }
    let cs = colon.as_slice();
    assert(cs@ == colon@);
    match rfind_sub_exec(key, cs) {
        None => None,
        Some(j) => {
            assert(j < key@.len());
            assert(key@.len() == key.len());
            let head = slice_range(key, 0, j);
            assert(head@ =~= key@.take(j as int));
            match rfind_sub_exec(head.as_slice(), cs) {
                None => None,
                Some(i) => {
                    let line_s = slice_range(head.as_slice(), i + 1, head.len());
                    let col_s = slice_range(key, j + 1, key.len());
                    assert(line_s@ =~= head@.skip(i + 1));
                    assert(col_s@ =~= key@.skip(j + 1));
                    match (parse_u64(line_s.as_slice()), parse_u64(col_s.as_slice())) {
                        (Some(l), Some(c)) => {
                            let suffix = slice_range(head.as_slice(), 0, i);
                            assert(suffix@ =~= head@.take(i as int));
                            Some((suffix, l, c))
                        },
                        _ => None,
                    }
                },
            }
        },
    }
}

/// Executable [`ends_with`].
fn ends_with_exec(s: &[char], suffix: &[char]) -> (r: bool)
    ensures
        r == ends_with(s@, suffix@),
{
    if suffix.len() > s.len() {
        return false;
    }
    let at = s.len() - suffix.len();
    let hit = matches_at(s, suffix, at);
    assert(s@.skip(at as int) =~= s@.subrange(at as int, at + suffix@.len()));
    hit
}

/// Match a definition request against the scenario's table: exact
/// `suffix:line:col` entries first, then bare-suffix entries.
pub fn lookup_definition<'s>(
    definitions: &'s Vec<(String, MockDefinition)>,
    uri: &str,
    line: u64,
    col: u64,
) -> (r: Option<&'s MockDefinition>)
    ensures
        match lookup_index(def_keys(definitions@), uri@, line, col) {
            Some(k) => 0 <= k < definitions@.len() && r == Some(&definitions@[k].1),
            None => r is None,
        },
{
    let ghost keys = def_keys(definitions@);
    let u = chars_of(uri);
    let mut wildcard: Option<usize> = None;
    let mut i: usize = 0;
    assert(keys.skip(0) =~= keys);
    while i < definitions.len()
        invariant
            i <= definitions@.len(),
            keys == def_keys(definitions@),
            u@ == uri@,
            first_exact(keys, uri@, line, col) == (match first_exact(
                keys.skip(i as int),
                uri@,
                line,
                col,
            ) {
                Some(k) => Some(k + i),
                None => None,
            }),
            match wildcard {
                Some(w) => last_wildcard(keys.take(i as int), uri@) == Some(w as int) && w < i,
                None => last_wildcard(keys.take(i as int), uri@) is None,
            },
        decreases definitions@.len() - i,
    {
        let key = chars_of(definitions[i].0.as_str());
        assert(keys.skip(i as int)[0] == key@);
        assert(keys.skip(i as int).drop_first() =~= keys.skip(i + 1));
        assert(keys.take(i + 1).drop_last() =~= keys.take(i as int));
        assert(keys.take(i + 1).last() == key@);
        match exact_key_exec(key.as_slice()) {
            Some((suffix, l, c)) => {
                if ends_with_exec(u.as_slice(), suffix.as_slice()) && l == line && c == col {
                    return Some(&definitions[i].1);
                }
            },
            None => {
                if ends_with_exec(u.as_slice(), key.as_slice()) {
                    wildcard = Some(i);
                }
            },
        }
        i = i + 1;
    }
    assert(keys.take(i as int) =~= keys);
    assert(keys.skip(i as int) =~= Seq::<Seq<char>>::empty());
    match wildcard {
        Some(w) => Some(&definitions[w].1),
        None => None,
    }
}

} // verus!
