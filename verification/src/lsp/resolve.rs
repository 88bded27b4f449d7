//! Resolving leftover cross-file references with the language server:
//! which unresolved edges take part and in what order, where to aim each
//! definition request, and whether the symbol found is the one the
//! reference names.

use vstd::prelude::*;

use vstd::string::StringSliceAdditionalSpecFns;
use vstd::utf8::encode_utf8;

use crate::lsp::{backend_decision, FileBackend, FileBackendView, LspManager};
use crate::rank::{lemma_str_lt_irreflexive, lemma_str_lt_total, lemma_str_lt_transitive};
use crate::rules::{str_less, str_lt};
use crate::text::{chars_eq, chars_of, str_eq, strs};

verus! {

/// Whether `n` occurs in `h` at byte position `i`.
pub open spec fn bytes_at(h: Seq<u8>, n: Seq<u8>, i: int) -> bool {
    0 <= i && i + n.len() <= h.len() && h.subrange(i, i + n.len()) == n
}

/// The first position at or after `from` where `n` occurs in `h`, or -1.
pub open spec fn first_at(h: Seq<u8>, n: Seq<u8>, from: int) -> int
    decreases h.len() + 1 - from,
{
    if from < 0 || from + n.len() > h.len() {
        -1
    } else if bytes_at(h, n, from) {
        from
    } else {
        first_at(h, n, from + 1)
    }
}

/// Walk the non-overlapping occurrences of `n` in `h` from `from` (as
/// `str::match_indices` does) and give the first one at or after `col`, or
/// `col` when there is none.
pub open spec fn callee_from(h: Seq<u8>, n: Seq<u8>, from: int, col: int) -> int
    decreases h.len() + 1 - from,
{
    let i = first_at(h, n, from);
    if n.len() == 0 || i < 0 || from < 0 || from > h.len() {
        col
    } else if i >= col {
        i
    } else if i + n.len() <= from {
        col
    } else {
        proof {
            lemma_first_at_bounds(h, n, from);
        }
        callee_from(h, n, i + n.len(), col)
    }
}

pub proof fn lemma_first_at_bounds(h: Seq<u8>, n: Seq<u8>, from: int)
    ensures
        first_at(h, n, from) == -1 || (from <= first_at(h, n, from) && first_at(h, n, from) + n.len()
            <= h.len() && bytes_at(h, n, first_at(h, n, from))),
    decreases h.len() + 1 - from,
{
    if !(from < 0 || from + n.len() > h.len()) && !bytes_at(h, n, from) {
        lemma_first_at_bounds(h, n, from + 1);
    }
}

/// The column (byte offset) of the callee identifier for a definition
/// request: the first occurrence of `target_name`, among the non-overlapping
/// occurrences of `line_text`, at or after the stored column; the stored
/// column when there is none or the name is empty.
pub open spec fn callee_column_of(line_text: Seq<char>, target_name: Seq<char>, stored_col: u32) -> u32 {
    if target_name.len() == 0 {
        stored_col
    } else {
        callee_from(encode_utf8(line_text), encode_utf8(target_name), 0, stored_col as int) as u32
    }
}

/// Whether `n` occurs in `h` at byte position `i` (executable).
fn bytes_match_at(h: &[u8], n: &[u8], i: usize) -> (r: bool)
    ensures
        r == bytes_at(h@, n@, i as int),
{
    if i > h.len() || n.len() > h.len() - i {
        return false;
    }
    let mut k: usize = 0;
    while k < n.len()
        invariant
            i + n@.len() <= h@.len(),
            h@.len() == h.len(),
            k <= n@.len(),
            forall|t: int| 0 <= t < k ==> h@[i + t] == n@[t],
        decreases n@.len() - k,
    {
        if h[i + k] != n[k] {
            assert(h@.subrange(i as int, i + n@.len())[k as int] != n@[k as int]);
            return false;
        }
        k = k + 1;
    }
    assert(h@.subrange(i as int, i + n@.len()) =~= n@);
    true
}

/// Column of the callee identifier for a definition request (see
/// [`callee_column_of`]). Byte-index based, like the columns the parsers
/// record.
pub fn callee_column(line_text: &str, target_name: &str, stored_col: u32) -> (r: u32)
    ensures
        r == callee_column_of(line_text@, target_name@, stored_col),
{
    let h = line_text.as_bytes();
    let n = target_name.as_bytes();
    if n.len() == 0 {
        assert(encode_utf8(target_name@).len() == 0);
        assert(target_name@.len() == 0) by {
            if target_name@.len() > 0 {
                assert(vstd::utf8::encode_scalar(target_name@[0] as u32).len() > 0);
            }
        }
        return stored_col;
    }
    assert(target_name@.len() > 0) by {
        if target_name@.len() == 0 {
            assert(encode_utf8(target_name@) =~= Seq::<u8>::empty());
        }
    }
    let ghost hs = h@;
    let ghost ns = n@;
    let mut from: usize = 0;
    let mut i: usize = 0;
    loop
        invariant
            hs == h@,
            ns == n@,
            hs == encode_utf8(line_text@),
            ns == encode_utf8(target_name@),
            target_name@.len() > 0,
            ns.len() > 0,
            from <= h@.len(),
            i <= h@.len(),
            i >= from,
            callee_from(hs, ns, 0, stored_col as int) == callee_from(hs, ns, from as int, stored_col as int),
            first_at(hs, ns, from as int) == first_at(hs, ns, i as int),
        decreases h@.len() - i,
    {
        if n.len() > h.len() - i {
            assert(first_at(hs, ns, i as int) == -1);
            assert(callee_from(hs, ns, from as int, stored_col as int) == stored_col);
            return stored_col;
        }
        if bytes_match_at(h, n, i) {
            assert(first_at(hs, ns, i as int) == i);
            if i as u64 >= stored_col as u64 {
                assert(callee_from(hs, ns, from as int, stored_col as int) == i);
                return i as u32;
            }
            assert(callee_from(hs, ns, from as int, stored_col as int) == callee_from(
                hs,
                ns,
                i + ns.len(),
                stored_col as int,
            ));
            from = i + n.len();
            i = from;
        } else {
            assert(first_at(hs, ns, i as int) == first_at(hs, ns, i + 1));
            i = i + 1;
        }
    }
}

/// Whether `c` ends with `t`.
pub open spec fn ends_with(c: Seq<char>, t: Seq<char>) -> bool {
    t.len() <= c.len() && c.skip(c.len() - t.len()) == t
}

/// Whether `candidate` names `target`: equal, or ending in `.target` or
/// `::target`.
pub open spec fn names_target(candidate: Seq<char>, target: Seq<char>) -> bool {
    candidate == target || ends_with(candidate, "."@ + target) || ends_with(candidate, "::"@ + target)
}

/// Whether a resolved symbol plausibly is the callee named by the edge.
pub open spec fn name_guard(name: Seq<char>, qualified_name: Option<Seq<char>>, target: Seq<char>) -> bool {
    target.len() > 0 && (names_target(name, target) || match qualified_name {
        Some(q) => names_target(q, target),
        None => false,
    })
}

/// Whether `c` ends with `t` (executable).
fn ends_with_exec(c: &[char], t: &[char]) -> (r: bool)
    ensures
        r == ends_with(c@, t@),
{
    if t.len() > c.len() {
        return false;
    }
    let start = c.len() - t.len();
    let tail = crate::text::slice_range(c, start, c.len());
    assert(tail@ =~= c@.skip(start as int));
    chars_eq(tail.as_slice(), t)
}

/// Whether `candidate` names `target` (executable).
fn names_target_exec(candidate: &str, target: &str) -> (r: bool)
    ensures
        r == names_target(candidate@, target@),
{
    let c = chars_of(candidate);
    let t = chars_of(target);
    let mut dot: Vec<char> = vec!['.'];
    let mut path: Vec<char> = vec![':', ':'];
    let mut k: usize = 0;
    while k < t.len()
        invariant
            k <= t@.len(),
            dot@ == seq!['.'] + t@.take(k as int),
            path@ == seq![':', ':'] + t@.take(k as int),
        decreases t@.len() - k,
    {
        dot.push(t[k]);
        path.push(t[k]);
        assert(t@.take(k + 1) =~= t@.take(k as int).push(t@[k as int]));
        k = k + 1;
    }
    proof {
        reveal_strlit(".");
        reveal_strlit("::");
        assert(t@.take(k as int) =~= t@);
        assert(dot@ =~= "."@ + target@);
        assert(path@ =~= "::"@ + target@);
    }
    chars_eq(c.as_slice(), t.as_slice()) || ends_with_exec(c.as_slice(), dot.as_slice())
        || ends_with_exec(c.as_slice(), path.as_slice())
}

/// Whether a resolved symbol plausibly is the callee named by the edge:
/// exact name match, or a qualified tail match (`X.name` / `X::name`) of
/// the name or the qualified name. An empty target never matches.
pub fn name_matches(name: &str, qualified_name: Option<&str>, target_name: &str) -> (r: bool)
    ensures
        r == name_guard(
            name@,
            match qualified_name {
                Some(q) => Some(q@),
                None => None,
            },
            target_name@,
        ),
{
    if target_name.is_empty() {
        return false;
    }
    names_target_exec(name, target_name) || match qualified_name {
        Some(q) => names_target_exec(q, target_name),
        None => false,
    }
}

// ---------------------------------------------------------------------------
// Which edges take part
// ---------------------------------------------------------------------------

/// An edge whose target is still unknown, with its call site.
#[derive(Debug)]
pub struct UnresolvedEdge {
    pub edge_id: i64,
    /// The index-relative path of the file holding the call.
    pub source_file: String,
    /// 1-based line of the call.
    pub line: u32,
    /// 0-based column of the call.
    pub col: u32,
    pub target_name: String,
}

/// A call site to resolve: edge id, line, column and callee name.
pub type EdgeSite = (i64, u32, u32, String);

/// The abstract value of a call site.
pub type EdgeSiteView = (i64, u32, u32, Seq<char>);

/// A table keyed by text in ascending key order: the entry for `key` is
/// replaced by `update` of its value, or, when there is none, `(key,
/// fresh)` is inserted in its place.
pub open spec fn upsert_sorted<V>(
    t: Seq<(Seq<char>, V)>,
    key: Seq<char>,
    fresh: V,
    update: spec_fn(V) -> V,
) -> Seq<(Seq<char>, V)>
    decreases t.len(),
{
    if t.len() == 0 {
        seq![(key, fresh)]
    } else if t[0].0 == key {
        seq![(key, update(t[0].1))] + t.skip(1)
    } else if str_lt(key, t[0].0) {
        seq![(key, fresh)] + t
    } else {
        seq![t[0]] + upsert_sorted(t.skip(1), key, fresh, update)
    }
}

/// Whether the keys of a table are strictly ascending.
pub open spec fn keys_ascending<V>(t: Seq<(Seq<char>, V)>) -> bool {
    forall|i: int, j: int| 0 <= i < j < t.len() ==> str_lt(#[trigger] t[i].0, #[trigger] t[j].0)
}

/// The sites of one file, in order, added per file in ascending path order.
pub open spec fn add_site(
    files: Seq<(Seq<char>, Seq<EdgeSiteView>)>,
    file: Seq<char>,
    site: EdgeSiteView,
) -> Seq<(Seq<char>, Seq<EdgeSiteView>)> {
    upsert_sorted(files, file, seq![site], |s: Seq<EdgeSiteView>| s.push(site))
}

/// The sites grouped per language (ascending) and per file (ascending).
pub open spec fn add_grouped(
    groups: Seq<(Seq<char>, Seq<(Seq<char>, Seq<EdgeSiteView>)>)>,
    language: Seq<char>,
    file: Seq<char>,
    site: EdgeSiteView,
) -> Seq<(Seq<char>, Seq<(Seq<char>, Seq<EdgeSiteView>)>)> {
    upsert_sorted(
        groups,
        language,
        seq![(file, seq![site])],
        |fs: Seq<(Seq<char>, Seq<EdgeSiteView>)>| add_site(fs, file, site),
    )
}

/// The abstract value of an unresolved edge: file, and site.
pub open spec fn unresolved_view(e: UnresolvedEdge) -> (Seq<char>, EdgeSiteView) {
    (e.source_file@, (e.edge_id, e.line, e.col, e.target_name@))
}

/// The edges that reference resolution works on, grouped per language and
/// per file in ascending order, each file's sites in order: those of the
/// changed files whose backend is `lsp` or `hybrid`.
pub open spec fn stage_b_groups(
    servers: Seq<(Seq<char>, crate::lsp::config::LspServerConfigView)>,
    claims: Seq<(Seq<char>, Seq<char>)>,
    changed: Seq<Seq<char>>,
    edges: Seq<UnresolvedEdge>,
) -> Seq<(Seq<char>, Seq<(Seq<char>, Seq<EdgeSiteView>)>)>
    decreases edges.len(),
{
    if edges.len() == 0 {
        seq![]
    } else {
        let g = stage_b_groups(servers, claims, changed, edges.drop_last());
        let (file, site) = unresolved_view(edges.last());
        if !changed.contains(file) {
            g
        } else {
            match backend_decision(servers, claims, file) {
                FileBackendView::Lsp(l) => add_grouped(g, l, file, site),
                FileBackendView::Hybrid(l) => add_grouped(g, l, file, site),
                _ => g,
            }
        }
    }
}

/// The position at which a key goes in a table with ascending keys: every
/// entry before it has a smaller key, the entry at it (if any) does not.
pub open spec fn slot_of<V>(t: Seq<(Seq<char>, V)>, key: Seq<char>, k: int) -> bool {
    &&& 0 <= k <= t.len()
    &&& forall|i: int| 0 <= i < k ==> str_lt(#[trigger] t[i].0, key)
    &&& k < t.len() ==> !str_lt(t[k].0, key)
}

/// Upserting at the slot of the key replaces or inserts there, and keeps
/// the keys ascending.
proof fn lemma_upsert_at<V>(
    t: Seq<(Seq<char>, V)>,
    key: Seq<char>,
    fresh: V,
    update: spec_fn(V) -> V,
    k: int,
)
    requires
        keys_ascending(t),
        slot_of(t, key, k),
    ensures
        k < t.len() && t[k].0 == key ==> upsert_sorted(t, key, fresh, update) == t.take(k) + seq![
            (key, update(t[k].1)),
        ] + t.skip(k + 1),
        !(k < t.len() && t[k].0 == key) ==> upsert_sorted(t, key, fresh, update) == t.take(k) + seq![
            (key, fresh),
        ] + t.skip(k),
        keys_ascending(upsert_sorted(t, key, fresh, update)),
    decreases k,
{
    let r = upsert_sorted(t, key, fresh, update);
    if k == 0 {
        if t.len() == 0 {
            assert(r =~= t.take(0) + seq![(key, fresh)] + t.skip(0));
        } else if t[0].0 == key {
            assert(r =~= t.take(0) + seq![(key, update(t[0].1))] + t.skip(1));
            assert forall|i: int, j: int| 0 <= i < j < r.len() implies str_lt(#[trigger] r[i].0, #[trigger] r[j].0) by {
                if i == 0 {
                    assert(r[j] == t[j]);
                    assert(str_lt(t[0].0, t[j].0));
                } else {
                    assert(r[i] == t[i] && r[j] == t[j]);
                }
            }
        } else {
            lemma_str_lt_total(key, t[0].0);
            assert(str_lt(key, t[0].0));
            assert(r =~= t.take(0) + seq![(key, fresh)] + t.skip(0));
            assert forall|i: int, j: int| 0 <= i < j < r.len() implies str_lt(#[trigger] r[i].0, #[trigger] r[j].0) by {
                if i == 0 {
                    assert(r[j] == t[j - 1]);
                    if j - 1 > 0 {
                        assert(str_lt(t[0].0, t[j - 1].0));
                        lemma_str_lt_transitive(key, t[0].0, t[j - 1].0);
                    }
                } else {
                    assert(r[i] == t[i - 1] && r[j] == t[j - 1]);
                }
            }
        }
    } else {
        assert(str_lt(t[0].0, key));
        lemma_str_lt_irreflexive(key);
        assert(t[0].0 != key);
        if str_lt(key, t[0].0) {
            lemma_str_lt_transitive(key, t[0].0, key);
        }
        let rest = t.skip(1);
        assert(keys_ascending(rest)) by {
            assert forall|i: int, j: int| 0 <= i < j < rest.len() implies str_lt(#[trigger] rest[i].0, #[trigger] rest[j].0) by {
                assert(rest[i] == t[i + 1] && rest[j] == t[j + 1]);
            }
        }
        assert(slot_of(rest, key, k - 1)) by {
            assert forall|i: int| 0 <= i < k - 1 implies str_lt(#[trigger] rest[i].0, key) by {
                assert(rest[i] == t[i + 1]);
            }
            if k - 1 < rest.len() {
                assert(rest[k - 1] == t[k]);
            }
        }
        lemma_upsert_at(rest, key, fresh, update, k - 1);
        let rr = upsert_sorted(rest, key, fresh, update);
        assert(r == seq![t[0]] + rr);
        if k < t.len() && t[k].0 == key {
            assert(rest[k - 1] == t[k]);
            assert(r =~= t.take(k) + seq![(key, update(t[k].1))] + t.skip(k + 1));
        } else {
            if k - 1 < rest.len() {
                assert(rest[k - 1] == t[k]);
            }
            assert(r =~= t.take(k) + seq![(key, fresh)] + t.skip(k));
        }
        assert forall|i: int, j: int| 0 <= i < j < r.len() implies str_lt(#[trigger] r[i].0, #[trigger] r[j].0) by {
            if i == 0 {
                assert(r[j] == rr[j - 1]);
                // rr's keys are t's keys after the first, and maybe `key`.
                if k < t.len() && t[k].0 == key {
                    assert(rr =~= rest.take(k - 1) + seq![(key, update(t[k].1))] + rest.skip(k));
                } else {
                    assert(rr =~= rest.take(k - 1) + seq![(key, fresh)] + rest.skip(k - 1));
                }
                if rr[j - 1].0 == key {
                } else {
                    if j - 1 < k - 1 {
                        assert(rr[j - 1] == rest[j - 1]);
                        assert(rest[j - 1] == t[j]);
                    } else if k < t.len() && t[k].0 == key {
                        assert(rr[j - 1] == rest[j - 1]);
                        assert(rest[j - 1] == t[j]);
                    } else {
                        assert(rr[j - 1] == rest[j - 2]);
                        assert(rest[j - 2] == t[j - 1]);
                    }
                }
            } else {
                assert(r[i] == rr[i - 1] && r[j] == rr[j - 1]);
            }
        }
    }
}

/// The abstract values of call sites.
pub open spec fn sites_view(v: Seq<EdgeSite>) -> Seq<EdgeSiteView> {
    v.map_values(|s: EdgeSite| (s.0, s.1, s.2, s.3@))
}

/// The abstract value of a per-file table.
pub open spec fn files_view(v: Seq<(String, Vec<EdgeSite>)>) -> Seq<(Seq<char>, Seq<EdgeSiteView>)> {
    v.map_values(|f: (String, Vec<EdgeSite>)| (f.0@, sites_view(f.1@)))
}

/// The abstract value of a per-language table.
pub open spec fn groups_view(v: Seq<(String, Vec<(String, Vec<EdgeSite>)>)>) -> Seq<
    (Seq<char>, Seq<(Seq<char>, Seq<EdgeSiteView>)>),
> {
    v.map_values(|g: (String, Vec<(String, Vec<EdgeSite>)>)| (g.0@, files_view(g.1@)))
}

/// Whether a per-language table and each of its per-file tables have
/// ascending keys.
pub open spec fn groups_ordered(g: Seq<(Seq<char>, Seq<(Seq<char>, Seq<EdgeSiteView>)>)>) -> bool {
    &&& keys_ascending(g)
    &&& forall|i: int| 0 <= i < g.len() ==> keys_ascending(#[trigger] g[i].1)
}

/// The position at which `key` goes in a table with ascending keys.
fn find_slot<V>(t: &Vec<(String, V)>, key: &str) -> (k: usize)
    ensures
        k <= t@.len(),
        forall|i: int| 0 <= i < k ==> str_lt((#[trigger] t@[i]).0@, key@),
        k < t@.len() ==> !str_lt(t@[k as int].0@, key@),
{
    let mut k: usize = 0;
    while k < t.len() && str_less(t[k].0.as_str(), key)
        invariant
            k <= t@.len(),
            forall|i: int| 0 <= i < k ==> str_lt((#[trigger] t@[i]).0@, key@),
        decreases t@.len() - k,
    {
        k = k + 1;
    }
    k
}

/// Add a site to a per-file table (see [`add_site`]).
fn add_site_exec(files: &mut Vec<(String, Vec<EdgeSite>)>, file: &str, site: EdgeSite)
    requires
        keys_ascending(files_view(old(files)@)),
    ensures
        files_view(final(files)@) == add_site(
            files_view(old(files)@),
            file@,
            (site.0, site.1, site.2, site.3@),
        ),
        keys_ascending(files_view(final(files)@)),
{
    let ghost t = files_view(files@);
    let ghost sv = (site.0, site.1, site.2, site.3@);
    let k = find_slot(files, file);
    proof {
        assert forall|i: int| 0 <= i < k implies str_lt(#[trigger] t[i].0, file@) by {
            assert(t[i].0 == files@[i].0@);
        }
        if k < t.len() {
            assert(t[k as int].0 == files@[k as int].0@);
        }
        assert(slot_of(t, file@, k as int));
        lemma_upsert_at(t, file@, seq![sv], |s: Seq<EdgeSiteView>| s.push(sv), k as int);
    }
    let ghost old_files = files@;
    if k < files.len() && str_eq(files[k].0.as_str(), file) {
        let (f, mut sites) = files.remove(k);
        let ghost old_sites = sites@;
        sites.push(site);
        assert(sites_view(sites@) =~= sites_view(old_sites).push(sv));
        files.insert(k, (f, sites));
        assert(files_view(files@) =~= t.take(k as int) + seq![(file@, t[k as int].1.push(sv))] + t.skip(
            k + 1,
        ));
    } else {
        let fresh = vec![site];
        assert(sites_view(fresh@) =~= seq![sv]);
        files.insert(k, (file.to_string(), fresh));
        assert(files_view(files@) =~= t.take(k as int) + seq![(file@, seq![sv])] + t.skip(k as int));
    }
}

/// Add a site to the per-language table (see [`add_grouped`]).
fn add_grouped_exec(
    groups: &mut Vec<(String, Vec<(String, Vec<EdgeSite>)>)>,
    language: &str,
    file: &str,
    site: EdgeSite,
)
    requires
        groups_ordered(groups_view(old(groups)@)),
    ensures
        groups_view(final(groups)@) == add_grouped(
            groups_view(old(groups)@),
            language@,
            file@,
            (site.0, site.1, site.2, site.3@),
        ),
        groups_ordered(groups_view(final(groups)@)),
{
    let ghost g = groups_view(groups@);
    let ghost sv = (site.0, site.1, site.2, site.3@);
    let ghost upd = |fs: Seq<(Seq<char>, Seq<EdgeSiteView>)>| add_site(fs, file@, sv);
    let k = find_slot(groups, language);
    proof {
        assert forall|i: int| 0 <= i < k implies str_lt(#[trigger] g[i].0, language@) by {
            assert(g[i].0 == groups@[i].0@);
        }
        if k < g.len() {
            assert(g[k as int].0 == groups@[k as int].0@);
        }
        assert(slot_of(g, language@, k as int));
        lemma_upsert_at(g, language@, seq![(file@, seq![sv])], upd, k as int);
    }
    if k < groups.len() && str_eq(groups[k].0.as_str(), language) {
        let (l, mut files) = groups.remove(k);
        assert(files_view(files@) == g[k as int].1);
        add_site_exec(&mut files, file, site);
        groups.insert(k, (l, files));
        assert(groups_view(groups@) =~= g.take(k as int) + seq![(language@, upd(g[k as int].1))]
            + g.skip(k + 1));
        assert forall|i: int| 0 <= i < groups_view(groups@).len() implies keys_ascending(
            #[trigger] groups_view(groups@)[i].1,
        ) by {
            if i != k {
                if i < k {
                    assert(groups_view(groups@)[i] == g[i]);
                } else {
                    assert(groups_view(groups@)[i] == g[i]);
                }
            }
        }
    } else {
        let mut files: Vec<(String, Vec<EdgeSite>)> = Vec::new();
        let fresh = vec![site];
        assert(sites_view(fresh@) =~= seq![sv]);
        files.push((file.to_string(), fresh));
        assert(files_view(files@) =~= seq![(file@, seq![sv])]);
        groups.insert(k, (language.to_string(), files));
        assert(groups_view(groups@) =~= g.take(k as int) + seq![(language@, seq![(file@, seq![sv])])]
            + g.skip(k as int));
        assert forall|i: int| 0 <= i < groups_view(groups@).len() implies keys_ascending(
            #[trigger] groups_view(groups@)[i].1,
        ) by {
            if i < k {
                assert(groups_view(groups@)[i] == g[i]);
            } else if i > k {
                assert(groups_view(groups@)[i] == g[i - 1]);
            }
        }
    }
}

fn contains_str(v: &Vec<String>, s: &str) -> (r: bool)
    ensures
        r == strs(v@).contains(s@),
{
    let mut i: usize = 0;
    while i < v.len()
        invariant
            i <= v@.len(),
            forall|j: int| 0 <= j < i ==> v@[j]@ != s@,
        decreases v@.len() - i,
    {
        if str_eq(v[i].as_str(), s) {
            assert(strs(v@)[i as int] == s@);
            return true;
        }
        i = i + 1;
    }
    assert forall|j: int| 0 <= j < strs(v@).len() implies strs(v@)[j] != s@ by {
        assert(strs(v@)[j] == v@[j]@);
    }
    false
}

/// The edges that reference resolution works on, grouped per language and
/// per file (see [`stage_b_groups`]); `changed` holds the index-relative
/// paths of the files changed in this run.
pub fn group_unresolved(
    mgr: &LspManager,
    changed: &Vec<String>,
    edges: &Vec<UnresolvedEdge>,
) -> (r: Vec<(String, Vec<(String, Vec<EdgeSite>)>)>)
    requires
        mgr.wf(),
    ensures
        groups_view(r@) == stage_b_groups(mgr.servers_spec(), mgr.claims_spec(), strs(changed@), edges@),
{
    let mut groups: Vec<(String, Vec<(String, Vec<EdgeSite>)>)> = Vec::new();
    let mut i: usize = 0;
    while i < edges.len()
        invariant
            i <= edges@.len(),
            mgr.wf(),
            groups_ordered(groups_view(groups@)),
            groups_view(groups@) == stage_b_groups(
                mgr.servers_spec(),
                mgr.claims_spec(),
                strs(changed@),
                edges@.take(i as int),
            ),
        decreases edges@.len() - i,
    {
        assert(edges@.take(i + 1).drop_last() =~= edges@.take(i as int));
        let e = &edges[i];
        if contains_str(changed, e.source_file.as_str()) {
            let site = (e.edge_id, e.line, e.col, e.target_name.clone());
            match mgr.backend_for(e.source_file.as_str()) {
                FileBackend::Lsp(l) => {
                    add_grouped_exec(&mut groups, l.as_str(), e.source_file.as_str(), site);
                },
                FileBackend::Hybrid(l) => {
                    add_grouped_exec(&mut groups, l.as_str(), e.source_file.as_str(), site);
                },
                _ => {},
            }
        }
        i = i + 1;
    }
    assert(edges@.take(i as int) =~= edges@);
    groups
}

/// The 0-based line of a 1-based one (0 stays 0).
pub open spec fn line0(line: u32) -> u32 {
    if line == 0 {
        0
    } else {
        (line - 1) as u32
    }
}

/// Where to ask for the definition of a call at (`line`, `col`) to
/// `target_name`, given the lines of its file: the call's 0-based line,
/// and the column of the callee on that line (see [`callee_column_of`]),
/// or the stored column when the file has no such line.
pub open spec fn definition_position_of(lines: Seq<Seq<char>>, line: u32, col: u32, target_name: Seq<char>) -> (
    u32,
    u32,
) {
    let l = line0(line);
    (
        l,
        if l < lines.len() {
            callee_column_of(lines[l as int], target_name, col)
        } else {
            col
        },
    )
}

/// The position of a definition request (see [`definition_position_of`]).
pub fn definition_position(lines: &Vec<String>, line: u32, col: u32, target_name: &str) -> (r: (u32, u32))
    ensures
        r == definition_position_of(strs(lines@), line, col, target_name@),
{
    let l: u32 = if line == 0 {
        0
    } else {
        line - 1
    };
    if (l as usize) < lines.len() {
        assert(strs(lines@)[l as int] == lines@[l as int]@);
        (l, callee_column(lines[l as usize].as_str(), target_name, col))
    } else {
        (l, col)
    }
}

proof fn lemma_slot_exists<V>(t: Seq<(Seq<char>, V)>, key: Seq<char>) -> (k: int)
    ensures
        slot_of(t, key, k),
    decreases t.len(),
{
    if t.len() == 0 || !str_lt(t[0].0, key) {
        0
    } else {
        let k = lemma_slot_exists(t.skip(1), key);
        assert forall|i: int| 0 <= i < k + 1 implies str_lt(#[trigger] t[i].0, key) by {
            if i > 0 {
                assert(t[i] == t.skip(1)[i - 1]);
            }
        }
        if k + 1 < t.len() {
            assert(t[k + 1] == t.skip(1)[k]);
        }
        k + 1
    }
}

proof fn lemma_add_grouped_ordered(
    g: Seq<(Seq<char>, Seq<(Seq<char>, Seq<EdgeSiteView>)>)>,
    language: Seq<char>,
    file: Seq<char>,
    site: EdgeSiteView,
)
    requires
        groups_ordered(g),
    ensures
        groups_ordered(add_grouped(g, language, file, site)),
{
    let upd = |fs: Seq<(Seq<char>, Seq<EdgeSiteView>)>| add_site(fs, file, site);
    let k = lemma_slot_exists(g, language);
    lemma_upsert_at(g, language, seq![(file, seq![site])], upd, k);
    let r = add_grouped(g, language, file, site);
    if k < g.len() && g[k].0 == language {
        let fs = g[k].1;
        let j = lemma_slot_exists(fs, file);
        lemma_upsert_at(fs, file, seq![site], |s: Seq<EdgeSiteView>| s.push(site), j);
        assert(r == g.take(k) + seq![(language, upd(g[k].1))] + g.skip(k + 1));
        assert forall|i: int| 0 <= i < r.len() implies keys_ascending(#[trigger] r[i].1) by {
            if i < k {
                assert(r[i] == g[i]);
            } else if i > k {
                assert(r[i] == g[i]);
            }
        }
    } else {
        assert(r == g.take(k) + seq![(language, seq![(file, seq![site])])] + g.skip(k));
        assert forall|i: int| 0 <= i < r.len() implies keys_ascending(#[trigger] r[i].1) by {
            if i < k {
                assert(r[i] == g[i]);
            } else if i > k {
                assert(r[i] == g[i - 1]);
            }
        }
    }
}

/// Reference resolution visits languages in ascending order, and each
/// language's files in ascending path order, each at most once.
pub proof fn law_stage_b_groups_are_ordered(
    servers: Seq<(Seq<char>, crate::lsp::config::LspServerConfigView)>,
    claims: Seq<(Seq<char>, Seq<char>)>,
    changed: Seq<Seq<char>>,
    edges: Seq<UnresolvedEdge>,
)
    ensures
        groups_ordered(stage_b_groups(servers, claims, changed, edges)),
    decreases edges.len(),
{
    if edges.len() > 0 {
        law_stage_b_groups_are_ordered(servers, claims, changed, edges.drop_last());
        let g = stage_b_groups(servers, claims, changed, edges.drop_last());
        let (file, site) = unresolved_view(edges.last());
        match backend_decision(servers, claims, file) {
            FileBackendView::Lsp(l) => lemma_add_grouped_ordered(g, l, file, site),
            FileBackendView::Hybrid(l) => lemma_add_grouped_ordered(g, l, file, site),
            _ => {},
        }
    }
}

} // verus!
