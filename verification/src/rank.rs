//! The graph that symbol ranking runs on.
//!
//! Ranking walks the reference graph between symbols in a fixed order:
//! nodes are the symbol ids in ascending order, and each node's outgoing
//! edges are its distinct targets in ascending order, stored as a
//! compressed adjacency (row offsets into one target array). Edges whose
//! ends are not known symbols are ignored.

use vstd::prelude::*;

use crate::rules::{str_less, str_lt};
use crate::text::{str_eq, strs};

verus! {

// ---------------------------------------------------------------------------
// The order of ids
// ---------------------------------------------------------------------------

/// No text sorts before itself.
pub proof fn lemma_str_lt_irreflexive(a: Seq<char>)
    ensures
        !str_lt(a, a),
    decreases a.len(),
{
    if a.len() > 0 {
        lemma_str_lt_irreflexive(a.skip(1));
    }
}

/// The order of texts is transitive.
pub proof fn lemma_str_lt_transitive(a: Seq<char>, b: Seq<char>, c: Seq<char>)
    requires
        str_lt(a, b),
        str_lt(b, c),
    ensures
        str_lt(a, c),
    decreases a.len(),
{
    if a.len() > 0 && b.len() > 0 && c.len() > 0 && a[0] == b[0] && b[0] == c[0] {
        lemma_str_lt_transitive(a.skip(1), b.skip(1), c.skip(1));
    }
}

/// Of two different texts, one sorts before the other.
pub proof fn lemma_str_lt_total(a: Seq<char>, b: Seq<char>)
    ensures
        a == b || str_lt(a, b) || str_lt(b, a),
    decreases a.len(),
{
    if a.len() > 0 && b.len() > 0 && a[0] == b[0] {
        lemma_str_lt_total(a.skip(1), b.skip(1));
        if a.skip(1) == b.skip(1) {
            assert(a =~= seq![a[0]] + a.skip(1));
            assert(b =~= seq![b[0]] + b.skip(1));
        }
    } else if a.len() == 0 && b.len() == 0 {
        assert(a =~= b);
    } else if a.len() > 0 && b.len() > 0 {
        let (x, y) = (a[0], b[0]);
        if (x as u32) == (y as u32) {
            vstd::utf8::char_u32_cast(x, x as u32);
            vstd::utf8::char_u32_cast(y, y as u32);
        }
    }
}

/// Whether texts are in ascending order (equal neighbours allowed).
pub open spec fn ascending(ids: Seq<Seq<char>>) -> bool {
    forall|i: int, j: int| 0 <= i < j < ids.len() ==> !str_lt(#[trigger] ids[j], #[trigger] ids[i])
}

/// The position of `id` among `ids`: the last one holding it (a later
/// entry replaces an earlier one, as when ids are collected into a map).
pub open spec fn position_of(ids: Seq<Seq<char>>, id: Seq<char>) -> Option<int>
    decreases ids.len(),
{
    if ids.len() == 0 {
        None
    } else if ids.last() == id {
        Some(ids.len() - 1)
    } else {
        position_of(ids.drop_last(), id)
    }
}

proof fn lemma_position_of(ids: Seq<Seq<char>>, id: Seq<char>)
    ensures
        match position_of(ids, id) {
            Some(k) => 0 <= k < ids.len() && ids[k] == id && forall|i: int|
                k < i < ids.len() ==> ids[i] != id,
            None => forall|i: int| 0 <= i < ids.len() ==> ids[i] != id,
        },
    decreases ids.len(),
{
    if ids.len() > 0 && ids.last() != id {
        lemma_position_of(ids.drop_last(), id);
        assert forall|i: int| 0 <= i < ids.len() - 1 implies ids[i] == ids.drop_last()[i] by {}
    }
}

/// The position of `id` among ascending `ids` (see [`position_of`]), by
/// binary search.
pub fn find_position(ids: &Vec<String>, id: &str) -> (r: Option<usize>)
    requires
        ascending(strs(ids@)),
    ensures
        match r {
            Some(k) => position_of(strs(ids@), id@) == Some(k as int),
            None => position_of(strs(ids@), id@) is None,
        },
{
    let ghost v = strs(ids@);
    let mut lo: usize = 0;
    let mut hi: usize = ids.len();
    while lo < hi
        invariant
            v == strs(ids@),
            ascending(v),
            lo <= hi <= ids@.len(),
            forall|i: int| 0 <= i < lo ==> !str_lt(id@, #[trigger] v[i]),
            forall|i: int| hi <= i < ids@.len() ==> str_lt(id@, #[trigger] v[i]),
        decreases hi - lo,
    {
        let mid: usize = lo + (hi - lo) / 2;
        if str_less(id, ids[mid].as_str()) {
            assert forall|i: int| mid <= i < ids@.len() implies str_lt(id@, #[trigger] v[i]) by {
                if i > mid {
                    assert(!str_lt(v[i], v[mid as int]));
                    lemma_str_lt_total(v[i], v[mid as int]);
                    if v[i] != v[mid as int] {
                        lemma_str_lt_transitive(id@, v[mid as int], v[i]);
                    }
                }
            }
            hi = mid;
        } else {
            assert forall|i: int| 0 <= i < mid + 1 implies !str_lt(id@, #[trigger] v[i]) by {
                if i < mid && str_lt(id@, v[i]) {
                    assert(!str_lt(v[mid as int], v[i]));
                    lemma_str_lt_total(v[i], v[mid as int]);
                    if v[i] != v[mid as int] {
                        lemma_str_lt_transitive(id@, v[i], v[mid as int]);
                    }
                }
            }
            lo = mid + 1;
        }
    }
    proof {
        lemma_position_of(v, id@);
        assert forall|i: int| lo <= i < v.len() implies v[i] != id@ by {
            lemma_str_lt_irreflexive(id@);
        }
    }
    if lo > 0 && str_eq(ids[lo - 1].as_str(), id) {
        assert(v[lo - 1] == id@);
        Some(lo - 1)
    } else {
        proof {
            assert(lo > 0 ==> v[lo - 1] == ids@[lo - 1]@);
            assert forall|i: int| 0 <= i < v.len() implies v[i] != id@ by {
                if i < lo && v[i] == id@ {
                    let last = lo - 1;
                    assert(!str_lt(v[last], v[i]));
                    assert(!str_lt(id@, v[last]));
                    lemma_str_lt_total(v[last], id@);
                }
            }
        }
        None
    }
}

// ---------------------------------------------------------------------------
// Edges between positions
// ---------------------------------------------------------------------------

/// The texts of id pairs.
pub open spec fn pairs_text(v: Seq<(String, String)>) -> Seq<(Seq<char>, Seq<char>)> {
    v.map_values(|p: (String, String)| (p.0@, p.1@))
}

/// Position pairs as integers.
pub open spec fn positions_view(v: Seq<(usize, usize)>) -> Seq<(int, int)> {
    v.map_values(|p: (usize, usize)| (p.0 as int, p.1 as int))
}

/// The edges whose ends are both among `ids`, as (source, target)
/// positions, in order.
pub open spec fn edge_positions(ids: Seq<Seq<char>>, edges: Seq<(Seq<char>, Seq<char>)>) -> Seq<
    (int, int),
>
    decreases edges.len(),
{
    if edges.len() == 0 {
        seq![]
    } else {
        edge_positions(ids, edges.drop_last()) + match (
            position_of(ids, edges.last().0),
            position_of(ids, edges.last().1),
        ) {
            (Some(s), Some(t)) => seq![(s, t)],
            _ => seq![],
        }
    }
}

/// The edges between known ids as position pairs (see [`edge_positions`]).
pub fn edge_pairs(ids: &Vec<String>, edges: &Vec<(String, String)>) -> (r: Vec<(usize, usize)>)
    requires
        ascending(strs(ids@)),
    ensures
        positions_view(r@) == edge_positions(strs(ids@), pairs_text(edges@)),
        forall|k: int| 0 <= k < r@.len() ==> (#[trigger] r@[k]).0 < ids@.len() && r@[k].1 < ids@.len(),
{
    let ghost ev = pairs_text(edges@);
    let mut out: Vec<(usize, usize)> = Vec::new();
    let mut i: usize = 0;
    while i < edges.len()
        invariant
            i <= edges@.len(),
            ascending(strs(ids@)),
            ev == pairs_text(edges@),
            positions_view(out@) == edge_positions(strs(ids@), ev.take(i as int)),
            forall|k: int| 0 <= k < out@.len() ==> (#[trigger] out@[k]).0 < ids@.len() && out@[k].1 < ids@.len(),
        decreases edges@.len() - i,
    {
        assert(ev.take(i + 1).drop_last() =~= ev.take(i as int));
        assert(ev[i as int] == (edges@[i as int].0@, edges@[i as int].1@));
        let s = find_position(ids, edges[i].0.as_str());
        let t = find_position(ids, edges[i].1.as_str());
        proof {
            lemma_position_of(strs(ids@), edges@[i as int].0@);
            lemma_position_of(strs(ids@), edges@[i as int].1@);
        }
        let ghost before = out@;
        match (s, t) {
            (Some(a), Some(b)) => {
                out.push((a, b));
                assert(positions_view(out@) =~= positions_view(before) + seq![(a as int, b as int)]);
            },
            _ => {},
        }
        assert(positions_view(out@) =~= edge_positions(strs(ids@), ev.take(i + 1)));
        i = i + 1;
    }
    assert(ev.take(i as int) =~= ev);
    out
}

// ---------------------------------------------------------------------------
// Sorting position pairs
// ---------------------------------------------------------------------------

/// The order of position pairs: by source, then by target.
pub open spec fn pair_lt(p: (usize, usize), q: (usize, usize)) -> bool {
    p.0 < q.0 || (p.0 == q.0 && p.1 < q.1)
}

/// Whether pairs are strictly ascending (hence distinct).
pub open spec fn strictly_ascending(v: Seq<(usize, usize)>) -> bool {
    forall|i: int, j: int| 0 <= i < j < v.len() ==> pair_lt(#[trigger] v[i], #[trigger] v[j])
}

fn merge(a: Vec<(usize, usize)>, b: Vec<(usize, usize)>) -> (r: Vec<(usize, usize)>)
    requires
        strictly_ascending(a@),
        strictly_ascending(b@),
    ensures
        strictly_ascending(r@),
        r@.to_set() == a@.to_set() + b@.to_set(),
{
    let mut out: Vec<(usize, usize)> = Vec::new();
    let mut i: usize = 0;
    let mut j: usize = 0;
    while i < a.len() || j < b.len()
        invariant
            i <= a@.len(),
            j <= b@.len(),
            strictly_ascending(a@),
            strictly_ascending(b@),
            strictly_ascending(out@),
            out@.to_set() == a@.take(i as int).to_set() + b@.take(j as int).to_set(),
            out@.len() > 0 ==> (i < a@.len() ==> pair_lt(out@.last(), a@[i as int])),
            out@.len() > 0 ==> (j < b@.len() ==> pair_lt(out@.last(), b@[j as int])),
        decreases a@.len() + b@.len() - i - j,
    {
        let ghost before = out@;
        let take_a = i < a.len() && (j >= b.len() || a[i].0 < b[j].0 || (a[i].0 == b[j].0
            && a[i].1 <= b[j].1));
        if take_a {
            let x = a[i];
            let same = j < b.len() && b[j].0 == x.0 && b[j].1 == x.1;
            out.push(x);
            assert(a@.take(i + 1) =~= a@.take(i as int).push(x));
            proof {
                a@.take(i as int).lemma_push_to_set_commute(x);
                before.lemma_push_to_set_commute(x);
            }
            if same {
                assert(b@.take(j + 1) =~= b@.take(j as int).push(x));
                proof {
                    b@.take(j as int).lemma_push_to_set_commute(x);
                }
                j = j + 1;
            }
            i = i + 1;
            assert(out@.to_set() =~= a@.take(i as int).to_set() + b@.take(j as int).to_set());
        } else {
            let x = b[j];
            out.push(x);
            assert(b@.take(j + 1) =~= b@.take(j as int).push(x));
            proof {
                b@.take(j as int).lemma_push_to_set_commute(x);
                before.lemma_push_to_set_commute(x);
            }
            j = j + 1;
            assert(out@.to_set() =~= a@.take(i as int).to_set() + b@.take(j as int).to_set());
        }
        assert(forall|k: int| 0 <= k < before.len() ==> #[trigger] out@[k] == before[k]);
    }
    assert(a@.take(i as int) =~= a@);
    assert(b@.take(j as int) =~= b@);
    out
}

fn sort_range(v: &Vec<(usize, usize)>, lo: usize, hi: usize) -> (r: Vec<(usize, usize)>)
    requires
        lo <= hi <= v@.len(),
    ensures
        strictly_ascending(r@),
        r@.to_set() == v@.subrange(lo as int, hi as int).to_set(),
    decreases hi - lo,
{
    if hi - lo == 0 {
        assert(v@.subrange(lo as int, hi as int) =~= Seq::<(usize, usize)>::empty());
        Vec::new()
    } else if hi - lo == 1 {
        let out = vec![v[lo]];
        assert(v@.subrange(lo as int, hi as int) =~= out@);
        out
    } else {
        let mid: usize = lo + (hi - lo) / 2;
        let left = sort_range(v, lo, mid);
        let right = sort_range(v, mid, hi);
        assert(v@.subrange(lo as int, hi as int) =~= v@.subrange(lo as int, mid as int) + v@.subrange(
            mid as int,
            hi as int,
        ));
        proof {
            vstd::seq_lib::seq_to_set_distributes_over_add(
                v@.subrange(lo as int, mid as int),
                v@.subrange(mid as int, hi as int),
            );
        }
        merge(left, right)
    }
}

/// The distinct pairs of `v`, in ascending order.
pub fn sorted_distinct(v: &Vec<(usize, usize)>) -> (r: Vec<(usize, usize)>)
    ensures
        strictly_ascending(r@),
        r@.to_set() == v@.to_set(),
{
    let r = sort_range(v, 0, v.len());
    assert(v@.subrange(0, v@.len() as int) =~= v@);
    r
}

// ---------------------------------------------------------------------------
// Compressed adjacency
// ---------------------------------------------------------------------------

/// Whether `offsets` and `targets` are the compressed adjacency of the
/// position pairs `edges` over `n` nodes: node `i`'s row is
/// `targets[offsets[i]..offsets[i + 1]]`, the rows lie in node order and
/// fill `targets`, and each row lists the distinct targets of the node's
/// edges in ascending order.
pub open spec fn is_adjacency(n: int, offsets: Seq<usize>, targets: Seq<usize>, edges: Seq<(int, int)>) -> bool {
    &&& offsets.len() == n + 1
    &&& offsets[0] == 0
    &&& offsets[n] == targets.len()
    &&& forall|i: int| 0 <= i < n ==> #[trigger] offsets[i] <= offsets[i + 1]
    &&& forall|i: int, k: int, l: int|
        #![trigger offsets[i], targets[k], targets[l]]
        0 <= i < n && offsets[i] <= k < l < offsets[i + 1] ==> targets[k] < targets[l]
    &&& forall|i: int, j: int|
        #![trigger edges.contains((i, j))]
        0 <= i < n ==> ((exists|k: int| offsets[i] <= k < offsets[i + 1] && #[trigger] targets[k] == j)
            <==> edges.contains((i, j)))
}

/// Whether `o` splits ascending pairs at source `i`: every pair before it
/// has a smaller source, none from it on does.
pub open spec fn splits_at(sorted: Seq<(usize, usize)>, o: int, i: int) -> bool {
    &&& 0 <= o <= sorted.len()
    &&& forall|q: int| 0 <= q < o ==> (#[trigger] sorted[q]).0 < i
    &&& forall|q: int| o <= q < sorted.len() ==> (#[trigger] sorted[q]).0 >= i
}

fn compress(n: usize, sorted: &Vec<(usize, usize)>) -> (r: (Vec<usize>, Vec<usize>))
    requires
        strictly_ascending(sorted@),
        forall|k: int| 0 <= k < sorted@.len() ==> (#[trigger] sorted@[k]).0 < n,
    ensures
        r.0@.len() == n + 1,
        forall|i: int| 0 <= i <= n ==> splits_at(sorted@, #[trigger] r.0@[i] as int, i),
        r.1@.len() == sorted@.len(),
        forall|k: int| 0 <= k < sorted@.len() ==> #[trigger] r.1@[k] == sorted@[k].1,
{
    let mut offsets: Vec<usize> = Vec::new();
    let mut k: usize = 0;
    let mut i: usize = 0;
    while i < n
        invariant
            i <= n,
            k <= sorted@.len(),
            strictly_ascending(sorted@),
            forall|q: int| 0 <= q < sorted@.len() ==> (#[trigger] sorted@[q]).0 < n,
            offsets@.len() == i,
            forall|x: int| 0 <= x < i ==> splits_at(sorted@, #[trigger] offsets@[x] as int, x),
            forall|q: int| 0 <= q < k ==> (#[trigger] sorted@[q]).0 < i,
        decreases n - i,
    {
        while k < sorted.len() && sorted[k].0 < i
            invariant
                k <= sorted@.len(),
                forall|q: int| 0 <= q < k ==> (#[trigger] sorted@[q]).0 < i,
            decreases sorted@.len() - k,
        {
            k = k + 1;
        }
        assert forall|q: int| k <= q < sorted@.len() implies (#[trigger] sorted@[q]).0 >= i by {
            if q > k {
                assert(pair_lt(sorted@[k as int], sorted@[q]));
            }
        }
        offsets.push(k);
        assert(splits_at(sorted@, offsets@[i as int] as int, i as int));
        i = i + 1;
    }
    offsets.push(sorted.len());
    let mut targets: Vec<usize> = Vec::new();
    let mut q: usize = 0;
    while q < sorted.len()
        invariant
            q <= sorted@.len(),
            targets@.len() == q,
            forall|x: int| 0 <= x < q ==> #[trigger] targets@[x] == sorted@[x].1,
        decreases sorted@.len() - q,
    {
        targets.push(sorted[q].1);
        q = q + 1;
    }
    (offsets, targets)
}

/// The graph that ranking runs on: the nodes are the positions of `ids`
/// (ascending symbol ids), the edges those of `edges` whose ends are both
/// known ids (see [`edge_positions`]), as a compressed adjacency (see
/// [`is_adjacency`]).
pub fn rank_graph(ids: &Vec<String>, edges: &Vec<(String, String)>) -> (r: (Vec<usize>, Vec<usize>))
    requires
        ascending(strs(ids@)),
    ensures
        is_adjacency(
            ids@.len() as int,
            r.0@,
            r.1@,
            edge_positions(strs(ids@), pairs_text(edges@)),
        ),
{
    let pairs = edge_pairs(ids, edges);
    let sorted = sorted_distinct(&pairs);
    let ghost e = edge_positions(strs(ids@), pairs_text(edges@));
    assert forall|k: int| 0 <= k < sorted@.len() implies (#[trigger] sorted@[k]).0 < ids@.len() by {
        assert(sorted@.to_set().contains(sorted@[k]));
        assert(pairs@.contains(sorted@[k]));
    }
    let (offsets, targets) = compress(ids.len(), &sorted);
    let ghost n = ids@.len() as int;
    proof {
        assert(splits_at(sorted@, offsets@[0] as int, 0));
        if offsets@[0] > 0 {
            assert(sorted@[0].0 < 0);
        }
        assert(splits_at(sorted@, offsets@[n] as int, n));
        if offsets@[n] < sorted@.len() {
            assert(sorted@[offsets@[n] as int].0 >= n);
        }
        assert forall|i: int| 0 <= i < n implies #[trigger] offsets@[i] <= offsets@[i + 1] by {
            assert(splits_at(sorted@, offsets@[i] as int, i));
            assert(splits_at(sorted@, offsets@[i + 1] as int, i + 1));
            if offsets@[i + 1] < offsets@[i] {
                let q = offsets@[i + 1] as int;
                assert(sorted@[q].0 < i);
            }
        }
        assert forall|i: int, k: int, l: int|
            #![trigger offsets@[i], targets@[k], targets@[l]]
            0 <= i < n && offsets@[i] <= k < l < offsets@[i + 1] implies targets@[k]
            < targets@[l] by {
            assert(splits_at(sorted@, offsets@[i] as int, i));
            assert(splits_at(sorted@, offsets@[i + 1] as int, i + 1));
            assert(pair_lt(sorted@[k], sorted@[l]));
        }
        assert forall|i: int, j: int| #![trigger e.contains((i, j))] 0 <= i < n implies ((exists|k: int|
            offsets@[i] <= k < offsets@[i + 1] && #[trigger] targets@[k] == j) <==> e.contains(
            (i, j),
        )) by {
            assert(splits_at(sorted@, offsets@[i] as int, i));
            assert(splits_at(sorted@, offsets@[i + 1] as int, i + 1));
            if exists|k: int| offsets@[i] <= k < offsets@[i + 1] && #[trigger] targets@[k] == j {
                let k = choose|k: int| offsets@[i] <= k < offsets@[i + 1] && #[trigger] targets@[k] == j;
                assert(sorted@[k] == (i as usize, j as usize));
                assert(sorted@.to_set().contains(sorted@[k]));
                assert(pairs@.contains(sorted@[k]));
                let idx = choose|idx: int| 0 <= idx < pairs@.len() && pairs@[idx] == sorted@[k];
                assert(positions_view(pairs@)[idx] == (i, j));
                assert(e[idx] == (i, j));
            }
            if e.contains((i, j)) {
                let idx = choose|idx: int| 0 <= idx < e.len() && e[idx] == (i, j);
                assert(positions_view(pairs@)[idx] == (pairs@[idx].0 as int, pairs@[idx].1 as int));
                let p = pairs@[idx];
                assert(p == (i as usize, j as usize));
                assert(pairs@.to_set().contains(p));
                assert(sorted@.contains(p));
                let q = choose|q: int| 0 <= q < sorted@.len() && sorted@[q] == p;
                assert(offsets@[i] <= q < offsets@[i + 1]);
                assert(targets@[q] == j);
            }
        }
    }
    (offsets, targets)
}

/// Whether cached ranks are stale: their number differs from the number of
/// symbols (reindexing deletes every cached rank, and deleting a symbol
/// deletes its rank).
pub fn is_stale(cached_ranks: u64, symbols: u64) -> (r: bool)
    ensures
        r == (cached_ranks != symbols),
{
    cached_ranks != symbols
}

/// The call graph's edges keep their order and are read one by one: the
/// pairs of two lists of edges, one after the other, are the pairs of the
/// first list followed by those of the second.
pub proof fn law_edge_positions_concatenate(
    ids: Seq<Seq<char>>,
    a: Seq<(Seq<char>, Seq<char>)>,
    b: Seq<(Seq<char>, Seq<char>)>,
)
    ensures
        edge_positions(ids, a + b) == edge_positions(ids, a) + edge_positions(ids, b),
    decreases b.len(),
{
    if b.len() == 0 {
        assert(a + b =~= a);
        assert(edge_positions(ids, a) + edge_positions(ids, b) =~= edge_positions(ids, a));
    } else {
        law_edge_positions_concatenate(ids, a, b.drop_last());
        assert((a + b).drop_last() =~= a + b.drop_last());
        assert((a + b).last() == b.last());
    }
}

/// An edge between two known ids (each listed once) is the pair of their
/// positions, whatever the ids are, a function calling itself included;
/// an edge with an unknown end gives no pair.
pub proof fn law_known_edge_is_a_position_pair(
    ids: Seq<Seq<char>>,
    x: Seq<char>,
    y: Seq<char>,
    p: int,
    q: int,
)
    requires
        ids.no_duplicates(),
    ensures
        0 <= p < ids.len() && 0 <= q < ids.len() && ids[p] == x && ids[q] == y ==> edge_positions(
            ids,
            seq![(x, y)],
        ) == seq![(p, q)],
        !ids.contains(x) || !ids.contains(y) ==> edge_positions(ids, seq![(x, y)]) == Seq::<
            (int, int),
        >::empty(),
{
    lemma_position_of(ids, x);
    lemma_position_of(ids, y);
    let e = seq![(x, y)];
    assert(e.drop_last() =~= Seq::<(Seq<char>, Seq<char>)>::empty());
    assert(edge_positions(ids, e.drop_last()) =~= Seq::<(int, int)>::empty());
    assert(e.last() == (x, y));
    assert(e.len() == 1);
    if 0 <= p < ids.len() && 0 <= q < ids.len() && ids[p] == x && ids[q] == y {
        assert(position_of(ids, x) == Some(p));
        assert(position_of(ids, y) == Some(q));
        assert(edge_positions(ids, e) =~= seq![(p, q)]);
    }
    if !ids.contains(x) || !ids.contains(y) {
        if position_of(ids, x) is Some && position_of(ids, y) is Some {
            let k = position_of(ids, x)->0;
            let j = position_of(ids, y)->0;
            assert(ids[k] == x);
            assert(ids[j] == y);
            assert(ids.contains(x));
            assert(ids.contains(y));
        }
        assert(edge_positions(ids, e) =~= Seq::<(int, int)>::empty());
    }
}

} // verus!
