use ctx::rank::{edge_pairs, find_position, is_stale, rank_graph, sorted_distinct};

fn strings(v: &[&str]) -> Vec<String> {
    v.iter().map(|s| s.to_string()).collect()
}

fn edges(v: &[(&str, &str)]) -> Vec<(String, String)> {
    v.iter().map(|(a, b)| (a.to_string(), b.to_string())).collect()
}

#[test]
fn hub_graph_has_one_row_per_caller() {
    // a, b, c, d all call hub; ids ascending.
    let ids = strings(&["a", "b", "c", "d", "hub"]);
    let es = edges(&[("a", "hub"), ("b", "hub"), ("c", "hub"), ("d", "hub")]);
    let (offsets, targets) = rank_graph(&ids, &es);
    assert_eq!(offsets, vec![0, 1, 2, 3, 4, 4]);
    assert_eq!(targets, vec![4, 4, 4, 4]);
}

#[test]
fn graph_without_edges_has_empty_rows() {
    let ids = strings(&["a", "b", "c"]);
    let (offsets, targets) = rank_graph(&ids, &vec![]);
    assert_eq!(offsets, vec![0, 0, 0, 0]);
    assert!(targets.is_empty());
}

#[test]
fn unknown_ends_are_ignored_and_rows_are_sorted_and_distinct() {
    let ids = strings(&["m::a", "m::b", "m::c"]);
    let es = edges(&[
        ("m::c", "m::a"),
        ("m::a", "m::c"),
        ("m::a", "m::b"),
        ("m::a", "m::c"),
        ("m::a", "std::x"),
        ("ext::y", "m::b"),
    ]);
    let (offsets, targets) = rank_graph(&ids, &es);
    assert_eq!(offsets, vec![0, 2, 2, 3]);
    assert_eq!(targets, vec![1, 2, 0]);
}

#[test]
fn empty_id_set_gives_a_single_offset() {
    let (offsets, targets) = rank_graph(&vec![], &edges(&[("a", "b")]));
    assert_eq!(offsets, vec![0]);
    assert!(targets.is_empty());
}

#[test]
fn positions_are_found_by_binary_search() {
    let ids = strings(&["a", "b", "b", "d", "é"]);
    assert_eq!(find_position(&ids, "a"), Some(0));
    assert_eq!(find_position(&ids, "b"), Some(2));
    assert_eq!(find_position(&ids, "d"), Some(3));
    assert_eq!(find_position(&ids, "é"), Some(4));
    assert_eq!(find_position(&ids, "c"), None);
    assert_eq!(find_position(&ids, ""), None);
    assert_eq!(find_position(&ids, "z"), None);
    assert_eq!(find_position(&vec![], "a"), None);
}

#[test]
fn edge_pairs_keep_edge_order() {
    let ids = strings(&["a", "b"]);
    let es = edges(&[("b", "a"), ("a", "x"), ("a", "b"), ("b", "a")]);
    assert_eq!(edge_pairs(&ids, &es), vec![(1, 0), (0, 1), (1, 0)]);
}

#[test]
fn pairs_are_sorted_by_source_then_target_without_repeats() {
    let v = vec![(3, 1), (0, 2), (3, 0), (0, 2), (1, 5), (0, 1)];
    assert_eq!(sorted_distinct(&v), vec![(0, 1), (0, 2), (1, 5), (3, 0), (3, 1)]);
    assert!(sorted_distinct(&vec![]).is_empty());
}

#[test]
fn rank_cache_is_stale_when_counts_differ() {
    assert!(is_stale(0, 5));
    assert!(!is_stale(5, 5));
    assert!(is_stale(6, 5));
}
