use kevinbacon::kevinbacon::{shortest_path, NameNotFound};
use kevinbacon::schemas::TitlePrincipalCache;

fn cache_of(edges: &[(&str, &str)]) -> TitlePrincipalCache {
    let mut cache = TitlePrincipalCache::new();
    for (t, a) in edges {
        cache.insert(t.to_string(), a.to_string());
    }
    cache
}

fn sample() -> TitlePrincipalCache {
    cache_of(&[("T1", "A1"), ("T1", "A2"), ("T1", "A3"), ("T2", "A3"), ("T2", "A4")])
}

/// A chain of `hops` titles: actor `Ai` and actor `Ai+1` share title `Ti+1`.
fn chain(hops: usize) -> TitlePrincipalCache {
    let mut cache = TitlePrincipalCache::new();
    for i in 0..hops {
        cache.insert(format!("T{}", i + 1), format!("A{}", i));
        cache.insert(format!("T{}", i + 1), format!("A{}", i + 1));
    }
    cache
}

fn texts(route: &[&str]) -> Vec<String> {
    route.iter().map(|s| s.to_string()).collect()
}

fn path(cache: &TitlePrincipalCache, a: &str, b: &str, parallel: bool) -> Vec<String> {
    match shortest_path(cache, a, b, parallel) {
        Ok(route) => route,
        Err(NameNotFound(id)) => panic!("unknown actor {}", id),
    }
}

fn unknown(cache: &TitlePrincipalCache, a: &str, b: &str, parallel: bool) -> String {
    match shortest_path(cache, a, b, parallel) {
        Ok(route) => panic!("a route {:?}", route),
        Err(NameNotFound(id)) => id,
    }
}

/// Checks that `route` alternates actors and titles along edges of `edges`.
fn is_route(edges: &[(String, String)], route: &[String], from: &str, to: &str) -> bool {
    if route.len() % 2 != 1 || route[0] != from || route[route.len() - 1] != to {
        return false;
    }
    let has = |t: &String, a: &String| edges.iter().any(|(et, ea)| et == t && ea == a);
    (0..(route.len() - 1) / 2)
        .all(|i| has(&route[2 * i + 1], &route[2 * i]) && has(&route[2 * i + 1], &route[2 * i + 2]))
}

#[test]
fn two_hops_through_the_shared_actor() {
    let cache = sample();
    assert_eq!(path(&cache, "A1", "A4", false), texts(&["A1", "T1", "A3", "T2", "A4"]));
    assert_eq!(path(&cache, "A1", "A4", true), texts(&["A1", "T1", "A3", "T2", "A4"]));
}

#[test]
fn one_hop_between_costars() {
    let cache = sample();
    assert_eq!(path(&cache, "A1", "A2", false), texts(&["A1", "T1", "A2"]));
    assert_eq!(path(&cache, "A1", "A2", true), texts(&["A1", "T1", "A2"]));
}

#[test]
fn an_actor_is_no_hops_from_themselves() {
    let cache = sample();
    assert_eq!(path(&cache, "A1", "A1", false), texts(&["A1"]));
    assert_eq!(path(&cache, "A3", "A3", true), texts(&["A3"]));
}

#[test]
fn unknown_source_is_an_error() {
    let cache = sample();
    assert_eq!(unknown(&cache, "A9", "A1", false), "A9");
    assert_eq!(unknown(&cache, "A9", "A1", true), "A9");
}

#[test]
fn unknown_target_is_an_error() {
    let cache = sample();
    assert_eq!(unknown(&cache, "A1", "A9", false), "A9");
    assert_eq!(unknown(&cache, "A1", "A9", true), "A9");
}

#[test]
fn unknown_source_is_named_before_unknown_target() {
    let cache = sample();
    assert_eq!(unknown(&cache, "A8", "A9", false), "A8");
    assert_eq!(unknown(&cache, "A9", "A9", false), "A9");
}

#[test]
fn a_title_is_not_an_actor() {
    let cache = sample();
    assert_eq!(unknown(&cache, "T1", "A1", false), "T1");
    assert_eq!(unknown(&cache, "A1", "T2", false), "T2");
}

#[test]
fn an_empty_cache_knows_nobody() {
    let cache = TitlePrincipalCache::new();
    assert_eq!(unknown(&cache, "A1", "A1", false), "A1");
}

#[test]
fn disconnected_actors_have_an_empty_route() {
    let cache = cache_of(&[("T1", "A1"), ("T1", "A2"), ("T2", "A3"), ("T2", "A4")]);
    assert_eq!(path(&cache, "A1", "A3", false), Vec::<String>::new());
    assert_eq!(path(&cache, "A1", "A3", true), Vec::<String>::new());
    assert_eq!(path(&cache, "A4", "A2", false), Vec::<String>::new());
}

#[test]
fn an_actor_alone_in_their_title_reaches_nobody() {
    let cache = cache_of(&[("T1", "A1"), ("T2", "A2")]);
    assert_eq!(path(&cache, "A1", "A2", false), Vec::<String>::new());
    assert_eq!(path(&cache, "A1", "A2", true), Vec::<String>::new());
}

#[test]
fn nine_hops_are_found() {
    let cache = chain(9);
    for parallel in [false, true] {
        let route = path(&cache, "A0", "A9", parallel);
        assert_eq!(
            route,
            texts(&[
                "A0", "T1", "A1", "T2", "A2", "T3", "A3", "T4", "A4", "T5", "A5", "T6", "A6", "T7",
                "A7", "T8", "A8", "T9", "A9"
            ])
        );
        assert_eq!((route.len() - 1) / 2, 9);
    }
}

#[test]
fn ten_hops_are_beyond_the_bound() {
    let cache = chain(10);
    assert_eq!(path(&cache, "A0", "A10", false), Vec::<String>::new());
    assert_eq!(path(&cache, "A0", "A10", true), Vec::<String>::new());
    assert_eq!(path(&cache, "A10", "A0", false), Vec::<String>::new());
    assert_eq!(path(&cache, "A1", "A10", false).len(), 19);
}

#[test]
fn the_route_through_the_shortcut_is_taken() {
    // A0 .. A5 in a chain, and a title that A0 shares with A4
    let mut cache = chain(5);
    cache.insert("S".to_string(), "A0".to_string());
    cache.insert("S".to_string(), "A4".to_string());
    for parallel in [false, true] {
        assert_eq!(path(&cache, "A0", "A5", parallel), texts(&["A0", "S", "A4", "T5", "A5"]));
        assert_eq!(path(&cache, "A0", "A3", parallel), texts(&["A0", "S", "A4", "T4", "A3"]));
        assert_eq!(path(&cache, "A0", "A2", parallel), texts(&["A0", "T1", "A1", "T2", "A2"]));
    }
}

#[test]
fn both_directions_have_the_same_degree() {
    let edges = [
        ("T1", "A1"), ("T1", "A2"), ("T2", "A2"), ("T2", "A3"), ("T3", "A3"), ("T3", "A4"),
        ("T4", "A1"), ("T4", "A5"), ("T5", "A5"), ("T5", "A4"), ("T6", "A4"), ("T6", "A6"),
    ];
    let cache = cache_of(&edges);
    let names = ["A1", "A2", "A3", "A4", "A5", "A6"];
    for a in names {
        for b in names {
            let there = path(&cache, a, b, false);
            let back = path(&cache, b, a, false);
            assert_eq!(there.len(), back.len(), "{} {}", a, b);
        }
    }
}

#[test]
fn both_modes_have_the_same_degree_and_give_routes() {
    let edges: Vec<(String, String)> = [
        ("T1", "A1"), ("T1", "A2"), ("T2", "A2"), ("T2", "A3"), ("T3", "A3"), ("T3", "A4"),
        ("T4", "A1"), ("T4", "A5"), ("T5", "A5"), ("T5", "A4"), ("T6", "A4"), ("T6", "A6"),
        ("T7", "A7"), ("T7", "A8"),
    ]
    .iter()
    .map(|(t, a)| (t.to_string(), a.to_string()))
    .collect();
    let mut cache = TitlePrincipalCache::new();
    for (t, a) in &edges {
        cache.insert(t.clone(), a.clone());
    }
    let names = ["A1", "A2", "A3", "A4", "A5", "A6", "A7", "A8"];
    for a in names {
        for b in names {
            let plain = path(&cache, a, b, false);
            let side_by_side = path(&cache, a, b, true);
            let again = path(&cache, a, b, false);
            assert_eq!(plain.len(), side_by_side.len(), "{} {}", a, b);
            assert_eq!(plain.len(), again.len(), "{} {}", a, b);
            if !plain.is_empty() {
                assert!(is_route(&edges, &plain, a, b), "{:?}", plain);
                assert!(is_route(&edges, &side_by_side, a, b), "{:?}", side_by_side);
            }
        }
    }
    assert_eq!(path(&cache, "A1", "A4", false).len(), 5);
    assert_eq!(path(&cache, "A1", "A6", true).len(), 7);
    assert_eq!(path(&cache, "A1", "A7", true).len(), 0);
    assert_eq!(path(&cache, "A7", "A8", true), texts(&["A7", "T7", "A8"]));
}

#[test]
fn a_wide_level_is_read_in_several_batches() {
    // the source has 2500 titles, each with one other actor; the last of
    // these actors shares one more title with the target
    let mut cache = TitlePrincipalCache::new();
    for i in 0..2500 {
        cache.insert(format!("T{}", i), "S".to_string());
        cache.insert(format!("T{}", i), format!("A{}", i));
    }
    for i in 0..2500 {
        cache.insert(format!("U{}", i), format!("A{}", i));
        cache.insert(format!("U{}", i), format!("B{}", i));
    }
    cache.insert("V".to_string(), "B2499".to_string());
    cache.insert("V".to_string(), "Z".to_string());
    for parallel in [false, true] {
        assert_eq!(
            path(&cache, "S", "Z", parallel),
            texts(&["S", "T2499", "A2499", "U2499", "B2499", "V", "Z"])
        );
        assert_eq!(path(&cache, "S", "B17", parallel), texts(&["S", "T17", "A17", "U17", "B17"]));
        assert_eq!(path(&cache, "Z", "S", parallel).len(), 7);
    }
}

#[test]
fn inserting_an_edge_twice_changes_no_route() {
    let mut cache = sample();
    cache.insert("T2".to_string(), "A4".to_string());
    cache.insert("T1".to_string(), "A1".to_string());
    assert_eq!(path(&cache, "A1", "A4", false), texts(&["A1", "T1", "A3", "T2", "A4"]));
    assert_eq!(cache.len(), (2, 4));
}
