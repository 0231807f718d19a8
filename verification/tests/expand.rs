use std::collections::HashSet;

use dashmap::DashSet;
use kevinbacon::kevinbacon::{
    fetch_route, fresh_visited, search_level, search_names, search_route, search_titles,
    NameNotFound, NextRoute,
};
use kevinbacon::schemas::TitlePrincipalCache;

fn sample() -> TitlePrincipalCache {
    let mut cache = TitlePrincipalCache::new();
    for (t, a) in [("T1", "A1"), ("T1", "A2"), ("T1", "A3"), ("T2", "A3"), ("T2", "A4")] {
        cache.insert(t.to_string(), a.to_string());
    }
    cache
}

fn texts(list: &[&str]) -> Vec<String> {
    list.iter().map(|s| s.to_string()).collect()
}

fn set_of(list: &[&str]) -> HashSet<String> {
    list.iter().map(|s| s.to_string()).collect()
}

fn as_set(list: &[String]) -> HashSet<String> {
    let s: HashSet<String> = list.iter().cloned().collect();
    assert_eq!(s.len(), list.len(), "a member occurs twice");
    s
}

fn held(set: &DashSet<String>) -> HashSet<String> {
    set.iter().map(|s| s.key().clone()).collect()
}

fn visited(list: &[&str]) -> DashSet<String> {
    let set = DashSet::new();
    for s in list {
        set.insert(s.to_string());
    }
    set
}

fn further(r: Result<NextRoute, NameNotFound>) -> Vec<(Vec<String>, Vec<String>)> {
    match r {
        Ok(n) => {
            assert!(n.success_route.is_none());
            n.next_level
        }
        Err(NameNotFound(id)) => panic!("unknown actor {}", id),
    }
}

fn found(r: Result<NextRoute, NameNotFound>) -> Vec<String> {
    match r {
        Ok(n) => {
            assert!(n.next_level.is_empty());
            n.success_route.expect("no route")
        }
        Err(NameNotFound(id)) => panic!("unknown actor {}", id),
    }
}

fn failed<T: std::fmt::Debug>(r: Result<T, NameNotFound>) -> String {
    match r {
        Ok(n) => panic!("no error: {:?}", n),
        Err(NameNotFound(id)) => id,
    }
}

#[test]
fn next_route_constructors() {
    let none = NextRoute::new();
    assert!(none.success_route.is_none() && none.next_level.is_empty());
    let hit = NextRoute::found(texts(&["A1", "T1", "A2"]));
    assert_eq!(hit.success_route, Some(texts(&["A1", "T1", "A2"])));
    assert!(hit.next_level.is_empty());
    let on = NextRoute::search_further(vec![(texts(&["A1", "T1"]), texts(&["A2"]))]);
    assert!(on.success_route.is_none());
    assert_eq!(on.next_level, vec![(texts(&["A1", "T1"]), texts(&["A2"]))]);
}

#[test]
fn search_names_hands_out_the_new_actors() {
    let cache = sample();
    let mut names = visited(&["A2"]);
    let (hit, fresh) = search_names(&cache, &mut names, "T1", "A9");
    assert!(!hit);
    assert_eq!(as_set(&fresh), set_of(&["A1", "A3"]));
    assert_eq!(held(&names), set_of(&["A1", "A2", "A3"]));
}

#[test]
fn search_names_finds_the_target_even_if_visited() {
    let cache = sample();
    let mut names = visited(&["A3"]);
    let (hit, _) = search_names(&cache, &mut names, "T1", "A3");
    assert!(hit);
    assert!(held(&names).is_subset(&set_of(&["A1", "A2", "A3"])));
    assert!(held(&names).contains("A3"));
}

#[test]
fn search_names_of_an_unknown_title_finds_nothing() {
    let cache = sample();
    let mut names = visited(&["A1"]);
    let (hit, fresh) = search_names(&cache, &mut names, "T9", "A1");
    assert!(!hit);
    assert!(fresh.is_empty());
    assert_eq!(held(&names), set_of(&["A1"]));
}

#[test]
fn search_route_hands_out_one_entry_for_each_new_title() {
    let cache = sample();
    let mut titles = visited(&[]);
    let mut names = visited(&[]);
    let next = further(search_route(
        &cache,
        &mut titles,
        &mut names,
        &texts(&["X", "Y"]),
        &texts(&["A3"]),
        "A9",
    ));
    assert_eq!(next.len(), 2);
    let mut seen = HashSet::new();
    for (route, actors) in &next {
        assert_eq!(route[..3], texts(&["X", "Y", "A3"])[..]);
        assert_eq!(route.len(), 4);
        let cast = if route[3] == "T1" { set_of(&["A1", "A2", "A3"]) } else { set_of(&["A3", "A4"]) };
        assert!(as_set(actors).is_subset(&cast));
        for a in actors {
            assert!(seen.insert(a.clone()), "{} waits twice", a);
        }
    }
    assert_eq!(as_set(&[next[0].0[3].clone(), next[1].0[3].clone()]), set_of(&["T1", "T2"]));
    assert_eq!(seen, set_of(&["A1", "A2", "A3", "A4"]));
    assert_eq!(held(&titles), set_of(&["T1", "T2"]));
    assert_eq!(held(&names), set_of(&["A1", "A2", "A3", "A4"]));
}

#[test]
fn search_route_skips_what_was_visited() {
    let cache = sample();
    let mut titles = visited(&["T1"]);
    let mut names = visited(&["A3"]);
    let next = further(search_route(&cache, &mut titles, &mut names, &texts(&[]), &texts(&["A3"]), "A9"));
    assert_eq!(next, vec![(texts(&["A3", "T2"]), texts(&["A4"]))]);
    assert_eq!(held(&titles), set_of(&["T1", "T2"]));
    assert_eq!(held(&names), set_of(&["A3", "A4"]));
    let again = further(search_route(&cache, &mut titles, &mut names, &texts(&[]), &texts(&["A3"]), "A9"));
    assert!(again.is_empty());
}

#[test]
fn search_route_finds_the_target() {
    let cache = sample();
    let mut titles = visited(&[]);
    let mut names = visited(&[]);
    let route = found(search_route(&cache, &mut titles, &mut names, &texts(&["P"]), &texts(&["A1"]), "A2"));
    assert_eq!(route, texts(&["P", "A1", "T1", "A2"]));
}

#[test]
fn search_route_does_not_look_into_visited_titles() {
    let cache = sample();
    let mut titles = visited(&["T1"]);
    let mut names = visited(&[]);
    let next = further(search_route(&cache, &mut titles, &mut names, &texts(&[]), &texts(&["A1"]), "A2"));
    assert!(next.is_empty());
    assert!(held(&names).is_empty());
}

#[test]
fn search_route_stops_at_the_first_actor_that_ends_it() {
    let cache = sample();
    let unknown_first = search_route(
        &cache,
        &mut visited(&[]),
        &mut visited(&[]),
        &texts(&[]),
        &texts(&["A9", "A1"]),
        "A2",
    );
    assert_eq!(failed(unknown_first), "A9");
    let hit_first = search_route(
        &cache,
        &mut visited(&[]),
        &mut visited(&[]),
        &texts(&[]),
        &texts(&["A1", "A9"]),
        "A2",
    );
    assert_eq!(found(hit_first), texts(&["A1", "T1", "A2"]));
    let unknown_later = search_route(
        &cache,
        &mut visited(&[]),
        &mut visited(&[]),
        &texts(&[]),
        &texts(&["A4", "A9"]),
        "A1",
    );
    assert_eq!(failed(unknown_later), "A9");
}

#[test]
fn fetch_route_reads_without_marking() {
    let cache = sample();
    let titles = visited(&["T1"]);
    let ahead = fetch_route(&cache, &titles, &texts(&["A3", "A9", "A1"]));
    assert_eq!(ahead.len(), 3);
    let first = ahead[0].as_ref().unwrap();
    assert_eq!(first.titles, texts(&["T2"]));
    assert_eq!(first.casts.len(), 1);
    assert_eq!(as_set(&first.casts[0]), set_of(&["A3", "A4"]));
    assert!(ahead[1].is_none());
    let third = ahead[2].as_ref().unwrap();
    assert!(third.titles.is_empty() && third.casts.is_empty());
    assert_eq!(held(&titles), set_of(&["T1"]));
}

#[test]
fn fetch_route_lists_every_new_title_with_its_cast() {
    let cache = sample();
    let ahead = fetch_route(&cache, &visited(&[]), &texts(&["A3"]));
    let lookup = ahead[0].as_ref().unwrap();
    assert_eq!(as_set(&lookup.titles), set_of(&["T1", "T2"]));
    for (title, cast) in lookup.titles.iter().zip(&lookup.casts) {
        let expected = if title == "T1" { set_of(&["A1", "A2", "A3"]) } else { set_of(&["A3", "A4"]) };
        assert_eq!(as_set(cast), expected);
    }
}

#[test]
fn search_level_puts_the_entries_together() {
    let cache = sample();
    for parallel in [false, true] {
        let mut titles = visited(&[]);
        let mut names = visited(&[]);
        let level = vec![(texts(&[]), texts(&["A1"])), (texts(&["Q"]), texts(&["A4"]))];
        let next = further(search_level(parallel, &cache, &mut titles, &mut names, &level, "A9"));
        assert_eq!(next.len(), 2);
        assert_eq!(next[0].0, texts(&["A1", "T1"]));
        assert_eq!(as_set(&next[0].1), set_of(&["A1", "A2", "A3"]));
        assert_eq!(next[1], (texts(&["Q", "A4", "T2"]), texts(&["A4"])));
        assert_eq!(held(&titles), set_of(&["T1", "T2"]));
        assert_eq!(held(&names), set_of(&["A1", "A2", "A3", "A4"]));
    }
}

#[test]
fn search_level_ends_at_the_first_entry_that_ends_it() {
    let cache = sample();
    for parallel in [false, true] {
        let level = vec![(texts(&[]), texts(&["A4"])), (texts(&[]), texts(&["A9"]))];
        let r = search_level(parallel, &cache, &mut visited(&[]), &mut visited(&[]), &level, "A3");
        assert_eq!(found(r), texts(&["A4", "T2", "A3"]));
        let level = vec![(texts(&[]), texts(&["A9"])), (texts(&[]), texts(&["A4"]))];
        let r = search_level(parallel, &cache, &mut visited(&[]), &mut visited(&[]), &level, "A3");
        assert_eq!(failed(r), "A9");
        let level = vec![(texts(&[]), texts(&["A1"])), (texts(&[]), texts(&["A9"]))];
        let r = search_level(parallel, &cache, &mut visited(&[]), &mut visited(&[]), &level, "A4");
        assert_eq!(failed(r), "A9");
    }
}

#[test]
fn search_titles_goes_level_by_level() {
    let cache = sample();
    for parallel in [false, true] {
        let level = vec![(texts(&[]), texts(&["A1"]))];
        let r = search_titles(parallel, &cache, &mut visited(&[]), &mut visited(&[]), &level, "A4", 1);
        assert_eq!(r.ok(), Some(texts(&["A1", "T1", "A3", "T2", "A4"])));
        let r = search_titles(parallel, &cache, &mut visited(&[]), &mut visited(&[]), &level, "A4", 8);
        assert_eq!(r.ok(), Some(texts(&["A1", "T1", "A3", "T2", "A4"])));
    }
}

#[test]
fn search_titles_stops_after_the_last_level() {
    let cache = sample();
    for parallel in [false, true] {
        let level = vec![(texts(&[]), texts(&["A1"]))];
        let r = search_titles(parallel, &cache, &mut visited(&[]), &mut visited(&[]), &level, "A4", 9);
        assert_eq!(r.ok(), Some(vec![]));
        let r = search_titles(parallel, &cache, &mut visited(&[]), &mut visited(&[]), &level, "A2", 9);
        assert_eq!(r.ok(), Some(texts(&["A1", "T1", "A2"])));
        let mut titles = visited(&[]);
        let r = search_titles(parallel, &cache, &mut titles, &mut visited(&[]), &level, "A2", 10);
        assert_eq!(r.ok(), Some(vec![]));
        assert!(held(&titles).is_empty());
    }
}

#[test]
fn search_titles_keeps_the_route_of_the_entry() {
    let cache = sample();
    let level = vec![(texts(&["A0", "T0"]), texts(&["A1"]))];
    let r = search_titles(false, &cache, &mut visited(&[]), &mut visited(&[]), &level, "A4", 2);
    assert_eq!(r.ok(), Some(texts(&["A0", "T0", "A1", "T1", "A3", "T2", "A4"])));
}

#[test]
fn search_titles_fails_on_an_unknown_actor_of_the_level() {
    let cache = sample();
    for parallel in [false, true] {
        let level = vec![(texts(&[]), texts(&["A9"]))];
        let r = search_titles(parallel, &cache, &mut visited(&[]), &mut visited(&[]), &level, "A4", 1);
        assert_eq!(failed(r), "A9");
        let r = search_titles(parallel, &cache, &mut visited(&[]), &mut visited(&[]), &level, "A4", 3);
        assert_eq!(failed(r), "A9");
    }
}

#[test]
fn search_titles_of_an_empty_level_finds_nothing() {
    let cache = sample();
    let r = search_titles(true, &cache, &mut visited(&[]), &mut visited(&[]), &vec![], "A4", 1);
    assert_eq!(r.ok(), Some(vec![]));
}

#[test]
fn a_fresh_visited_set_holds_nothing() {
    assert!(held(&fresh_visited()).is_empty());
}

#[test]
fn search_titles_names_the_unknown_target_at_the_first_level() {
    let cache = sample();
    for parallel in [false, true] {
        let mut titles = fresh_visited();
        let mut names = fresh_visited();
        let level = vec![(texts(&[]), texts(&["A1"]))];
        let r = search_titles(parallel, &cache, &mut titles, &mut names, &level, "A9", 1);
        assert_eq!(failed(r), "A9");
        assert!(held(&titles).is_empty());
        assert!(held(&names).is_empty());
    }
}

#[test]
fn search_titles_names_the_unknown_source_before_the_unknown_target() {
    let cache = sample();
    let mut titles = fresh_visited();
    let mut names = fresh_visited();
    let level = vec![(texts(&[]), texts(&["A8"]))];
    let r = search_titles(false, &cache, &mut titles, &mut names, &level, "A9", 1);
    assert_eq!(failed(r), "A8");
    let level = vec![(texts(&[]), texts(&["A1", "A2"])), (texts(&[]), texts(&["A3", "A7", "A8"]))];
    let r = search_titles(false, &cache, &mut titles, &mut names, &level, "A9", 1);
    assert_eq!(failed(r), "A7");
    assert!(held(&titles).is_empty() && held(&names).is_empty());
}

#[test]
fn search_titles_leaves_the_sets_alone_when_the_first_actor_is_unknown() {
    let cache = sample();
    for parallel in [false, true] {
        for level_no in [1, 2] {
            let mut titles = fresh_visited();
            let mut names = fresh_visited();
            let level = vec![(texts(&[]), texts(&[])), (texts(&[]), texts(&["A9", "A1"]))];
            let r = search_titles(parallel, &cache, &mut titles, &mut names, &level, "A1", level_no);
            assert_eq!(failed(r), "A9");
            assert!(held(&titles).is_empty());
            assert!(held(&names).is_empty());
        }
    }
}

#[test]
fn search_titles_of_an_empty_level_changes_nothing() {
    let cache = sample();
    for level_no in [0, 1, 5, 10, 99] {
        let mut titles = visited(&["T1", "T7"]);
        let mut names = visited(&["A2"]);
        let r = search_titles(true, &cache, &mut titles, &mut names, &vec![], "A9", level_no);
        assert_eq!(r.ok(), Some(vec![]));
        assert_eq!(held(&titles), set_of(&["T1", "T7"]));
        assert_eq!(held(&names), set_of(&["A2"]));
    }
}

#[test]
fn search_titles_only_adds_to_the_sets() {
    let cache = sample();
    let mut titles = fresh_visited();
    let mut names = fresh_visited();
    let level = vec![(texts(&[]), texts(&["A1"]))];
    let r = search_titles(false, &cache, &mut titles, &mut names, &level, "A4", 1);
    assert_eq!(r.ok(), Some(texts(&["A1", "T1", "A3", "T2", "A4"])));
    assert_eq!(held(&titles), set_of(&["T1", "T2"]));
    assert!(held(&names).is_subset(&set_of(&["A1", "A2", "A3", "A4"])));
    assert!(held(&names).is_superset(&set_of(&["A1", "A2", "A3"])));
}

#[test]
fn search_route_marks_the_title_of_the_route_it_found() {
    let cache = sample();
    let mut titles = fresh_visited();
    let mut names = fresh_visited();
    let route = found(search_route(&cache, &mut titles, &mut names, &texts(&[]), &texts(&["A1"]), "A2"));
    assert_eq!(route, texts(&["A1", "T1", "A2"]));
    assert_eq!(held(&titles), set_of(&["T1"]));
    assert!(held(&names).is_subset(&set_of(&["A1", "A2", "A3"])));
}

#[test]
fn search_route_marks_nothing_beyond_the_actor_at_which_it_stopped() {
    let cache = sample();
    let mut titles = fresh_visited();
    let mut names = fresh_visited();
    let r = search_route(&cache, &mut titles, &mut names, &texts(&[]), &texts(&["A1", "A9", "A4"]), "A7");
    assert_eq!(failed(r), "A9");
    assert_eq!(held(&titles), set_of(&["T1"]));
    assert_eq!(held(&names), set_of(&["A1", "A2", "A3"]));
    let mut titles = fresh_visited();
    let mut names = fresh_visited();
    let r = search_route(&cache, &mut titles, &mut names, &texts(&[]), &texts(&["A9", "A1"]), "A2");
    assert_eq!(failed(r), "A9");
    assert!(held(&titles).is_empty() && held(&names).is_empty());
}
