use kevinbacon::distance::{busiest_actor, connection, connection_steps, separation_degree};
use kevinbacon::schemas::{NameToTitle, TitlePrincipalCache, TitleToNames};

fn sample() -> TitlePrincipalCache {
    let mut cache = TitlePrincipalCache::new();
    for (t, a) in [
        ("T1", "A1"), ("T1", "A2"), ("T1", "A3"), ("T2", "A3"), ("T2", "A4"), ("T3", "A4"),
        ("T3", "A2"),
    ] {
        cache.insert(t.to_string(), a.to_string());
    }
    cache
}

fn texts(route: &[&str]) -> Vec<String> {
    route.iter().map(|s| s.to_string()).collect()
}

#[test]
fn nobody_is_busiest_of_none() {
    assert_eq!(busiest_actor(&sample(), vec![]), None);
}

#[test]
fn the_actor_with_the_most_titles_is_busiest() {
    let cache = sample();
    assert_eq!(busiest_actor(&cache, texts(&["A1", "A3"])), Some("A3".to_string()));
    assert_eq!(busiest_actor(&cache, texts(&["A3", "A1"])), Some("A3".to_string()));
    assert_eq!(busiest_actor(&cache, texts(&["A1"])), Some("A1".to_string()));
}

#[test]
fn the_first_of_the_busiest_is_taken() {
    let cache = sample();
    assert_eq!(busiest_actor(&cache, texts(&["A1", "A4", "A3", "A2"])), Some("A4".to_string()));
    assert_eq!(busiest_actor(&cache, texts(&["A2", "A3", "A4"])), Some("A2".to_string()));
}

#[test]
fn strangers_count_for_nothing() {
    let cache = sample();
    assert_eq!(busiest_actor(&cache, texts(&["A8", "A9"])), Some("A8".to_string()));
    assert_eq!(busiest_actor(&cache, texts(&["A9", "A1"])), Some("A1".to_string()));
}

#[test]
fn the_degree_is_the_number_of_titles() {
    assert_eq!(separation_degree(&texts(&[])), -1);
    assert_eq!(separation_degree(&texts(&["A1"])), 0);
    assert_eq!(separation_degree(&texts(&["A1", "T1", "A2"])), 1);
    assert_eq!(separation_degree(&texts(&["A1", "T1", "A3", "T2", "A4"])), 2);
}

#[test]
fn the_steps_follow_the_route() {
    let steps = connection_steps(&texts(&["A1", "T1", "A3", "T2", "A4"]));
    assert_eq!(steps.len(), 2);
    assert_eq!((steps[0].nconst1.as_str(), steps[0].tconst.as_str(), steps[0].nconst2.as_str()), ("A1", "T1", "A3"));
    assert_eq!((steps[1].nconst1.as_str(), steps[1].tconst.as_str(), steps[1].nconst2.as_str()), ("A3", "T2", "A4"));
}

#[test]
fn a_route_without_titles_has_no_steps() {
    assert!(connection_steps(&texts(&[])).is_empty());
    assert!(connection_steps(&texts(&["A1"])).is_empty());
}

fn names(tconst: &str, nconst1: &str, nconst2: &str) -> TitleToNames {
    let actor = |nconst: &str| NameToTitle {
        nconst: nconst.to_string(),
        primaryname: Some(format!("name of {}", nconst)),
        characters: None,
    };
    TitleToNames {
        tconst: tconst.to_string(),
        primarytitle: Some(format!("title of {}", tconst)),
        titletype: None,
        startyear: Some(1984),
        actor1: actor(nconst1),
        actor2: actor(nconst2),
    }
}

#[test]
fn a_connection_shows_the_names_of_each_hop() {
    let route = texts(&["A1", "T1", "A3", "T2", "A4"]);
    let shown = connection(&route, vec![Some(names("T1", "A1", "A3")), Some(names("T2", "A3", "A4"))]);
    assert_eq!(shown.separation_degree, 2);
    assert_eq!(shown.connection_path.len(), 2);
    let first = shown.connection_path[0].as_ref().unwrap();
    assert_eq!(first.tconst, "T1");
    assert_eq!(first.actor1.nconst, "A1");
    assert_eq!(first.actor2.primaryname, Some("name of A3".to_string()));
    let second = shown.connection_path[1].as_ref().unwrap();
    assert_eq!(second.primarytitle, Some("title of T2".to_string()));
    assert_eq!(second.actor2.nconst, "A4");
}

#[test]
fn a_hop_without_names_is_shown_as_a_failure() {
    let route = texts(&["A1", "T1", "A3", "T2", "A4", "T3", "A5"]);
    let shown = connection(&route, vec![Some(names("T1", "A1", "A3")), None, Some(names("T3", "A4", "A5"))]);
    assert_eq!(shown.separation_degree, 3);
    assert_eq!(shown.connection_path.len(), 3);
    assert_eq!(shown.connection_path[0].as_ref().unwrap().tconst, "T1");
    let failure = shown.connection_path[1].as_ref().unwrap_err();
    assert_eq!(
        (failure.step.nconst1.as_str(), failure.step.tconst.as_str(), failure.step.nconst2.as_str()),
        ("A3", "T2", "A4")
    );
    assert_eq!(shown.connection_path[2].as_ref().unwrap().tconst, "T3");
}

#[test]
fn no_route_is_shown_as_degree_minus_one() {
    let shown = connection(&texts(&[]), vec![]);
    assert_eq!(shown.separation_degree, -1);
    assert!(shown.connection_path.is_empty());
    let alone = connection(&texts(&["A1"]), vec![]);
    assert_eq!(alone.separation_degree, 0);
    assert!(alone.connection_path.is_empty());
}
