//! The bounded breadth-first search for a shortest connection between two
//! actors.
use crate::dash::{
    ids, members, visited_contains, visited_insert, visited_with_capacity, Id,
};
use crate::frontier::{
    actor_expanded, casts_listed, credited_by, entries_apart, entries_within, entry_for,
    entry_made, entry_ok, fetched_ok, first_stop, fresh_hit, frontier_has, lemma_credited_take,
    lemma_entries_extend, lemma_entries_push, lemma_fetched_later, lemma_frontier_extends,
    lemma_frontier_push, lemma_marks_at, lemma_take_next, lemma_titles_to_actor, lookup_ok,
    marks_from, marks_within, new_cast, from_new_cast, route_result, slot, stops_at, title_of, titles_listed,
    titles_visited,
};
use crate::levels::{
    all_known, blocks, budget, done, earlier, fails_at, first_block, first_slot, first_unknown,
    lands, leaves_alone, lemma_entry_step, lemma_first_level, lemma_landing_answers,
    lemma_level_settled, lemma_opening, lemma_search_step, lemma_stop_is_block, level_result,
    made_in, names_stranger, opens_unknown, path_result, search_result, settled, titles_result,
    waiting, MAX_LEVEL,
};
use crate::par::par_fetch;
use crate::schemas::TitlePrincipalCache;
use dashmap::DashSet;
use vstd::prelude::*;

verus! {

/// The error of a search that met an actor of which the cache has no record.
#[derive(Debug)]
pub struct NameNotFound(pub String);

/// One unit of search state: the route that led here, and the actors that
/// are still to be expanded at its end. No actor occurs twice among them in
/// an entry that the search made.
pub type FrontierEntry = (Vec<String>, Vec<String>);

/// What the expansion of one frontier entry gives: the route to the target,
/// or the entries of the next level.
#[derive(Debug)]
pub struct NextRoute {
    pub success_route: Option<Vec<String>>,
    pub next_level: Vec<FrontierEntry>,
}

/// What the cache says of one actor, looked up ahead of their expansion:
/// titles of theirs, and the cast of each title at the same position.
#[derive(Debug)]
pub struct Lookup {
    pub titles: Vec<String>,
    pub casts: Vec<Vec<String>>,
}

/// The room that a query reserves in each of its two visited sets.
pub const VISITED_CAPACITY: usize = 100_000;

/// The number of frontier entries that are looked up side by side.
pub const BATCH_SIZE: usize = 1000;

impl NextRoute {
    /// No route, and nothing to search further.
    pub fn new() -> (r: NextRoute)
        ensures
            r.success_route is None,
            r.next_level@.len() == 0,
    {
        NextRoute { success_route: None, next_level: Vec::new() }
    }

    /// The search ended with `route`.
    pub fn found(route: Vec<String>) -> (r: NextRoute)
        ensures
            r.success_route == Some(route),
            r.next_level@.len() == 0,
    {
        NextRoute { success_route: Some(route), next_level: Vec::new() }
    }

    /// The search goes on with `next_level`.
    pub fn search_further(next_level: Vec<FrontierEntry>) -> (r: NextRoute)
        ensures
            r.success_route is None,
            r.next_level == next_level,
    {
        NextRoute { success_route: None, next_level }
    }
}

/// A copy of `route` with `nconst` and `tconst` at its end.
fn extend_route(route: &Vec<String>, nconst: &String, tconst: &String) -> (r: Vec<String>)
    ensures
        ids(r@) == ids(route@).push(nconst@).push(tconst@),
{
    let mut r: Vec<String> = Vec::new();
    let mut i: usize = 0;
    while i < route.len()
        invariant
            i <= route.len(),
            ids(r@) == ids(route@).take(i as int),
        decreases route.len() - i,
    {
        let ghost copied = ids(r@);
        r.push(route[i].clone());
        proof {
            assert(ids(r@) =~= copied.push(route@[i as int]@));
            lemma_take_next(ids(route@), i as int);
        }
        i += 1;
    }
    r.push(nconst.clone());
    r.push(tconst.clone());
    proof {
        assert(ids(route@).take(route.len() as int) =~= ids(route@));
        assert(ids(r@) =~= ids(route@).push(nconst@).push(tconst@));
    }
    r
}

/// Scans `names`, the cast of one title, for `nconst2`. While the target has
/// not shown up, every actor that `ignored_names` does not hold yet is
/// handed out and joins `ignored_names`.
fn scan_cast(ignored_names: &mut DashSet<String>, names: &Vec<String>, nconst2: &str) -> (r: (
    bool,
    Vec<String>,
))
    ensures
        r.0 == ids(names@).to_set().contains(nconst2@),
        members(*old(ignored_names)).subset_of(members(*final(ignored_names))),
        members(*final(ignored_names)).subset_of(
            members(*old(ignored_names)).union(ids(names@).to_set()),
        ),
        !r.0 ==> members(*final(ignored_names)) == members(*old(ignored_names)).union(
            ids(names@).to_set(),
        ),
        !r.0 ==> ids(r.1@).no_duplicates(),
        !r.0 ==> ids(r.1@).to_set() == ids(names@).to_set().difference(
            members(*old(ignored_names)),
        ),
{
    let mut names_to_visit: Vec<String> = Vec::new();
    let ghost before = members(*ignored_names);
    let ghost all = ids(names@);
    let goal: String = nconst2.to_owned();
    let mut i: usize = 0;
    while i < names.len()
        invariant
            i <= names.len(),
            all == ids(names@),
            before == members(*old(ignored_names)),
            goal@ == nconst2@,
            !all.take(i as int).to_set().contains(nconst2@),
            members(*ignored_names) == before.union(all.take(i as int).to_set()),
            ids(names_to_visit@).no_duplicates(),
            ids(names_to_visit@).to_set() == all.take(i as int).to_set().difference(before),
        decreases names.len() - i,
    {
        let name: &String = &names[i];
        proof {
            lemma_take_next(all, i as int);
            assert(all.contains(all[i as int]));
        }
        if *name == goal {
            return (true, names_to_visit);
        } else if !visited_contains(ignored_names, name.as_str()) {
            let ghost seen = ids(names_to_visit@);
            names_to_visit.push(name.clone());
            visited_insert(ignored_names, name.clone());
            proof {
                assert(ids(names_to_visit@) =~= seen.push(name@));
                seen.lemma_push_to_set_commute(name@);
                assert(!seen.to_set().contains(name@));
                assert(ids(names_to_visit@).to_set() =~= all.take(i + 1).to_set().difference(
                    before,
                ));
                assert(members(*ignored_names) =~= before.union(all.take(i + 1).to_set()));
            }
        } else {
            proof {
                assert(ids(names_to_visit@).to_set() =~= all.take(i + 1).to_set().difference(
                    before,
                ));
                assert(members(*ignored_names) =~= before.union(all.take(i + 1).to_set()));
            }
        }
        i += 1;
    }
    proof {
        assert(all.take(names.len() as int) =~= all);
    }
    (false, names_to_visit)
}

/// Scans the cast of `tconst` for `nconst2`. While the target has not shown
/// up, every actor of the cast that `ignored_names` does not hold yet is
/// handed out and joins `ignored_names`. A title that the cache does not
/// know has an empty cast.
pub fn search_names(
    cache: &TitlePrincipalCache,
    ignored_names: &mut DashSet<String>,
    tconst: &str,
    nconst2: &str,
) -> (r: (bool, Vec<String>))
    ensures
        r.0 == cache@.cast_of(tconst@).contains(nconst2@),
        members(*old(ignored_names)).subset_of(members(*final(ignored_names))),
        members(*final(ignored_names)).subset_of(
            members(*old(ignored_names)).union(cache@.cast_of(tconst@)),
        ),
        !r.0 ==> members(*final(ignored_names)) == members(*old(ignored_names)).union(
            cache@.cast_of(tconst@),
        ),
        !r.0 ==> ids(r.1@).no_duplicates(),
        !r.0 ==> ids(r.1@).to_set() == cache@.cast_of(tconst@).difference(
            members(*old(ignored_names)),
        ),
{
    if let Some(names) = cache.t_to_p(tconst) {
        scan_cast(ignored_names, &names, nconst2)
    } else {
        let names_to_visit: Vec<String> = Vec::new();
        proof {
            let cast = cache@.cast_of(tconst@);
            let before = members(*ignored_names);
            assert(ids(names_to_visit@).to_set() =~= cast.difference(before));
            assert(before =~= before.union(cast));
        }
        (false, names_to_visit)
    }
}

/// Expands `nconst` through each of `titles` that `ignored_titles` does not
/// hold yet: the title joins `ignored_titles`, its cast is scanned for the
/// target, and where the target is not there, an entry with the new actors
/// of the cast joins `next_level`. The cast comes from `casts` where they
/// were looked up ahead, else from the cache.
fn visit_titles(
    cache: &TitlePrincipalCache,
    ignored_titles: &mut DashSet<String>,
    ignored_names: &mut DashSet<String>,
    route: &Vec<String>,
    nconst: &String,
    titles: &Vec<String>,
    casts: Option<&Vec<Vec<String>>>,
    nconst2: &str,
    next_level: &mut Vec<FrontierEntry>,
) -> (found: Option<Vec<String>>)
    requires
        forall|j: int| 0 <= j < titles@.len() ==> cache@.has_credit(nconst@, #[trigger] titles@[j]@),
        casts is Some ==> casts_listed(cache@, titles@, casts->0@),
    ensures
        members(*old(ignored_titles)).subset_of(members(*final(ignored_titles))),
        members(*old(ignored_names)).subset_of(members(*final(ignored_names))),
        marks_within(
            cache@,
            members(*old(ignored_titles)),
            members(*old(ignored_names)),
            members(*final(ignored_titles)),
            members(*final(ignored_names)),
            ids(titles@),
        ),
        found is Some ==> exists|title: Id|
            #[trigger] fresh_hit(cache@, members(*old(ignored_titles)), nconst@, title, nconst2@)
                && ids(found->0@) == ids(route@).push(nconst@).push(title).push(nconst2@)
                && members(*final(ignored_titles)).contains(title),
        found is None ==> titles_visited(
            cache@,
            members(*old(ignored_titles)),
            members(*old(ignored_names)),
            members(*final(ignored_titles)),
            members(*final(ignored_names)),
            ids(route@),
            nconst@,
            ids(titles@),
            nconst2@,
            old(next_level)@,
            final(next_level)@,
        ),
{
    let ghost g = cache@;
    let ghost vt0 = members(*ignored_titles);
    let ghost vn0 = members(*ignored_names);
    let ghost nl0 = next_level@;
    let ghost all = ids(titles@);
    let mut j: usize = 0;
    while j < titles.len()
        invariant
            j <= titles.len(),
            g == cache@,
            all == ids(titles@),
            vt0 == members(*old(ignored_titles)),
            vn0 == members(*old(ignored_names)),
            nl0 == old(next_level)@,
            forall|j: int| 0 <= j < titles@.len() ==> g.has_credit(nconst@, #[trigger] titles@[j]@),
            casts is Some ==> casts_listed(g, titles@, casts->0@),
            vt0.subset_of(members(*ignored_titles)),
            vn0.subset_of(members(*ignored_names)),
            forall|i: int| 0 <= i < j ==> !fresh_hit(g, vt0, nconst@, #[trigger] titles@[i]@, nconst2@),
            forall|t: Id|
                members(*ignored_titles).contains(t) <==> vt0.contains(t) || all.take(
                    j as int,
                ).to_set().contains(t),
            forall|t: Id, x: Id|
                members(*ignored_titles).contains(t) && !vt0.contains(t) && #[trigger] g.has_cast(
                    t,
                    x,
                ) ==> members(*ignored_names).contains(x),
            forall|x: Id|
                #[trigger] members(*ignored_names).contains(x) && !vn0.contains(x)
                    ==> frontier_has(next_level@, x),
            forall|x: Id| #[trigger]
                members(*ignored_names).contains(x) && !vn0.contains(x) ==> from_new_cast(
                    g,
                    vt0,
                    members(*ignored_titles),
                    x,
                ),
            next_level@.len() >= nl0.len(),
            next_level@.take(nl0.len() as int) == nl0,
            forall|e: int|
                nl0.len() <= e < next_level@.len() ==> entry_made(
                    g,
                    vt0,
                    vn0,
                    ids(route@),
                    nconst@,
                    #[trigger] next_level@[e],
                ),
            entries_apart(next_level@, nl0.len() as int),
            entries_within(
                next_level@,
                nl0.len() as int,
                members(*ignored_titles),
                members(*ignored_names),
            ),
            forall|t: Id| #[trigger]
                members(*ignored_titles).contains(t) && !vt0.contains(t) ==> entry_for(
                    next_level@,
                    nl0.len() as int,
                    t,
                ),
        decreases titles.len() - j,
    {
        let tconst: &String = &titles[j];
        let ghost vt1 = members(*ignored_titles);
        let ghost vn1 = members(*ignored_names);
        let ghost nl1 = next_level@;
        proof {
            lemma_take_next(all, j as int);
        }
        if !visited_contains(ignored_titles, tconst.as_str()) {
            visited_insert(ignored_titles, tconst.clone());
            let (success, names_to_visit2) = match casts {
                Some(listed) => scan_cast(ignored_names, &listed[j], nconst2),
                None => search_names(cache, ignored_names, tconst.as_str(), nconst2),
            };
            proof {
                let vt2 = members(*ignored_titles);
                let vn2 = members(*ignored_names);
                assert forall|x: Id| #[trigger] vn2.contains(x) && !vn0.contains(x) implies from_new_cast(
                    g,
                    vt0,
                    vt2,
                    x,
                ) by {
                    if vn1.contains(x) {
                        let t = choose|t: Id| #[trigger] new_cast(g, vt0, vt1, t, x);
                        assert(new_cast(g, vt0, vt2, t, x));
                    } else {
                        assert(g.cast_of(tconst@).contains(x));
                        assert(new_cast(g, vt0, vt2, tconst@, x));
                    }
                }
            }
            if success {
                let mut route2 = extend_route(route, nconst, tconst);
                let ghost partial = ids(route2@);
                route2.push(nconst2.to_owned());
                proof {
                    assert(ids(route2@) =~= partial.push(nconst2@));
                    assert(fresh_hit(g, vt0, nconst@, tconst@, nconst2@));
                    assert forall|t: Id| #[trigger]
                        members(*ignored_titles).contains(t) && !vt0.contains(t) implies all.contains(
                        t,
                    ) by {
                        if t == tconst@ {
                            assert(all[j as int] == t);
                        } else {
                            assert(all.take(j as int).contains(t));
                            let w = choose|w: int|
                                0 <= w < all.take(j as int).len() && all.take(j as int)[w] == t;
                            assert(all[w] == t);
                        }
                    }
                }
                return Some(route2);
            } else {
                let route2 = extend_route(route, nconst, tconst);
                let ghost entry = (route2, names_to_visit2);
                next_level.push((route2, names_to_visit2));
                proof {
                    assert(next_level@ == nl1.push(entry));
                    assert(next_level@.take(nl0.len() as int) =~= nl0);
                    assert(ids(entry.1@).to_set() == g.cast_of(tconst@).difference(vn1));
                    assert forall|i: int| 0 <= i < entry.1@.len() implies g.has_cast(
                        tconst@,
                        #[trigger] entry.1@[i]@,
                    ) && !vn0.contains(entry.1@[i]@) by {
                        assert(ids(entry.1@)[i] == entry.1@[i]@);
                        assert(ids(entry.1@).to_set().contains(ids(entry.1@)[i]));
                    }
                    assert(entry_made(g, vt0, vn0, ids(route@), nconst@, entry));
                    assert(title_of(entry) == tconst@);
                    assert forall|i: int| 0 <= i < entry.1@.len() implies !vn1.contains(
                        #[trigger] entry.1@[i]@,
                    ) && members(*ignored_names).contains(entry.1@[i]@) by {
                        assert(ids(entry.1@)[i] == entry.1@[i]@);
                        assert(ids(entry.1@).to_set().contains(ids(entry.1@)[i]));
                    }
                    lemma_entries_push(
                        nl1,
                        entry,
                        nl0.len() as int,
                        vt1,
                        vn1,
                        members(*ignored_titles),
                        members(*ignored_names),
                    );
                    assert forall|x: Id|
                        #[trigger] members(*ignored_names).contains(x) && !vn0.contains(
                            x,
                        ) implies frontier_has(next_level@, x) by {
                        lemma_frontier_push(nl1, entry, x);
                        if !vn1.contains(x) {
                            assert(g.cast_of(tconst@).difference(vn1).contains(x));
                            assert(ids(entry.1@).to_set().contains(x));
                        }
                    }
                    assert forall|t: Id, x: Id|
                        members(*ignored_titles).contains(t) && !vt0.contains(t)
                            && #[trigger] g.has_cast(t, x) implies members(
                        *ignored_names,
                    ).contains(x) by {
                        if t == tconst@ {
                            assert(g.cast_of(tconst@).contains(x));
                        }
                    }
                }
            }
        } else {
            proof {
                if !vt0.contains(tconst@) {
                    assert(all.take(j as int).contains(tconst@));
                    let i = choose|i: int|
                        0 <= i < all.take(j as int).len() && all.take(j as int)[i] == tconst@;
                    assert(!fresh_hit(g, vt0, nconst@, titles@[i]@, nconst2@));
                }
            }
        }
        j += 1;
    }
    proof {
        assert(all.take(titles.len() as int) =~= all);
        assert forall|i: int| 0 <= i < all.len() implies !fresh_hit(
            g,
            vt0,
            nconst@,
            #[trigger] all[i],
            nconst2@,
        ) by {
            assert(all[i] == titles@[i]@);
        }
    }
    None
}

/// Expands one actor: looks their titles up, in `ahead` where the look-ups
/// were made ahead and else in the cache, and visits each title that is new.
/// An actor that the cache does not know is the error.
fn expand_actor(
    cache: &TitlePrincipalCache,
    ignored_titles: &mut DashSet<String>,
    ignored_names: &mut DashSet<String>,
    route: &Vec<String>,
    nconst: &String,
    ahead: Option<&Option<Lookup>>,
    nconst2: &str,
    next_level: &mut Vec<FrontierEntry>,
) -> (r: Result<Option<Vec<String>>, NameNotFound>)
    requires
        ahead is Some ==> ((*ahead->0) is Some <==> cache@.knows(nconst@)),
        ahead is Some && (*ahead->0) is Some ==> lookup_ok(
            cache@,
            members(*old(ignored_titles)),
            nconst@,
            (*ahead->0)->0,
        ),
    ensures
        members(*old(ignored_titles)).subset_of(members(*final(ignored_titles))),
        members(*old(ignored_names)).subset_of(members(*final(ignored_names))),
        r is Err <==> !cache@.knows(nconst@),
        r is Err ==> (r->Err_0).0@ == nconst@,
        r is Err ==> members(*final(ignored_titles)) == members(*old(ignored_titles)),
        r is Err ==> members(*final(ignored_names)) == members(*old(ignored_names)),
        forall|t: Id| #[trigger]
            members(*final(ignored_titles)).contains(t) && !members(*old(ignored_titles)).contains(
                t,
            ) ==> cache@.has_credit(nconst@, t),
        forall|x: Id| #[trigger]
            members(*final(ignored_names)).contains(x) && !members(*old(ignored_names)).contains(
                x,
            ) ==> from_new_cast(
                cache@,
                members(*old(ignored_titles)),
                members(*final(ignored_titles)),
                x,
            ),
        r is Ok && r->Ok_0 is Some ==> exists|title: Id|
            #[trigger] fresh_hit(cache@, members(*old(ignored_titles)), nconst@, title, nconst2@)
                && ids((r->Ok_0)->0@) == ids(route@).push(nconst@).push(title).push(nconst2@)
                && members(*final(ignored_titles)).contains(title),
        r is Ok && r->Ok_0 is None ==> actor_expanded(
            cache@,
            members(*old(ignored_titles)),
            members(*old(ignored_names)),
            members(*final(ignored_titles)),
            members(*final(ignored_names)),
            ids(route@),
            nconst@,
            nconst2@,
            old(next_level)@,
            final(next_level)@,
        ),
{
    let ghost g = cache@;
    let ghost vt0 = members(*ignored_titles);
    let ghost vn0 = members(*ignored_names);
    let ghost nl0 = next_level@;
    match ahead {
        Some(looked_up) => match looked_up {
            Some(lookup) => {
                proof {
                    let listed = ids(lookup.titles@);
                    assert forall|j: int| 0 <= j < lookup.titles@.len() implies g.has_credit(
                        nconst@,
                        #[trigger] lookup.titles@[j]@,
                    ) by {
                        assert(listed[j] == lookup.titles@[j]@);
                    }
                }
                let found = visit_titles(
                    cache,
                    ignored_titles,
                    ignored_names,
                    route,
                    nconst,
                    &lookup.titles,
                    Some(&lookup.casts),
                    nconst2,
                    next_level,
                );
                proof {
                    if found is None {
                        lemma_titles_to_actor(
                            g,
                            vt0,
                            vn0,
                            members(*ignored_titles),
                            members(*ignored_names),
                            ids(route@),
                            nconst@,
                            ids(lookup.titles@),
                            nconst2@,
                            nl0,
                            next_level@,
                        );
                    }
                }
                Ok(found)
            },
            None => Err(NameNotFound(nconst.clone())),
        },
        None => match cache.p_to_t(nconst.as_str()) {
            Some(titles) => {
                proof {
                    let listed = ids(titles@);
                    assert forall|j: int| 0 <= j < titles@.len() implies g.has_credit(
                        nconst@,
                        #[trigger] titles@[j]@,
                    ) by {
                        assert(listed[j] == titles@[j]@);
                        assert(listed.to_set().contains(listed[j]));
                    }
                    assert forall|j: int| 0 <= j < listed.len() implies g.has_credit(
                        nconst@,
                        #[trigger] listed[j],
                    ) by {
                        assert(listed[j] == titles@[j]@);
                    }
                    assert forall|t: Id| #[trigger]
                        g.has_credit(nconst@, t) && !vt0.contains(t) implies listed.contains(t) by {
                        assert(listed.to_set().contains(t));
                    }
                    assert(titles_listed(g, vt0, nconst@, listed));
                }
                let found = visit_titles(
                    cache,
                    ignored_titles,
                    ignored_names,
                    route,
                    nconst,
                    &titles,
                    None,
                    nconst2,
                    next_level,
                );
                proof {
                    if found is None {
                        lemma_titles_to_actor(
                            g,
                            vt0,
                            vn0,
                            members(*ignored_titles),
                            members(*ignored_names),
                            ids(route@),
                            nconst@,
                            ids(titles@),
                            nconst2@,
                            nl0,
                            next_level@,
                        );
                    }
                }
                Ok(found)
            },
            None => Err(NameNotFound(nconst.clone())),
        },
    }
}

/// Expands one frontier entry by one level, with the look-ups of `ahead`
/// where they were made ahead and else with the cache.
fn expand_route(
    cache: &TitlePrincipalCache,
    ignored_titles: &mut DashSet<String>,
    ignored_names: &mut DashSet<String>,
    route: &Vec<String>,
    names_to_visit: &Vec<String>,
    nconst2: &str,
    ahead: Option<&Vec<Option<Lookup>>>,
) -> (r: Result<NextRoute, NameNotFound>)
    requires
        ahead is Some ==> fetched_ok(
            cache@,
            members(*old(ignored_titles)),
            ids(names_to_visit@),
            ahead->0@,
        ),
    ensures
        route_result(
            cache@,
            members(*old(ignored_titles)),
            members(*old(ignored_names)),
            members(*final(ignored_titles)),
            members(*final(ignored_names)),
            ids(route@),
            ids(names_to_visit@),
            nconst2@,
            r,
        ),
{
    let mut next_level: Vec<FrontierEntry> = Vec::new();
    let ghost g = cache@;
    let ghost vt0 = members(*ignored_titles);
    let ghost vn0 = members(*ignored_names);
    let ghost acts = ids(names_to_visit@);
    let ghost prefix = ids(route@);
    let mut i: usize = 0;
    while i < names_to_visit.len()
        invariant
            i <= names_to_visit.len(),
            g == cache@,
            acts == ids(names_to_visit@),
            prefix == ids(route@),
            vt0 == members(*old(ignored_titles)),
            vn0 == members(*old(ignored_names)),
            ahead is Some ==> fetched_ok(g, vt0, acts, ahead->0@),
            vt0.subset_of(members(*ignored_titles)),
            vn0.subset_of(members(*ignored_names)),
            forall|k: int| 0 <= k < i ==> !stops_at(g, vt0, #[trigger] acts[k], nconst2@),
            forall|t: Id| #[trigger]
                members(*ignored_titles).contains(t) <==> vt0.contains(t) || credited_by(
                    g,
                    acts.take(i as int),
                    t,
                ),
            forall|t: Id| #[trigger]
                members(*ignored_titles).contains(t) && !vt0.contains(t) ==> !g.has_cast(
                    t,
                    nconst2@,
                ),
            forall|t: Id, x: Id|
                members(*ignored_titles).contains(t) && !vt0.contains(t) && #[trigger] g.has_cast(
                    t,
                    x,
                ) ==> members(*ignored_names).contains(x),
            forall|x: Id| #[trigger]
                members(*ignored_names).contains(x) && !vn0.contains(x) ==> frontier_has(
                    next_level@,
                    x,
                ),
            forall|x: Id| #[trigger]
                members(*ignored_names).contains(x) && !vn0.contains(x) ==> from_new_cast(
                    g,
                    vt0,
                    members(*ignored_titles),
                    x,
                ),
            forall|e: int|
                0 <= e < next_level@.len() ==> entry_ok(
                    g,
                    vt0,
                    vn0,
                    prefix,
                    acts,
                    #[trigger] next_level@[e],
                ),
            entries_apart(next_level@, 0),
            entries_within(next_level@, 0, members(*ignored_titles), members(*ignored_names)),
            forall|t: Id| #[trigger]
                members(*ignored_titles).contains(t) && !vt0.contains(t) ==> entry_for(
                    next_level@,
                    0,
                    t,
                ),
        decreases names_to_visit.len() - i,
    {
        let nconst: &String = &names_to_visit[i];
        let ghost vt1 = members(*ignored_titles);
        let ghost vn1 = members(*ignored_names);
        let ghost nl1 = next_level@;
        let ghost a = acts[i as int];
        let looked_up: Option<&Option<Lookup>> = match ahead {
            Some(all) => Some(&all[i]),
            None => None,
        };
        proof {
            if ahead is Some {
                assert(lookup_ok(g, vt0, a, (ahead->0@[i as int])->0) ==> lookup_ok(
                    g,
                    vt1,
                    a,
                    (ahead->0@[i as int])->0,
                ));
            }
        }
        let step = expand_actor(
            cache,
            ignored_titles,
            ignored_names,
            route,
            nconst,
            looked_up,
            nconst2,
            &mut next_level,
        );
        proof {
            lemma_marks_at(
                g,
                vt0,
                vn0,
                vt1,
                vn1,
                members(*ignored_titles),
                members(*ignored_names),
                acts,
                i as int,
            );
        }
        match step {
            Err(e) => {
                proof {
                    assert(first_stop(g, vt0, acts, nconst2@, i as int));
                }
                return Err(e);
            },
            Ok(Some(route2)) => {
                proof {
                    let title = choose|title: Id|
                        #[trigger] fresh_hit(g, vt1, a, title, nconst2@) && ids(route2@)
                            == prefix.push(a).push(title).push(nconst2@) && members(
                            *ignored_titles,
                        ).contains(title);
                    assert(fresh_hit(g, vt0, a, title, nconst2@));
                    assert(first_stop(g, vt0, acts, nconst2@, i as int));
                }
                return Ok(NextRoute::found(route2));
            },
            Ok(None) => {
                proof {
                    let vt2 = members(*ignored_titles);
                    let vn2 = members(*ignored_names);
                    let nl2 = next_level@;
                    assert forall|t: Id| !fresh_hit(g, vt0, a, t, nconst2@) by {
                        assert(!fresh_hit(g, vt1, a, t, nconst2@));
                    }
                    assert forall|e: int| nl1.len() <= e < nl2.len() implies !vt1.contains(
                        title_of(#[trigger] nl2[e]),
                    ) by {
                        assert(entry_made(g, vt1, vn1, prefix, a, nl2[e]));
                    }
                    assert forall|e: int, j: int|
                        nl1.len() <= e && #[trigger] slot(nl2, e, j) implies !vn1.contains(
                        nl2[e].1@[j]@,
                    ) by {
                        assert(entry_made(g, vt1, vn1, prefix, a, nl2[e]));
                    }
                    lemma_entries_extend(nl1, nl2, vt1, vn1, vt2, vn2);
                    assert(!stops_at(g, vt0, acts[i as int], nconst2@));
                    assert forall|t: Id| #[trigger]
                        vt2.contains(t) <==> vt0.contains(t) || credited_by(
                            g,
                            acts.take(i + 1),
                            t,
                        ) by {
                        lemma_credited_take(g, acts, i as int, t);
                    }
                    assert forall|t: Id| #[trigger] vt2.contains(t) && !vt0.contains(t) implies !g.has_cast(
                        t,
                        nconst2@,
                    ) by {
                        if !vt1.contains(t) {
                            assert(!fresh_hit(g, vt1, a, t, nconst2@));
                        }
                    }
                    assert forall|x: Id| #[trigger] vn2.contains(x) && !vn0.contains(x) implies frontier_has(
                        nl2,
                        x,
                    ) by {
                        if vn1.contains(x) {
                            lemma_frontier_extends(nl1, nl2, x);
                        }
                    }
                    assert forall|e: int| 0 <= e < nl2.len() implies entry_ok(
                        g,
                        vt0,
                        vn0,
                        prefix,
                        acts,
                        #[trigger] nl2[e],
                    ) by {
                        if e < nl1.len() {
                            assert(nl2.take(nl1.len() as int)[e] == nl2[e]);
                        } else {
                            assert(entry_made(g, vt1, vn1, prefix, a, nl2[e]));
                            let path = ids(nl2[e].0@);
                            assert(path[path.len() - 2] == a);
                        }
                    }
                }
            },
        }
        i += 1;
    }
    proof {
        assert(acts.take(names_to_visit.len() as int) =~= acts);
        assert(marks_from(g, vt0, vn0, members(*ignored_titles), members(*ignored_names), acts));
    }
    Ok(NextRoute::search_further(next_level))
}

/// Expands one frontier entry by one level. Each actor of `names_to_visit`
/// is looked up in turn, and each of their titles that `ignored_titles` does
/// not hold yet is marked and scanned. The search stops at the first actor
/// that the cache does not know, with the error, or that has a new title
/// with `nconst2` in its cast, with the route through that title. Where it
/// stops at none, the entries for the next level are handed out. Whatever
/// the outcome, only titles of the actors up to the one at which it stopped
/// are marked, and only actors of the casts of those titles.
pub fn search_route(
    cache: &TitlePrincipalCache,
    ignored_titles: &mut DashSet<String>,
    ignored_names: &mut DashSet<String>,
    route: &Vec<String>,
    names_to_visit: &Vec<String>,
    nconst2: &str,
) -> (r: Result<NextRoute, NameNotFound>)
    ensures
        route_result(
            cache@,
            members(*old(ignored_titles)),
            members(*old(ignored_names)),
            members(*final(ignored_titles)),
            members(*final(ignored_names)),
            ids(route@),
            ids(names_to_visit@),
            nconst2@,
            r,
        ),
{
    expand_route(cache, ignored_titles, ignored_names, route, names_to_visit, nconst2, None)
}

/// Looks up the cast of each of `titles` that `ignored_titles` does not
/// hold. A title that the cache does not know has an empty cast.
fn fetch_casts(
    cache: &TitlePrincipalCache,
    ignored_titles: &DashSet<String>,
    titles: &Vec<String>,
) -> (l: Lookup)
    ensures
        casts_listed(cache@, l.titles@, l.casts@),
        forall|j: int|
            0 <= j < l.titles@.len() ==> ids(titles@).contains(#[trigger] ids(l.titles@)[j]),
        forall|j: int|
            0 <= j < titles@.len() && !members(*ignored_titles).contains(
                #[trigger] ids(titles@)[j],
            ) ==> ids(l.titles@).contains(ids(titles@)[j]),
{
    let mut kept: Vec<String> = Vec::new();
    let mut casts: Vec<Vec<String>> = Vec::new();
    let ghost all = ids(titles@);
    let mut j: usize = 0;
    while j < titles.len()
        invariant
            j <= titles.len(),
            all == ids(titles@),
            casts_listed(cache@, kept@, casts@),
            forall|i: int| 0 <= i < kept@.len() ==> all.contains(#[trigger] ids(kept@)[i]),
            forall|i: int|
                0 <= i < j && !members(*ignored_titles).contains(#[trigger] all[i]) ==> ids(
                    kept@,
                ).contains(all[i]),
        decreases titles.len() - j,
    {
        let tconst: &String = &titles[j];
        if !visited_contains(ignored_titles, tconst.as_str()) {
            let cast: Vec<String> = match cache.t_to_p(tconst.as_str()) {
                Some(names) => names,
                None => Vec::new(),
            };
            let ghost kept_before = kept@;
            let ghost casts_before = casts@;
            proof {
                if !cache@.cast.dom().contains(tconst@) {
                    assert(ids(cast@).to_set() =~= cache@.cast_of(tconst@));
                }
            }
            kept.push(tconst.clone());
            casts.push(cast);
            proof {
                assert(ids(kept@) =~= ids(kept_before).push(tconst@));
                assert forall|i: int| 0 <= i < kept@.len() implies ids(
                    (#[trigger] casts@[i])@,
                ).to_set() == cache@.cast_of(kept@[i]@) by {
                    if i < kept_before.len() {
                        assert(casts@[i] == casts_before[i]);
                        assert(kept@[i] == kept_before[i]);
                    }
                }
                assert forall|i: int| 0 <= i < kept@.len() implies all.contains(
                    #[trigger] ids(kept@)[i],
                ) by {
                    if i < kept_before.len() {
                        assert(ids(kept@)[i] == ids(kept_before)[i]);
                    } else {
                        assert(all[j as int] == tconst@);
                    }
                }
                assert forall|i: int|
                    0 <= i < j + 1 && !members(*ignored_titles).contains(
                        #[trigger] all[i],
                    ) implies ids(kept@).contains(all[i]) by {
                    if i < j {
                        let w = choose|w: int|
                            0 <= w < ids(kept_before).len() && ids(kept_before)[w] == all[i];
                        assert(ids(kept@)[w] == all[i]);
                    } else {
                        assert(ids(kept@)[kept_before.len() as int] == all[i]);
                    }
                }
            }
        }
        j += 1;
    }
    Lookup { titles: kept, casts }
}

/// Looks up each actor of `names_to_visit`: nothing for one that the cache
/// does not know, else their titles that `ignored_titles` does not hold,
/// each with its cast. Nothing is marked.
pub fn fetch_route(
    cache: &TitlePrincipalCache,
    ignored_titles: &DashSet<String>,
    names_to_visit: &Vec<String>,
) -> (ahead: Vec<Option<Lookup>>)
    ensures
        fetched_ok(cache@, members(*ignored_titles), ids(names_to_visit@), ahead@),
{
    let mut ahead: Vec<Option<Lookup>> = Vec::new();
    let ghost g = cache@;
    let ghost seen = members(*ignored_titles);
    let ghost acts = ids(names_to_visit@);
    let mut i: usize = 0;
    while i < names_to_visit.len()
        invariant
            i <= names_to_visit.len(),
            g == cache@,
            seen == members(*ignored_titles),
            acts == ids(names_to_visit@),
            ahead@.len() == i,
            forall|k: int| 0 <= k < i ==> ((#[trigger] ahead@[k]) is Some <==> g.knows(acts[k])),
            forall|k: int|
                0 <= k < i && (#[trigger] ahead@[k]) is Some ==> lookup_ok(
                    g,
                    seen,
                    acts[k],
                    ahead@[k]->0,
                ),
        decreases names_to_visit.len() - i,
    {
        let nconst: &String = &names_to_visit[i];
        let found: Option<Lookup> = match cache.p_to_t(nconst.as_str()) {
            Some(titles) => {
                let lookup = fetch_casts(cache, ignored_titles, &titles);
                proof {
                    let all = ids(titles@);
                    let listed = ids(lookup.titles@);
                    assert forall|j: int| 0 <= j < listed.len() implies g.has_credit(
                        nconst@,
                        #[trigger] listed[j],
                    ) by {
                        assert(all.contains(ids(lookup.titles@)[j]));
                        assert(all.to_set().contains(listed[j]));
                    }
                    assert forall|t: Id| #[trigger]
                        g.has_credit(nconst@, t) && !seen.contains(t) implies listed.contains(
                        t,
                    ) by {
                        assert(all.to_set().contains(t));
                        let j = choose|j: int| 0 <= j < all.len() && all[j] == t;
                        assert(listed.contains(ids(titles@)[j]));
                    }
                    assert(lookup_ok(g, seen, nconst@, lookup));
                }
                Some(lookup)
            },
            None => None,
        };
        ahead.push(found);
        i += 1;
    }
    ahead
}

/// Expands every entry of `this_level` in turn, and puts the entries that
/// they hand out together. It ends at the first entry that fails or finds
/// the target. With `do_parallel` the cache is read ahead, for up to
/// `BATCH_SIZE` entries at a time and side by side, and the expansion of
/// each entry then works on what was read. The visited sets only grow, and
/// stay as they are where the level is empty or its first actor is unknown.
pub fn search_level(
    do_parallel: bool,
    cache: &TitlePrincipalCache,
    visited_titles: &mut DashSet<String>,
    visited_names: &mut DashSet<String>,
    this_level: &Vec<FrontierEntry>,
    nconst2: &str,
) -> (r: Result<NextRoute, NameNotFound>)
    requires
        settled(
            cache@,
            members(*old(visited_titles)),
            members(*old(visited_names)),
            waiting(this_level@),
            nconst2@,
        ),
    ensures
        level_result(
            cache@,
            members(*final(visited_titles)),
            members(*final(visited_names)),
            this_level@,
            nconst2@,
            r,
        ),
        members(*old(visited_titles)).subset_of(members(*final(visited_titles))),
        members(*old(visited_names)).subset_of(members(*final(visited_names))),
        this_level@.len() == 0 || opens_unknown(cache@, this_level@) ==> members(
            *final(visited_titles),
        ) == members(*old(visited_titles)),
        this_level@.len() == 0 || opens_unknown(cache@, this_level@) ==> members(
            *final(visited_names),
        ) == members(*old(visited_names)),
{
    let mut next_level: Vec<FrontierEntry> = Vec::new();
    let mut fetched: Vec<Vec<Option<Lookup>>> = Vec::new();
    let mut batch_start: usize = 0;
    let ghost g = cache@;
    let ghost level = this_level@;
    let ghost vt0 = members(*visited_titles);
    let ghost vn0 = members(*visited_names);
    let mut k: usize = 0;
    proof {
        assert(waiting(level).union(waiting(next_level@)) =~= waiting(level));
    }
    while k < this_level.len()
        invariant
            k <= this_level.len(),
            g == cache@,
            level == this_level@,
            vt0 == members(*old(visited_titles)),
            vn0 == members(*old(visited_names)),
            vt0.subset_of(members(*visited_titles)),
            vn0.subset_of(members(*visited_names)),
            opens_unknown(g, level) || k == 0 ==> members(*visited_titles) == vt0 && members(
                *visited_names,
            ) == vn0,
            opens_unknown(g, level) ==> forall|k1: int|
                0 <= k1 < k ==> (#[trigger] level[k1]).1@.len() == 0,
            batch_start <= k,
            batch_start + fetched@.len() <= this_level.len(),
            do_parallel ==> k <= batch_start + fetched@.len(),
            forall|b: int|
                k - batch_start <= b < fetched@.len() ==> fetched_ok(
                    g,
                    members(*visited_titles),
                    ids(level[batch_start + b].1@),
                    (#[trigger] fetched@[b])@,
                ),
            settled(
                g,
                members(*visited_titles),
                members(*visited_names),
                waiting(level).union(waiting(next_level@)),
                nconst2@,
            ),
            forall|k1: int, i1: int| #[trigger]
                slot(level, k1, i1) && k1 < k ==> !blocks(g, level[k1].1@[i1]@, nconst2@) && done(
                    g,
                    members(*visited_titles),
                    level[k1].1@[i1]@,
                ),
            forall|e: int| 0 <= e < next_level@.len() ==> made_in(g, level, #[trigger] next_level@[e]),
        decreases this_level.len() - k,
    {
        if do_parallel && k - batch_start >= fetched.len() {
            let end: usize = if this_level.len() - k > BATCH_SIZE {
                k + BATCH_SIZE
            } else {
                this_level.len()
            };
            fetched = par_fetch(cache, &*visited_titles, this_level, k, end);
            batch_start = k;
        }
        let ghost vt1 = members(*visited_titles);
        let ghost vn1 = members(*visited_names);
        let ghost nl1 = next_level@;
        let ghost acts = ids(level[k as int].1@);
        let entry = &this_level[k];
        let expansion = if do_parallel {
            expand_route(
                cache,
                visited_titles,
                visited_names,
                &entry.0,
                &entry.1,
                nconst2,
                Some(&fetched[k - batch_start]),
            )
        } else {
            expand_route(cache, visited_titles, visited_names, &entry.0, &entry.1, nconst2, None)
        };
        proof {
            if opens_unknown(g, level) {
                lemma_opening(
                    g,
                    level,
                    k as int,
                    vt1,
                    vn1,
                    members(*visited_titles),
                    members(*visited_names),
                    nconst2@,
                    expansion,
                );
            }
        }
        match expansion {
            Err(e) => {
                proof {
                    let i = choose|i: int| #[trigger]
                        first_stop(g, vt1, acts, nconst2@, i) && !g.knows(acts[i]) && e.0@
                            == acts[i];
                    assert(slot(level, k as int, i));
                    assert forall|k1: int, i1: int| #[trigger]
                        slot(level, k1, i1) && earlier(k1, i1, k as int, i) implies !blocks(
                        g,
                        level[k1].1@[i1]@,
                        nconst2@,
                    ) by {
                        if k1 == k {
                            lemma_stop_is_block(g, vt1, acts[i1], nconst2@);
                        }
                    }
                    assert(fails_at(g, level, nconst2@, k as int, i));
                }
                return Err(e);
            },
            Ok(next_route) => {
                let NextRoute { success_route, next_level: mut out } = next_route;
                if let Some(route2) = success_route {
                    proof {
                        let (i, title) = choose|i: int, title: Id|
                            first_stop(g, vt1, acts, nconst2@, i) && #[trigger] fresh_hit(
                                g,
                                vt1,
                                acts[i],
                                title,
                                nconst2@,
                            ) && ids(route2@) == ids(level[k as int].0@).push(acts[i]).push(
                                title,
                            ).push(nconst2@);
                        assert(slot(level, k as int, i));
                        lemma_stop_is_block(g, vt1, acts[i], nconst2@);
                        assert forall|k1: int, i1: int| #[trigger]
                            slot(level, k1, i1) && earlier(k1, i1, k as int, i) implies !blocks(
                            g,
                            level[k1].1@[i1]@,
                            nconst2@,
                        ) by {
                            if k1 == k {
                                lemma_stop_is_block(g, vt1, acts[i1], nconst2@);
                            }
                        }
                        assert(first_block(g, level, nconst2@, k as int, i));
                        assert(lands(g, level, nconst2@, k as int, i, title, ids(route2@)));
                    }
                    return Ok(NextRoute::found(route2));
                }
                proof {
                    let vt2 = members(*visited_titles);
                    lemma_entry_step(
                        g,
                        vt1,
                        vn1,
                        vt2,
                        members(*visited_names),
                        level,
                        k as int,
                        nl1,
                        out@,
                        nconst2@,
                    );
                    assert forall|b: int| k + 1 - batch_start <= b < fetched@.len() implies fetched_ok(
                        g,
                        vt2,
                        ids(level[batch_start + b].1@),
                        (#[trigger] fetched@[b])@,
                    ) by {
                        lemma_fetched_later(
                            g,
                            vt1,
                            vt2,
                            ids(level[batch_start + b].1@),
                            fetched@[b]@,
                        );
                    }
                }
                next_level.append(&mut out);
            },
        }
        k += 1;
    }
    proof {
        lemma_level_settled(
            g,
            members(*visited_titles),
            members(*visited_names),
            level,
            next_level@,
            nconst2@,
        );
        assert forall|k1: int, i1: int| #[trigger] slot(level, k1, i1) implies !blocks(
            g,
            level[k1].1@[i1]@,
            nconst2@,
        ) by {}
    }
    Ok(NextRoute::search_further(next_level))
}

/// Expands `this_level` and, as long as no route is found and a level hands
/// something on, the levels after it, up to `MAX_LEVEL`.
fn search_levels(
    do_parallel: bool,
    cache: &TitlePrincipalCache,
    visited_titles: &mut DashSet<String>,
    visited_names: &mut DashSet<String>,
    this_level: &Vec<FrontierEntry>,
    nconst2: &str,
    level: usize,
) -> (r: Result<Vec<String>, NameNotFound>)
    requires
        cache@.mirrored(),
        level >= 1,
        settled(
            cache@,
            members(*old(visited_titles)),
            members(*old(visited_names)),
            waiting(this_level@),
            nconst2@,
        ),
    ensures
        search_result(cache@, this_level@, nconst2@, budget(level as nat), r),
        members(*old(visited_titles)).subset_of(members(*final(visited_titles))),
        members(*old(visited_names)).subset_of(members(*final(visited_names))),
        this_level@.len() == 0 || level > MAX_LEVEL || opens_unknown(cache@, this_level@)
            ==> members(*final(visited_titles)) == members(*old(visited_titles)),
        this_level@.len() == 0 || level > MAX_LEVEL || opens_unknown(cache@, this_level@)
            ==> members(*final(visited_names)) == members(*old(visited_names)),
    decreases budget(level as nat),
{
    if level > MAX_LEVEL {
        return Ok(Vec::new());
    }
    let expansion = search_level(
        do_parallel && level > 1,
        cache,
        visited_titles,
        visited_names,
        this_level,
        nconst2,
    );
    match expansion {
        Err(e) => Err(e),
        Ok(next_route) => {
            let NextRoute { success_route, next_level } = next_route;
            if let Some(route) = success_route {
                proof {
                    let (k, i, title) = choose|k: int, i: int, title: Id| #[trigger]
                        lands(cache@, this_level@, nconst2@, k, i, title, ids(route@));
                    lemma_landing_answers(
                        cache@,
                        this_level@,
                        nconst2@,
                        budget(level as nat),
                        k,
                        i,
                        title,
                        route,
                    );
                }
                Ok(route)
            } else if level >= MAX_LEVEL || next_level.is_empty() {
                let r = Ok(Vec::new());
                proof {
                    assert(r is Ok && r->Ok_0@.len() == 0);
                    if next_level@.len() == 0 {
                        assert forall|actor: Id| !waiting(next_level@).contains(actor) by {
                            if frontier_has(next_level@, actor) {
                                let (k, j) = choose|k: int, j: int| #[trigger]
                                    slot(next_level@, k, j) && next_level@[k].1@[j]@ == actor;
                            }
                        }
                    }
                    lemma_search_step(
                        cache@,
                        members(*visited_titles),
                        members(*visited_names),
                        this_level@,
                        next_level@,
                        nconst2@,
                        budget(level as nat),
                        r,
                    );
                }
                r
            } else {
                let ghost seen_titles = members(*visited_titles);
                let ghost seen_names = members(*visited_names);
                proof {
                    assert(made_in(cache@, this_level@, next_level@[0]));
                    if opens_unknown(cache@, this_level@) {
                        let (kk, ii) = choose|kk: int, ii: int| #[trigger]
                            first_slot(this_level@, kk, ii) && !cache@.knows(
                                this_level@[kk].1@[ii]@,
                            );
                        assert(slot(this_level@, kk, ii));
                    }
                }
                let r = search_levels(
                    do_parallel,
                    cache,
                    visited_titles,
                    visited_names,
                    &next_level,
                    nconst2,
                    level + 1,
                );
                proof {
                    lemma_search_step(
                        cache@,
                        seen_titles,
                        seen_names,
                        this_level@,
                        next_level@,
                        nconst2@,
                        budget(level as nat),
                        r,
                    );
                }
                r
            }
        },
    }
}

/// The first actor of `this_level`, in the order in which it is walked, of
/// whom the cache has no record.
fn first_stranger(cache: &TitlePrincipalCache, this_level: &Vec<FrontierEntry>) -> (r: Option<
    String,
>)
    ensures
        r is Some ==> exists|k: int, i: int| #[trigger]
            first_unknown(cache@, this_level@, k, i) && (r->0)@ == this_level@[k].1@[i]@,
        r is None ==> all_known(cache@, this_level@),
{
    let ghost g = cache@;
    let ghost level = this_level@;
    let mut k: usize = 0;
    while k < this_level.len()
        invariant
            k <= this_level.len(),
            g == cache@,
            level == this_level@,
            forall|k1: int, i1: int| #[trigger]
                slot(level, k1, i1) && k1 < k ==> g.knows(level[k1].1@[i1]@),
        decreases this_level.len() - k,
    {
        let names = &this_level[k].1;
        let mut i: usize = 0;
        while i < names.len()
            invariant
                i <= names.len(),
                k < this_level.len(),
                g == cache@,
                level == this_level@,
                names@ == level[k as int].1@,
                forall|k1: int, i1: int| #[trigger]
                    slot(level, k1, i1) && k1 < k ==> g.knows(level[k1].1@[i1]@),
                forall|i1: int| 0 <= i1 < i ==> g.knows(#[trigger] names@[i1]@),
            decreases names.len() - i,
        {
            if cache.degree(names[i].as_str()).is_none() {
                proof {
                    assert(first_unknown(g, level, k as int, i as int));
                }
                return Some(names[i].clone());
            }
            i += 1;
        }
        k += 1;
    }
    None
}

/// A visited set that holds nothing, with the room that a query reserves.
pub fn fresh_visited() -> (s: DashSet<String>)
    ensures
        members(s) == Set::<Id>::empty(),
{
    visited_with_capacity(VISITED_CAPACITY)
}

/// Searches level by level for `nconst2`, from the frontier `this_level`
/// that stands at `level`. An empty frontier gives the empty route. At the
/// first level the target is looked up before anything is expanded: where
/// the cache has no record of it, the search ends with the error that names
/// the first actor of the frontier that is unknown too, and else the
/// target. Otherwise levels up to `MAX_LEVEL` are expanded; the search ends
/// with the first route found, with an empty route where a level hands
/// nothing on or the last level was expanded in vain, and with the error
/// where an actor of `this_level` is unknown to the cache and no actor
/// before them leads to the target. With `do_parallel`, every level after
/// the first reads the cache ahead, side by side. The visited sets only
/// grow, and stay as they are where nothing is expanded.
pub fn search_titles(
    do_parallel: bool,
    cache: &TitlePrincipalCache,
    visited_titles: &mut DashSet<String>,
    visited_names: &mut DashSet<String>,
    this_level: &Vec<FrontierEntry>,
    nconst2: &str,
    level: usize,
) -> (r: Result<Vec<String>, NameNotFound>)
    requires
        this_level@.len() > 0 ==> cache@.mirrored(),
        this_level@.len() > 0 ==> level >= 1,
        this_level@.len() > 0 ==> settled(
            cache@,
            members(*old(visited_titles)),
            members(*old(visited_names)),
            waiting(this_level@),
            nconst2@,
        ),
    ensures
        titles_result(cache@, this_level@, nconst2@, level as nat, r),
        members(*old(visited_titles)).subset_of(members(*final(visited_titles))),
        members(*old(visited_names)).subset_of(members(*final(visited_names))),
        leaves_alone(cache@, this_level@, nconst2@, level as nat) ==> members(
            *final(visited_titles),
        ) == members(*old(visited_titles)),
        leaves_alone(cache@, this_level@, nconst2@, level as nat) ==> members(
            *final(visited_names),
        ) == members(*old(visited_names)),
{
    if this_level.is_empty() {
        return Ok(Vec::new());
    }
    if level == 1 && cache.degree(nconst2).is_none() {
        let unknown = match first_stranger(cache, this_level) {
            Some(name) => name,
            None => nconst2.to_owned(),
        };
        proof {
            assert(names_stranger(cache@, this_level@, nconst2@, unknown@));
        }
        return Err(NameNotFound(unknown));
    }
    search_levels(do_parallel, cache, visited_titles, visited_names, this_level, nconst2, level)
}

/// The shortest connection between `source` and `target`: the route that
/// alternates actors and titles from the one to the other with the fewest
/// titles, the one actor alone where the two are the same, or an empty
/// route where none has at most `MAX_LEVEL` titles. An actor that the cache
/// does not know is an error, the source before the target.
pub fn shortest_path(
    cache: &TitlePrincipalCache,
    source: &str,
    target: &str,
    parallel: bool,
) -> (r: Result<Vec<String>, NameNotFound>)
    requires
        cache@.mirrored(),
    ensures
        path_result(cache@, source@, target@, r),
{
    if cache.degree(source).is_none() {
        return Err(NameNotFound(source.to_owned()));
    }
    if cache.degree(target).is_none() {
        return Err(NameNotFound(target.to_owned()));
    }
    let from: String = source.to_owned();
    if from == target.to_owned() {
        let mut route: Vec<String> = Vec::new();
        route.push(from);
        proof {
            assert(ids(route@) =~= seq![source@]);
        }
        return Ok(route);
    }
    let mut visited_titles = visited_with_capacity(VISITED_CAPACITY);
    let mut visited_names = visited_with_capacity(VISITED_CAPACITY);
    let mut names: Vec<String> = Vec::new();
    names.push(from);
    let mut first_level: Vec<FrontierEntry> = Vec::new();
    first_level.push((Vec::new(), names));
    proof {
        assert(ids(first_level@[0].0@) =~= Seq::<Id>::empty());
        assert(ids(first_level@[0].1@) =~= seq![source@]);
    }
    let r = search_titles(
        parallel,
        cache,
        &mut visited_titles,
        &mut visited_names,
        &first_level,
        target,
        1,
    );
    proof {
        lemma_first_level(cache@, first_level@, source@, target@, r);
    }
    r
}

} // verus!
