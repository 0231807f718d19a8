//! The state of a level-by-level search, and why a search that keeps it
//! finds a route of the fewest hops.
use crate::dash::{ids, Id};
use crate::graph::{degree_of, hop, is_route, reaches_in, Graph};
use crate::frontier::{
    credited_by, entry_ok, expanded, first_stop, fresh_hit, frontier_has, lemma_frontier_concat,
    new_cast, route_result, slot, stopped, stops_at,
};
use crate::kevinbacon::{FrontierEntry, NameNotFound, NextRoute};
use vstd::prelude::*;

verus! {

/// The deepest level that a search expands.
pub const MAX_LEVEL: usize = 9;

/// The number of levels that a search entered at `level` may still expand.
pub open spec fn budget(level: nat) -> nat {
    if level <= MAX_LEVEL {
        (MAX_LEVEL + 1 - level) as nat
    } else {
        0
    }
}

/// The actors that wait in `level`.
pub open spec fn waiting(level: Seq<FrontierEntry>) -> Set<Id> {
    Set::new(|actor: Id| frontier_has(level, actor))
}

/// Whether every title of `actor` has been seen.
pub open spec fn done(g: Graph, seen_titles: Set<Id>, actor: Id) -> bool {
    forall|title: Id| #[trigger] g.has_credit(actor, title) ==> seen_titles.contains(title)
}

/// Whether the search has `actor` in hand: they wait in the frontier, or
/// all their titles have been seen.
pub open spec fn in_hand(g: Graph, seen_titles: Set<Id>, front: Set<Id>, actor: Id) -> bool {
    front.contains(actor) || done(g, seen_titles, actor)
}

/// The invariant of a search between two levels. No title that was seen has
/// the target in its cast; the cast of each title that was seen is in hand;
/// and so is each actor that was seen.
pub open spec fn settled(
    g: Graph,
    seen_titles: Set<Id>,
    seen_names: Set<Id>,
    front: Set<Id>,
    target: Id,
) -> bool {
    &&& forall|title: Id| #[trigger] seen_titles.contains(title) ==> !g.has_cast(title, target)
    &&& forall|title: Id, actor: Id|
        seen_titles.contains(title) && #[trigger] g.has_cast(title, actor) ==> in_hand(
            g,
            seen_titles,
            front,
            actor,
        )
    &&& forall|actor: Id| #[trigger]
        seen_names.contains(actor) ==> in_hand(g, seen_titles, front, actor)
}

/// Whether a search stops when it expands `actor`: the graph does not know
/// them, or they share a title with `target`.
pub open spec fn blocks(g: Graph, actor: Id, target: Id) -> bool {
    !g.knows(actor) || g.adjacent(actor, target)
}

/// Whether the position `(k, i)` comes before `(k2, i2)` in the order in
/// which a level is walked.
pub open spec fn earlier(k: int, i: int, k2: int, i2: int) -> bool {
    k < k2 || (k == k2 && i < i2)
}

/// Whether the actor at position `i` of entry `k` is the first of `level` at
/// which a search stops.
pub open spec fn first_block(
    g: Graph,
    level: Seq<FrontierEntry>,
    target: Id,
    k: int,
    i: int,
) -> bool {
    &&& slot(level, k, i)
    &&& blocks(g, level[k].1@[i]@, target)
    &&& forall|k1: int, i1: int|
        #[trigger] slot(level, k1, i1) && earlier(k1, i1, k, i) ==> !blocks(
            g,
            level[k1].1@[i1]@,
            target,
        )
}

/// Whether a search stops at no actor of `level`.
pub open spec fn no_block(g: Graph, level: Seq<FrontierEntry>, target: Id) -> bool {
    forall|k: int, i: int| #[trigger] slot(level, k, i) ==> !blocks(g, level[k].1@[i]@, target)
}

/// Whether a search of `level` ends with an error: it stops first at an
/// actor that the graph does not know.
pub open spec fn fails_at(
    g: Graph,
    level: Seq<FrontierEntry>,
    target: Id,
    k: int,
    i: int,
) -> bool {
    first_block(g, level, target, k, i) && !g.knows(level[k].1@[i]@)
}

/// Whether no actor of `front` reaches `target` in at least one and at most
/// `n` hops.
pub open spec fn out_of_reach(g: Graph, front: Set<Id>, target: Id, n: nat) -> bool {
    forall|actor: Id, d: nat|
        front.contains(actor) && 1 <= d <= n ==> !#[trigger] reaches_in(g, actor, target, d)
}

/// Whether `e` continues `b` by one hop: its route is that of `b` with one
/// of `b`'s actors and one of their titles added, and its actors are of the
/// cast of that title.
pub open spec fn entry_from(g: Graph, b: FrontierEntry, e: FrontierEntry) -> bool {
    let path = ids(e.0@);
    &&& path.len() >= 2
    &&& path == ids(b.0@).push(path[path.len() - 2]).push(path[path.len() - 1])
    &&& ids(b.1@).contains(path[path.len() - 2])
    &&& g.has_credit(path[path.len() - 2], path[path.len() - 1])
    &&& forall|j: int|
        0 <= j < e.1@.len() ==> g.has_cast(path[path.len() - 1], #[trigger] e.1@[j]@)
}

/// Whether `e` continues some entry of `level` by one hop.
pub open spec fn made_in(g: Graph, level: Seq<FrontierEntry>, e: FrontierEntry) -> bool {
    exists|k: int| 0 <= k < level.len() && entry_from(g, #[trigger] level[k], e)
}

/// Whether `route` is the route of entry `k` of `level`, then one of its
/// actors at which the search stops first, a title that they share with
/// `target`, and `target`.
pub open spec fn lands(
    g: Graph,
    level: Seq<FrontierEntry>,
    target: Id,
    k: int,
    i: int,
    title: Id,
    route: Seq<Id>,
) -> bool {
    &&& first_block(g, level, target, k, i)
    &&& g.linked(level[k].1@[i]@, title, target)
    &&& route == ids(level[k].0@).push(level[k].1@[i]@).push(title).push(target)
}

/// What the expansion of one whole level gives, from the sets seen before
/// it to those seen after it.
pub open spec fn level_result(
    g: Graph,
    titles_after: Set<Id>,
    names_after: Set<Id>,
    level: Seq<FrontierEntry>,
    target: Id,
    r: Result<NextRoute, NameNotFound>,
) -> bool {
    match r {
        Err(e) => exists|k: int, i: int| #[trigger]
            fails_at(g, level, target, k, i) && e.0@ == level[k].1@[i]@,
        Ok(n) => match n.success_route {
            Some(route) => exists|k: int, i: int, title: Id| #[trigger]
                lands(g, level, target, k, i, title, ids(route@)),
            None => {
                &&& no_block(g, level, target)
                &&& settled(g, titles_after, names_after, waiting(n.next_level@), target)
                &&& forall|actor: Id| #[trigger]
                    frontier_has(level, actor) ==> done(g, titles_after, actor)
                &&& forall|e: int|
                    0 <= e < n.next_level@.len() ==> made_in(g, level, #[trigger] n.next_level@[e])
            },
        },
    }
}

/// Whether `route` is the route of entry `k` of `level` followed by `walk`,
/// a route of the fewest hops, and of at most `limit`, from one of the
/// entry's actors to `target`.
pub open spec fn answers(
    g: Graph,
    level: Seq<FrontierEntry>,
    target: Id,
    limit: nat,
    k: int,
    walk: Seq<Id>,
    route: Seq<Id>,
) -> bool {
    &&& 0 <= k < level.len()
    &&& route == ids(level[k].0@) + walk
    &&& is_route(g, walk, walk[0], target)
    &&& ids(level[k].1@).contains(walk[0])
    &&& 1 <= degree_of(walk.len()) <= limit
    &&& out_of_reach(g, waiting(level), target, (degree_of(walk.len()) - 1) as nat)
}

/// What a search from `level` that may expand `limit` levels gives. It
/// fails exactly where it stops first at an actor that the graph does not
/// know, with that actor. Else it gives a route of the fewest hops from an
/// actor of the level to the target, behind the route of that actor's
/// entry, or no route where none has at most `limit` hops.
pub open spec fn search_result(
    g: Graph,
    level: Seq<FrontierEntry>,
    target: Id,
    limit: nat,
    r: Result<Vec<String>, NameNotFound>,
) -> bool {
    match r {
        Err(e) => limit > 0 && exists|k: int, i: int| #[trigger]
            fails_at(g, level, target, k, i) && e.0@ == level[k].1@[i]@,
        Ok(route) => {
            &&& limit > 0 ==> forall|k: int, i: int| !#[trigger] fails_at(g, level, target, k, i)
            &&& route@.len() == 0 ==> out_of_reach(g, waiting(level), target, limit)
            &&& route@.len() > 0 ==> exists|k: int, walk: Seq<Id>| #[trigger]
                answers(g, level, target, limit, k, walk, ids(route@))
        },
    }
}

/// Whether the actor at position `i` of entry `k` is the first of `level` in
/// the order in which a level is walked.
pub open spec fn first_slot(level: Seq<FrontierEntry>, k: int, i: int) -> bool {
    slot(level, k, i) && forall|k1: int, i1: int| #[trigger]
        slot(level, k1, i1) ==> !earlier(k1, i1, k, i)
}

/// Whether the first actor of `level` is one that the graph does not know.
pub open spec fn opens_unknown(g: Graph, level: Seq<FrontierEntry>) -> bool {
    exists|k: int, i: int| #[trigger] first_slot(level, k, i) && !g.knows(level[k].1@[i]@)
}

/// Whether the actor at position `i` of entry `k` is the first of `level`
/// that the graph does not know.
pub open spec fn first_unknown(g: Graph, level: Seq<FrontierEntry>, k: int, i: int) -> bool {
    &&& slot(level, k, i)
    &&& !g.knows(level[k].1@[i]@)
    &&& forall|k1: int, i1: int|
        #[trigger] slot(level, k1, i1) && earlier(k1, i1, k, i) ==> g.knows(level[k1].1@[i1]@)
}

/// Whether the graph knows every actor of `level`.
pub open spec fn all_known(g: Graph, level: Seq<FrontierEntry>) -> bool {
    forall|k: int, i: int| #[trigger] slot(level, k, i) ==> g.knows(level[k].1@[i]@)
}

/// Whether `id` is the actor that a search for an unknown target names: the
/// first actor of `level` that the graph does not know, and the target
/// where it knows them all.
pub open spec fn names_stranger(g: Graph, level: Seq<FrontierEntry>, target: Id, id: Id) -> bool {
    ||| exists|k: int, i: int| #[trigger] first_unknown(g, level, k, i) && id == level[k].1@[i]@
    ||| all_known(g, level) && id == target
}

/// What a search that is entered at the level `at` gives. From an empty
/// level it gives the empty route. At the first level, a target that the
/// graph does not know is an error: it names the first actor of the level
/// that the graph does not know either, and else the target. In every other
/// case it gives what `search_result` says for the levels that are left.
pub open spec fn titles_result(
    g: Graph,
    level: Seq<FrontierEntry>,
    target: Id,
    at: nat,
    r: Result<Vec<String>, NameNotFound>,
) -> bool {
    if level.len() == 0 {
        r is Ok && (r->Ok_0)@.len() == 0
    } else if at == 1 && !g.knows(target) {
        r is Err && names_stranger(g, level, target, (r->Err_0).0@)
    } else {
        search_result(g, level, target, budget(at), r)
    }
}

/// Whether a search that is entered at the level `at` marks nothing: the
/// level is empty or beyond the last, the target is unknown at the first
/// level, or the first actor of the level is unknown.
pub open spec fn leaves_alone(g: Graph, level: Seq<FrontierEntry>, target: Id, at: nat) -> bool {
    ||| level.len() == 0
    ||| at > MAX_LEVEL
    ||| at == 1 && !g.knows(target)
    ||| opens_unknown(g, level)
}

/// Where the first actor of a level is unknown and the entries before entry
/// `k` hold no actor, the expansion of entry `k` marks nothing, and hands
/// on an empty next level only where the entry holds no actor either.
pub proof fn lemma_opening(
    g: Graph,
    level: Seq<FrontierEntry>,
    k: int,
    titles_before: Set<Id>,
    names_before: Set<Id>,
    titles_after: Set<Id>,
    names_after: Set<Id>,
    target: Id,
    r: Result<NextRoute, NameNotFound>,
)
    requires
        0 <= k < level.len(),
        forall|k1: int| 0 <= k1 < k ==> (#[trigger] level[k1]).1@.len() == 0,
        opens_unknown(g, level),
        route_result(
            g,
            titles_before,
            names_before,
            titles_after,
            names_after,
            ids(level[k].0@),
            ids(level[k].1@),
            target,
            r,
        ),
    ensures
        titles_after == titles_before,
        names_after == names_before,
        r is Ok ==> (r->Ok_0).success_route is None && level[k].1@.len() == 0,
{
    let actors = ids(level[k].1@);
    let (kk, ii) = choose|kk: int, ii: int| #[trigger]
        first_slot(level, kk, ii) && !g.knows(level[kk].1@[ii]@);
    if actors.len() > 0 {
        assert(slot(level, k, 0));
        assert(slot(level, kk, ii));
        if kk < k {
            assert(level[kk].1@.len() == 0);
        }
        assert(kk == k && ii == 0);
        assert(!g.knows(actors[0]));
        assert(stops_at(g, titles_before, actors[0], target));
        match r {
            Err(e) => {
                let i = choose|i: int| #[trigger]
                    first_stop(g, titles_before, actors, target, i) && !g.knows(actors[i]) && e.0@
                        == actors[i] && stopped(
                        g,
                        titles_before,
                        names_before,
                        titles_after,
                        names_after,
                        actors,
                        i,
                    );
                assert(i == 0);
                assert forall|t: Id| titles_after.contains(t) implies titles_before.contains(t) by {
                    if !titles_before.contains(t) {
                        let short = actors.take(1);
                        assert(credited_by(g, short, t));
                        let j = choose|j: int|
                            0 <= j < short.len() && g.has_credit(#[trigger] short[j], t);
                        assert(short[j] == actors[0]);
                    }
                }
                assert(titles_after =~= titles_before);
                assert forall|x: Id| names_after.contains(x) implies names_before.contains(x) by {
                    if !names_before.contains(x) {
                        let t = choose|t: Id| #[trigger]
                            new_cast(g, titles_before, titles_after, t, x);
                    }
                }
                assert(names_after =~= names_before);
            },
            Ok(n) => {
                match n.success_route {
                    Some(route) => {
                        let (i, title) = choose|i: int, title: Id|
                            first_stop(g, titles_before, actors, target, i) && #[trigger] fresh_hit(
                                g,
                                titles_before,
                                actors[i],
                                title,
                                target,
                            );
                        assert(i == 0);
                        assert(false);
                    },
                    None => {
                        assert(!stops_at(g, titles_before, actors[0], target));
                        assert(false);
                    },
                }
            },
        }
    } else {
        match r {
            Err(e) => {
                let i = choose|i: int| #[trigger]
                    first_stop(g, titles_before, actors, target, i) && !g.knows(actors[i]);
                assert(false);
            },
            Ok(n) => {
                if n.success_route is Some {
                    let (i, title) = choose|i: int, title: Id|
                        first_stop(g, titles_before, actors, target, i) && #[trigger] fresh_hit(
                            g,
                            titles_before,
                            actors[i],
                            title,
                            target,
                        );
                    assert(false);
                }
            },
        }
        assert forall|t: Id| titles_after.contains(t) implies titles_before.contains(t) by {
            if !titles_before.contains(t) {
                assert(credited_by(g, actors, t));
            }
        }
        assert(titles_after =~= titles_before);
        assert forall|x: Id| names_after.contains(x) implies names_before.contains(x) by {
            if !names_before.contains(x) {
                let t = choose|t: Id| #[trigger] new_cast(g, titles_before, titles_after, t, x);
            }
        }
        assert(names_after =~= names_before);
    }
}

/// Where no title that was seen has the target in its cast, a search stops
/// at an actor exactly when the actor blocks it.
pub proof fn lemma_stop_is_block(g: Graph, seen_titles: Set<Id>, actor: Id, target: Id)
    requires
        forall|title: Id| #[trigger] seen_titles.contains(title) ==> !g.has_cast(title, target),
    ensures
        stops_at(g, seen_titles, actor, target) <==> blocks(g, actor, target),
{
    if g.knows(actor) {
        if stops_at(g, seen_titles, actor, target) {
            let title = choose|title: Id| #[trigger]
                fresh_hit(g, seen_titles, actor, title, target);
            assert(g.linked(actor, title, target));
        }
        if g.adjacent(actor, target) {
            let title = choose|title: Id| #[trigger] g.linked(actor, title, target);
            assert(fresh_hit(g, seen_titles, actor, title, target));
        }
    }
}

/// The expansion of entry `k` without a stop keeps the state settled, with
/// the new entries added to the frontier, and leaves the entry's actors
/// with all their titles seen.
pub proof fn lemma_entry_step(
    g: Graph,
    titles_before: Set<Id>,
    names_before: Set<Id>,
    titles_after: Set<Id>,
    names_after: Set<Id>,
    level: Seq<FrontierEntry>,
    k: int,
    next: Seq<FrontierEntry>,
    out: Seq<FrontierEntry>,
    target: Id,
)
    requires
        0 <= k < level.len(),
        settled(g, titles_before, names_before, waiting(level).union(waiting(next)), target),
        expanded(
            g,
            titles_before,
            names_before,
            titles_after,
            names_after,
            ids(level[k].0@),
            ids(level[k].1@),
            target,
            out,
        ),
    ensures
        settled(g, titles_after, names_after, waiting(level).union(waiting(next + out)), target),
        forall|i: int| #[trigger]
            slot(level, k, i) ==> !blocks(g, level[k].1@[i]@, target) && done(
                g,
                titles_after,
                level[k].1@[i]@,
            ),
        forall|actor: Id| #[trigger]
            done(g, titles_before, actor) ==> done(g, titles_after, actor),
        forall|e: int| 0 <= e < out.len() ==> made_in(g, level, #[trigger] out[e]),
{
    let actors = ids(level[k].1@);
    let front1 = waiting(level).union(waiting(next));
    let front2 = waiting(level).union(waiting(next + out));
    assert forall|t: Id| titles_before.contains(t) implies titles_after.contains(t) by {}
    assert forall|actor: Id| #[trigger] done(g, titles_before, actor) implies done(
        g,
        titles_after,
        actor,
    ) by {}
    assert forall|actor: Id| in_hand(g, titles_before, front1, actor) implies in_hand(
        g,
        titles_after,
        front2,
        actor,
    ) by {
        lemma_frontier_concat(next, out, actor);
    }
    assert forall|i: int| #[trigger] slot(level, k, i) implies !blocks(g, level[k].1@[i]@, target)
        && done(g, titles_after, level[k].1@[i]@) by {
        let actor = actors[i];
        lemma_stop_is_block(g, titles_before, actor, target);
        assert(!stops_at(g, titles_before, actor, target));
        assert forall|t: Id| #[trigger] g.has_credit(actor, t) implies titles_after.contains(t) by {
            assert(g.has_credit(actors[i], t));
            assert(credited_by(g, actors, t));
        }
    }
    assert forall|t: Id| #[trigger] titles_after.contains(t) implies !g.has_cast(t, target) by {
        if !titles_before.contains(t) {
            assert(credited_by(g, actors, t));
            let i = choose|i: int| 0 <= i < actors.len() && g.has_credit(#[trigger] actors[i], t);
            assert(!stops_at(g, titles_before, actors[i], target));
            assert(!fresh_hit(g, titles_before, actors[i], t, target));
        }
    }
    assert forall|actor: Id| #[trigger] names_after.contains(actor) implies in_hand(
        g,
        titles_after,
        front2,
        actor,
    ) by {
        if !names_before.contains(actor) {
            lemma_frontier_concat(next, out, actor);
        }
    }
    assert forall|t: Id, actor: Id|
        titles_after.contains(t) && #[trigger] g.has_cast(t, actor) implies in_hand(
        g,
        titles_after,
        front2,
        actor,
    ) by {
        if !titles_before.contains(t) {
            assert(names_after.contains(actor));
        }
    }
    assert forall|e: int| 0 <= e < out.len() implies made_in(g, level, #[trigger] out[e]) by {
        assert(entry_ok(g, titles_before, names_before, ids(level[k].0@), actors, out[e]));
        assert(entry_from(g, level[k], out[e]));
    }
}

/// Where every actor of a level has all their titles seen, the state is
/// settled with the next frontier alone.
pub proof fn lemma_level_settled(
    g: Graph,
    seen_titles: Set<Id>,
    seen_names: Set<Id>,
    level: Seq<FrontierEntry>,
    next: Seq<FrontierEntry>,
    target: Id,
)
    requires
        settled(g, seen_titles, seen_names, waiting(level).union(waiting(next)), target),
        forall|k: int, i: int| #[trigger] slot(level, k, i) ==> done(g, seen_titles, level[k].1@[i]@),
    ensures
        settled(g, seen_titles, seen_names, waiting(next), target),
        forall|actor: Id| #[trigger] frontier_has(level, actor) ==> done(g, seen_titles, actor),
{
    assert forall|actor: Id| #[trigger] frontier_has(level, actor) implies done(
        g,
        seen_titles,
        actor,
    ) by {
        let (k, j) = choose|k: int, j: int| #[trigger]
            slot(level, k, j) && level[k].1@[j]@ == actor;
    }
    assert forall|actor: Id|
        in_hand(g, seen_titles, waiting(level).union(waiting(next)), actor) implies in_hand(
        g,
        seen_titles,
        waiting(next),
        actor,
    ) by {}
}

/// The first hop of a route is an edge pair, and what follows it is a route
/// with one hop less.
pub proof fn lemma_route_first_hop(g: Graph, route: Seq<Id>, from: Id, to: Id)
    requires
        is_route(g, route, from, to),
        route.len() >= 3,
    ensures
        g.linked(from, route[1], route[2]),
        is_route(g, route.skip(2), route[2], to),
        route.skip(2).len() == route.len() - 2,
{
    let rest = route.skip(2);
    assert(hop(g, route, 0));
    assert forall|i: int| 0 <= i < degree_of(rest.len()) implies #[trigger] hop(g, rest, i) by {
        assert(hop(g, route, i + 1));
    }
}

/// A route with an edge pair put before it is a route with one hop more.
pub proof fn lemma_route_prepend(g: Graph, route: Seq<Id>, actor: Id, title: Id, to: Id)
    requires
        is_route(g, route, route[0], to),
        g.linked(actor, title, route[0]),
    ensures
        is_route(g, seq![actor, title] + route, actor, to),
        (seq![actor, title] + route).len() == route.len() + 2,
{
    let longer = seq![actor, title] + route;
    assert forall|i: int| 0 <= i < degree_of(longer.len()) implies #[trigger] hop(
        g,
        longer,
        i,
    ) by {
        if i > 0 {
            assert(hop(g, route, i - 1));
        }
    }
}

/// In a settled state, an actor that the search has in hand reaches the
/// target in no number of hops in which no waiting actor reaches it.
pub proof fn lemma_in_hand_out_of_reach(
    g: Graph,
    seen_titles: Set<Id>,
    seen_names: Set<Id>,
    front: Set<Id>,
    target: Id,
    n: nat,
    actor: Id,
    d: nat,
)
    requires
        settled(g, seen_titles, seen_names, front, target),
        out_of_reach(g, front, target, n),
        in_hand(g, seen_titles, front, actor),
        1 <= d <= n + 1,
        d <= n || !front.contains(actor),
    ensures
        !reaches_in(g, actor, target, d),
    decreases d,
{
    if reaches_in(g, actor, target, d) {
        let route = choose|route: Seq<Id>| #[trigger]
            is_route(g, route, actor, target) && route.len() == 2 * d + 1;
        if front.contains(actor) {
            assert(false);
        } else {
            lemma_route_first_hop(g, route, actor, target);
            let title = route[1];
            let next = route[2];
            let rest = route.skip(2);
            assert(g.has_credit(actor, title));
            assert(seen_titles.contains(title));
            assert(g.has_cast(title, next));
            if d == 1 {
                assert(rest.len() == 1);
                assert(next == target);
                assert(false);
            } else {
                assert(in_hand(g, seen_titles, front, next));
                assert(is_route(g, rest, next, target) && rest.len() == 2 * (d - 1) + 1);
                assert(reaches_in(g, next, target, (d - 1) as nat));
                lemma_in_hand_out_of_reach(
                    g,
                    seen_titles,
                    seen_names,
                    front,
                    target,
                    n,
                    next,
                    (d - 1) as nat,
                );
                assert(false);
            }
        }
    }
}

/// Where a level was expanded without a stop, its actors reach the target
/// in no number of hops that is one more than one in which no actor of the
/// next level reaches it.
pub proof fn lemma_level_out_of_reach(
    g: Graph,
    seen_titles: Set<Id>,
    seen_names: Set<Id>,
    level: Seq<FrontierEntry>,
    next: Seq<FrontierEntry>,
    target: Id,
    n: nat,
)
    requires
        settled(g, seen_titles, seen_names, waiting(next), target),
        forall|actor: Id| #[trigger] frontier_has(level, actor) ==> done(g, seen_titles, actor),
        out_of_reach(g, waiting(next), target, n),
    ensures
        out_of_reach(g, waiting(level), target, n + 1),
{
    assert forall|actor: Id, d: nat| waiting(level).contains(actor) && 1 <= d <= n + 1 implies !#[trigger] reaches_in(
        g,
        actor,
        target,
        d,
    ) by {
        assert(frontier_has(level, actor));
        if waiting(next).contains(actor) && d == n + 1 {
            // an actor that waits again is expanded again: all their titles are seen
            if reaches_in(g, actor, target, d) {
                let route = choose|route: Seq<Id>| #[trigger]
                    is_route(g, route, actor, target) && route.len() == 2 * d + 1;
                lemma_route_first_hop(g, route, actor, target);
                let rest = route.skip(2);
                assert(seen_titles.contains(route[1]));
                assert(g.has_cast(route[1], route[2]));
                if d == 1 {
                    assert(rest.len() == 1);
                    assert(false);
                } else {
                    assert(is_route(g, rest, route[2], target) && rest.len() == 2 * (d - 1) + 1);
                    assert(reaches_in(g, route[2], target, (d - 1) as nat));
                    lemma_in_hand_out_of_reach(
                        g,
                        seen_titles,
                        seen_names,
                        waiting(next),
                        target,
                        n,
                        route[2],
                        (d - 1) as nat,
                    );
                }
            }
        } else {
            lemma_in_hand_out_of_reach(
                g,
                seen_titles,
                seen_names,
                waiting(next),
                target,
                n,
                actor,
                d,
            );
        }
    }
}


/// At most one position of a level is the first at which a search stops.
pub proof fn lemma_first_block_unique(
    g: Graph,
    level: Seq<FrontierEntry>,
    target: Id,
    k: int,
    i: int,
    k2: int,
    i2: int,
)
    requires
        first_block(g, level, target, k, i),
        first_block(g, level, target, k2, i2),
    ensures
        k == k2 && i == i2,
{
    if earlier(k, i, k2, i2) {
        assert(slot(level, k, i));
    }
    if earlier(k2, i2, k, i) {
        assert(slot(level, k2, i2));
    }
}

/// A search that stops first at an actor who shares a title with the
/// target answers with the route through that title.
pub proof fn lemma_landing_answers(
    g: Graph,
    level: Seq<FrontierEntry>,
    target: Id,
    limit: nat,
    k: int,
    i: int,
    title: Id,
    route: Vec<String>,
)
    requires
        limit >= 1,
        lands(g, level, target, k, i, title, ids(route@)),
    ensures
        search_result(g, level, target, limit, Ok(route)),
{
    let actor = level[k].1@[i]@;
    let walk = seq![actor, title, target];
    assert forall|k2: int, i2: int| !#[trigger] fails_at(g, level, target, k2, i2) by {
        if fails_at(g, level, target, k2, i2) {
            lemma_first_block_unique(g, level, target, k, i, k2, i2);
        }
    }
    assert forall|j: int| 0 <= j < degree_of(walk.len()) implies #[trigger] hop(g, walk, j) by {
        assert(j == 0);
    }
    assert(ids(route@) =~= ids(level[k].0@) + walk);
    assert(ids(level[k].1@)[i] == actor);
    assert(route@.len() == ids(route@).len());
    assert(answers(g, level, target, limit, k, walk, ids(route@)));
}

/// Every actor of a level that was made by expanding another is known to a
/// graph whose two relations mirror each other.
pub proof fn lemma_made_actors_known(
    g: Graph,
    level: Seq<FrontierEntry>,
    next: Seq<FrontierEntry>,
    k: int,
    i: int,
)
    requires
        g.mirrored(),
        slot(next, k, i),
        forall|e: int| 0 <= e < next.len() ==> made_in(g, level, #[trigger] next[e]),
    ensures
        g.knows(next[k].1@[i]@),
{
    assert(made_in(g, level, next[k]));
    let b = choose|b: int| 0 <= b < level.len() && entry_from(g, #[trigger] level[b], next[k]);
    let path = ids(next[k].0@);
    assert(g.has_cast(path[path.len() - 1], next[k].1@[i]@));
    assert(g.has_credit(next[k].1@[i]@, path[path.len() - 1]));
}

/// Where a level was expanded without a stop and the search of the next
/// level, with one level less to go, gave `r`, then `r` is what the search
/// of the level gives.
pub proof fn lemma_search_step(
    g: Graph,
    seen_titles: Set<Id>,
    seen_names: Set<Id>,
    level: Seq<FrontierEntry>,
    next: Seq<FrontierEntry>,
    target: Id,
    limit: nat,
    r: Result<Vec<String>, NameNotFound>,
)
    requires
        g.mirrored(),
        limit >= 1,
        no_block(g, level, target),
        settled(g, seen_titles, seen_names, waiting(next), target),
        forall|actor: Id| #[trigger] frontier_has(level, actor) ==> done(g, seen_titles, actor),
        forall|e: int| 0 <= e < next.len() ==> made_in(g, level, #[trigger] next[e]),
        search_result(g, next, target, (limit - 1) as nat, r),
    ensures
        search_result(g, level, target, limit, r),
{
    match r {
        Err(e) => {
            let (k, i) = choose|k: int, i: int| #[trigger]
                fails_at(g, next, target, k, i) && e.0@ == next[k].1@[i]@;
            lemma_made_actors_known(g, level, next, k, i);
        },
        Ok(route) => {
            assert forall|k: int, i: int| !#[trigger] fails_at(g, level, target, k, i) by {
                if fails_at(g, level, target, k, i) {
                    assert(slot(level, k, i));
                }
            }
            if route@.len() == 0 {
                lemma_level_out_of_reach(
                    g,
                    seen_titles,
                    seen_names,
                    level,
                    next,
                    target,
                    (limit - 1) as nat,
                );
            } else {
                let (k2, walk2) = choose|k2: int, walk2: Seq<Id>| #[trigger]
                    answers(g, next, target, (limit - 1) as nat, k2, walk2, ids(route@));
                assert(made_in(g, level, next[k2]));
                let k = choose|k: int|
                    0 <= k < level.len() && entry_from(g, #[trigger] level[k], next[k2]);
                let path = ids(next[k2].0@);
                let actor = path[path.len() - 2];
                let title = path[path.len() - 1];
                let j = choose|j: int|
                    0 <= j < ids(next[k2].1@).len() && ids(next[k2].1@)[j] == walk2[0];
                assert(g.has_cast(title, next[k2].1@[j]@));
                assert(g.linked(actor, title, walk2[0]));
                lemma_route_prepend(g, walk2, actor, title, target);
                let walk = seq![actor, title] + walk2;
                assert(ids(route@) =~= ids(level[k].0@) + walk);
                lemma_level_out_of_reach(
                    g,
                    seen_titles,
                    seen_names,
                    level,
                    next,
                    target,
                    (degree_of(walk2.len()) - 1) as nat,
                );
                assert(degree_of(walk.len()) == degree_of(walk2.len()) + 1);
                assert(answers(g, level, target, limit, k, walk, ids(route@)));
            }
        },
    }
}

/// Whether `route` is what a query for the connection between two known
/// actors gives. For one and the same actor it is that actor alone. Else it
/// is a route between them of the fewest hops, or empty where no route has
/// at most `MAX_LEVEL` hops.
pub open spec fn shortest(g: Graph, source: Id, target: Id, route: Seq<Id>) -> bool {
    if source == target {
        route == seq![source]
    } else if route.len() == 0 {
        forall|d: nat| d <= MAX_LEVEL ==> !#[trigger] reaches_in(g, source, target, d)
    } else {
        &&& is_route(g, route, source, target)
        &&& degree_of(route.len()) <= MAX_LEVEL
        &&& forall|d: nat| d < degree_of(route.len()) ==> !#[trigger] reaches_in(
            g,
            source,
            target,
            d,
        )
    }
}

/// What a query gives: the error that names the first of the two actors
/// that the graph does not know, the source before the target, or the
/// shortest route.
pub open spec fn path_result(
    g: Graph,
    source: Id,
    target: Id,
    r: Result<Vec<String>, NameNotFound>,
) -> bool {
    match r {
        Err(e) => if g.knows(source) {
            !g.knows(target) && e.0@ == target
        } else {
            e.0@ == source
        },
        Ok(route) => g.knows(source) && g.knows(target) && shortest(
            g,
            source,
            target,
            ids(route@),
        ),
    }
}

/// What the search from the level that holds the source alone gives is
/// what the query gives.
pub proof fn lemma_first_level(
    g: Graph,
    level: Seq<FrontierEntry>,
    source: Id,
    target: Id,
    r: Result<Vec<String>, NameNotFound>,
)
    requires
        g.knows(source),
        g.knows(target),
        source != target,
        level.len() == 1,
        ids(level[0].0@).len() == 0,
        ids(level[0].1@) == seq![source],
        search_result(g, level, target, budget(1), r),
    ensures
        path_result(g, source, target, r),
{
    assert(ids(level[0].1@).len() == 1);
    assert(ids(level[0].1@)[0] == source);
    assert(slot(level, 0, 0) && level[0].1@[0]@ == source);
    assert(frontier_has(level, source));
    match r {
        Err(e) => {
            let (k, i) = choose|k: int, i: int| #[trigger]
                fails_at(g, level, target, k, i) && e.0@ == level[k].1@[i]@;
            assert(ids(level[0].1@)[i] == level[k].1@[i]@);
        },
        Ok(route) => {
            if route@.len() > 0 {
                let (k, walk) = choose|k: int, walk: Seq<Id>| #[trigger]
                    answers(g, level, target, budget(1), k, walk, ids(route@));
                assert(ids(route@) =~= walk);
                let j = choose|j: int|
                    0 <= j < ids(level[k].1@).len() && ids(level[k].1@)[j] == walk[0];
                assert(walk[0] == source);
            }
        },
    }
}

} // verus!
