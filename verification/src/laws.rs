//! What holds of every query and of every cache, proved from the contracts
//! of the functions that answer and fill.
use crate::dash::{ids, Id};
use crate::graph::{degree_of, hop, is_route, lemma_with_edge_wf, reaches_in, Graph};
use crate::frontier::slot;
use crate::kevinbacon::{FrontierEntry, NameNotFound};
use crate::levels::{
    all_known, fails_at, first_block, first_unknown, path_result, shortest, titles_result,
    MAX_LEVEL,
};
use vstd::prelude::*;

verus! {

/// The identifiers of `route` from the last to the first.
pub open spec fn backwards(route: Seq<Id>) -> Seq<Id> {
    Seq::new(route.len(), |i: int| route[route.len() - 1 - i])
}

/// A route that is not empty has as many identifiers as its hops say.
pub proof fn lemma_route_length(g: Graph, route: Seq<Id>, from: Id, to: Id)
    requires
        is_route(g, route, from, to),
    ensures
        route.len() == 2 * degree_of(route.len()) + 1,
        reaches_in(g, from, to, degree_of(route.len())),
{
}

/// In a graph whose relations mirror each other, a route read backwards is
/// a route from its end to its start.
pub proof fn lemma_route_backwards(g: Graph, route: Seq<Id>, from: Id, to: Id)
    requires
        g.mirrored(),
        is_route(g, route, from, to),
    ensures
        is_route(g, backwards(route), to, from),
        backwards(route).len() == route.len(),
{
    let back = backwards(route);
    let d = degree_of(route.len());
    assert forall|i: int| 0 <= i < degree_of(back.len()) implies #[trigger] hop(g, back, i) by {
        let j = d - 1 - i;
        assert(hop(g, route, j));
        assert(back[2 * i] == route[2 * j + 2]);
        assert(back[2 * i + 1] == route[2 * j + 1]);
        assert(back[2 * i + 2] == route[2 * j]);
        assert(g.has_cast(route[2 * j + 1], route[2 * j + 2]));
        assert(g.has_credit(route[2 * j], route[2 * j + 1]));
        assert(g.has_credit(route[2 * j + 2], route[2 * j + 1]));
        assert(g.has_cast(route[2 * j + 1], route[2 * j]));
    }
}

/// In a graph whose relations mirror each other, an actor reaches another
/// in as many hops as the other reaches them.
pub proof fn lemma_reach_symmetric(g: Graph, a: Id, b: Id, d: nat)
    requires
        g.mirrored(),
        reaches_in(g, a, b, d),
    ensures
        reaches_in(g, b, a, d),
{
    let route = choose|route: Seq<Id>| #[trigger]
        is_route(g, route, a, b) && route.len() == 2 * d + 1;
    lemma_route_backwards(g, route, a, b);
    assert(is_route(g, backwards(route), b, a) && backwards(route).len() == 2 * d + 1);
}

/// Two actors are one hop apart exactly when they share a title.
pub proof fn law_one_hop(g: Graph, actor: Id, target: Id)
    ensures
        reaches_in(g, actor, target, 1) <==> g.adjacent(actor, target),
{
    if reaches_in(g, actor, target, 1) {
        let route = choose|route: Seq<Id>| #[trigger]
            is_route(g, route, actor, target) && route.len() == 2 * 1 + 1;
        assert(hop(g, route, 0));
        assert(g.linked(actor, route[1], target));
    }
    if g.adjacent(actor, target) {
        let title = choose|title: Id| #[trigger] g.linked(actor, title, target);
        let route = seq![actor, title, target];
        assert forall|i: int| 0 <= i < degree_of(route.len()) implies #[trigger] hop(
            g,
            route,
            i,
        ) by {
            assert(i == 0);
        }
        assert(is_route(g, route, actor, target) && route.len() == 2 * 1 + 1);
    }
}

/// Determinism of degree: two answers to one query have the same length,
/// whatever route each of them takes and in whatever mode it was found.
pub proof fn law_degree_determined(
    g: Graph,
    source: Id,
    target: Id,
    first: Seq<Id>,
    second: Seq<Id>,
)
    requires
        shortest(g, source, target, first),
        shortest(g, source, target, second),
    ensures
        first.len() == second.len(),
{
    if source != target {
        if first.len() > 0 {
            lemma_route_length(g, first, source, target);
        }
        if second.len() > 0 {
            lemma_route_length(g, second, source, target);
        }
    }
}

/// Two queries for the same pair of actors end alike: with the same error,
/// or with routes of the same length.
pub proof fn law_queries_agree(
    g: Graph,
    source: Id,
    target: Id,
    first: Result<Vec<String>, NameNotFound>,
    second: Result<Vec<String>, NameNotFound>,
)
    requires
        path_result(g, source, target, first),
        path_result(g, source, target, second),
    ensures
        first is Err <==> second is Err,
        first is Err ==> (first->Err_0).0@ == (second->Err_0).0@,
        first is Ok ==> (first->Ok_0)@.len() == (second->Ok_0)@.len(),
{
    if first is Ok {
        law_degree_determined(g, source, target, ids((first->Ok_0)@), ids((second->Ok_0)@));
    }
}

/// Symmetry: the answer from `a` to `b` has the length of the answer from
/// `b` to `a`.
pub proof fn law_symmetry(g: Graph, a: Id, b: Id, there: Seq<Id>, back: Seq<Id>)
    requires
        g.mirrored(),
        shortest(g, a, b, there),
        shortest(g, b, a, back),
    ensures
        there.len() == back.len(),
{
    if a != b {
        if there.len() > 0 {
            lemma_route_length(g, there, a, b);
            lemma_reach_symmetric(g, a, b, degree_of(there.len()));
        }
        if back.len() > 0 {
            lemma_route_length(g, back, b, a);
            lemma_reach_symmetric(g, b, a, degree_of(back.len()));
        }
    }
}

/// Depth bound: where two different actors are more than `MAX_LEVEL` hops
/// apart, or not connected at all, the answer is the empty route.
pub proof fn law_depth_bound(g: Graph, source: Id, target: Id, route: Seq<Id>)
    requires
        source != target,
        shortest(g, source, target, route),
        forall|d: nat| d <= MAX_LEVEL ==> !#[trigger] reaches_in(g, source, target, d),
    ensures
        route.len() == 0,
{
    if route.len() > 0 {
        lemma_route_length(g, route, source, target);
    }
}

/// Disconnected components: a query between two known actors that no route
/// connects ends without error and with the empty route.
pub proof fn law_disconnected(
    g: Graph,
    source: Id,
    target: Id,
    r: Result<Vec<String>, NameNotFound>,
)
    requires
        g.knows(source),
        g.knows(target),
        path_result(g, source, target, r),
        forall|d: nat| !#[trigger] reaches_in(g, source, target, d),
    ensures
        r is Ok,
        (r->Ok_0)@.len() == 0,
{
    if source == target {
        let alone = seq![source];
        assert(is_route(g, alone, source, target) && alone.len() == 2 * 0 + 1);
        assert(reaches_in(g, source, target, 0));
    } else {
        law_depth_bound(g, source, target, ids((r->Ok_0)@));
    }
}

/// Unknown endpoint: a query that names an actor of which the graph has no
/// record ends with the error, never with a route.
pub proof fn law_unknown_endpoint(
    g: Graph,
    source: Id,
    target: Id,
    r: Result<Vec<String>, NameNotFound>,
)
    requires
        !g.knows(source) || !g.knows(target),
        path_result(g, source, target, r),
    ensures
        r is Err,
        (r->Err_0).0@ == source || (r->Err_0).0@ == target,
        !g.knows((r->Err_0).0@),
{
}

/// Unknown endpoint, at the entry of the level-by-level search: a search
/// that is entered at the first level with the source alone in its frontier
/// ends with the error exactly where the graph has no record of the source
/// or of the target, and the error names the source before the target.
pub proof fn law_entry_unknown_endpoint(
    g: Graph,
    level: Seq<FrontierEntry>,
    source: Id,
    target: Id,
    r: Result<Vec<String>, NameNotFound>,
)
    requires
        level.len() == 1,
        ids(level[0].1@) == seq![source],
        titles_result(g, level, target, 1, r),
    ensures
        r is Err <==> !g.knows(source) || !g.knows(target),
        r is Err ==> (r->Err_0).0@ == (if g.knows(source) {
            target
        } else {
            source
        }),
{
    assert(ids(level[0].1@).len() == 1);
    assert(ids(level[0].1@)[0] == source);
    assert(slot(level, 0, 0) && level[0].1@[0]@ == source);
    assert forall|k: int, i: int| #[trigger] slot(level, k, i) implies k == 0 && i == 0 by {
        assert(ids(level[k].1@).len() == level[k].1@.len());
    }
    if !g.knows(target) {
        if g.knows(source) {
            assert(all_known(g, level));
            if exists|k: int, i: int| #[trigger] first_unknown(g, level, k, i) {
                let (k, i) = choose|k: int, i: int| #[trigger] first_unknown(g, level, k, i);
                assert(slot(level, k, i));
            }
        } else {
            assert(!all_known(g, level));
            let (k, i) = choose|k: int, i: int| #[trigger]
                first_unknown(g, level, k, i) && (r->Err_0).0@ == level[k].1@[i]@;
            assert(slot(level, k, i));
        }
    } else {
        match r {
            Err(e) => {
                let (k, i) = choose|k: int, i: int| #[trigger]
                    fails_at(g, level, target, k, i) && e.0@ == level[k].1@[i]@;
                assert(slot(level, k, i));
            },
            Ok(route) => {
                if !g.knows(source) {
                    assert(first_block(g, level, target, 0, 0));
                    assert(fails_at(g, level, target, 0, 0));
                }
            },
        }
    }
}

/// Round trip: in a graph that was built edge by edge, an actor stands
/// under a title exactly when the title stands under the actor, and adding
/// an edge keeps it so.
pub proof fn law_round_trip(g: Graph, title: Id, actor: Id, t: Id, a: Id)
    requires
        g.mirrored(),
    ensures
        g.with_edge(title, actor).mirrored(),
        g.with_edge(title, actor).has_cast(title, actor),
        g.with_edge(title, actor).has_credit(actor, title),
        g.has_cast(t, a) <==> g.has_credit(a, t),
{
    let h = g.with_edge(title, actor);
    assert forall|t1: Id, a1: Id| h.has_cast(t1, a1) <==> h.has_credit(a1, t1) by {
        assert(g.has_cast(t1, a1) <==> g.has_credit(a1, t1));
    }
}

/// The graph that holds the edges of `edges`, each a title and an actor,
/// added one after the other to the graph without edges.
pub open spec fn built(edges: Seq<(Id, Id)>) -> Graph
    decreases edges.len(),
{
    if edges.len() == 0 {
        Graph::empty()
    } else {
        built(edges.drop_last()).with_edge(edges.last().0, edges.last().1)
    }
}

/// Round trip, for every sequence of inserts: the graph that they build is
/// well formed, and it holds an edge, in each of the two directions, exactly
/// when the edge was inserted.
pub proof fn law_built(edges: Seq<(Id, Id)>, title: Id, actor: Id)
    ensures
        built(edges).wf(),
        built(edges).has_cast(title, actor) <==> edges.contains((title, actor)),
        built(edges).has_credit(actor, title) <==> edges.contains((title, actor)),
    decreases edges.len(),
{
    if edges.len() > 0 {
        let before = edges.drop_last();
        let last = edges.last();
        law_built(before, title, actor);
        lemma_with_edge_wf(built(before), last.0, last.1);
        if before.contains((title, actor)) {
            let i = choose|i: int| 0 <= i < before.len() && before[i] == (title, actor);
            assert(edges[i] == (title, actor));
        }
        if edges.contains((title, actor)) {
            let i = choose|i: int| 0 <= i < edges.len() && edges[i] == (title, actor);
            if i < before.len() {
                assert(before[i] == (title, actor));
            } else {
                assert(last == (title, actor));
            }
        }
        assert(edges[edges.len() - 1] == last);
    }
}

/// The graph without edges is well formed.
pub proof fn law_empty_wf()
    ensures
        Graph::empty().wf(),
{
}

/// Adding an edge a second time changes nothing.
pub proof fn law_insert_idempotent(g: Graph, title: Id, actor: Id)
    ensures
        g.with_edge(title, actor).with_edge(title, actor) == g.with_edge(title, actor),
{
    let once = g.with_edge(title, actor);
    let twice = once.with_edge(title, actor);
    assert(once.cast_of(title).insert(actor) =~= once.cast_of(title));
    assert(once.credits_of(actor).insert(title) =~= once.credits_of(actor));
    assert(twice.cast =~= once.cast);
    assert(twice.credits =~= once.credits);
}

/// An edge that was added stays when another is added.
pub proof fn law_edges_stay(g: Graph, title: Id, actor: Id, t: Id, a: Id)
    ensures
        g.has_cast(t, a) ==> g.with_edge(title, actor).has_cast(t, a),
        g.has_credit(a, t) ==> g.with_edge(title, actor).has_credit(a, t),
{
}

} // verus!
