//! The mathematical model of the collaboration graph: two adjacency
//! relations that mirror each other, and the routes that run through them.
use crate::dash::Id;
use vstd::prelude::*;

verus! {

/// A bipartite graph of actors and titles. `cast` gives for each title the
/// actors that appear in it, `credits` for each actor the titles that they
/// appear in.
pub struct Graph {
    pub cast: Map<Id, Set<Id>>,
    pub credits: Map<Id, Set<Id>>,
}

impl Graph {
    /// The graph without nodes.
    pub open spec fn empty() -> Graph {
        Graph { cast: Map::empty(), credits: Map::empty() }
    }

    /// Whether `actor` is recorded under `title`.
    pub open spec fn has_cast(self, title: Id, actor: Id) -> bool {
        self.cast.dom().contains(title) && self.cast[title].contains(actor)
    }

    /// Whether `title` is recorded under `actor`.
    pub open spec fn has_credit(self, actor: Id, title: Id) -> bool {
        self.credits.dom().contains(actor) && self.credits[actor].contains(title)
    }

    /// Whether the graph has any record of `actor`.
    pub open spec fn knows(self, actor: Id) -> bool {
        self.credits.dom().contains(actor)
    }

    /// The actors recorded under `title`: none where the title is absent.
    pub open spec fn cast_of(self, title: Id) -> Set<Id> {
        if self.cast.dom().contains(title) {
            self.cast[title]
        } else {
            Set::empty()
        }
    }

    /// The titles recorded under `actor`: none where the actor is absent.
    pub open spec fn credits_of(self, actor: Id) -> Set<Id> {
        if self.credits.dom().contains(actor) {
            self.credits[actor]
        } else {
            Set::empty()
        }
    }

    /// The number of titles recorded under `actor`: none where the actor is
    /// absent.
    pub open spec fn roles(self, actor: Id) -> nat {
        if self.credits.dom().contains(actor) {
            self.credits[actor].len()
        } else {
            0
        }
    }

    /// The two relations are mirror images: an actor stands under a title
    /// exactly when the title stands under the actor.
    pub open spec fn mirrored(self) -> bool {
        forall|title: Id, actor: Id|
            #![trigger self.has_cast(title, actor)]
            #![trigger self.has_credit(actor, title)]
            self.has_cast(title, actor) <==> self.has_credit(actor, title)
    }

    /// Every key holds a finite set with at least one member.
    pub open spec fn inhabited(self) -> bool {
        &&& forall|title: Id| #[trigger]
            self.cast.dom().contains(title) ==> self.cast[title].finite()
                && self.cast[title].len() > 0
        &&& forall|actor: Id| #[trigger]
            self.credits.dom().contains(actor) ==> self.credits[actor].finite()
                && self.credits[actor].len() > 0
    }

    /// What a graph built edge by edge always satisfies.
    pub open spec fn wf(self) -> bool {
        self.mirrored() && self.inhabited()
    }

    /// The graph with the edge between `title` and `actor` added.
    pub open spec fn with_edge(self, title: Id, actor: Id) -> Graph {
        Graph {
            cast: self.cast.insert(title, self.cast_of(title).insert(actor)),
            credits: self.credits.insert(actor, self.credits_of(actor).insert(title)),
        }
    }

    /// Whether `from` and `to` both appear in `title`.
    pub open spec fn linked(self, from: Id, title: Id, to: Id) -> bool {
        self.has_credit(from, title) && self.has_cast(title, to)
    }

    /// Whether `actor` appears in a title together with `target`.
    pub open spec fn adjacent(self, actor: Id, target: Id) -> bool {
        exists|title: Id| #[trigger] self.linked(actor, title, target)
    }
}

/// Adding an edge keeps a graph well formed.
pub proof fn lemma_with_edge_wf(g: Graph, title: Id, actor: Id)
    requires
        g.wf(),
    ensures
        g.with_edge(title, actor).wf(),
{
    let h = g.with_edge(title, actor);
    assert forall|t: Id, a: Id| h.has_cast(t, a) <==> h.has_credit(a, t) by {
        assert(g.has_cast(t, a) <==> g.has_credit(a, t));
    }
    assert forall|t: Id| #[trigger] h.cast.dom().contains(t) implies h.cast[t].finite()
        && h.cast[t].len() > 0 by {
        if t == title {
            let s = g.cast_of(title);
            assert(s.finite());
            assert(s.insert(actor).contains(actor));
        }
    }
    assert forall|a: Id| #[trigger] h.credits.dom().contains(a) implies h.credits[a].finite()
        && h.credits[a].len() > 0 by {
        if a == actor {
            let s = g.credits_of(actor);
            assert(s.finite());
            assert(s.insert(title).contains(title));
        }
    }
}

/// The number of title hops of a route of `len` identifiers.
pub open spec fn degree_of(len: nat) -> nat {
    if len == 0 {
        0
    } else {
        ((len - 1) / 2) as nat
    }
}

/// Whether the `i`-th hop of `route` is an edge pair of `g`: the actor at
/// position `2i` and the actor at `2i + 2` both appear in the title between
/// them.
pub open spec fn hop(g: Graph, route: Seq<Id>, i: int) -> bool {
    g.linked(route[2 * i], route[2 * i + 1], route[2 * i + 2])
}

/// Whether `route` alternates actor, title, actor, ... along edges of `g`.
/// It has an odd number of identifiers.
pub open spec fn is_walk(g: Graph, route: Seq<Id>) -> bool {
    &&& route.len() % 2 == 1
    &&& forall|i: int| 0 <= i < degree_of(route.len()) ==> #[trigger] hop(g, route, i)
}

/// Whether `route` is a walk of `g` that starts at `from` and ends at `to`.
pub open spec fn is_route(g: Graph, route: Seq<Id>, from: Id, to: Id) -> bool {
    &&& is_walk(g, route)
    &&& route[0] == from
    &&& route[route.len() - 1] == to
}

/// Whether some route of exactly `degree` hops leads from `from` to `to`.
pub open spec fn reaches_in(g: Graph, from: Id, to: Id, degree: nat) -> bool {
    exists|route: Seq<Id>| #[trigger]
        is_route(g, route, from, to) && route.len() == 2 * degree + 1
}

} // verus!
