//! What the expansion of one frontier entry means: where it stops, and what
//! it leaves behind where it does not.
use crate::dash::{ids, Id};
use crate::graph::Graph;
use crate::kevinbacon::{FrontierEntry, Lookup, NameNotFound, NextRoute};
use vstd::prelude::*;

verus! {

/// Whether `level[k]` has an actor at position `j`.
pub open spec fn slot(level: Seq<FrontierEntry>, k: int, j: int) -> bool {
    0 <= k < level.len() && 0 <= j < level[k].1@.len()
}

/// Whether `actor` waits in some entry of `level`.
pub open spec fn frontier_has(level: Seq<FrontierEntry>, actor: Id) -> bool {
    exists|k: int, j: int| #[trigger] slot(level, k, j) && level[k].1@[j]@ == actor
}

/// The title at the end of the route of `e`.
pub open spec fn title_of(e: FrontierEntry) -> Id {
    ids(e.0@)[ids(e.0@).len() - 1]
}

/// Whether the entries of `next` from position `from` on end with titles
/// that differ from each other, and no actor waits in two of them.
pub open spec fn entries_apart(next: Seq<FrontierEntry>, from: int) -> bool {
    &&& forall|e1: int, e2: int|
        from <= e1 < e2 < next.len() ==> title_of(#[trigger] next[e1]) != title_of(
            #[trigger] next[e2],
        )
    &&& forall|e1: int, j1: int, e2: int, j2: int|
        from <= e1 < e2 && #[trigger] slot(next, e1, j1) && #[trigger] slot(next, e2, j2)
            ==> next[e1].1@[j1]@ != next[e2].1@[j2]@
}

/// Whether the entries of `next` from position `from` on end with titles of
/// `titles` and hold actors of `names` only.
pub open spec fn entries_within(
    next: Seq<FrontierEntry>,
    from: int,
    titles: Set<Id>,
    names: Set<Id>,
) -> bool {
    &&& forall|e: int| from <= e < next.len() ==> titles.contains(title_of(#[trigger] next[e]))
    &&& forall|e: int, j: int|
        from <= e && #[trigger] slot(next, e, j) ==> names.contains(next[e].1@[j]@)
}

/// Whether the route of entry `e` of `next` ends with `title`.
pub open spec fn titled(next: Seq<FrontierEntry>, e: int, title: Id) -> bool {
    0 <= e < next.len() && title_of(next[e]) == title
}

/// Whether some entry of `next` from position `from` on ends with `title`.
pub open spec fn entry_for(next: Seq<FrontierEntry>, from: int, title: Id) -> bool {
    exists|e: int| from <= e && #[trigger] titled(next, e, title)
}

/// Whether `title` is new to `seen`, is one of `actor`'s, and has `target` in
/// its cast.
pub open spec fn fresh_hit(g: Graph, seen: Set<Id>, actor: Id, title: Id, target: Id) -> bool {
    g.has_credit(actor, title) && !seen.contains(title) && g.has_cast(title, target)
}

/// Whether the expansion of `actor` ends the search: the graph does not know
/// them, or one of their titles outside `seen` leads to `target`.
pub open spec fn stops_at(g: Graph, seen: Set<Id>, actor: Id, target: Id) -> bool {
    !g.knows(actor) || exists|title: Id| #[trigger] fresh_hit(g, seen, actor, title, target)
}

/// Whether `i` is the first position of `actors` at which the search stops.
pub open spec fn first_stop(g: Graph, seen: Set<Id>, actors: Seq<Id>, target: Id, i: int) -> bool {
    &&& 0 <= i < actors.len()
    &&& stops_at(g, seen, actors[i], target)
    &&& forall|j: int| 0 <= j < i ==> !stops_at(g, seen, #[trigger] actors[j], target)
}

/// Whether `e` is what the expansion of `actor` through one of their titles
/// outside `seen_titles` hands to the next level: the route so far with the
/// actor and the title added, and actors of the title's cast outside
/// `seen_names`, each once.
pub open spec fn entry_made(
    g: Graph,
    seen_titles: Set<Id>,
    seen_names: Set<Id>,
    prefix: Seq<Id>,
    actor: Id,
    e: FrontierEntry,
) -> bool {
    let path = ids(e.0@);
    let title = path[path.len() - 1];
    &&& path == prefix.push(actor).push(title)
    &&& g.has_credit(actor, title)
    &&& !seen_titles.contains(title)
    &&& ids(e.1@).no_duplicates()
    &&& forall|j: int|
        0 <= j < e.1@.len() ==> g.has_cast(title, #[trigger] e.1@[j]@) && !seen_names.contains(
            e.1@[j]@,
        )
}

/// Whether `e` was made from one of `actors`.
pub open spec fn entry_ok(
    g: Graph,
    seen_titles: Set<Id>,
    seen_names: Set<Id>,
    prefix: Seq<Id>,
    actors: Seq<Id>,
    e: FrontierEntry,
) -> bool {
    let path = ids(e.0@);
    path.len() >= 2 && actors.contains(path[path.len() - 2]) && entry_made(
        g,
        seen_titles,
        seen_names,
        prefix,
        path[path.len() - 2],
        e,
    )
}

/// Whether `title` is one of the titles of some actor of `actors`.
pub open spec fn credited_by(g: Graph, actors: Seq<Id>, title: Id) -> bool {
    exists|i: int| 0 <= i < actors.len() && g.has_credit(#[trigger] actors[i], title)
}

/// What the expansion of one entry leaves behind where the search did not
/// stop at any of its actors: the titles of all of them are seen, so is the
/// cast of each title that is newly seen, each actor that is newly seen
/// waits in `next`, and each entry of `next` was made from one of the actors.
pub open spec fn expanded(
    g: Graph,
    titles_before: Set<Id>,
    names_before: Set<Id>,
    titles_after: Set<Id>,
    names_after: Set<Id>,
    prefix: Seq<Id>,
    actors: Seq<Id>,
    target: Id,
    next: Seq<FrontierEntry>,
) -> bool {
    &&& forall|i: int|
        0 <= i < actors.len() ==> !stops_at(g, titles_before, #[trigger] actors[i], target)
    &&& forall|t: Id| #[trigger]
        titles_after.contains(t) <==> titles_before.contains(t) || credited_by(g, actors, t)
    &&& forall|t: Id, x: Id|
        titles_after.contains(t) && !titles_before.contains(t) && #[trigger] g.has_cast(t, x)
            ==> names_after.contains(x)
    &&& forall|x: Id| #[trigger]
        names_after.contains(x) && !names_before.contains(x) ==> frontier_has(next, x)
    &&& forall|e: int|
        0 <= e < next.len() ==> entry_ok(
            g,
            titles_before,
            names_before,
            prefix,
            actors,
            #[trigger] next[e],
        )
    &&& entries_apart(next, 0)
    &&& entries_within(next, 0, titles_after, names_after)
    &&& forall|t: Id| #[trigger]
        titles_after.contains(t) && !titles_before.contains(t) ==> entry_for(next, 0, t)
}

/// What the walk through `titles`, a list of titles of `actor`, leaves
/// behind where none of them that was new led to the target.
pub open spec fn titles_visited(
    g: Graph,
    titles_before: Set<Id>,
    names_before: Set<Id>,
    titles_after: Set<Id>,
    names_after: Set<Id>,
    prefix: Seq<Id>,
    actor: Id,
    titles: Seq<Id>,
    target: Id,
    next_before: Seq<FrontierEntry>,
    next_after: Seq<FrontierEntry>,
) -> bool {
    &&& forall|j: int|
        0 <= j < titles.len() ==> !fresh_hit(g, titles_before, actor, #[trigger] titles[j], target)
    &&& forall|t: Id| #[trigger]
        titles_after.contains(t) <==> titles_before.contains(t) || titles.contains(t)
    &&& forall|t: Id, x: Id|
        titles_after.contains(t) && !titles_before.contains(t) && #[trigger] g.has_cast(t, x)
            ==> names_after.contains(x)
    &&& forall|x: Id| #[trigger]
        names_after.contains(x) && !names_before.contains(x) ==> frontier_has(next_after, x)
    &&& next_after.len() >= next_before.len()
    &&& next_after.take(next_before.len() as int) == next_before
    &&& forall|e: int|
        next_before.len() <= e < next_after.len() ==> entry_made(
            g,
            titles_before,
            names_before,
            prefix,
            actor,
            #[trigger] next_after[e],
        )
    &&& entries_apart(next_after, next_before.len() as int)
    &&& entries_within(next_after, next_before.len() as int, titles_after, names_after)
    &&& forall|t: Id| #[trigger]
        titles_after.contains(t) && !titles_before.contains(t) ==> entry_for(
            next_after,
            next_before.len() as int,
            t,
        )
}

/// What the expansion of `actor` leaves behind where none of their new
/// titles led to the target: all their titles are seen, so is the cast of
/// each title that is newly seen, and each actor that is newly seen waits in
/// an entry that was added to the next level.
pub open spec fn actor_expanded(
    g: Graph,
    titles_before: Set<Id>,
    names_before: Set<Id>,
    titles_after: Set<Id>,
    names_after: Set<Id>,
    prefix: Seq<Id>,
    actor: Id,
    target: Id,
    next_before: Seq<FrontierEntry>,
    next_after: Seq<FrontierEntry>,
) -> bool {
    &&& forall|t: Id| !#[trigger] fresh_hit(g, titles_before, actor, t, target)
    &&& forall|t: Id| #[trigger]
        titles_after.contains(t) <==> titles_before.contains(t) || g.has_credit(actor, t)
    &&& forall|t: Id, x: Id|
        titles_after.contains(t) && !titles_before.contains(t) && #[trigger] g.has_cast(t, x)
            ==> names_after.contains(x)
    &&& forall|x: Id| #[trigger]
        names_after.contains(x) && !names_before.contains(x) ==> frontier_has(next_after, x)
    &&& next_after.len() >= next_before.len()
    &&& next_after.take(next_before.len() as int) == next_before
    &&& forall|e: int|
        next_before.len() <= e < next_after.len() ==> entry_made(
            g,
            titles_before,
            names_before,
            prefix,
            actor,
            #[trigger] next_after[e],
        )
    &&& entries_apart(next_after, next_before.len() as int)
    &&& entries_within(next_after, next_before.len() as int, titles_after, names_after)
    &&& forall|t: Id| #[trigger]
        titles_after.contains(t) && !titles_before.contains(t) ==> entry_for(
            next_after,
            next_before.len() as int,
            t,
        )
}

/// Whether `title` was seen between `before` and `after`, and has `actor` in
/// its cast.
pub open spec fn new_cast(g: Graph, before: Set<Id>, after: Set<Id>, title: Id, actor: Id) -> bool {
    after.contains(title) && !before.contains(title) && g.has_cast(title, actor)
}

/// Whether `actor` is of the cast of some title that was seen between
/// `before` and `after`.
pub open spec fn from_new_cast(g: Graph, before: Set<Id>, after: Set<Id>, actor: Id) -> bool {
    exists|title: Id| #[trigger] new_cast(g, before, after, title, actor)
}

/// Where the marks of a walk through `titles` come from: each title that is
/// newly seen is one of `titles`, and each actor that is newly seen is of the
/// cast of a title that is newly seen.
pub open spec fn marks_within(
    g: Graph,
    titles_before: Set<Id>,
    names_before: Set<Id>,
    titles_after: Set<Id>,
    names_after: Set<Id>,
    titles: Seq<Id>,
) -> bool {
    &&& forall|t: Id| #[trigger]
        titles_after.contains(t) && !titles_before.contains(t) ==> titles.contains(t)
    &&& forall|x: Id| #[trigger]
        names_after.contains(x) && !names_before.contains(x) ==> from_new_cast(
            g,
            titles_before,
            titles_after,
            x,
        )
}

/// Where the marks of an expansion come from: each title that is newly seen
/// is a title of one of `actors`, and each actor that is newly seen is of the
/// cast of a title that is newly seen.
pub open spec fn marks_from(
    g: Graph,
    titles_before: Set<Id>,
    names_before: Set<Id>,
    titles_after: Set<Id>,
    names_after: Set<Id>,
    actors: Seq<Id>,
) -> bool {
    &&& forall|t: Id| #[trigger]
        titles_after.contains(t) && !titles_before.contains(t) ==> credited_by(g, actors, t)
    &&& forall|x: Id| #[trigger]
        names_after.contains(x) && !names_before.contains(x) ==> from_new_cast(
            g,
            titles_before,
            titles_after,
            x,
        )
}

/// What an expansion that stopped at position `i` of `actors` has marked:
/// every title of the actors before `i`, and besides those only titles of
/// the actor at `i`; and actors of the casts of the titles that it marked.
pub open spec fn stopped(
    g: Graph,
    titles_before: Set<Id>,
    names_before: Set<Id>,
    titles_after: Set<Id>,
    names_after: Set<Id>,
    actors: Seq<Id>,
    i: int,
) -> bool {
    &&& forall|t: Id| credited_by(g, actors.take(i), t) ==> #[trigger] titles_after.contains(t)
    &&& marks_from(g, titles_before, names_before, titles_after, names_after, actors.take(i + 1))
}

/// What the expansion of one frontier entry gives. It fails at the first
/// actor that the graph does not know, if the search stops at none before.
/// It finds the target at the first actor with a new title that has the
/// target in its cast, with the route through one such title, which it has
/// marked. Where it stops at no actor, it hands out the next level. Whatever
/// it gives, it has marked titles of the entry's actors only, up to the one
/// at which it stopped, and actors of their casts.
pub open spec fn route_result(
    g: Graph,
    titles_before: Set<Id>,
    names_before: Set<Id>,
    titles_after: Set<Id>,
    names_after: Set<Id>,
    prefix: Seq<Id>,
    actors: Seq<Id>,
    target: Id,
    r: Result<NextRoute, NameNotFound>,
) -> bool {
    &&& titles_before.subset_of(titles_after)
    &&& names_before.subset_of(names_after)
    &&& marks_from(g, titles_before, names_before, titles_after, names_after, actors)
    &&& match r {
        Err(e) => exists|i: int| #[trigger]
            first_stop(g, titles_before, actors, target, i) && !g.knows(actors[i]) && e.0@
                == actors[i] && stopped(
                g,
                titles_before,
                names_before,
                titles_after,
                names_after,
                actors,
                i,
            ),
        Ok(n) => match n.success_route {
            Some(route) => n.next_level@.len() == 0 && exists|i: int, title: Id|
                first_stop(g, titles_before, actors, target, i) && #[trigger] fresh_hit(
                    g,
                    titles_before,
                    actors[i],
                    title,
                    target,
                ) && ids(route@) == prefix.push(actors[i]).push(title).push(target)
                    && titles_after.contains(title) && stopped(
                    g,
                    titles_before,
                    names_before,
                    titles_after,
                    names_after,
                    actors,
                    i,
                ),
            None => expanded(
                g,
                titles_before,
                names_before,
                titles_after,
                names_after,
                prefix,
                actors,
                target,
                n.next_level@,
            ),
        },
    }
}

/// Whether `titles` lists titles of `actor` only, and each of them that is
/// not in `seen`.
pub open spec fn titles_listed(g: Graph, seen: Set<Id>, actor: Id, titles: Seq<Id>) -> bool {
    &&& forall|j: int| 0 <= j < titles.len() ==> g.has_credit(actor, #[trigger] titles[j])
    &&& forall|t: Id| #[trigger] g.has_credit(actor, t) && !seen.contains(t) ==> titles.contains(t)
}

/// Whether `casts` lists, for each of `titles`, the members of its cast.
pub open spec fn casts_listed(g: Graph, titles: Seq<String>, casts: Seq<Vec<String>>) -> bool {
    &&& casts.len() == titles.len()
    &&& forall|j: int|
        0 <= j < titles.len() ==> ids((#[trigger] casts[j])@).to_set() == g.cast_of(titles[j]@)
}

/// Whether `l` holds what the graph says of `actor`: titles of theirs, each
/// that is not in `seen` among them, and the cast of each.
pub open spec fn lookup_ok(g: Graph, seen: Set<Id>, actor: Id, l: Lookup) -> bool {
    titles_listed(g, seen, actor, ids(l.titles@)) && casts_listed(g, l.titles@, l.casts@)
}

/// Whether `ahead` holds, for each of `actors` in order, nothing where the
/// graph does not know the actor and else what it says of them.
pub open spec fn fetched_ok(
    g: Graph,
    seen: Set<Id>,
    actors: Seq<Id>,
    ahead: Seq<Option<Lookup>>,
) -> bool {
    &&& ahead.len() == actors.len()
    &&& forall|i: int|
        0 <= i < actors.len() ==> ((#[trigger] ahead[i]) is Some <==> g.knows(actors[i]))
    &&& forall|i: int|
        0 <= i < actors.len() && (#[trigger] ahead[i]) is Some ==> lookup_ok(
            g,
            seen,
            actors[i],
            ahead[i]->0,
        )
}

/// `s.take(i + 1)` holds what `s.take(i)` holds, and `s[i]`.
pub proof fn lemma_take_next(s: Seq<Id>, i: int)
    requires
        0 <= i < s.len(),
    ensures
        s.take(i + 1).to_set() == s.take(i).to_set().insert(s[i]),
        s.take(i + 1) == s.take(i).push(s[i]),
{
    assert(s.take(i + 1) =~= s.take(i).push(s[i]));
    s.take(i).lemma_push_to_set_commute(s[i]);
}

/// Adding an entry keeps every actor that waits in the frontier, and adds
/// the actors of the entry.
pub proof fn lemma_frontier_push(level: Seq<FrontierEntry>, e: FrontierEntry, actor: Id)
    ensures
        frontier_has(level.push(e), actor) <==> frontier_has(level, actor) || ids(e.1@).contains(
            actor,
        ),
{
    let more = level.push(e);
    if frontier_has(level, actor) {
        let (k, j) = choose|k: int, j: int| #[trigger] slot(level, k, j) && level[k].1@[j]@ == actor;
        assert(slot(more, k, j) && more[k].1@[j]@ == actor);
    }
    if ids(e.1@).contains(actor) {
        let j = choose|j: int| 0 <= j < ids(e.1@).len() && ids(e.1@)[j] == actor;
        assert(slot(more, level.len() as int, j) && more[level.len() as int].1@[j]@ == actor);
    }
    if frontier_has(more, actor) {
        let (k, j) = choose|k: int, j: int| #[trigger] slot(more, k, j) && more[k].1@[j]@ == actor;
        if k < level.len() {
            assert(slot(level, k, j) && level[k].1@[j]@ == actor);
        } else {
            assert(ids(e.1@)[j] == actor);
        }
    }
}

/// An actor that waits in a frontier still waits in one that continues it.
pub proof fn lemma_frontier_extends(short: Seq<FrontierEntry>, long: Seq<FrontierEntry>, actor: Id)
    requires
        long.len() >= short.len(),
        long.take(short.len() as int) == short,
        frontier_has(short, actor),
    ensures
        frontier_has(long, actor),
{
    let (k, j) = choose|k: int, j: int| #[trigger] slot(short, k, j) && short[k].1@[j]@ == actor;
    assert(long.take(short.len() as int)[k] == long[k]);
    assert(slot(long, k, j) && long[k].1@[j]@ == actor);
}

/// An actor waits in two frontiers put together exactly when they wait in
/// one of them.
pub proof fn lemma_frontier_concat(a: Seq<FrontierEntry>, b: Seq<FrontierEntry>, actor: Id)
    ensures
        frontier_has(a + b, actor) <==> frontier_has(a, actor) || frontier_has(b, actor),
{
    let both = a + b;
    if frontier_has(a, actor) {
        let (k, j) = choose|k: int, j: int| #[trigger] slot(a, k, j) && a[k].1@[j]@ == actor;
        assert(slot(both, k, j) && both[k].1@[j]@ == actor);
    }
    if frontier_has(b, actor) {
        let (k, j) = choose|k: int, j: int| #[trigger] slot(b, k, j) && b[k].1@[j]@ == actor;
        assert(slot(both, k + a.len(), j) && both[k + a.len()].1@[j]@ == actor);
    }
    if frontier_has(both, actor) {
        let (k, j) = choose|k: int, j: int| #[trigger] slot(both, k, j) && both[k].1@[j]@ == actor;
        if k < a.len() {
            assert(slot(a, k, j) && a[k].1@[j]@ == actor);
        } else {
            assert(slot(b, k - a.len(), j) && b[k - a.len()].1@[j]@ == actor);
        }
    }
}

/// An entry with a title and actors that are all new may join entries that
/// are apart: they stay apart.
pub proof fn lemma_entries_push(
    next: Seq<FrontierEntry>,
    entry: FrontierEntry,
    from: int,
    titles_before: Set<Id>,
    names_before: Set<Id>,
    titles_after: Set<Id>,
    names_after: Set<Id>,
)
    requires
        0 <= from <= next.len(),
        entries_apart(next, from),
        entries_within(next, from, titles_before, names_before),
        titles_before.subset_of(titles_after),
        names_before.subset_of(names_after),
        !titles_before.contains(title_of(entry)),
        titles_after.contains(title_of(entry)),
        forall|j: int|
            0 <= j < entry.1@.len() ==> !names_before.contains(#[trigger] entry.1@[j]@)
                && names_after.contains(entry.1@[j]@),
    ensures
        entries_apart(next.push(entry), from),
        entries_within(next.push(entry), from, titles_after, names_after),
        forall|t: Id| entry_for(next, from, t) ==> entry_for(next.push(entry), from, t),
        entry_for(next.push(entry), from, title_of(entry)),
{
    let more = next.push(entry);
    let last = next.len() as int;
    assert forall|e1: int, e2: int| from <= e1 < e2 < more.len() implies title_of(
        #[trigger] more[e1],
    ) != title_of(#[trigger] more[e2]) by {
        assert(more[e1] == next[e1]);
        if e2 < last {
            assert(more[e2] == next[e2]);
        }
    }
    assert forall|e1: int, j1: int, e2: int, j2: int|
        from <= e1 < e2 && #[trigger] slot(more, e1, j1) && #[trigger] slot(
            more,
            e2,
            j2,
        ) implies more[e1].1@[j1]@ != more[e2].1@[j2]@ by {
        assert(more[e1] == next[e1]);
        assert(slot(next, e1, j1));
        if e2 < last {
            assert(more[e2] == next[e2]);
            assert(slot(next, e2, j2));
        }
    }
    assert forall|e: int| from <= e < more.len() implies titles_after.contains(
        title_of(#[trigger] more[e]),
    ) by {
        if e < last {
            assert(more[e] == next[e]);
        }
    }
    assert forall|e: int, j: int| from <= e && #[trigger] slot(more, e, j) implies names_after.contains(
        more[e].1@[j]@,
    ) by {
        if e < last {
            assert(more[e] == next[e]);
            assert(slot(next, e, j));
        }
    }
    assert forall|t: Id| entry_for(next, from, t) implies entry_for(more, from, t) by {
        let e = choose|e: int| from <= e && #[trigger] titled(next, e, t);
        assert(titled(more, e, t));
    }
    assert(titled(more, last, title_of(entry)));
}

/// Entries that were added behind entries that are apart, with titles and
/// actors that were all new then, are apart from them.
pub proof fn lemma_entries_extend(
    short: Seq<FrontierEntry>,
    long: Seq<FrontierEntry>,
    titles_before: Set<Id>,
    names_before: Set<Id>,
    titles_after: Set<Id>,
    names_after: Set<Id>,
)
    requires
        long.len() >= short.len(),
        long.take(short.len() as int) == short,
        entries_apart(short, 0),
        entries_within(short, 0, titles_before, names_before),
        entries_apart(long, short.len() as int),
        entries_within(long, short.len() as int, titles_after, names_after),
        titles_before.subset_of(titles_after),
        names_before.subset_of(names_after),
        forall|e: int|
            short.len() <= e < long.len() ==> !titles_before.contains(title_of(#[trigger] long[e])),
        forall|e: int, j: int|
            short.len() <= e && #[trigger] slot(long, e, j) ==> !names_before.contains(
                long[e].1@[j]@,
            ),
    ensures
        entries_apart(long, 0),
        entries_within(long, 0, titles_after, names_after),
        forall|t: Id| entry_for(short, 0, t) ==> entry_for(long, 0, t),
        forall|t: Id| entry_for(long, short.len() as int, t) ==> entry_for(long, 0, t),
{
    let cut = short.len() as int;
    assert forall|e: int| 0 <= e < cut implies long[e] == #[trigger] short[e] by {
        assert(long.take(cut)[e] == long[e]);
    }
    assert forall|e1: int, e2: int| 0 <= e1 < e2 < long.len() implies title_of(
        #[trigger] long[e1],
    ) != title_of(#[trigger] long[e2]) by {
        if e1 < cut {
            assert(long[e1] == short[e1]);
            if e2 < cut {
                assert(long[e2] == short[e2]);
            }
        }
    }
    assert forall|e1: int, j1: int, e2: int, j2: int|
        0 <= e1 < e2 && #[trigger] slot(long, e1, j1) && #[trigger] slot(
            long,
            e2,
            j2,
        ) implies long[e1].1@[j1]@ != long[e2].1@[j2]@ by {
        if e1 < cut {
            assert(long[e1] == short[e1]);
            assert(slot(short, e1, j1));
            if e2 < cut {
                assert(long[e2] == short[e2]);
                assert(slot(short, e2, j2));
            }
        }
    }
    assert forall|e: int| 0 <= e < long.len() implies titles_after.contains(
        title_of(#[trigger] long[e]),
    ) by {
        if e < cut {
            assert(long[e] == short[e]);
        }
    }
    assert forall|e: int, j: int| 0 <= e && #[trigger] slot(long, e, j) implies names_after.contains(
        long[e].1@[j]@,
    ) by {
        if e < cut {
            assert(long[e] == short[e]);
            assert(slot(short, e, j));
        }
    }
    assert forall|t: Id| entry_for(short, 0, t) implies entry_for(long, 0, t) by {
        let e = choose|e: int| 0 <= e && #[trigger] titled(short, e, t);
        assert(long[e] == short[e]);
        assert(titled(long, e, t));
    }
    assert forall|t: Id| entry_for(long, cut, t) implies entry_for(long, 0, t) by {
        let e = choose|e: int| cut <= e && #[trigger] titled(long, e, t);
        assert(titled(long, e, t));
    }
}

/// The titles of the first `i + 1` actors are those of the first `i` and
/// those of the next.
pub proof fn lemma_credited_take(g: Graph, actors: Seq<Id>, i: int, title: Id)
    requires
        0 <= i < actors.len(),
    ensures
        credited_by(g, actors.take(i + 1), title) <==> credited_by(g, actors.take(i), title)
            || g.has_credit(actors[i], title),
{
    let short = actors.take(i);
    let long = actors.take(i + 1);
    if credited_by(g, long, title) {
        let k = choose|k: int| 0 <= k < long.len() && g.has_credit(#[trigger] long[k], title);
        if k < i {
            assert(g.has_credit(short[k], title));
        }
    }
    if credited_by(g, short, title) {
        let k = choose|k: int| 0 <= k < short.len() && g.has_credit(#[trigger] short[k], title);
        assert(g.has_credit(long[k], title));
    }
    if g.has_credit(actors[i], title) {
        assert(g.has_credit(long[i], title));
    }
}

/// A walk through a list that holds every new title of an actor expands
/// the actor.
pub proof fn lemma_titles_to_actor(
    g: Graph,
    titles_before: Set<Id>,
    names_before: Set<Id>,
    titles_after: Set<Id>,
    names_after: Set<Id>,
    prefix: Seq<Id>,
    actor: Id,
    titles: Seq<Id>,
    target: Id,
    next_before: Seq<FrontierEntry>,
    next_after: Seq<FrontierEntry>,
)
    requires
        titles_listed(g, titles_before, actor, titles),
        titles_visited(
            g,
            titles_before,
            names_before,
            titles_after,
            names_after,
            prefix,
            actor,
            titles,
            target,
            next_before,
            next_after,
        ),
    ensures
        actor_expanded(
            g,
            titles_before,
            names_before,
            titles_after,
            names_after,
            prefix,
            actor,
            target,
            next_before,
            next_after,
        ),
{
    assert forall|t: Id| !#[trigger] fresh_hit(g, titles_before, actor, t, target) by {
        if g.has_credit(actor, t) && !titles_before.contains(t) {
            assert(titles.contains(t));
            let j = choose|j: int| 0 <= j < titles.len() && titles[j] == t;
            assert(!fresh_hit(g, titles_before, actor, titles[j], target));
        }
    }
    assert forall|t: Id| #[trigger]
        titles_after.contains(t) <==> titles_before.contains(t) || g.has_credit(actor, t) by {
        if titles.contains(t) {
            let j = choose|j: int| 0 <= j < titles.len() && titles[j] == t;
            assert(g.has_credit(actor, titles[j]));
        }
        if g.has_credit(actor, t) && !titles_before.contains(t) {
            assert(titles.contains(t));
        }
    }
}

/// A title of one of the first `n` actors is a title of one of the actors.
pub proof fn lemma_credited_prefix(g: Graph, actors: Seq<Id>, n: int, title: Id)
    requires
        0 <= n <= actors.len(),
        credited_by(g, actors.take(n), title),
    ensures
        credited_by(g, actors, title),
{
    let short = actors.take(n);
    let k = choose|k: int| 0 <= k < short.len() && g.has_credit(#[trigger] short[k], title);
    assert(g.has_credit(actors[k], title));
}

/// What an expansion has marked when it is through with the actor at `i`,
/// or has stopped at them: between the first and the second state it went
/// through the actors before `i`, between the second and the third through
/// titles of the actor at `i`.
pub proof fn lemma_marks_at(
    g: Graph,
    titles0: Set<Id>,
    names0: Set<Id>,
    titles1: Set<Id>,
    names1: Set<Id>,
    titles2: Set<Id>,
    names2: Set<Id>,
    actors: Seq<Id>,
    i: int,
)
    requires
        0 <= i < actors.len(),
        titles0.subset_of(titles1),
        titles1.subset_of(titles2),
        names0.subset_of(names1),
        names1.subset_of(names2),
        forall|t: Id| #[trigger]
            titles1.contains(t) <==> titles0.contains(t) || credited_by(g, actors.take(i), t),
        forall|x: Id| #[trigger]
            names1.contains(x) && !names0.contains(x) ==> from_new_cast(g, titles0, titles1, x),
        forall|t: Id| #[trigger]
            titles2.contains(t) && !titles1.contains(t) ==> g.has_credit(actors[i], t),
        forall|x: Id| #[trigger]
            names2.contains(x) && !names1.contains(x) ==> from_new_cast(g, titles1, titles2, x),
    ensures
        stopped(g, titles0, names0, titles2, names2, actors, i),
        marks_from(g, titles0, names0, titles2, names2, actors),
{
    assert forall|x: Id| #[trigger] names2.contains(x) && !names0.contains(x) implies from_new_cast(
        g,
        titles0,
        titles2,
        x,
    ) by {
        if names1.contains(x) {
            let t = choose|t: Id| #[trigger] new_cast(g, titles0, titles1, t, x);
            assert(new_cast(g, titles0, titles2, t, x));
        } else {
            let t = choose|t: Id| #[trigger] new_cast(g, titles1, titles2, t, x);
            assert(new_cast(g, titles0, titles2, t, x));
        }
    }
    assert forall|t: Id| #[trigger] titles2.contains(t) && !titles0.contains(t) implies credited_by(
        g,
        actors.take(i + 1),
        t,
    ) by {
        lemma_credited_take(g, actors, i, t);
    }
    assert forall|t: Id| #[trigger] titles2.contains(t) && !titles0.contains(t) implies credited_by(
        g,
        actors,
        t,
    ) by {
        lemma_credited_take(g, actors, i, t);
        lemma_credited_prefix(g, actors, i + 1, t);
    }
}

/// What was looked up ahead stays good while more titles are seen.
pub proof fn lemma_fetched_later(
    g: Graph,
    seen: Set<Id>,
    later: Set<Id>,
    actors: Seq<Id>,
    ahead: Seq<Option<Lookup>>,
)
    requires
        seen.subset_of(later),
        fetched_ok(g, seen, actors, ahead),
    ensures
        fetched_ok(g, later, actors, ahead),
{
    assert forall|i: int| 0 <= i < actors.len() && (#[trigger] ahead[i]) is Some implies lookup_ok(
        g,
        later,
        actors[i],
        ahead[i]->0,
    ) by {
        assert(lookup_ok(g, seen, actors[i], ahead[i]->0));
    }
}

} // verus!
