//! What surrounds a search: the choice between actors of one name, and the
//! reading of a route as a number of hops and a list of steps.
use crate::dash::{ids, Id};
use crate::graph::{degree_of, Graph};
use crate::schemas::{TitlePrincipalCache, TitleToNames};
use vstd::prelude::*;

verus! {

/// One hop of a route: the title, the actor before it and the actor after.
#[derive(Clone, Debug)]
pub struct PathStep {
    pub tconst: String,
    pub nconst1: String,
    pub nconst2: String,
}

/// A hop of a route for which the names could not be had.
#[derive(Clone, Debug)]
pub struct HydrationFailure {
    pub step: PathStep,
}

/// A route as it is shown: its degree of separation, and for each hop the
/// names that belong to it, or the hop itself where they could not be had.
#[derive(Debug)]
pub struct Connection {
    pub separation_degree: i32,
    pub connection_path: Vec<Result<TitleToNames, HydrationFailure>>,
}

/// Whether `hop` is hop `i` of `route`.
pub open spec fn is_step(route: Seq<String>, i: int, hop: PathStep) -> bool {
    &&& hop.nconst1@ == route[2 * i]@
    &&& hop.tconst@ == route[2 * i + 1]@
    &&& hop.nconst2@ == route[2 * i + 2]@
}

/// Whether `shown` is what is shown for hop `i` of `route`: the names that
/// were found for it, or else the hop.
pub open spec fn is_shown(
    route: Seq<String>,
    i: int,
    found: Option<TitleToNames>,
    shown: Result<TitleToNames, HydrationFailure>,
) -> bool {
    match found {
        Some(names) => shown == Ok::<TitleToNames, HydrationFailure>(names),
        None => shown is Err && is_step(route, i, (shown->Err_0).step),
    }
}

/// Whether `names[i]` has the most titles of all of `names`, and more than
/// each name before it.
pub open spec fn is_busiest(g: Graph, names: Seq<Id>, i: int) -> bool {
    &&& 0 <= i < names.len()
    &&& forall|j: int| 0 <= j < names.len() ==> g.roles(#[trigger] names[j]) <= g.roles(names[i])
    &&& forall|j: int| 0 <= j < i ==> g.roles(#[trigger] names[j]) < g.roles(names[i])
}

/// The actor with the most titles in the cache: the first of them where
/// several have as many, and none where `nconsts` is empty.
pub fn busiest_actor(cache: &TitlePrincipalCache, nconsts: Vec<String>) -> (r: Option<String>)
    ensures
        r is Some <==> nconsts@.len() > 0,
        r is Some ==> exists|i: int| #[trigger]
            is_busiest(cache@, ids(nconsts@), i) && r->0@ == ids(nconsts@)[i],
{
    if nconsts.is_empty() {
        None
    } else {
        let ghost g = cache@;
        let ghost names = ids(nconsts@);
        let mut best: usize = 0;
        let mut best_score: usize = 0;
        let mut i: usize = 0;
        while i < nconsts.len()
            invariant
                i <= nconsts.len(),
                nconsts@.len() > 0,
                g == cache@,
                names == ids(nconsts@),
                best < nconsts.len(),
                best <= i,
                forall|j: int| 0 <= j < i ==> g.roles(#[trigger] names[j]) <= best_score,
                forall|j: int| 0 <= j < best ==> g.roles(#[trigger] names[j]) < best_score,
                best_score == g.roles(names[best as int]) || (best_score == 0 && best == 0),
            decreases nconsts.len() - i,
        {
            let score: usize = match cache.degree(nconsts[i].as_str()) {
                Some(n) => n,
                None => 0,
            };
            assert(score == g.roles(names[i as int]));
            if score > best_score {
                best = i;
                best_score = score;
            }
            i += 1;
        }
        proof {
            assert(g.roles(names[0]) <= best_score);
            assert(is_busiest(g, names, best as int));
        }
        Some(nconsts[best].clone())
    }
}

/// The degree of separation that `route` shows: the number of its titles,
/// and -1 for the empty route, which stands for no connection.
pub fn separation_degree(route: &Vec<String>) -> (degree: i32)
    requires
        degree_of(route@.len()) <= i32::MAX,
    ensures
        route@.len() == 0 ==> degree == -1,
        route@.len() > 0 ==> degree == degree_of(route@.len()),
{
    if route.is_empty() {
        -1
    } else {
        let hops: usize = (route.len() - 1) / 2;
        hops as i32
    }
}

/// The hops of `route`, in order: hop `i` is the title at position `2i + 1`
/// with the actors at `2i` and `2i + 2`.
pub fn connection_steps(route: &Vec<String>) -> (steps: Vec<PathStep>)
    ensures
        steps@.len() == degree_of(route@.len()),
        forall|i: int| 0 <= i < steps@.len() ==> is_step(route@, i, #[trigger] steps@[i]),
{
    let mut steps: Vec<PathStep> = Vec::new();
    if route.is_empty() {
        return steps;
    }
    let hops: usize = (route.len() - 1) / 2;
    let mut i: usize = 0;
    while i < hops
        invariant
            i <= hops,
            hops == degree_of(route@.len()),
            2 * hops < route@.len() <= usize::MAX,
            steps@.len() == i,
            forall|k: int| 0 <= k < i ==> is_step(route@, k, #[trigger] steps@[k]),
        decreases hops - i,
    {
        let idx: usize = i * 2;
        steps.push(
            PathStep {
                tconst: route[idx + 1].clone(),
                nconst1: route[idx].clone(),
                nconst2: route[idx + 2].clone(),
            },
        );
        i += 1;
    }
    steps
}

/// What is shown for `route`: its degree of separation, and hop by hop the
/// names in `hydrated`, which holds for each hop what was found for it. A
/// hop for which nothing was found is shown as a failure that names the hop;
/// the other hops and the degree stay as they are.
pub fn connection(route: &Vec<String>, hydrated: Vec<Option<TitleToNames>>) -> (shown: Connection)
    requires
        degree_of(route@.len()) <= i32::MAX,
        hydrated@.len() == degree_of(route@.len()),
    ensures
        route@.len() == 0 ==> shown.separation_degree == -1,
        route@.len() > 0 ==> shown.separation_degree == degree_of(route@.len()),
        shown.connection_path@.len() == degree_of(route@.len()),
        forall|i: int|
            0 <= i < hydrated@.len() ==> is_shown(
                route@,
                i,
                hydrated@[i],
                #[trigger] shown.connection_path@[i],
            ),
{
    let separation_degree = separation_degree(route);
    let mut steps = connection_steps(route);
    let mut rest = hydrated;
    let mut connection_path: Vec<Result<TitleToNames, HydrationFailure>> = Vec::new();
    while rest.len() > 0
        invariant
            connection_path@.len() + rest@.len() == hydrated@.len(),
            steps@.len() == rest@.len(),
            rest@ == hydrated@.skip(connection_path@.len() as int),
            forall|k: int|
                0 <= k < steps@.len() ==> is_step(
                    route@,
                    connection_path@.len() + k,
                    #[trigger] steps@[k],
                ),
            forall|i: int|
                0 <= i < connection_path@.len() ==> is_shown(
                    route@,
                    i,
                    hydrated@[i],
                    #[trigger] connection_path@[i],
                ),
        decreases rest@.len(),
    {
        let ghost done = connection_path@.len() as int;
        let ghost rest_before = rest@;
        let ghost steps_before = steps@;
        let found = rest.remove(0);
        let step = steps.remove(0);
        proof {
            assert(rest_before[0] == hydrated@[done]);
            assert(rest@ =~= hydrated@.skip(done + 1));
            assert(is_step(route@, done, steps_before[0]));
            assert forall|k: int| 0 <= k < steps@.len() implies is_step(
                route@,
                done + 1 + k,
                #[trigger] steps@[k],
            ) by {
                assert(steps@[k] == steps_before[k + 1]);
            }
        }
        let shown = match found {
            Some(names) => Ok(names),
            None => Err(HydrationFailure { step }),
        };
        connection_path.push(shown);
    }
    Connection { separation_degree, connection_path }
}

} // verus!
