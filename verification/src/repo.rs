//! Text that the queries to the relational store are built from.
use crate::dash::{ids, Id};
use crate::graph::Graph;
use crate::schemas::{NameBasics, TitleBasics, TitlePrincipalCache};
use vstd::prelude::*;
use vstd::string::*;

verus! {

/// The members of `list` in order, with `delimiter` between each two.
pub open spec fn joined(list: Seq<Id>, delimiter: Seq<char>) -> Seq<char>
    decreases list.len(),
{
    if list.len() == 0 {
        Seq::empty()
    } else if list.len() == 1 {
        list[0]
    } else {
        joined(list.drop_last(), delimiter) + delimiter + list.last()
    }
}

/// The members of `list`, with `delimiter` between each two.
pub fn mk_string_simple(list: &Vec<String>, delimiter: &str) -> (r: String)
    ensures
        r@ == joined(ids(list@), delimiter@),
{
    let mut str = String::new();
    let ghost all = ids(list@);
    let mut i: usize = 0;
    while i < list.len()
        invariant
            i <= list.len(),
            all == ids(list@),
            str@ == joined(all.take(i as int), delimiter@),
        decreases list.len() - i,
    {
        proof {
            let next = all.take(i + 1);
            assert(next.drop_last() =~= all.take(i as int));
            assert(next.last() == list@[i as int]@);
            if i == 0 {
                assert(next.len() == 1);
                assert(str@ + list@[i as int]@ =~= next[0]);
            }
        }
        if i > 0 {
            str.append(delimiter);
        }
        str.append(list[i].as_str());
        i += 1;
    }
    proof {
        assert(all.take(list.len() as int) =~= all);
    }
    str
}

/// `start`, the members of `list` with `delimiter` between each two, and
/// `end`.
pub fn mk_string(list: &Vec<String>, start: &str, delimiter: &str, end: &str) -> (r: String)
    ensures
        r@ == start@ + joined(ids(list@), delimiter@) + end@,
{
    let mut str = String::from_str(start);
    let inner = mk_string_simple(list, delimiter);
    str.append(inner.as_str());
    str.append(end);
    str
}

/// The pattern that matches every text that holds `fragment`.
pub fn like_pattern(fragment: &str) -> (r: String)
    ensures
        r@ == seq!['%'] + fragment@ + seq!['%'],
{
    let mut pattern = String::from_str("%");
    proof {
        reveal_strlit("%");
        assert("%"@ =~= seq!['%']);
    }
    pattern.append(fragment);
    pattern.append("%");
    pattern
}

/// The query for the titles with the identifiers `tconsts`: each of them
/// between single quotes, with commas between, in the list of the query.
pub fn titles_query(tconsts: &Vec<String>) -> (r: String)
    ensures
        r@ == "SELECT * FROM title_basics WHERE tconst in ( "@ + ("'"@ + joined(
            ids(tconsts@),
            "', '"@,
        ) + "'"@) + " )"@,
{
    let mut sql = String::from_str("SELECT * FROM title_basics WHERE tconst in ( ");
    let list = mk_string(tconsts, "'", "', '", "'");
    sql.append(list.as_str());
    sql.append(" )");
    sql
}

/// Whether `after` holds the members of `before` in the order that `from`
/// gives: `after[i]` is `before[from[i]]`, each position of `before` is
/// taken once, the numbers of roles fall, and of two members with as many
/// roles the one that stood first in `before` stands first.
pub open spec fn ranked(before: Seq<NameBasics>, after: Seq<NameBasics>, from: Seq<int>) -> bool {
    &&& after.len() == before.len()
    &&& from.len() == before.len()
    &&& from.no_duplicates()
    &&& forall|i: int|
        0 <= i < after.len() ==> 0 <= #[trigger] from[i] < before.len() && after[i]
            == before[from[i]]
    &&& forall|i: int, j: int|
        0 <= i < j < after.len() ==> (#[trigger] after[i]).actorroles
            >= (#[trigger] after[j]).actorroles
    &&& forall|i: int, j: int|
        0 <= i < j < after.len() && after[i].actorroles == after[j].actorroles
            ==> #[trigger] from[i] < #[trigger] from[j]
}

/// `sort_by` of slices, by the number of roles from the most to the fewest.
/// Trusted: that the sort orders by what the comparison says and, as std
/// documents, leaves members that compare equal in the order they had.
#[verifier::external_body]
fn sort_by_roles(names: &mut Vec<NameBasics>)
    ensures
        exists|from: Seq<int>| ranked(old(names)@, final(names)@, from),
{
    names.sort_by(|rec1, rec2| rec2.actorroles.cmp(&rec1.actorroles));
}

/// Whether `out` is `person` with the number of titles that the graph holds
/// for them as their roles, and with `titles` as the titles that they are
/// known for.
pub open spec fn detailed(
    g: Graph,
    person: NameBasics,
    titles: Vec<TitleBasics>,
    out: NameBasics,
) -> bool {
    &&& out.actorroles == g.roles(person.nconst@)
    &&& out.knownfortitles == titles
    &&& out.nconst == person.nconst
    &&& out.primaryname == person.primaryname
    &&& out.primaryprofession == person.primaryprofession
    &&& out.birthyear == person.birthyear
    &&& out.deathyear == person.deathyear
}

/// Whether `after` holds each person of `found` once, at the positions that
/// `from` gives and with their details set, the busiest first, and of two
/// that are as busy the one that stood first in `found` first.
pub open spec fn placed(
    g: Graph,
    found: Seq<(NameBasics, Vec<TitleBasics>)>,
    after: Seq<NameBasics>,
    from: Seq<int>,
) -> bool {
    &&& after.len() == found.len()
    &&& from.len() == found.len()
    &&& from.no_duplicates()
    &&& forall|i: int|
        0 <= i < after.len() ==> 0 <= #[trigger] from[i] < found.len() && detailed(
            g,
            found[from[i]].0,
            found[from[i]].1,
            after[i],
        )
    &&& forall|i: int, j: int|
        0 <= i < j < after.len() ==> (#[trigger] after[i]).actorroles
            >= (#[trigger] after[j]).actorroles
    &&& forall|i: int, j: int|
        0 <= i < j < after.len() && after[i].actorroles == after[j].actorroles
            ==> #[trigger] from[i] < #[trigger] from[j]
}

/// Gives each person of `found` the number of their titles in the cache and
/// the titles that were found for them, and orders the persons from the
/// busiest to the least busy; those that are as busy keep their order.
pub fn rank_names(cache: &TitlePrincipalCache, found: Vec<(NameBasics, Vec<TitleBasics>)>) -> (r:
    Vec<NameBasics>)
    ensures
        exists|from: Seq<int>| placed(cache@, found@, r@, from),
{
    let mut rest = found;
    let mut new_name_vec: Vec<NameBasics> = Vec::new();
    let ghost g = cache@;
    while rest.len() > 0
        invariant
            g == cache@,
            new_name_vec@.len() + rest@.len() == found@.len(),
            rest@ == found@.skip(new_name_vec@.len() as int),
            forall|i: int|
                0 <= i < new_name_vec@.len() ==> detailed(
                    g,
                    found@[i].0,
                    found@[i].1,
                    #[trigger] new_name_vec@[i],
                ),
        decreases rest@.len(),
    {
        let ghost k = new_name_vec@.len() as int;
        let ghost rest_before = rest@;
        let (mut name_basics, titles) = rest.remove(0);
        let ghost person = name_basics;
        let references = cache.ref_count(&name_basics);
        name_basics.set_details(references, titles);
        new_name_vec.push(name_basics);
        proof {
            assert(rest_before[0] == found@[k]);
            assert(rest@ =~= found@.skip(k + 1));
            assert(detailed(g, found@[k].0, found@[k].1, name_basics));
        }
    }
    let ghost mid = new_name_vec@;
    sort_by_roles(&mut new_name_vec);
    proof {
        let from = choose|from: Seq<int>| ranked(mid, new_name_vec@, from);
        assert(placed(g, found@, new_name_vec@, from));
    }
    new_name_vec
}

} // verus!
