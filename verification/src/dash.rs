//! The concurrent collections that hold the graph and the visited sets.
//!
//! The two types belong to the `dashmap` crate. What a value of them holds
//! is named by `adjacency` and `members`, and each function that calls into
//! the crate states what the call does to those contents. These statements
//! are believed, not proved. Every function that changes a collection takes
//! it by `&mut`, so the caller has the collection to itself for the length
//! of the call.
use dashmap::DashMap;
use dashmap::DashSet;
use std::collections::HashSet;
use vstd::prelude::*;

verus! {

/// An identifier of an actor or of a title, as the sequence of its characters.
pub type Id = Seq<char>;

#[verifier::external_type_specification]
#[verifier::external_body]
#[verifier::reject_recursive_types(K)]
#[verifier::reject_recursive_types(V)]
#[verifier::reject_recursive_types(S)]
pub struct ExDashMap<K, V, S>(DashMap<K, V, S>);

#[verifier::external_type_specification]
#[verifier::external_body]
#[verifier::reject_recursive_types(K)]
#[verifier::reject_recursive_types(S)]
pub struct ExDashSet<K, S>(DashSet<K, S>);

/// What an adjacency map holds: each key with the set stored under it.
pub uninterp spec fn adjacency(m: DashMap<String, HashSet<String>>) -> Map<Id, Set<Id>>;

/// What a visited set holds.
pub uninterp spec fn members(s: DashSet<String>) -> Set<Id>;

/// The views of the strings of `v`, in order.
pub open spec fn ids(v: Seq<String>) -> Seq<Id> {
    Seq::new(v.len(), |i: int| v[i]@)
}

/// The adjacency without keys.
pub open spec fn no_entries() -> Map<Id, Set<Id>> {
    Map::empty()
}

/// Whether `s` is finite and has `n` members.
pub open spec fn has_size(s: Set<Id>, n: nat) -> bool {
    s.finite() && s.len() == n
}

/// The most entries that a collection may be asked to reserve room for.
pub const MAX_RESERVE: usize = 16_777_216;

/// `DashMap::with_capacity`: a new map that holds nothing. The bound on
/// `capacity` keeps the rounding up to the shard count, and the size of each
/// shard's table, within `usize`.
#[verifier::external_body]
pub(crate) fn adjacency_with_capacity(capacity: usize) -> (m: DashMap<String, HashSet<String>>)
    requires
        capacity <= MAX_RESERVE,
    ensures
        adjacency(m) == no_entries(),
{
    DashMap::with_capacity(capacity)
}

/// `DashMap::get`, then a walk over the set found: `None` where the key is
/// absent, else the members of its set, each once, in the order in which the
/// set hands them out.
#[verifier::external_body]
pub(crate) fn adjacency_get(m: &DashMap<String, HashSet<String>>, key: &str) -> (r: Option<
    Vec<String>,
>)
    ensures
        r is Some <==> adjacency(*m).dom().contains(key@),
        r is Some ==> ids(r->0@).no_duplicates(),
        r is Some ==> ids(r->0@).to_set() == adjacency(*m)[key@],
{
    m.get(key).map(|set| set.value().iter().cloned().collect())
}

/// `DashMap::get`, then `HashSet::len`: `None` where the key is absent, else
/// the number of members of its set.
#[verifier::external_body]
pub(crate) fn adjacency_count(m: &DashMap<String, HashSet<String>>, key: &str) -> (r: Option<usize>)
    ensures
        r is Some <==> adjacency(*m).dom().contains(key@),
        r is Some ==> has_size(adjacency(*m)[key@], r->0 as nat),
{
    m.get(key).map(|set| set.value().len())
}

/// `DashMap::get_mut`, then `HashSet::insert` on the set found: where the key
/// is present, `item` joins its set and the result is `true`; where it is
/// absent, nothing changes and the result is `false`.
#[verifier::external_body]
pub(crate) fn adjacency_extend(
    m: &mut DashMap<String, HashSet<String>>,
    key: &str,
    item: String,
) -> (present: bool)
    ensures
        present == adjacency(*old(m)).dom().contains(key@),
        present ==> adjacency(*final(m)) == adjacency(*old(m)).insert(
            key@,
            adjacency(*old(m))[key@].insert(item@),
        ),
        !present ==> adjacency(*final(m)) == adjacency(*old(m)),
{
    match m.get_mut(key) {
        Some(mut set) => {
            set.insert(item);
            true
        },
        None => false,
    }
}

/// `DashMap::insert` of a set with the one member `item`: afterwards the key
/// holds exactly that set, whatever it held before.
#[verifier::external_body]
pub(crate) fn adjacency_put(m: &mut DashMap<String, HashSet<String>>, key: String, item: String)
    ensures
        adjacency(*final(m)) == adjacency(*old(m)).insert(key@, Set::<Id>::empty().insert(item@)),
{
    m.insert(key, HashSet::from([item]));
}

/// `DashMap::len`: the number of keys.
#[verifier::external_body]
pub(crate) fn adjacency_len(m: &DashMap<String, HashSet<String>>) -> (n: usize)
    ensures
        has_size(adjacency(*m).dom(), n as nat),
{
    m.len()
}

/// `DashSet::with_capacity`: a new set that holds nothing. The bound on
/// `capacity` is that of `adjacency_with_capacity`.
#[verifier::external_body]
pub(crate) fn visited_with_capacity(capacity: usize) -> (s: DashSet<String>)
    requires
        capacity <= MAX_RESERVE,
    ensures
        members(s) == Set::<Id>::empty(),
{
    DashSet::with_capacity(capacity)
}

/// `DashSet::contains`: whether the set holds `id`.
#[verifier::external_body]
pub(crate) fn visited_contains(s: &DashSet<String>, id: &str) -> (found: bool)
    ensures
        found == members(*s).contains(id@),
{
    s.contains(id)
}

/// `DashSet::insert`: afterwards the set holds `id` and what it held before;
/// the result says whether `id` is new to it.
#[verifier::external_body]
pub(crate) fn visited_insert(s: &mut DashSet<String>, id: String) -> (fresh: bool)
    ensures
        members(*final(s)) == members(*old(s)).insert(id@),
        fresh == !members(*old(s)).contains(id@),
{
    s.insert(id)
}

} // verus!
