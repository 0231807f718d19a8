//! The one place where work is handed to rayon's pool.
use crate::dash::{ids, members};
use crate::frontier::fetched_ok;
use crate::kevinbacon::{fetch_route, FrontierEntry, Lookup};
use crate::schemas::TitlePrincipalCache;
use dashmap::DashSet;
use rayon::iter::{IntoParallelRefIterator, ParallelIterator};
use vstd::prelude::*;

verus! {

/// `par_iter`, `map` and `collect` of rayon, over the entries of
/// `this_level` from `lo` up to `hi`: the look-ups of `fetch_route` for the
/// actors of each entry, made side by side and handed back in the order of
/// the entries. Trusted: that rayon calls the function once for each entry
/// and keeps the order; what each call gives is what `fetch_route` ensures.
/// The cache and the set are only read.
#[verifier::external_body]
pub(crate) fn par_fetch(
    cache: &TitlePrincipalCache,
    ignored_titles: &DashSet<String>,
    this_level: &Vec<FrontierEntry>,
    lo: usize,
    hi: usize,
) -> (r: Vec<Vec<Option<Lookup>>>)
    requires
        lo <= hi <= this_level@.len(),
    ensures
        r@.len() == hi - lo,
        forall|b: int|
            0 <= b < hi - lo ==> fetched_ok(
                cache@,
                members(*ignored_titles),
                ids(this_level@[lo + b].1@),
                (#[trigger] r@[b])@,
            ),
{
    this_level[lo..hi].par_iter().map(|entry| fetch_route(cache, ignored_titles, &entry.1)).collect()
}

} // verus!
