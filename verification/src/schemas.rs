//! The in-memory graph cache and the records that describe titles and names.
use crate::dash::{
    adjacency, adjacency_count, adjacency_extend, adjacency_get, adjacency_len, adjacency_put,
    adjacency_with_capacity, has_size, ids, Id,
};
use crate::graph::{lemma_with_edge_wf, Graph};
use crate::repo::joined;
use dashmap::DashMap;
use std::collections::HashSet;
use vstd::prelude::*;

verus! {

/// One row of a result of the relational store, read column by column.
/// `string` and `i32` are for columns that must be there. What a row gives
/// for a column is for the row to say; the records that are made from a row
/// state which answer of the row each of their fields holds.
pub trait DbRow {
    fn string(&self, column: &str) -> String;

    fn i32(&self, column: &str) -> i32;

    fn bool(&self, column: &str) -> bool;

    fn opt_string(&self, column: &str) -> Option<String>;

    fn opt_i32(&self, column: &str) -> Option<i32>;

    /// The single-precision number under `column`, as its bits.
    fn opt_f32(&self, column: &str) -> Option<u32>;
}

/// Whether `value` is what the row's `string` gave for `column`.
pub open spec fn gave_string<R: DbRow>(r: &R, column: &str, value: String) -> bool {
    call_ensures(R::string, (r, column), value)
}

/// Whether `value` is what the row's `bool` gave for `column`.
pub open spec fn gave_bool<R: DbRow>(r: &R, column: &str, value: bool) -> bool {
    call_ensures(R::bool, (r, column), value)
}

/// Whether `value` is what the row's `opt_string` gave for `column`.
pub open spec fn gave_opt_string<R: DbRow>(r: &R, column: &str, value: Option<String>) -> bool {
    call_ensures(R::opt_string, (r, column), value)
}

/// Whether `value` is what the row's `opt_i32` gave for `column`.
pub open spec fn gave_opt_i32<R: DbRow>(r: &R, column: &str, value: Option<i32>) -> bool {
    call_ensures(R::opt_i32, (r, column), value)
}

/// Whether `value` is what the row's `opt_f32` gave for `column`.
pub open spec fn gave_opt_f32<R: DbRow>(r: &R, column: &str, value: Option<u32>) -> bool {
    call_ensures(R::opt_f32, (r, column), value)
}

/// A title, as far as a list of titles shows it.
#[derive(Clone, Debug)]
pub struct TitleBasics {
    pub tconst: String,
    pub titletype: Option<String>,
    pub primarytitle: Option<String>,
    pub startyear: Option<i32>,
}

impl TitleBasics {
    /// The title that `r` describes: each field holds what the row gave for
    /// the column of its name.
    pub fn from_db_row<R: DbRow>(r: &R) -> (title: TitleBasics)
        ensures
            gave_string(r, "tconst", title.tconst),
            gave_opt_string(r, "titletype", title.titletype),
            gave_opt_string(r, "primarytitle", title.primarytitle),
            gave_opt_i32(r, "startyear", title.startyear),
    {
        TitleBasics::from_columns(
            r.string("tconst"),
            r.opt_string("titletype"),
            r.opt_string("primarytitle"),
            r.opt_i32("startyear"),
        )
    }

    /// The title with what its four columns hold.
    pub fn from_columns(
        tconst: String,
        titletype: Option<String>,
        primarytitle: Option<String>,
        startyear: Option<i32>,
    ) -> (title: TitleBasics)
        ensures
            title == (TitleBasics { tconst, titletype, primarytitle, startyear }),
    {
        TitleBasics { tconst, titletype, primarytitle, startyear }
    }

    /// The title of which only the identifier is known.
    pub fn from_tconst(tconst: &str) -> (title: TitleBasics)
        ensures
            title.tconst@ == tconst@,
            title.titletype is None,
            title.primarytitle is None,
            title.startyear is None,
    {
        TitleBasics {
            tconst: tconst.to_owned(),
            titletype: None,
            primarytitle: None,
            startyear: None,
        }
    }
}

/// A title with its ratings and its principals. The average rating is
/// held as the bits of a single-precision number.
#[derive(Clone, Debug)]
pub struct TitleDetails {
    pub tconst: String,
    pub titletype: Option<String>,
    pub primarytitle: Option<String>,
    pub originaltitle: Option<String>,
    pub averagerating: Option<u32>,
    pub numvotes: Option<i32>,
    pub startyear: Option<i32>,
    pub runtimeminutes: Option<i32>,
    pub genres: Option<String>,
    pub isadult: bool,
    pub principals: Vec<TitlePrincipal>,
}

/// A copy of `text`.
fn copy_text(text: &Option<String>) -> (r: Option<String>)
    ensures
        r == *text,
{
    match text {
        Some(s) => Some(s.clone()),
        None => None,
    }
}

/// A copy of `principal`.
fn copy_principal(principal: &TitlePrincipal) -> (r: TitlePrincipal)
    ensures
        r == *principal,
{
    TitlePrincipal {
        nconst: principal.nconst.clone(),
        category: copy_text(&principal.category),
        characters: copy_text(&principal.characters),
        primaryname: copy_text(&principal.primaryname),
        birthyear: principal.birthyear,
        deathyear: principal.deathyear,
    }
}

impl TitleDetails {
    /// The title that `r` describes, with no principals yet: each other
    /// field holds what the row gave for the column of its name.
    pub fn from_db_row<R: DbRow>(r: &R) -> (title: TitleDetails)
        ensures
            gave_string(r, "tconst", title.tconst),
            gave_opt_string(r, "titletype", title.titletype),
            gave_opt_string(r, "primarytitle", title.primarytitle),
            gave_opt_string(r, "originaltitle", title.originaltitle),
            gave_opt_f32(r, "averagerating", title.averagerating),
            gave_opt_i32(r, "numvotes", title.numvotes),
            gave_opt_i32(r, "startyear", title.startyear),
            gave_opt_i32(r, "runtimeminutes", title.runtimeminutes),
            gave_opt_string(r, "genres", title.genres),
            gave_bool(r, "isadult", title.isadult),
            title.principals@.len() == 0,
    {
        TitleDetails::from_columns(
            r.string("tconst"),
            r.opt_string("titletype"),
            r.opt_string("primarytitle"),
            r.opt_string("originaltitle"),
            r.opt_f32("averagerating"),
            r.opt_i32("numvotes"),
            r.opt_i32("startyear"),
            r.opt_i32("runtimeminutes"),
            r.opt_string("genres"),
            r.bool("isadult"),
        )
    }

    /// The title with what its ten columns hold, and no principals.
    pub fn from_columns(
        tconst: String,
        titletype: Option<String>,
        primarytitle: Option<String>,
        originaltitle: Option<String>,
        averagerating: Option<u32>,
        numvotes: Option<i32>,
        startyear: Option<i32>,
        runtimeminutes: Option<i32>,
        genres: Option<String>,
        isadult: bool,
    ) -> (title: TitleDetails)
        ensures
            title.tconst == tconst,
            title.titletype == titletype,
            title.primarytitle == primarytitle,
            title.originaltitle == originaltitle,
            title.averagerating == averagerating,
            title.numvotes == numvotes,
            title.startyear == startyear,
            title.runtimeminutes == runtimeminutes,
            title.genres == genres,
            title.isadult == isadult,
            title.principals@.len() == 0,
    {
        TitleDetails {
            tconst,
            titletype,
            primarytitle,
            originaltitle,
            averagerating,
            numvotes,
            startyear,
            runtimeminutes,
            genres,
            isadult,
            principals: Vec::new(),
        }
    }

    /// The identifier of the title.
    pub fn get_title_id(&self) -> (id: &str)
        ensures
            id@ == self.tconst@,
    {
        self.tconst.as_str()
    }

    /// Replaces the principals by a copy of `principals`.
    pub fn add_principals(&mut self, principals: &Vec<TitlePrincipal>)
        ensures
            final(self).principals@ == principals@,
            final(self).tconst == old(self).tconst,
            final(self).titletype == old(self).titletype,
            final(self).primarytitle == old(self).primarytitle,
            final(self).originaltitle == old(self).originaltitle,
            final(self).averagerating == old(self).averagerating,
            final(self).numvotes == old(self).numvotes,
            final(self).startyear == old(self).startyear,
            final(self).runtimeminutes == old(self).runtimeminutes,
            final(self).genres == old(self).genres,
            final(self).isadult == old(self).isadult,
    {
        let mut copy: Vec<TitlePrincipal> = Vec::new();
        let mut i: usize = 0;
        while i < principals.len()
            invariant
                i <= principals.len(),
                copy@ == principals@.take(i as int),
            decreases principals.len() - i,
        {
            copy.push(copy_principal(&principals[i]));
            proof {
                assert(copy@ =~= principals@.take(i + 1));
            }
            i += 1;
        }
        proof {
            assert(principals@.take(principals.len() as int) =~= principals@);
        }
        self.principals = copy;
    }
}

/// A contributor to a title, with the part that they had in it.
#[derive(Clone, Debug)]
pub struct TitlePrincipal {
    pub nconst: String,
    pub category: Option<String>,
    pub characters: Option<String>,
    pub primaryname: Option<String>,
    pub birthyear: Option<i32>,
    pub deathyear: Option<i32>,
}

impl TitlePrincipal {
    /// The contributor that `r` describes: each field holds what the row
    /// gave for the column of its name.
    pub fn from_db_row<R: DbRow>(r: &R) -> (principal: TitlePrincipal)
        ensures
            gave_string(r, "nconst", principal.nconst),
            gave_opt_string(r, "category", principal.category),
            gave_opt_string(r, "characters", principal.characters),
            gave_opt_string(r, "primaryname", principal.primaryname),
            gave_opt_i32(r, "birthyear", principal.birthyear),
            gave_opt_i32(r, "deathyear", principal.deathyear),
    {
        TitlePrincipal::from_columns(
            r.string("nconst"),
            r.opt_string("category"),
            r.opt_string("characters"),
            r.opt_string("primaryname"),
            r.opt_i32("birthyear"),
            r.opt_i32("deathyear"),
        )
    }

    /// The contributor with what its six columns hold.
    pub fn from_columns(
        nconst: String,
        category: Option<String>,
        characters: Option<String>,
        primaryname: Option<String>,
        birthyear: Option<i32>,
        deathyear: Option<i32>,
    ) -> (principal: TitlePrincipal)
        ensures
            principal == (TitlePrincipal {
                nconst,
                category,
                characters,
                primaryname,
                birthyear,
                deathyear,
            }),
    {
        TitlePrincipal { nconst, category, characters, primaryname, birthyear, deathyear }
    }
}

/// One actor of a step of a connection path.
#[derive(Clone, Debug)]
pub struct NameToTitle {
    pub nconst: String,
    pub primaryname: Option<String>,
    pub characters: Option<String>,
}

/// One step of a connection path: a title and the two actors that it links.
#[derive(Clone, Debug)]
pub struct TitleToNames {
    pub tconst: String,
    pub primarytitle: Option<String>,
    pub titletype: Option<String>,
    pub startyear: Option<i32>,
    pub actor1: NameToTitle,
    pub actor2: NameToTitle,
}

impl TitleToNames {
    /// The step that `r` describes: each field of the title holds what the
    /// row gave for the column of its name, and each field of the first and
    /// of the second actor what it gave for the column of that name with `1`
    /// and with `2` at its end.
    pub fn from_db_row<R: DbRow>(r: &R) -> (step: TitleToNames)
        ensures
            gave_string(r, "tconst", step.tconst),
            gave_opt_string(r, "primarytitle", step.primarytitle),
            gave_opt_string(r, "titletype", step.titletype),
            gave_opt_i32(r, "startyear", step.startyear),
            gave_string(r, "nconst1", step.actor1.nconst),
            gave_opt_string(r, "primaryname1", step.actor1.primaryname),
            gave_opt_string(r, "characters1", step.actor1.characters),
            gave_string(r, "nconst2", step.actor2.nconst),
            gave_opt_string(r, "primaryname2", step.actor2.primaryname),
            gave_opt_string(r, "characters2", step.actor2.characters),
    {
        TitleToNames::from_columns(
            r.string("tconst"),
            r.opt_string("primarytitle"),
            r.opt_string("titletype"),
            r.opt_i32("startyear"),
            NameToTitle {
                nconst: r.string("nconst1"),
                primaryname: r.opt_string("primaryname1"),
                characters: r.opt_string("characters1"),
            },
            NameToTitle {
                nconst: r.string("nconst2"),
                primaryname: r.opt_string("primaryname2"),
                characters: r.opt_string("characters2"),
            },
        )
    }

    /// The step with what the columns of its title hold, and its two actors.
    pub fn from_columns(
        tconst: String,
        primarytitle: Option<String>,
        titletype: Option<String>,
        startyear: Option<i32>,
        actor1: NameToTitle,
        actor2: NameToTitle,
    ) -> (step: TitleToNames)
        ensures
            step == (TitleToNames { tconst, primarytitle, titletype, startyear, actor1, actor2 }),
    {
        TitleToNames { tconst, primarytitle, titletype, startyear, actor1, actor2 }
    }
}

/// A person, with the titles that they are known for and the number of
/// titles that the cache holds for them.
#[derive(Clone, Debug)]
pub struct NameBasics {
    pub nconst: String,
    pub actorroles: usize,
    pub primaryname: Option<String>,
    pub primaryprofession: Option<String>,
    pub birthyear: Option<i32>,
    pub deathyear: Option<i32>,
    pub knownfortitles: Vec<TitleBasics>,
}

/// The identifiers of `titles`, in order.
pub open spec fn tconsts_of(titles: Seq<TitleBasics>) -> Seq<Id> {
    Seq::new(titles.len(), |i: int| titles[i].tconst@)
}

/// `str::split` at each comma: the pieces between the commas, in order.
/// Put together with commas between them they are `text` again, and no
/// piece holds a comma; so a text without a comma is one piece, the empty
/// text too.
#[verifier::external_body]
fn split_commas(text: &str) -> (parts: Vec<String>)
    ensures
        parts@.len() >= 1,
        joined(ids(parts@), seq![',']) == text@,
        forall|i: int| 0 <= i < parts@.len() ==> !(#[trigger] ids(parts@)[i]).contains(','),
{
    text.split(",").map(|part| part.to_string()).collect()
}

/// Whether `titles` are what the list `known` names: one title for each
/// piece between the commas of the list, with the piece as its identifier
/// and nothing else known of it.
pub open spec fn known_titles(known: Seq<char>, titles: Seq<TitleBasics>) -> bool {
    &&& titles.len() >= 1
    &&& joined(tconsts_of(titles), seq![',']) == known
    &&& forall|i: int| 0 <= i < titles.len() ==> !(#[trigger] tconsts_of(titles)[i]).contains(',')
    &&& forall|i: int| 0 <= i < titles.len() ==> unnamed(#[trigger] titles[i])
}

/// Whether nothing but the identifier is known of `title`.
pub open spec fn unnamed(title: TitleBasics) -> bool {
    title.titletype is None && title.primarytitle is None && title.startyear is None
}

/// Whether `titles` are what the column `known` names: no title where the
/// column holds nothing, else the titles that its list names.
pub open spec fn listed_as(known: Option<String>, titles: Seq<TitleBasics>) -> bool {
    match known {
        None => titles.len() == 0,
        Some(list) => known_titles(list@, titles),
    }
}

/// The titles that the list `known` names, which holds identifiers with
/// commas between them.
pub fn titles_known_for(known: &str) -> (titles: Vec<TitleBasics>)
    ensures
        known_titles(known@, titles@),
{
    let mut knownfortitles: Vec<TitleBasics> = Vec::new();
    let parts = split_commas(known);
    let mut i: usize = 0;
    while i < parts.len()
        invariant
            i <= parts.len(),
            knownfortitles@.len() == i,
            tconsts_of(knownfortitles@) == ids(parts@).take(i as int),
            forall|k: int| 0 <= k < i ==> unnamed(#[trigger] knownfortitles@[k]),
        decreases parts.len() - i,
    {
        let ghost before = tconsts_of(knownfortitles@);
        knownfortitles.push(TitleBasics::from_tconst(parts[i].as_str()));
        proof {
            assert(tconsts_of(knownfortitles@) =~= before.push(parts@[i as int]@));
            assert(tconsts_of(knownfortitles@) =~= ids(parts@).take(i + 1));
        }
        i += 1;
    }
    proof {
        assert(ids(parts@).take(parts.len() as int) =~= ids(parts@));
    }
    knownfortitles
}

impl NameBasics {
    /// The person that `r` describes, with no roles counted yet: each other
    /// field holds what the row gave for the column of its name, and the
    /// titles that they are known for are those that the row's answer for
    /// `knownfortitles` names.
    pub fn from_db_row<R: DbRow>(r: &R) -> (person: NameBasics)
        ensures
            gave_string(r, "nconst", person.nconst),
            person.actorroles == 0,
            gave_opt_string(r, "primaryname", person.primaryname),
            gave_opt_string(r, "primaryprofession", person.primaryprofession),
            gave_opt_i32(r, "birthyear", person.birthyear),
            gave_opt_i32(r, "deathyear", person.deathyear),
            exists|known: Option<String>|
                gave_opt_string(r, "knownfortitles", known) && #[trigger] listed_as(
                    known,
                    person.knownfortitles@,
                ),
    {
        let known = r.opt_string("knownfortitles");
        let ghost list = known;
        let person = NameBasics::from_columns(
            r.string("nconst"),
            r.opt_string("primaryname"),
            r.opt_string("primaryprofession"),
            r.opt_i32("birthyear"),
            r.opt_i32("deathyear"),
            known,
        );
        proof {
            assert(gave_opt_string(r, "knownfortitles", list) && listed_as(
                list,
                person.knownfortitles@,
            ));
        }
        person
    }

    /// The person with what their columns hold and no roles counted yet.
    /// The titles that they are known for are those that the list `known`
    /// names, each with its identifier alone, and none where there is no
    /// list.
    pub fn from_columns(
        nconst: String,
        primaryname: Option<String>,
        primaryprofession: Option<String>,
        birthyear: Option<i32>,
        deathyear: Option<i32>,
        known: Option<String>,
    ) -> (person: NameBasics)
        ensures
            person.nconst == nconst,
            person.actorroles == 0,
            person.primaryname == primaryname,
            person.primaryprofession == primaryprofession,
            person.birthyear == birthyear,
            person.deathyear == deathyear,
            listed_as(known, person.knownfortitles@),
    {
        let knownfortitles: Vec<TitleBasics> = match known {
            Some(kt) => titles_known_for(kt.as_str()),
            None => Vec::new(),
        };
        NameBasics {
            nconst,
            actorroles: 0,
            primaryname,
            primaryprofession,
            birthyear,
            deathyear,
            knownfortitles,
        }
    }

    /// The identifiers of the titles that the person is known for, in order.
    pub fn title_ids(&self) -> (r: Vec<String>)
        ensures
            ids(r@) == tconsts_of(self.knownfortitles@),
    {
        let mut r: Vec<String> = Vec::new();
        let mut i: usize = 0;
        while i < self.knownfortitles.len()
            invariant
                i <= self.knownfortitles.len(),
                ids(r@) == tconsts_of(self.knownfortitles@).take(i as int),
            decreases self.knownfortitles.len() - i,
        {
            let ghost before = ids(r@);
            r.push(self.knownfortitles[i].tconst.clone());
            proof {
                assert(ids(r@) =~= before.push(self.knownfortitles@[i as int].tconst@));
                assert(ids(r@) =~= tconsts_of(self.knownfortitles@).take(i + 1));
            }
            i += 1;
        }
        proof {
            assert(tconsts_of(self.knownfortitles@).take(self.knownfortitles.len() as int)
                =~= tconsts_of(self.knownfortitles@));
        }
        r
    }

    /// Sets the number of roles and the titles, and leaves the rest.
    pub fn set_details(&mut self, references: usize, titles: Vec<TitleBasics>)
        ensures
            final(self).actorroles == references,
            final(self).knownfortitles == titles,
            final(self).nconst == old(self).nconst,
            final(self).primaryname == old(self).primaryname,
            final(self).primaryprofession == old(self).primaryprofession,
            final(self).birthyear == old(self).birthyear,
            final(self).deathyear == old(self).deathyear,
    {
        self.actorroles = references;
        self.knownfortitles = titles;
    }
}

/// The room that a new cache reserves in each of its two maps.
pub const INITIAL_CAPACITY: usize = 1_500_000;

/// The bipartite adjacency store: titles to their actors, actors to their
/// titles. It is filled edge by edge and never loses one.
#[derive(Debug)]
pub struct TitlePrincipalCache {
    t_to_p: DashMap<String, HashSet<String>>,
    p_to_t: DashMap<String, HashSet<String>>,
}

impl View for TitlePrincipalCache {
    type V = Graph;

    closed spec fn view(&self) -> Graph {
        Graph { cast: adjacency(self.t_to_p), credits: adjacency(self.p_to_t) }
    }
}

/// Adds `item` to the set under `key`, with a new set where the key is absent.
fn add_half(m: &mut DashMap<String, HashSet<String>>, key: String, item: String)
    ensures
        adjacency(*final(m)) == adjacency(*old(m)).insert(
            key@,
            (if adjacency(*old(m)).dom().contains(key@) {
                adjacency(*old(m))[key@]
            } else {
                Set::<Id>::empty()
            }).insert(item@),
        ),
{
    let present = adjacency_extend(m, key.as_str(), item.clone());
    if !present {
        adjacency_put(m, key, item);
    }
}

/// Adds the edge to both maps.
fn add_edge(
    t_to_p: &mut DashMap<String, HashSet<String>>,
    p_to_t: &mut DashMap<String, HashSet<String>>,
    tconst: String,
    nconst: String,
)
    ensures
        (Graph { cast: adjacency(*final(t_to_p)), credits: adjacency(*final(p_to_t)) }) == (Graph {
            cast: adjacency(*old(t_to_p)),
            credits: adjacency(*old(p_to_t)),
        }).with_edge(tconst@, nconst@),
{
    add_half(t_to_p, tconst.clone(), nconst.clone());
    add_half(p_to_t, nconst, tconst);
}

impl TitlePrincipalCache {
    /// A cache that holds no edge.
    pub fn new() -> (cache: TitlePrincipalCache)
        ensures
            cache@ == Graph::empty(),
            cache@.wf(),
    {
        TitlePrincipalCache {
            t_to_p: adjacency_with_capacity(INITIAL_CAPACITY),
            p_to_t: adjacency_with_capacity(INITIAL_CAPACITY),
        }
    }

    /// Records that `nconst` appears in `tconst`, in both directions. An edge
    /// that is already there leaves the graph as it was.
    pub fn insert(&mut self, tconst: String, nconst: String)
        ensures
            final(self)@ == old(self)@.with_edge(tconst@, nconst@),
            old(self)@.wf() ==> final(self)@.wf(),
    {
        proof {
            if self@.wf() {
                lemma_with_edge_wf(self@, tconst@, nconst@);
            }
        }
        add_edge(&mut self.t_to_p, &mut self.p_to_t, tconst, nconst);
    }

    /// The actors of `tconst`, each once, or `None` where the title was never
    /// inserted.
    pub fn t_to_p(&self, tconst: &str) -> (names: Option<Vec<String>>)
        ensures
            names is Some <==> self@.cast.dom().contains(tconst@),
            names is Some ==> ids(names->0@).no_duplicates(),
            names is Some ==> ids(names->0@).to_set() == self@.cast[tconst@],
    {
        adjacency_get(&self.t_to_p, tconst)
    }

    /// The titles of `nconst`, each once, or `None` where the actor was never
    /// inserted.
    pub fn p_to_t(&self, nconst: &str) -> (titles: Option<Vec<String>>)
        ensures
            titles is Some <==> self@.knows(nconst@),
            titles is Some ==> ids(titles->0@).no_duplicates(),
            titles is Some ==> ids(titles->0@).to_set() == self@.credits[nconst@],
    {
        adjacency_get(&self.p_to_t, nconst)
    }

    /// The number of titles and the number of actors.
    pub fn len(&self) -> (counts: (usize, usize))
        ensures
            has_size(self@.cast.dom(), counts.0 as nat),
            has_size(self@.credits.dom(), counts.1 as nat),
    {
        (adjacency_len(&self.t_to_p), adjacency_len(&self.p_to_t))
    }

    /// The number of titles that the cache holds for the person: none for
    /// one that was never inserted.
    pub fn ref_count(&self, name_basics: &NameBasics) -> (count: usize)
        ensures
            count == self@.roles(name_basics.nconst@),
    {
        match self.degree(name_basics.nconst.as_str()) {
            Some(n) => n,
            None => 0,
        }
    }

    /// The number of titles of `nconst`, or `None` where the actor was never
    /// inserted.
    pub fn degree(&self, nconst: &str) -> (count: Option<usize>)
        ensures
            count is Some <==> self@.knows(nconst@),
            count is Some ==> has_size(self@.credits[nconst@], count->0 as nat),
    {
        adjacency_count(&self.p_to_t, nconst)
    }
}

} // verus!
