use std::collections::HashMap;

use kevinbacon::schemas::{
    titles_known_for, DbRow, NameBasics, NameToTitle, TitleBasics, TitleDetails, TitlePrincipal,
    TitleToNames,
};

struct TestDbRow<'r> {
    map: HashMap<&'static str, &'r str>,
}

impl<'r> DbRow for TestDbRow<'r> {
    fn string(&self, column: &str) -> String {
        self.map.get(column).unwrap().to_string()
    }

    fn i32(&self, column: &str) -> i32 {
        self.map.get(column).map(|x| x.parse::<i32>().unwrap()).unwrap()
    }

    fn bool(&self, column: &str) -> bool {
        self.map.get(column).map(|x| *x == "true").unwrap_or(false)
    }

    fn opt_string(&self, column: &str) -> Option<String> {
        self.map.get(column).map(|x| x.to_string())
    }

    fn opt_i32(&self, column: &str) -> Option<i32> {
        self.map.get(column).map(|x| x.parse::<i32>().unwrap())
    }

    fn opt_f32(&self, column: &str) -> Option<u32> {
        self.map.get(column).map(|x| x.parse::<f32>().unwrap().to_bits())
    }
}

const TCONST: &str = "value1";
const TITLETYPE: &str = "value2";
const PRIMARYTITLE: &str = "value3";
const ORIGINALTITLE: &str = "value4";
const STARTYEAR: i32 = 1234;
const RUNTIMEMINUTES: i32 = 234;
const GENRES: &str = "[value5, value6]";
const ISADULT: bool = true;
const AVERAGERATING: f32 = 3.33;
const NUMVOTES: i32 = 666;

const NCONST: &str = "value7";
const CATEGORY: &str = "value8";
const CHARACTERS: &str = "[value9]";
const PRIMARYNAME: &str = "valueA";
const BIRTHYEAR: i32 = 1922;
const DEATHYEAR: i32 = 1999;

#[test]
fn title_details_from_db_row_optionals() {
    let title_basics = TitleDetails {
        tconst: TCONST.to_string(),
        titletype: Some(TITLETYPE.to_string()),
        primarytitle: Some(PRIMARYTITLE.to_string()),
        originaltitle: Some(ORIGINALTITLE.to_string()),
        averagerating: Some(AVERAGERATING.to_bits()),
        numvotes: Some(NUMVOTES),
        startyear: Some(STARTYEAR),
        runtimeminutes: Some(RUNTIMEMINUTES),
        genres: Some(GENRES.to_string()),
        isadult: ISADULT,
        principals: vec![],
    };

    let startyear = STARTYEAR.to_string();
    let runtimeminutes = RUNTIMEMINUTES.to_string();
    let isadult = ISADULT.to_string();
    let averagerating = AVERAGERATING.to_string();
    let numvotes = NUMVOTES.to_string();
    let map: HashMap<&'static str, &str> = HashMap::from([
        ("tconst", TCONST),
        ("titletype", TITLETYPE),
        ("primarytitle", PRIMARYTITLE),
        ("originaltitle", ORIGINALTITLE),
        ("averagerating", &averagerating),
        ("numvotes", &numvotes),
        ("startyear", &startyear),
        ("runtimeminutes", &runtimeminutes),
        ("genres", &GENRES),
        ("isadult", &isadult),
    ]);
    let row = TestDbRow { map };
    let new_title_basics = TitleDetails::from_db_row(&row);

    assert_eq!(new_title_basics.tconst, title_basics.tconst);
    assert_eq!(new_title_basics.titletype, title_basics.titletype);
    assert_eq!(new_title_basics.primarytitle, title_basics.primarytitle);
    assert_eq!(new_title_basics.originaltitle, title_basics.originaltitle);
    assert_eq!(new_title_basics.startyear, title_basics.startyear);
    assert_eq!(new_title_basics.runtimeminutes, title_basics.runtimeminutes);
    assert_eq!(new_title_basics.isadult, title_basics.isadult);
    assert!(new_title_basics.principals.is_empty());
}

#[test]
fn title_basics_from_db_row_mandatory() {
    let title_basics = TitleDetails {
        tconst: TCONST.to_string(),
        titletype: None,
        primarytitle: None,
        originaltitle: None,
        averagerating: None,
        numvotes: None,
        startyear: None,
        runtimeminutes: None,
        genres: None,
        isadult: false,
        principals: vec![],
    };

    let map: HashMap<&'static str, &str> = HashMap::from([("tconst", TCONST)]);
    let row = TestDbRow { map };
    let new_title_basics = TitleDetails::from_db_row(&row);

    assert_eq!(new_title_basics.tconst, title_basics.tconst);
    assert!(new_title_basics.titletype.is_none());
    assert!(new_title_basics.primarytitle.is_none());
    assert!(new_title_basics.originaltitle.is_none());
    assert!(new_title_basics.startyear.is_none());
    assert!(new_title_basics.runtimeminutes.is_none());
    assert!(new_title_basics.isadult == false);
    assert!(new_title_basics.principals.is_empty());
}

#[test]
fn title_principal_from_db_row_optionals() {
    let title_principal = TitlePrincipal {
        nconst: NCONST.to_string(),
        category: Some(CATEGORY.to_string()),
        characters: Some(CHARACTERS.to_string()),
        primaryname: Some(PRIMARYNAME.to_string()),
        birthyear: Some(BIRTHYEAR),
        deathyear: Some(DEATHYEAR),
    };

    let birthyear = BIRTHYEAR.to_string();
    let deathyear = DEATHYEAR.to_string();
    let map = HashMap::from([
        ("nconst", NCONST),
        ("category", CATEGORY),
        ("characters", CHARACTERS),
        ("primaryname", PRIMARYNAME),
        ("birthyear", &birthyear),
        ("deathyear", &deathyear),
    ]);
    let row = TestDbRow { map };
    let new_title_principal = TitlePrincipal::from_db_row(&row);

    assert_eq!(new_title_principal.nconst, title_principal.nconst);
    assert_eq!(new_title_principal.category, title_principal.category);
    assert_eq!(new_title_principal.characters, title_principal.characters);
    assert_eq!(new_title_principal.primaryname, title_principal.primaryname);
    assert_eq!(new_title_principal.birthyear, title_principal.birthyear);
    assert_eq!(new_title_principal.deathyear, title_principal.deathyear);
}

#[test]
fn title_principal_from_db_row_mandatory() {
    let title_principal = TitlePrincipal {
        nconst: NCONST.to_string(),
        category: None,
        characters: None,
        primaryname: None,
        birthyear: None,
        deathyear: None,
    };

    let map = HashMap::from([("nconst", NCONST)]);
    let row = TestDbRow { map };
    let new_title_principal = TitlePrincipal::from_db_row(&row);

    assert_eq!(new_title_principal.nconst, title_principal.nconst);
    assert!(new_title_principal.category.is_none());
    assert!(new_title_principal.characters.is_none());
    assert!(new_title_principal.primaryname.is_none());
    assert!(new_title_principal.birthyear.is_none());
    assert!(new_title_principal.deathyear.is_none());
}

#[test]
fn title_details_keeps_the_rating_bits() {
    let rating = "3.33".to_string();
    let map: HashMap<&'static str, &str> =
        HashMap::from([("tconst", TCONST), ("averagerating", rating.as_str())]);
    let title = TitleDetails::from_db_row(&TestDbRow { map });
    assert_eq!(title.averagerating.map(f32::from_bits), Some(AVERAGERATING));
    assert_eq!(title.numvotes, None);
    assert_eq!(title.get_title_id(), TCONST);
}

#[test]
fn add_principals_replaces_the_list() {
    let map: HashMap<&'static str, &str> = HashMap::from([("tconst", TCONST)]);
    let mut title = TitleDetails::from_db_row(&TestDbRow { map });
    let one = TitlePrincipal::from_db_row(&TestDbRow {
        map: HashMap::from([("nconst", "nm1"), ("category", "actor")]),
    });
    let two = TitlePrincipal::from_db_row(&TestDbRow { map: HashMap::from([("nconst", "nm2")]) });
    title.add_principals(&vec![one, two]);
    assert_eq!(title.principals.len(), 2);
    assert_eq!(title.principals[0].nconst, "nm1");
    assert_eq!(title.principals[0].category, Some("actor".to_string()));
    assert_eq!(title.principals[1].nconst, "nm2");
    title.add_principals(&vec![]);
    assert!(title.principals.is_empty());
    assert_eq!(title.tconst, TCONST);
}

#[test]
fn title_basics_from_db_row_reads_each_column() {
    let map: HashMap<&'static str, &str> = HashMap::from([
        ("tconst", "tt1"),
        ("titletype", "movie"),
        ("primarytitle", "Footloose"),
        ("startyear", "1984"),
    ]);
    let title = TitleBasics::from_db_row(&TestDbRow { map });
    assert_eq!(title.tconst, "tt1");
    assert_eq!(title.titletype, Some("movie".to_string()));
    assert_eq!(title.primarytitle, Some("Footloose".to_string()));
    assert_eq!(title.startyear, Some(1984));
}

#[test]
fn title_basics_from_tconst_knows_the_identifier_only() {
    let title = TitleBasics::from_tconst("tt0087277");
    assert_eq!(title.tconst, "tt0087277");
    assert!(title.titletype.is_none());
    assert!(title.primarytitle.is_none());
    assert!(title.startyear.is_none());
}

#[test]
fn title_to_names_from_db_row_reads_both_actors() {
    let map: HashMap<&'static str, &str> = HashMap::from([
        ("tconst", "tt1"),
        ("primarytitle", "Footloose"),
        ("titletype", "movie"),
        ("startyear", "1984"),
        ("nconst1", "nm1"),
        ("primaryname1", "Kevin Bacon"),
        ("characters1", "[\"Ren\"]"),
        ("nconst2", "nm2"),
        ("primaryname2", "Lori Singer"),
    ]);
    let step = TitleToNames::from_db_row(&TestDbRow { map });
    assert_eq!(step.tconst, "tt1");
    assert_eq!(step.primarytitle, Some("Footloose".to_string()));
    assert_eq!(step.titletype, Some("movie".to_string()));
    assert_eq!(step.startyear, Some(1984));
    assert_eq!(step.actor1.nconst, "nm1");
    assert_eq!(step.actor1.primaryname, Some("Kevin Bacon".to_string()));
    assert_eq!(step.actor1.characters, Some("[\"Ren\"]".to_string()));
    assert_eq!(step.actor2.nconst, "nm2");
    assert_eq!(step.actor2.primaryname, Some("Lori Singer".to_string()));
    assert_eq!(step.actor2.characters, None);
}

#[test]
fn name_basics_from_db_row_splits_the_known_titles() {
    let map: HashMap<&'static str, &str> = HashMap::from([
        ("nconst", "nm1"),
        ("primaryname", "Kevin Bacon"),
        ("primaryprofession", "actor,producer"),
        ("birthyear", "1958"),
        ("knownfortitles", "tt1,tt2,,tt3"),
    ]);
    let person = NameBasics::from_db_row(&TestDbRow { map });
    assert_eq!(person.nconst, "nm1");
    assert_eq!(person.actorroles, 0);
    assert_eq!(person.primaryname, Some("Kevin Bacon".to_string()));
    assert_eq!(person.primaryprofession, Some("actor,producer".to_string()));
    assert_eq!(person.birthyear, Some(1958));
    assert_eq!(person.deathyear, None);
    assert_eq!(person.title_ids(), vec!["tt1", "tt2", "", "tt3"]);
    assert!(person.knownfortitles.iter().all(|t| t.titletype.is_none() && t.startyear.is_none()));
}

#[test]
fn name_basics_without_known_titles_has_none() {
    let map: HashMap<&'static str, &str> = HashMap::from([("nconst", "nm1")]);
    let person = NameBasics::from_db_row(&TestDbRow { map });
    assert!(person.knownfortitles.is_empty());
    assert!(person.title_ids().is_empty());
}

#[test]
fn name_basics_with_an_empty_list_has_one_empty_title() {
    let map: HashMap<&'static str, &str> =
        HashMap::from([("nconst", "nm1"), ("knownfortitles", "")]);
    let person = NameBasics::from_db_row(&TestDbRow { map });
    assert_eq!(person.title_ids(), vec![""]);
}

#[test]
fn set_details_replaces_roles_and_titles() {
    let map: HashMap<&'static str, &str> =
        HashMap::from([("nconst", "nm1"), ("primaryname", "Kevin Bacon"), ("knownfortitles", "tt9")]);
    let mut person = NameBasics::from_db_row(&TestDbRow { map });
    person.set_details(7, vec![TitleBasics::from_tconst("tt1"), TitleBasics::from_tconst("tt2")]);
    assert_eq!(person.actorroles, 7);
    assert_eq!(person.title_ids(), vec!["tt1", "tt2"]);
    assert_eq!(person.nconst, "nm1");
    assert_eq!(person.primaryname, Some("Kevin Bacon".to_string()));
}

#[test]
fn from_columns_keeps_each_value() {
    let title = TitleBasics::from_columns("tt1".to_string(), None, Some("Footloose".to_string()), Some(1984));
    assert_eq!(title.tconst, "tt1");
    assert_eq!(title.titletype, None);
    assert_eq!(title.primarytitle, Some("Footloose".to_string()));
    assert_eq!(title.startyear, Some(1984));

    let principal = TitlePrincipal::from_columns(
        "nm1".to_string(),
        Some("actor".to_string()),
        None,
        Some("Kevin Bacon".to_string()),
        Some(1958),
        None,
    );
    assert_eq!(principal.nconst, "nm1");
    assert_eq!(principal.category, Some("actor".to_string()));
    assert_eq!(principal.characters, None);
    assert_eq!(principal.primaryname, Some("Kevin Bacon".to_string()));
    assert_eq!((principal.birthyear, principal.deathyear), (Some(1958), None));

    let details = TitleDetails::from_columns(
        "tt1".to_string(),
        Some("movie".to_string()),
        None,
        Some("Footloose".to_string()),
        Some(6.6f32.to_bits()),
        Some(90000),
        Some(1984),
        Some(107),
        Some("Drama".to_string()),
        false,
    );
    assert_eq!(details.tconst, "tt1");
    assert_eq!(details.originaltitle, Some("Footloose".to_string()));
    assert_eq!(details.averagerating.map(f32::from_bits), Some(6.6));
    assert_eq!((details.numvotes, details.startyear, details.runtimeminutes), (Some(90000), Some(1984), Some(107)));
    assert_eq!(details.genres, Some("Drama".to_string()));
    assert!(!details.isadult);
    assert!(details.principals.is_empty());

    let actor = |n: &str| NameToTitle { nconst: n.to_string(), primaryname: None, characters: Some("x".to_string()) };
    let step = TitleToNames::from_columns("tt1".to_string(), None, None, Some(1984), actor("nm1"), actor("nm2"));
    assert_eq!(step.tconst, "tt1");
    assert_eq!(step.startyear, Some(1984));
    assert_eq!(step.actor1.nconst, "nm1");
    assert_eq!(step.actor2.nconst, "nm2");
    assert_eq!(step.actor2.characters, Some("x".to_string()));
}

#[test]
fn name_basics_from_columns_splits_the_list() {
    let person = NameBasics::from_columns(
        "nm1".to_string(),
        Some("Kevin Bacon".to_string()),
        None,
        Some(1958),
        None,
        Some("tt1,tt2".to_string()),
    );
    assert_eq!(person.nconst, "nm1");
    assert_eq!(person.actorroles, 0);
    assert_eq!(person.primaryname, Some("Kevin Bacon".to_string()));
    assert_eq!(person.primaryprofession, None);
    assert_eq!((person.birthyear, person.deathyear), (Some(1958), None));
    assert_eq!(person.title_ids(), vec!["tt1", "tt2"]);
    let nobody = NameBasics::from_columns("nm2".to_string(), None, None, None, None, None);
    assert!(nobody.knownfortitles.is_empty());
}

#[test]
fn titles_known_for_has_a_title_for_each_piece() {
    let ids = |list: &str| -> Vec<String> {
        titles_known_for(list).into_iter().map(|t| t.tconst).collect()
    };
    assert_eq!(ids("tt1,tt2,tt3"), vec!["tt1", "tt2", "tt3"]);
    assert_eq!(ids("tt1"), vec!["tt1"]);
    assert_eq!(ids(""), vec![""]);
    assert_eq!(ids(","), vec!["", ""]);
    assert_eq!(ids("tt1,"), vec!["tt1", ""]);
    assert!(titles_known_for("tt1,tt2").iter().all(|t| t.titletype.is_none()
        && t.primarytitle.is_none()
        && t.startyear.is_none()));
}
