use cpid::error::IndexError;
use cpid::indexes::{
    enumerate_indexes, index_name_of, list_indexes, tree_name, Index, ListedKey,
};
use cpid::ingest::{reindex_archive, reindex_jimage, reindex_project_path};
use cpid::project::DeclaredPackage;
use std::io::Write;

fn temp_db() -> sled::Db {
    sled::Config::new().temporary(true).open().expect("a temporary store")
}

fn tuple(class: &str, package: &str) -> (String, String, String) {
    (class.to_string(), package.to_string(), String::new())
}

fn names(list: &[&str]) -> Vec<String> {
    list.iter().map(|s| s.to_string()).collect()
}

fn tree_names(db: &sled::Db) -> Vec<String> {
    let mut all: Vec<String> =
        db.tree_names().iter().map(|n| String::from_utf8_lossy(n).into_owned()).collect();
    all.sort();
    all
}

fn classes_of(db: &mut sled::Db, index: &str, package: &str) -> Vec<String> {
    let found = Index::new(db, index).query_package_index(package).expect("a query result");
    found.get(package).expect("the package that was asked for").clone()
}

fn packages_of(db: &mut sled::Db, index: &str, class: &str) -> Vec<String> {
    let found = Index::new(db, index).query_class_index(class).expect("a query result");
    found.get(class).expect("the class that was asked for").clone()
}

#[test]
fn tree_name_appends_the_suffix() {
    assert_eq!(tree_name("myidx", "-class_pkgs"), "myidx-class_pkgs");
    assert_eq!(tree_name("", "-pkg_classes"), "-pkg_classes");
}

#[test]
fn index_has_its_name() {
    let mut db = temp_db();
    let index = Index::new(&mut db, "myidx");
    assert_eq!(index.name(), "myidx");
}

#[test]
fn opening_creates_the_keyspaces() {
    let mut db = temp_db();
    assert!(!tree_names(&db).contains(&"t-class_pkgs".to_string()));
    {
        let mut index = Index::new(&mut db, "t");
        index.open_class_packages_tree().expect("the class keyspace");
    }
    assert!(tree_names(&db).contains(&"t-class_pkgs".to_string()));
    assert!(!tree_names(&db).contains(&"t-pkg_classes".to_string()));
    {
        let mut index = Index::new(&mut db, "t");
        index.open_package_contents_tree().expect("the package keyspace");
        index.open_package_contents_tree().expect("the package keyspace, again");
    }
    assert!(tree_names(&db).contains(&"t-pkg_classes".to_string()));
}

#[test]
fn round_trip() {
    let mut db = temp_db();
    Index::new(&mut db, "t")
        .index_class_tuples(&[tuple("Timeout", "org.junit.rules")])
        .expect("an indexed batch");
    assert_eq!(packages_of(&mut db, "t", "Timeout"), names(&["org.junit.rules"]));
    assert_eq!(classes_of(&mut db, "t", "org.junit.rules"), names(&["Timeout"]));
}

#[test]
fn round_trip_is_sorted_and_without_repetition() {
    let mut db = temp_db();
    Index::new(&mut db, "t")
        .index_class_tuples(&[
            tuple("Timeout", "org.openjdk.jmh.annotations"),
            tuple("Timeout", "org.junit.rules"),
            tuple("Rule", "org.junit"),
            tuple("Timeout", "org.junit.rules"),
            tuple("TestRule", "org.junit.rules"),
        ])
        .expect("an indexed batch");
    assert_eq!(
        packages_of(&mut db, "t", "Timeout"),
        names(&["org.junit.rules", "org.openjdk.jmh.annotations"])
    );
    assert_eq!(classes_of(&mut db, "t", "org.junit.rules"), names(&["TestRule", "Timeout"]));
    assert_eq!(packages_of(&mut db, "t", "Rule"), names(&["org.junit"]));
}

#[test]
fn same_tuple_twice_is_as_once() {
    let mut db = temp_db();
    Index::new(&mut db, "t").index_class_tuples(&[tuple("A", "p")]).expect("a first batch");
    let once = db.open_tree("t-class_pkgs").unwrap().get("A").unwrap();
    Index::new(&mut db, "t").index_class_tuples(&[tuple("A", "p")]).expect("a second batch");
    let twice = db.open_tree("t-class_pkgs").unwrap().get("A").unwrap();
    assert_eq!(once, twice);
    assert_eq!(once.unwrap().as_ref(), br#"["p"]"#);
    assert_eq!(db.open_tree("t-pkg_classes").unwrap().get("p").unwrap().unwrap().as_ref(), br#"["A"]"#);
}

#[test]
fn two_tuples_in_either_order_give_the_same_list() {
    let mut one = temp_db();
    Index::new(&mut one, "t")
        .index_class_tuples(&[tuple("A", "P1"), tuple("A", "P2")])
        .expect("a batch");
    let mut other = temp_db();
    Index::new(&mut other, "t")
        .index_class_tuples(&[tuple("A", "P2"), tuple("A", "P1")])
        .expect("a batch");
    assert_eq!(packages_of(&mut one, "t", "A"), names(&["P1", "P2"]));
    assert_eq!(packages_of(&mut other, "t", "A"), names(&["P1", "P2"]));
}

#[test]
fn unknown_key_is_an_empty_list() {
    let mut db = temp_db();
    assert_eq!(packages_of(&mut db, "never", "Nothing"), Vec::<String>::new());
    assert_eq!(classes_of(&mut db, "never", "no.thing"), Vec::<String>::new());
    Index::new(&mut db, "t").index_class_tuples(&[tuple("A", "p")]).expect("a batch");
    assert_eq!(packages_of(&mut db, "t", "B"), Vec::<String>::new());
}

#[test]
fn query_answers_under_the_name_asked_for_only() {
    let mut db = temp_db();
    Index::new(&mut db, "t").index_class_tuples(&[tuple("A", "p")]).expect("a batch");
    let found = Index::new(&mut db, "t").query_class_index("A").expect("a query result");
    assert!(found.get("p").is_none());
    assert!(found.get("B").is_none());
    let entries = found.into_entries();
    assert_eq!(entries, vec![("A".to_string(), names(&["p"]))]);
}

#[test]
fn indexes_are_kept_apart() {
    let mut db = temp_db();
    Index::new(&mut db, "one").index_class_tuples(&[tuple("A", "p")]).expect("a batch");
    Index::new(&mut db, "two").index_class_tuples(&[tuple("A", "q")]).expect("a batch");
    assert_eq!(packages_of(&mut db, "one", "A"), names(&["p"]));
    assert_eq!(packages_of(&mut db, "two", "A"), names(&["q"]));
}

#[test]
fn empty_batch_creates_the_keyspaces() {
    let mut db = temp_db();
    Index::new(&mut db, "t").index_class_tuples(&[]).expect("an empty batch");
    assert!(tree_names(&db).contains(&"t-class_pkgs".to_string()));
    assert!(tree_names(&db).contains(&"t-pkg_classes".to_string()));
}

#[test]
fn drop_removes() {
    let mut db = temp_db();
    Index::new(&mut db, "t").index_class_tuples(&[tuple("A", "p")]).expect("a batch");
    assert!(tree_names(&db).contains(&"t-class_pkgs".to_string()));
    assert!(tree_names(&db).contains(&"t-pkg_classes".to_string()));
    Index::new(&mut db, "t").drop_trees().expect("dropped keyspaces");
    assert!(!tree_names(&db).contains(&"t-class_pkgs".to_string()));
    assert!(!tree_names(&db).contains(&"t-pkg_classes".to_string()));
    assert_eq!(packages_of(&mut db, "t", "A"), Vec::<String>::new());
    assert!(tree_names(&db).contains(&"t-class_pkgs".to_string()));
    assert!(tree_names(&db).contains(&"t-pkg_classes".to_string()));
    assert!(db.open_tree("t-class_pkgs").unwrap().is_empty());
    assert!(db.open_tree("t-pkg_classes").unwrap().is_empty());
    assert_eq!(classes_of(&mut db, "t", "p"), Vec::<String>::new());
}

#[test]
fn query_after_drop_recreates_both_keyspaces() {
    let mut db = temp_db();
    Index::new(&mut db, "t").index_class_tuples(&[tuple("Foo", "com.x")]).expect("a batch");
    Index::new(&mut db, "t").drop_trees().expect("dropped keyspaces");
    let found = Index::new(&mut db, "t").query_class_index("Foo").expect("a query result");
    assert_eq!(found.into_entries(), vec![("Foo".to_string(), Vec::<String>::new())]);
    assert!(tree_names(&db).contains(&"t-class_pkgs".to_string()));
    assert!(tree_names(&db).contains(&"t-pkg_classes".to_string()));
    assert!(db.open_tree("t-class_pkgs").unwrap().is_empty());
    assert!(db.open_tree("t-pkg_classes").unwrap().is_empty());
}

#[test]
fn package_query_creates_both_keyspaces() {
    let mut db = temp_db();
    assert_eq!(classes_of(&mut db, "fresh", "p"), Vec::<String>::new());
    assert!(tree_names(&db).contains(&"fresh-class_pkgs".to_string()));
    assert!(tree_names(&db).contains(&"fresh-pkg_classes".to_string()));
}

#[test]
fn failed_decoding_leaves_the_stored_lists_as_they_were() {
    let mut db = temp_db();
    Index::new(&mut db, "t").index_class_tuples(&[tuple("B", "q"), tuple("A", "q")]).expect("a batch");
    db.open_tree("t-class_pkgs").unwrap().insert("Z", "no list").unwrap();
    assert!(matches!(
        Index::new(&mut db, "t").query_class_index("Z"),
        Err(IndexError::Decode(_))
    ));
    assert_eq!(classes_of(&mut db, "t", "q"), names(&["A", "B"]));
}

#[test]
fn drop_of_an_absent_index_is_no_error() {
    let mut db = temp_db();
    Index::new(&mut db, "absent").drop_trees().expect("nothing to drop");
}

#[test]
fn stored_value_that_is_no_list_is_a_decode_error() {
    let mut db = temp_db();
    db.open_tree("t-class_pkgs").unwrap().insert("A", "no list").unwrap();
    let found = Index::new(&mut db, "t").query_class_index("A");
    assert!(matches!(found, Err(IndexError::Decode(_))));
    let message = match found {
        Err(e) => e.message(),
        Ok(_) => String::new(),
    };
    assert!(!message.is_empty());
    Index::new(&mut db, "t").index_class_tuples(&[tuple("A", "p")]).expect("a batch");
    assert_eq!(packages_of(&mut db, "t", "A"), names(&["p"]));
}

#[test]
fn enumerate_lists_the_keys_in_order() {
    let mut db = temp_db();
    Index::new(&mut db, "t")
        .index_class_tuples(&[tuple("B", "q"), tuple("A", "p"), tuple("C", "p")])
        .expect("a batch");
    db.open_tree("t-class_pkgs").unwrap().insert(vec![0xffu8, 0xfe], "[]").unwrap();
    let listing = enumerate_indexes(&mut Index::new(&mut db, "t")).expect("a listing");
    let classes: Vec<String> = listing
        .classes
        .iter()
        .map(|k| match k {
            ListedKey::Name(n) => format!("CLASS: {}", n),
            ListedKey::Undecodable(b) => format!("ERROR: {:?}", b),
        })
        .collect();
    assert_eq!(classes, names(&["CLASS: A", "CLASS: B", "CLASS: C", "ERROR: [255, 254]"]));
    let packages: Vec<String> = listing
        .packages
        .iter()
        .map(|k| match k {
            ListedKey::Name(n) => n.clone(),
            ListedKey::Undecodable(_) => String::new(),
        })
        .collect();
    assert_eq!(packages, names(&["p", "q"]));
}

#[test]
fn enumerate_of_a_new_index_is_empty() {
    let mut db = temp_db();
    let listing = enumerate_indexes(&mut Index::new(&mut db, "fresh")).expect("a listing");
    assert!(listing.classes.is_empty());
    assert!(listing.packages.is_empty());
    assert!(tree_names(&db).contains(&"fresh-class_pkgs".to_string()));
    assert!(tree_names(&db).contains(&"fresh-pkg_classes".to_string()));
}

#[test]
fn index_names_come_from_the_class_keyspaces() {
    assert_eq!(index_name_of(b"myidx-class_pkgs"), Some("myidx".to_string()));
    assert_eq!(index_name_of(b"myidx-pkg_classes"), None);
    assert_eq!(index_name_of(b"-class_pkgs"), None);
    assert_eq!(index_name_of(b"__sled__default"), None);
    assert_eq!(index_name_of(b"a-class_pkgs-class_pkgs"), Some("a-class_pkgs".to_string()));
    assert_eq!(index_name_of(b"x-class_pkgs.bak"), Some("x".to_string()));
}

#[test]
fn list_indexes_names_every_index() {
    let mut db = temp_db();
    assert_eq!(list_indexes(&db), Vec::<String>::new());
    Index::new(&mut db, "one").index_class_tuples(&[tuple("A", "p")]).expect("a batch");
    Index::new(&mut db, "two").index_class_tuples(&[]).expect("a batch");
    let mut found = list_indexes(&db);
    found.sort();
    assert_eq!(found, names(&["one", "two"]));
    Index::new(&mut db, "one").drop_trees().expect("dropped keyspaces");
    assert_eq!(list_indexes(&db), names(&["two"]));
}

#[test]
fn reindex_from_an_archive() {
    let mut writer = zip::ZipWriter::new(std::io::Cursor::new(Vec::new()));
    for entry in ["org/junit/rules/Timeout.class", "org/junit/Rule.class", "org/junit/Rule$1.class"] {
        writer.start_file(entry, zip::write::FileOptions::default()).unwrap();
        writer.write_all(b"x").unwrap();
    }
    let bytes = writer.finish().unwrap().into_inner();
    let mut db = temp_db();
    let skipped =
        reindex_archive(&mut Index::new(&mut db, "t"), &bytes).expect("an indexed archive");
    assert_eq!(skipped, Vec::<String>::new());
    assert_eq!(packages_of(&mut db, "t", "Timeout"), names(&["org.junit.rules"]));
    assert_eq!(classes_of(&mut db, "t", "org.junit"), names(&["Rule"]));
}

#[test]
fn reindex_from_what_is_no_archive_stores_nothing() {
    let mut db = temp_db();
    let outcome = reindex_archive(&mut Index::new(&mut db, "t"), b"no archive");
    assert!(matches!(outcome, Err(IndexError::Archive(_))));
    assert!(!tree_names(&db).contains(&"t-class_pkgs".to_string()));
}

#[test]
fn reindex_from_a_listing() {
    let mut db = temp_db();
    let lines = names(&["Module: java.base", "    java/lang/Object.class", "    java/lang/String.class"]);
    reindex_jimage(&mut Index::new(&mut db, "jdk"), &lines).expect("an indexed listing");
    assert_eq!(classes_of(&mut db, "jdk", "java.lang"), names(&["Object", "String"]));
    assert_eq!(packages_of(&mut db, "jdk", "Object"), names(&["java.lang"]));
}

#[test]
fn reindex_from_packages() {
    let mut db = temp_db();
    let packages = vec![DeclaredPackage {
        name: Some("a.b".to_string()),
        contained_identifiers: names(&["I", "C"]),
        files: names(&["C.java"]),
    }];
    reindex_project_path(&mut Index::new(&mut db, "proj"), &packages).expect("an indexed project");
    assert_eq!(classes_of(&mut db, "proj", "a.b"), names(&["C", "I"]));
    assert_eq!(packages_of(&mut db, "proj", "I"), names(&["a.b"]));
}

#[test]
fn open_or_create_is_idempotent() {
    let mut db = temp_db();
    Index::new(&mut db, "t").open_or_create().expect("opened keyspaces");
    assert!(tree_names(&db).contains(&"t-class_pkgs".to_string()));
    assert!(tree_names(&db).contains(&"t-pkg_classes".to_string()));
    Index::new(&mut db, "t").index_class_tuples(&[tuple("A", "p")]).expect("a batch");
    let before = tree_names(&db);
    Index::new(&mut db, "t").open_or_create().expect("opened keyspaces, again");
    assert_eq!(tree_names(&db), before);
    assert_eq!(packages_of(&mut db, "t", "A"), names(&["p"]));
}

#[test]
fn storage_error_has_the_words_of_the_store() {
    let e = IndexError::Storage(sled::Error::Unsupported("cannot do this".to_string()));
    assert_eq!(e.message(), "Unsupported: cannot do this");
}

#[test]
fn batch_leaves_what_was_stored_and_adds_its_own() {
    let mut db = temp_db();
    Index::new(&mut db, "t")
        .index_class_tuples(&[tuple("A", "m"), tuple("B", "m")])
        .expect("a first batch");
    Index::new(&mut db, "t")
        .index_class_tuples(&[tuple("A", "z"), tuple("A", "a"), tuple("C", "m"), tuple("A", "z")])
        .expect("a second batch");
    assert_eq!(packages_of(&mut db, "t", "A"), names(&["a", "m", "z"]));
    assert_eq!(packages_of(&mut db, "t", "B"), names(&["m"]));
    assert_eq!(classes_of(&mut db, "t", "m"), names(&["A", "B", "C"]));
    assert_eq!(classes_of(&mut db, "t", "z"), names(&["A"]));
}

#[test]
fn reindex_hands_back_the_entries_that_were_passed_over() {
    let mut writer = zip::ZipWriter::new(std::io::Cursor::new(Vec::new()));
    for entry in ["com/x/Foo.class", "bad.class", "com/x/Foo$Inner.class", "README"] {
        writer.start_file(entry, zip::write::FileOptions::default()).unwrap();
        writer.write_all(b"x").unwrap();
    }
    let bytes = writer.finish().unwrap().into_inner();
    let mut db = temp_db();
    let skipped =
        reindex_archive(&mut Index::new(&mut db, "t"), &bytes).expect("an indexed archive");
    assert_eq!(skipped, names(&["bad.class"]));
    assert_eq!(packages_of(&mut db, "t", "Foo"), names(&["com.x"]));
}

#[test]
fn list_indexes_follows_opening_and_dropping() {
    let mut db = temp_db();
    Index::new(&mut db, "a").open_or_create().expect("opened keyspaces");
    assert_eq!(list_indexes(&db), names(&["a"]));
    Index::new(&mut db, "a").drop_trees().expect("dropped keyspaces");
    assert_eq!(list_indexes(&db), Vec::<String>::new());
    Index::new(&mut db, "a").drop_trees().expect("nothing left to drop");
    assert_eq!(packages_of(&mut db, "a", "X"), Vec::<String>::new());
    assert_eq!(list_indexes(&db), names(&["a"]));
}
