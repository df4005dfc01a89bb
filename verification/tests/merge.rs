use cpid::indexes::merge_string_into_list;
use cpid::lists::{insert_entry, sorted_unique};

fn merged(entry: &str, old: Option<&[u8]>) -> String {
    String::from_utf8(merge_string_into_list(entry, old).expect("a merged value")).unwrap()
}

fn names(list: &[&str]) -> Vec<String> {
    list.iter().map(|s| s.to_string()).collect()
}

#[test]
fn merge_into_nothing_gives_one_entry() {
    assert_eq!(merged("com.x", None), r#"["com.x"]"#);
}

#[test]
fn merge_is_idempotent() {
    let once = merged("org.junit.rules", None);
    let twice = merged("org.junit.rules", Some(once.as_bytes()));
    assert_eq!(once, r#"["org.junit.rules"]"#);
    assert_eq!(twice, once);
}

#[test]
fn merge_commutes() {
    let p1 = merged("P1", None);
    let p1_p2 = merged("P2", Some(p1.as_bytes()));
    let p2 = merged("P2", None);
    let p2_p1 = merged("P1", Some(p2.as_bytes()));
    assert_eq!(p1_p2, r#"["P1","P2"]"#);
    assert_eq!(p2_p1, r#"["P1","P2"]"#);
}

#[test]
fn merge_keeps_the_list_sorted() {
    let old = br#"["a.b","c.d"]"#;
    assert_eq!(merged("b.c", Some(old)), r#"["a.b","b.c","c.d"]"#);
    assert_eq!(merged("a.a", Some(old)), r#"["a.a","a.b","c.d"]"#);
    assert_eq!(merged("z", Some(old)), r#"["a.b","c.d","z"]"#);
}

#[test]
fn merge_sorts_and_dedups_what_was_stored() {
    let old = br#"["c","a","c","b"]"#;
    assert_eq!(merged("a", Some(old)), r#"["a","b","c"]"#);
}

#[test]
fn merge_takes_an_unreadable_value_for_empty() {
    assert_eq!(merged("x", Some(b"not json")), r#"["x"]"#);
    assert_eq!(merged("x", Some(br#"{"a":1}"#)), r#"["x"]"#);
    assert_eq!(merged("x", Some(b"")), r#"["x"]"#);
}

#[test]
fn merge_escapes_what_json_escapes() {
    let once = merged("a\"b\\c\n", None);
    assert_eq!(once, r#"["a\"b\\c\n"]"#);
    assert_eq!(merged("a\"b\\c\n", Some(once.as_bytes())), once);
}

#[test]
fn merge_orders_by_code_point() {
    let old = br#"["Z","a"]"#;
    assert_eq!(merged("B", Some(old)), r#"["B","Z","a"]"#);
    let with_prefix = merged("ab", Some(br#"["abc"]"#));
    assert_eq!(with_prefix, r#"["ab","abc"]"#);
    let unicode = merged("\u{e9}", Some(br#"["z"]"#));
    assert_eq!(unicode, "[\"z\",\"\u{e9}\"]");
}

#[test]
fn insert_entry_puts_a_name_at_its_place() {
    let mut list = names(&["b", "d"]);
    insert_entry(&mut list, "c".to_string());
    assert_eq!(list, names(&["b", "c", "d"]));
    insert_entry(&mut list, "a".to_string());
    assert_eq!(list, names(&["a", "b", "c", "d"]));
    insert_entry(&mut list, "e".to_string());
    assert_eq!(list, names(&["a", "b", "c", "d", "e"]));
    insert_entry(&mut list, "c".to_string());
    assert_eq!(list, names(&["a", "b", "c", "d", "e"]));
    let mut empty: Vec<String> = Vec::new();
    insert_entry(&mut empty, "x".to_string());
    assert_eq!(empty, names(&["x"]));
}

#[test]
fn sorted_unique_sorts_and_drops_repetitions() {
    assert_eq!(sorted_unique(names(&["b", "a", "b", "c", "a"])), names(&["a", "b", "c"]));
    assert_eq!(sorted_unique(Vec::new()), Vec::<String>::new());
    assert_eq!(sorted_unique(names(&["x"])), names(&["x"]));
}
