use cpid::error::IndexError;
use cpid::ingest::{
    class_tuple_of_entry, class_tuple_of_line, class_tuple_of_listed, classpath_archives,
    index_jimage, index_zip_archive, is_jar_path, is_skipped_entry, skipped_entries,
    skipped_in_listing, skipped_of_listed, tuples_of_entries, tuples_of_packages,
};
use cpid::jdk::is_jimage_file;
use cpid::project::DeclaredPackage;
use std::io::Write;

fn tuple(class: &str, package: &str, origin: &str) -> (String, String, String) {
    (class.to_string(), package.to_string(), origin.to_string())
}

fn names(list: &[&str]) -> Vec<String> {
    list.iter().map(|s| s.to_string()).collect()
}

fn archive(entries: &[&str]) -> Vec<u8> {
    let mut writer = zip::ZipWriter::new(std::io::Cursor::new(Vec::new()));
    for entry in entries {
        writer.start_file(*entry, zip::write::FileOptions::default()).unwrap();
        writer.write_all(b"x").unwrap();
    }
    writer.finish().unwrap().into_inner()
}

#[test]
fn entry_of_a_class_file_gives_a_tuple() {
    assert_eq!(
        class_tuple_of_entry("com/x/Foo.class"),
        Some(tuple("Foo", "com.x", "com/x/Foo.class"))
    );
    assert_eq!(
        class_tuple_of_entry("org/junit/rules/Timeout.class"),
        Some(tuple("Timeout", "org.junit.rules", "org/junit/rules/Timeout.class"))
    );
    assert_eq!(class_tuple_of_entry("a/B.class"), Some(tuple("B", "a", "a/B.class")));
}

#[test]
fn entry_of_an_inner_class_gives_none() {
    assert_eq!(class_tuple_of_entry("com/x/Foo$Inner.class"), None);
    assert_eq!(class_tuple_of_entry("com/x$/Foo.class"), None);
}

#[test]
fn entry_with_one_component_gives_none() {
    assert_eq!(class_tuple_of_entry("bad.class"), None);
    assert_eq!(class_tuple_of_entry(".class"), None);
}

#[test]
fn entry_that_is_no_class_file_gives_none() {
    assert_eq!(class_tuple_of_entry("META-INF/MANIFEST.MF"), None);
    assert_eq!(class_tuple_of_entry("com/x/"), None);
    assert_eq!(class_tuple_of_entry("com/x/Foo.class.bak"), None);
    assert_eq!(class_tuple_of_entry(""), None);
}

#[test]
fn entry_with_empty_components_keeps_them() {
    assert_eq!(class_tuple_of_entry("/Foo.class"), Some(tuple("Foo", "", "/Foo.class")));
    assert_eq!(class_tuple_of_entry("a//Foo.class"), Some(tuple("Foo", "a.", "a//Foo.class")));
    assert_eq!(class_tuple_of_entry("a/.class"), Some(tuple("", "a", "a/.class")));
}

#[test]
fn archive_extraction() {
    let found = tuples_of_entries(&names(&["com/x/Foo.class", "com/x/Foo$Inner.class", "bad.class"]));
    assert_eq!(found, vec![tuple("Foo", "com.x", "com/x/Foo.class")]);
}

#[test]
fn archive_extraction_from_archive_bytes() {
    let bytes = archive(&["com/x/Foo.class", "com/x/Foo$Inner.class", "bad.class"]);
    let found = index_zip_archive(&bytes).expect("a readable archive");
    assert_eq!(found, vec![tuple("Foo", "com.x", "com/x/Foo.class")]);
}

#[test]
fn archive_with_several_classes() {
    let bytes = archive(&["a/A.class", "a/b/B.class", "META-INF/MANIFEST.MF", "c/C.class"]);
    let mut found = index_zip_archive(&bytes).expect("a readable archive");
    found.sort();
    assert_eq!(
        found,
        vec![
            tuple("A", "a", "a/A.class"),
            tuple("B", "a.b", "a/b/B.class"),
            tuple("C", "c", "c/C.class")
        ]
    );
}

#[test]
fn empty_archive_has_no_tuples() {
    let bytes = archive(&[]);
    assert_eq!(index_zip_archive(&bytes).expect("a readable archive"), Vec::new());
}

#[test]
fn bytes_that_are_no_archive_are_an_archive_error() {
    assert!(matches!(index_zip_archive(b"this is no archive"), Err(IndexError::Archive(_))));
    assert!(matches!(index_zip_archive(b""), Err(IndexError::Archive(_))));
    let message = match index_zip_archive(b"") {
        Err(e) => e.message(),
        Ok(_) => String::new(),
    };
    assert!(!message.is_empty());
}

#[test]
fn listed_class_entry_gives_a_tuple() {
    assert_eq!(
        class_tuple_of_listed("    java/lang/Object.class"),
        Some(tuple("Object", "java.lang", "java/lang/Object.class"))
    );
    assert_eq!(class_tuple_of_listed("  Object.class"), None);
    assert_eq!(class_tuple_of_listed("  java/lang/Object_class"), None);
    assert_eq!(class_tuple_of_listed(""), None);
}

#[test]
fn listing_line_of_a_class_gives_a_tuple() {
    assert_eq!(
        class_tuple_of_line("    java/lang/Object.class"),
        Some(tuple("Object", "java.lang", "java/lang/Object.class"))
    );
    assert_eq!(
        class_tuple_of_line("\tjava/util/concurrent/Future.class"),
        Some(tuple("Future", "java.util.concurrent", "java/util/concurrent/Future.class"))
    );
}

#[test]
fn listing_line_of_another_kind_gives_none() {
    assert_eq!(class_tuple_of_line("Module: java.base"), None);
    assert_eq!(class_tuple_of_line("jimage: /usr/lib/jvm/modules"), None);
    assert_eq!(class_tuple_of_line(""), None);
    assert_eq!(class_tuple_of_line("java/lang/Object.class"), None);
    assert_eq!(class_tuple_of_line("    java/lang/Thread$State.class"), None);
    assert_eq!(class_tuple_of_line("    META-INF/services/x.y.Z"), None);
    assert_eq!(class_tuple_of_line("    module-info.class"), None);
}

#[test]
fn listing_line_matches_up_to_the_suffix() {
    assert_eq!(
        class_tuple_of_line("    java/lang/Object.class and more"),
        Some(tuple("Object", "java.lang", "java/lang/Object.class"))
    );
    assert_eq!(class_tuple_of_line("    java/lang/ObjectXclass"), None);
}

#[test]
fn listing_gives_the_tuples_of_its_lines() {
    let lines = names(&[
        "jimage: modules",
        "",
        "Module: java.base",
        "    META-INF/services/java.nio.file.spi.FileSystemProvider",
        "    java/io/File.class",
        "    java/io/File$PathStatus.class",
        "Module: java.sql",
        "    java/sql/Array.class",
    ]);
    assert_eq!(
        index_jimage(&lines),
        vec![
            tuple("File", "java.io", "java/io/File.class"),
            tuple("Array", "java.sql", "java/sql/Array.class")
        ]
    );
    assert_eq!(index_jimage(&Vec::new()), Vec::new());
}

#[test]
fn class_path_keeps_the_archives() {
    assert_eq!(
        classpath_archives("/a/x.jar:/b/classes:/c/y.jar"),
        names(&["/a/x.jar", "/c/y.jar"])
    );
    assert_eq!(classpath_archives(""), Vec::<String>::new());
    assert_eq!(classpath_archives("x.jar"), names(&["x.jar"]));
    assert_eq!(classpath_archives(":x.jar::y.zip:.jar"), names(&["x.jar", ".jar"]));
    assert_eq!(classpath_archives("x.jar\n"), Vec::<String>::new());
}

#[test]
fn jar_paths_end_in_the_archive_suffix() {
    assert!(is_jar_path("/lib/junit.jar"));
    assert!(is_jar_path(".jar"));
    assert!(!is_jar_path("/lib/junit.jar.sha1"));
    assert!(!is_jar_path("/lib/junitjar"));
    assert!(!is_jar_path(""));
}

#[test]
fn module_image_begins_with_its_magic() {
    assert!(is_jimage_file(&[0xda, 0xda, 0xfe, 0xca]));
    assert!(is_jimage_file(&[0xda, 0xda, 0xfe, 0xca, 0x00, 0x01]));
    assert!(!is_jimage_file(&[0xca, 0xfe, 0xda, 0xda]));
    assert!(!is_jimage_file(&[0xda, 0xda, 0xfe]));
    assert!(!is_jimage_file(&[0xda, 0xda, 0xfe, 0xcb]));
    assert!(!is_jimage_file(&[]));
    assert!(!is_jimage_file(b"PK\x03\x04"));
}

#[test]
fn packages_give_tuples_without_origin() {
    let packages = vec![
        DeclaredPackage {
            name: Some("a.b".to_string()),
            contained_identifiers: names(&["C", "I"]),
            files: names(&["src/a/b/C.java"]),
        },
        DeclaredPackage { name: None, contained_identifiers: names(&["X"]), files: Vec::new() },
        DeclaredPackage {
            name: Some("d".to_string()),
            contained_identifiers: Vec::new(),
            files: Vec::new(),
        },
        DeclaredPackage {
            name: Some("e".to_string()),
            contained_identifiers: names(&["F"]),
            files: Vec::new(),
        },
    ];
    assert_eq!(
        tuples_of_packages(&packages),
        vec![tuple("C", "a.b", ""), tuple("I", "a.b", ""), tuple("F", "e", "")]
    );
}

#[test]
fn entries_with_one_component_are_passed_over() {
    assert!(is_skipped_entry("bad.class"));
    assert!(is_skipped_entry(".class"));
    assert!(!is_skipped_entry("com/x/Foo.class"));
    assert!(!is_skipped_entry("bad$1.class"));
    assert!(!is_skipped_entry("README"));
    assert!(!is_skipped_entry(""));
    assert_eq!(
        skipped_entries(&names(&["com/x/Foo.class", "bad.class", "x$y.class", "Worse.class", "a/b"])),
        names(&["bad.class", "Worse.class"])
    );
    assert_eq!(skipped_entries(&Vec::new()), Vec::<String>::new());
}

#[test]
fn listed_names_with_one_component_are_passed_over() {
    assert_eq!(skipped_of_listed("   Object.class"), Some("Object.class".to_string()));
    assert_eq!(skipped_of_listed("   java/lang/Object.class"), None);
    assert_eq!(skipped_of_listed("   Object_class"), None);
    let lines = names(&["Module: java.base", "    java/lang/Object.class", "", "    Object.class"]);
    assert_eq!(skipped_in_listing(&lines), Vec::<String>::new());
}
