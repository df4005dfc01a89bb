//! Ingestion: from the entry names of an archive, the lines of a module
//! image listing, or a class path, to index tuples and into the store.

use crate::error::IndexError;
use crate::indexes::{
    kept_or_sorted, listed_with_index, pairs, partly_listed, with_index, with_tuples, ClassTuple,
    Index,
};
use crate::store::db_durable;
use crate::patterns::{capture, captured};
use crate::project::{package_view, package_views, DeclaredPackage, PackageView};
use crate::text::{
    chars_of, contains_char, copy_range, ends_with, has_suffix, join, join_with, rows, split,
    split_on, string_of, trim, trimmed, views,
};
use vstd::prelude::*;

verus! {

/// A tuple as three texts: class name, package name, origin.
pub type Triple = (Seq<char>, Seq<char>, Seq<char>);

/// The three texts of a tuple.
pub open spec fn triple(t: ClassTuple) -> Triple {
    (t.0@, t.1@, t.2@)
}

/// The texts of a row of tuples.
pub open spec fn triples(tuples: Seq<ClassTuple>) -> Seq<Triple> {
    tuples.map_values(|t: ClassTuple| triple(t))
}

/// What an optional tuple holds, as texts.
pub open spec fn optional_triple(t: Option<ClassTuple>) -> Option<Triple> {
    match t {
        Some(t) => Some(triple(t)),
        None => None,
    }
}

/// The suffix of the name of a class file.
pub open spec fn class_suffix() -> Seq<char> {
    ".class"@
}

/// The suffix of the name of an archive.
pub open spec fn jar_suffix() -> Seq<char> {
    ".jar"@
}

/// The tuple for a class file path without its suffix. The path is cut at
/// every `/`: the last piece is the class name, the pieces before it, joined
/// with `.`, the package name. A path of fewer than two pieces gives none.
pub open spec fn stub_tuple(stub: Seq<char>, origin: Seq<char>) -> Option<Triple> {
    let parts = split(stub, '/');
    if parts.len() < 2 {
        None
    } else {
        Some((parts.last(), join(parts.drop_last(), '.'), origin))
    }
}

/// The tuple for an archive entry: the entry must be a class file and no
/// inner class, which a `$` in its name marks.
pub open spec fn entry_tuple(name: Seq<char>) -> Option<Triple> {
    if has_suffix(name, class_suffix()) && !name.contains('$') {
        stub_tuple(name.take(name.len() - class_suffix().len()), name)
    } else {
        None
    }
}

/// The tuples of a row of entry names, in the order of the names.
pub open spec fn entries_tuples(names: Seq<Seq<char>>) -> Seq<Triple>
    decreases names.len(),
{
    if names.len() == 0 {
        Seq::empty()
    } else {
        let before = entries_tuples(names.drop_last());
        match entry_tuple(names.last()) {
            Some(t) => before.push(t),
            None => before,
        }
    }
}

/// The tuple for a class file path without its suffix, found in `origin`.
fn tuple_of_stub(stub: &[char], origin: &[char]) -> (r: Option<ClassTuple>)
    ensures
        optional_triple(r) == stub_tuple(stub@, origin@),
{
    let mut parts = split_on(stub, '/');
    if parts.len() < 2 {
        return None;
    }
    let ghost all = rows(parts@);
    let class_name = match parts.pop() {
        Some(last) => last,
        None => {
            return None;
        },
    };
    proof {
        assert(rows(parts@) =~= all.drop_last());
    }
    let package_name = join_with(&parts, '.');
    Some(
        (
            string_of(class_name.as_slice()),
            string_of(package_name.as_slice()),
            string_of(origin),
        ),
    )
}

/// The tuple that an archive entry contributes, if it contributes one.
pub fn class_tuple_of_entry(name: &str) -> (r: Option<ClassTuple>)
    ensures
        optional_triple(r) == entry_tuple(name@),
{
    let chars = chars_of(name);
    let suffix = chars_of(".class");
    if !ends_with(chars.as_slice(), suffix.as_slice()) || contains_char(chars.as_slice(), '$') {
        return None;
    }
    let stub = copy_range(chars.as_slice(), 0, chars.len() - suffix.len());
    proof {
        assert(stub@ =~= name@.take(name@.len() - class_suffix().len()));
    }
    tuple_of_stub(stub.as_slice(), chars.as_slice())
}

/// The tuples of the entries of an archive, in the order of the names.
pub fn tuples_of_entries(names: &Vec<String>) -> (tuples: Vec<ClassTuple>)
    ensures
        triples(tuples@) == entries_tuples(views(names@)),
{
    let mut tuples: Vec<ClassTuple> = Vec::new();
    let mut i: usize = 0;
    proof {
        assert(views(names@).take(0) =~= Seq::<Seq<char>>::empty());
    }
    while i < names.len()
        invariant
            i <= names.len(),
            triples(tuples@) == entries_tuples(views(names@).take(i as int)),
        decreases names.len() - i,
    {
        proof {
            let upto = views(names@).take(i + 1);
            assert(upto.drop_last() =~= views(names@).take(i as int));
            assert(upto.last() == names@[i as int]@);
        }
        match class_tuple_of_entry(names[i].as_str()) {
            Some(t) => {
                proof {
                    assert(triples(tuples@.push(t)) =~= triples(tuples@).push(triple(t)));
                }
                tuples.push(t);
            },
            None => {},
        }
        i += 1;
    }
    proof {
        assert(views(names@).take(names.len() as int) =~= views(names@));
    }
    tuples
}

/// Is an entry passed over for want of path components? It is a class
/// file and no inner class, but its path has fewer than two pieces.
pub open spec fn entry_skipped(name: Seq<char>) -> bool {
    &&& has_suffix(name, class_suffix())
    &&& !name.contains('$')
    &&& split(name.take(name.len() - class_suffix().len()), '/').len() < 2
}

/// The entries of a row that are passed over for want of path components,
/// in the order of the row.
pub open spec fn skipped_among(names: Seq<Seq<char>>) -> Seq<Seq<char>>
    decreases names.len(),
{
    if names.len() == 0 {
        Seq::empty()
    } else {
        let before = skipped_among(names.drop_last());
        if entry_skipped(names.last()) {
            before.push(names.last())
        } else {
            before
        }
    }
}

/// Is this entry passed over for want of path components?
pub fn is_skipped_entry(name: &str) -> (b: bool)
    ensures
        b == entry_skipped(name@),
{
    let chars = chars_of(name);
    let suffix = chars_of(".class");
    if !ends_with(chars.as_slice(), suffix.as_slice()) || contains_char(chars.as_slice(), '$') {
        return false;
    }
    let stub = copy_range(chars.as_slice(), 0, chars.len() - suffix.len());
    proof {
        assert(stub@ =~= name@.take(name@.len() - class_suffix().len()));
    }
    split_on(stub.as_slice(), '/').len() < 2
}

/// The entries that are passed over for want of path components, for the
/// caller to report.
pub fn skipped_entries(names: &Vec<String>) -> (skipped: Vec<String>)
    ensures
        views(skipped@) == skipped_among(views(names@)),
{
    let mut skipped: Vec<String> = Vec::new();
    let mut i: usize = 0;
    proof {
        assert(views(names@).take(0) =~= Seq::<Seq<char>>::empty());
        assert(views(skipped@) =~= Seq::<Seq<char>>::empty());
    }
    while i < names.len()
        invariant
            i <= names.len(),
            views(skipped@) == skipped_among(views(names@).take(i as int)),
        decreases names.len() - i,
    {
        proof {
            let upto = views(names@).take(i + 1);
            assert(upto.drop_last() =~= views(names@).take(i as int));
            assert(upto.last() == names@[i as int]@);
        }
        if is_skipped_entry(names[i].as_str()) {
            let name = names[i].clone();
            proof {
                assert(views(skipped@.push(name)) =~= views(skipped@).push(name@));
            }
            skipped.push(name);
        }
        i += 1;
    }
    proof {
        assert(views(names@).take(names.len() as int) =~= views(names@));
    }
    skipped
}

/// The names of the entries of the archive that `bytes` hold, as
/// `ZipArchive::new` reads them, or `None` where it reports an error.
pub uninterp spec fn archive_names(bytes: Seq<u8>) -> Option<Set<Seq<char>>>;

/// Reads an archive from memory with `ZipArchive::new` and copies the names
/// that `ZipArchive::file_names` hands out: each name once, in an order that
/// may change from one call to the next.
#[verifier::external_body]
pub(crate) fn entry_names(bytes: &[u8]) -> (r: Result<Vec<String>, zip::result::ZipError>)
    ensures
        match r {
            Ok(names) => archive_names(bytes@) == Some(views(names@).to_set()) && views(
                names@,
            ).no_duplicates(),
            Err(_) => archive_names(bytes@) is None,
        },
{
    let archive = zip::ZipArchive::new(std::io::Cursor::new(bytes))?;
    Ok(archive.file_names().map(|name| name.to_string()).collect())
}

/// `names` holds each entry name of the archive once.
pub open spec fn names_of_archive(names: Seq<Seq<char>>, bytes: Seq<u8>) -> bool {
    archive_names(bytes) == Some(names.to_set()) && names.no_duplicates()
}

/// The tuples of the class files of an archive, given as the bytes of the
/// archive file. The tuples come in the order in which the archive hands
/// out its entry names.
pub fn index_zip_archive(bytes: &[u8]) -> (r: Result<Vec<ClassTuple>, IndexError>)
    ensures
        match r {
            Ok(tuples) => exists|names: Seq<Seq<char>>|
                names_of_archive(names, bytes@) && triples(tuples@) == #[trigger] entries_tuples(
                    names,
                ),
            Err(e) => e is Archive && archive_names(bytes@) is None,
        },
{
    match entry_names(bytes) {
        Ok(names) => {
            let tuples = tuples_of_entries(&names);
            proof {
                assert(names_of_archive(views(names@), bytes@));
                assert(triples(tuples@) == entries_tuples(views(names@)));
            }
            Ok(tuples)
        },
        Err(e) => Err(IndexError::Archive(e)),
    }
}

/// The pattern of a module header line of a listing.
pub open spec fn module_header_pattern() -> Seq<char> {
    "^Module: (.+)$"@
}

/// The pattern of a class entry line of a listing. It leaves out `$`, which
/// marks inner classes.
pub open spec fn class_entry_pattern() -> Seq<char> {
    "^\\s+([a-z0-9]+[/])+([A-Za-z0-9_]+).class"@
}

/// The tuple for what the class entry pattern matched in a line: the match
/// without the white space around it is the file name, which must end in
/// the class file suffix.
pub open spec fn listed_tuple(matched: Seq<char>) -> Option<Triple> {
    let name = trim(matched);
    if has_suffix(name, class_suffix()) {
        stub_tuple(name.take(name.len() - class_suffix().len()), name)
    } else {
        None
    }
}

/// The tuple for a line of a listing. A module header line gives none, a
/// class entry line gives the tuple of what the pattern matched, and any
/// other line gives none.
pub open spec fn line_tuple(line: Seq<char>) -> Option<Triple> {
    if captured(module_header_pattern(), line, 0) is Some {
        None
    } else {
        match captured(class_entry_pattern(), line, 0) {
            Some(matched) => listed_tuple(matched),
            None => None,
        }
    }
}

/// The tuples of the lines of a listing, in the order of the lines.
pub open spec fn lines_tuples(lines: Seq<Seq<char>>) -> Seq<Triple>
    decreases lines.len(),
{
    if lines.len() == 0 {
        Seq::empty()
    } else {
        let before = lines_tuples(lines.drop_last());
        match line_tuple(lines.last()) {
            Some(t) => before.push(t),
            None => before,
        }
    }
}

/// The tuple for the part of a listing line that the class entry pattern
/// matched.
pub fn class_tuple_of_listed(matched: &str) -> (r: Option<ClassTuple>)
    ensures
        optional_triple(r) == listed_tuple(matched@),
{
    let chars = chars_of(matched);
    let name = trimmed(chars.as_slice());
    let suffix = chars_of(".class");
    if !ends_with(name.as_slice(), suffix.as_slice()) {
        return None;
    }
    let stub = copy_range(name.as_slice(), 0, name.len() - suffix.len());
    proof {
        assert(stub@ =~= name@.take(name@.len() - class_suffix().len()));
    }
    tuple_of_stub(stub.as_slice(), name.as_slice())
}

/// The tuple that a line of a module image listing contributes, if it
/// contributes one.
pub fn class_tuple_of_line(line: &str) -> (r: Option<ClassTuple>)
    ensures
        optional_triple(r) == line_tuple(line@),
{
    if capture("^Module: (.+)$", line, 0).is_some() {
        return None;
    }
    match capture("^\\s+([a-z0-9]+[/])+([A-Za-z0-9_]+).class", line, 0) {
        Some(matched) => class_tuple_of_listed(matched.as_str()),
        None => None,
    }
}

/// The tuples of a module image, given as the lines of its listing.
pub fn index_jimage(lines: &Vec<String>) -> (tuples: Vec<ClassTuple>)
    ensures
        triples(tuples@) == lines_tuples(views(lines@)),
{
    let mut tuples: Vec<ClassTuple> = Vec::new();
    let mut i: usize = 0;
    proof {
        assert(views(lines@).take(0) =~= Seq::<Seq<char>>::empty());
    }
    while i < lines.len()
        invariant
            i <= lines.len(),
            triples(tuples@) == lines_tuples(views(lines@).take(i as int)),
        decreases lines.len() - i,
    {
        proof {
            let upto = views(lines@).take(i + 1);
            assert(upto.drop_last() =~= views(lines@).take(i as int));
            assert(upto.last() == lines@[i as int]@);
        }
        match class_tuple_of_line(lines[i].as_str()) {
            Some(t) => {
                proof {
                    assert(triples(tuples@.push(t)) =~= triples(tuples@).push(triple(t)));
                }
                tuples.push(t);
            },
            None => {},
        }
        i += 1;
    }
    proof {
        assert(views(lines@).take(lines.len() as int) =~= views(lines@));
    }
    tuples
}

/// The file name of a listing line that is passed over for want of path
/// components: the class entry pattern matched, the match names a class
/// file, but its path has fewer than two pieces.
pub open spec fn line_skipped(line: Seq<char>) -> Option<Seq<char>> {
    if captured(module_header_pattern(), line, 0) is Some {
        None
    } else {
        match captured(class_entry_pattern(), line, 0) {
            Some(matched) => listed_skipped(matched),
            None => None,
        }
    }
}

/// The file name that the class entry pattern matched, where it is passed
/// over for want of path components.
pub open spec fn listed_skipped(matched: Seq<char>) -> Option<Seq<char>> {
    let name = trim(matched);
    if has_suffix(name, class_suffix()) && split(
        name.take(name.len() - class_suffix().len()),
        '/',
    ).len() < 2 {
        Some(name)
    } else {
        None
    }
}

/// The file names of the lines of a listing that are passed over for want
/// of path components, in the order of the lines.
pub open spec fn skipped_lines(lines: Seq<Seq<char>>) -> Seq<Seq<char>>
    decreases lines.len(),
{
    if lines.len() == 0 {
        Seq::empty()
    } else {
        let before = skipped_lines(lines.drop_last());
        match line_skipped(lines.last()) {
            Some(name) => before.push(name),
            None => before,
        }
    }
}

/// The file name that the class entry pattern matched in a listing line,
/// where it is passed over for want of path components.
pub fn skipped_of_listed(matched: &str) -> (r: Option<String>)
    ensures
        match r {
            Some(name) => listed_skipped(matched@) == Some(name@),
            None => listed_skipped(matched@) is None,
        },
{
    let chars = chars_of(matched);
    let name = trimmed(chars.as_slice());
    let suffix = chars_of(".class");
    if !ends_with(name.as_slice(), suffix.as_slice()) {
        return None;
    }
    let stub = copy_range(name.as_slice(), 0, name.len() - suffix.len());
    proof {
        assert(stub@ =~= name@.take(name@.len() - class_suffix().len()));
    }
    if split_on(stub.as_slice(), '/').len() < 2 {
        Some(string_of(name.as_slice()))
    } else {
        None
    }
}

/// The file names of the lines of a listing that are passed over for want
/// of path components, for the caller to report.
pub fn skipped_in_listing(lines: &Vec<String>) -> (skipped: Vec<String>)
    ensures
        views(skipped@) == skipped_lines(views(lines@)),
{
    let mut skipped: Vec<String> = Vec::new();
    let mut i: usize = 0;
    proof {
        assert(views(lines@).take(0) =~= Seq::<Seq<char>>::empty());
        assert(views(skipped@) =~= Seq::<Seq<char>>::empty());
    }
    while i < lines.len()
        invariant
            i <= lines.len(),
            views(skipped@) == skipped_lines(views(lines@).take(i as int)),
        decreases lines.len() - i,
    {
        proof {
            let upto = views(lines@).take(i + 1);
            assert(upto.drop_last() =~= views(lines@).take(i as int));
            assert(upto.last() == lines@[i as int]@);
        }
        let line = lines[i].as_str();
        if capture("^Module: (.+)$", line, 0).is_none() {
            match capture("^\\s+([a-z0-9]+[/])+([A-Za-z0-9_]+).class", line, 0) {
                Some(matched) => match skipped_of_listed(matched.as_str()) {
                    Some(name) => {
                        proof {
                            assert(views(skipped@.push(name)) =~= views(skipped@).push(name@));
                        }
                        skipped.push(name);
                    },
                    None => {},
                },
                None => {},
            }
        }
        i += 1;
    }
    proof {
        assert(views(lines@).take(lines.len() as int) =~= views(lines@));
    }
    skipped
}

/// The pieces that name an archive, in their order.
pub open spec fn archives_among(parts: Seq<Seq<char>>) -> Seq<Seq<char>>
    decreases parts.len(),
{
    if parts.len() == 0 {
        Seq::empty()
    } else {
        let before = archives_among(parts.drop_last());
        if has_suffix(parts.last(), jar_suffix()) {
            before.push(parts.last())
        } else {
            before
        }
    }
}

/// The archives of a class path: the path is cut at every `:`, and the
/// pieces that end in the archive suffix are kept.
pub open spec fn classpath_jars(class_path: Seq<char>) -> Seq<Seq<char>> {
    archives_among(split(class_path, ':'))
}

/// Does `path` name an archive?
pub fn is_jar_path(path: &str) -> (b: bool)
    ensures
        b == has_suffix(path@, jar_suffix()),
{
    let chars = chars_of(path);
    let suffix = chars_of(".jar");
    ends_with(chars.as_slice(), suffix.as_slice())
}

/// The archives that a class path names, in their order.
pub fn classpath_archives(class_path: &str) -> (archives: Vec<String>)
    ensures
        views(archives@) == classpath_jars(class_path@),
{
    let chars = chars_of(class_path);
    let parts = split_on(chars.as_slice(), ':');
    let suffix = chars_of(".jar");
    let mut archives: Vec<String> = Vec::new();
    let mut i: usize = 0;
    proof {
        assert(rows(parts@).take(0) =~= Seq::<Seq<char>>::empty());
    }
    while i < parts.len()
        invariant
            i <= parts.len(),
            suffix@ == jar_suffix(),
            views(archives@) == archives_among(rows(parts@).take(i as int)),
        decreases parts.len() - i,
    {
        proof {
            let upto = rows(parts@).take(i + 1);
            assert(upto.drop_last() =~= rows(parts@).take(i as int));
            assert(upto.last() == parts@[i as int]@);
        }
        if ends_with(parts[i].as_slice(), suffix.as_slice()) {
            let path = string_of(parts[i].as_slice());
            proof {
                assert(views(archives@.push(path)) =~= views(archives@).push(path@));
            }
            archives.push(path);
        }
        i += 1;
    }
    proof {
        assert(rows(parts@).take(parts.len() as int) =~= rows(parts@));
    }
    archives
}

/// The class and package of each of a row of tuples given as texts.
pub open spec fn stored_pairs(tuples: Seq<Triple>) -> Seq<(Seq<char>, Seq<char>)> {
    tuples.map_values(|t: Triple| (t.0, t.1))
}

/// Indexes the class files of one archive, given as the bytes of the
/// archive file, and hands back the entries that were passed over for want
/// of path components. Nothing is stored where the bytes are no archive.
pub fn reindex_archive(index: &mut Index, bytes: &[u8]) -> (r: Result<Vec<String>, IndexError>)
    ensures
        final(index).index_name == old(index).index_name,
        *final(final(index).db) == *final(old(index).db),
        kept_or_sorted(old(index).spaces(), final(index).spaces()),
        partly_listed(old(index).listed(), final(index).listed(), old(index).index_name@),
        r is Ok ==> final(index).listed() == listed_with_index(
            old(index).listed(),
            old(index).index_name@,
        ),
        r is Ok ==> db_durable(*final(index).db) == final(index).spaces(),
        match r {
            Ok(skipped) => exists|names: Seq<Seq<char>>|
                names_of_archive(names, bytes@) && final(index).spaces() == with_tuples(
                    with_index(old(index).spaces(), old(index).index_name@),
                    old(index).index_name@,
                    stored_pairs(#[trigger] entries_tuples(names)),
                ) && views(skipped@) == skipped_among(names),
            Err(IndexError::Archive(_)) => archive_names(bytes@) is None && final(index).spaces()
                == old(index).spaces(),
            Err(IndexError::Storage(_)) => archive_names(bytes@) is Some,
            Err(IndexError::Decode(_)) => false,
        },
{
    let names = match entry_names(bytes) {
        Ok(names) => names,
        Err(e) => {
            proof {
                assert(kept_or_sorted(index.spaces(), index.spaces()));
            }
            return Err(IndexError::Archive(e));
        },
    };
    let tuples = tuples_of_entries(&names);
    let skipped = skipped_entries(&names);
    proof {
        assert(names_of_archive(views(names@), bytes@));
        assert(pairs(tuples@) =~= stored_pairs(triples(tuples@)));
    }
    match index.index_class_tuples(tuples.as_slice()) {
        Ok(_) => {
            proof {
                assert(triples(tuples@) == entries_tuples(views(names@)));
            }
            Ok(skipped)
        },
        Err(e) => Err(e),
    }
}

/// Indexes the classes of a module image, given as the lines of its
/// listing.
pub fn reindex_jimage(index: &mut Index, lines: &Vec<String>) -> (r: Result<(), IndexError>)
    ensures
        final(index).index_name == old(index).index_name,
        *final(final(index).db) == *final(old(index).db),
        kept_or_sorted(old(index).spaces(), final(index).spaces()),
        partly_listed(old(index).listed(), final(index).listed(), old(index).index_name@),
        r is Ok ==> final(index).listed() == listed_with_index(
            old(index).listed(),
            old(index).index_name@,
        ),
        r is Ok ==> db_durable(*final(index).db) == final(index).spaces(),
        r is Ok ==> final(index).spaces() == with_tuples(
            with_index(old(index).spaces(), old(index).index_name@),
            old(index).index_name@,
            stored_pairs(lines_tuples(views(lines@))),
        ),
        r is Err ==> r->Err_0 is Storage,
{
    let tuples = index_jimage(lines);
    proof {
        assert(pairs(tuples@) =~= stored_pairs(triples(tuples@)));
    }
    index.index_class_tuples(tuples.as_slice())
}

/// The tuples of one package: one for each identifier, with the name of the
/// package and no origin. A package without a name has none.
pub open spec fn package_tuples(package: PackageView) -> Seq<Triple> {
    match package.0 {
        Some(name) => package.1.map_values(|identifier: Seq<char>| (identifier, name, Seq::empty())),
        None => Seq::empty(),
    }
}

/// The tuples of a row of packages, package after package.
pub open spec fn project_tuples(packages: Seq<PackageView>) -> Seq<Triple>
    decreases packages.len(),
{
    if packages.len() == 0 {
        Seq::empty()
    } else {
        project_tuples(packages.drop_last()) + package_tuples(packages.last())
    }
}

/// The tuples of the packages of a source tree.
pub fn tuples_of_packages(packages: &Vec<DeclaredPackage>) -> (tuples: Vec<ClassTuple>)
    ensures
        triples(tuples@) == project_tuples(package_views(packages@)),
{
    let mut tuples: Vec<ClassTuple> = Vec::new();
    let mut i: usize = 0;
    proof {
        assert(package_views(packages@).take(0) =~= Seq::<PackageView>::empty());
        assert(triples(tuples@) =~= Seq::<Triple>::empty());
    }
    while i < packages.len()
        invariant
            i <= packages.len(),
            triples(tuples@) == project_tuples(package_views(packages@).take(i as int)),
        decreases packages.len() - i,
    {
        let package = &packages[i];
        let ghost before = triples(tuples@);
        proof {
            let upto = package_views(packages@).take(i + 1);
            assert(upto.drop_last() =~= package_views(packages@).take(i as int));
            assert(upto.last() == package_view(*package));
        }
        match &package.name {
            Some(name) => {
                let mut k: usize = 0;
                proof {
                    assert(package_tuples(package_view(*package)).take(0) =~= Seq::<Triple>::empty());
                    assert(before + Seq::<Triple>::empty() =~= before);
                }
                while k < package.contained_identifiers.len()
                    invariant
                        k <= package.contained_identifiers.len(),
                        package.name == Some(*name),
                        triples(tuples@) == before + package_tuples(package_view(*package)).take(
                            k as int,
                        ),
                    decreases package.contained_identifiers.len() - k,
                {
                    let t: ClassTuple = (
                        package.contained_identifiers[k].clone(),
                        name.clone(),
                        String::new(),
                    );
                    proof {
                        let all = package_tuples(package_view(*package));
                        assert(all[k as int] == triple(t));
                        assert(all.take(k + 1) =~= all.take(k as int).push(triple(t)));
                        assert(triples(tuples@.push(t)) =~= triples(tuples@).push(triple(t)));
                    }
                    tuples.push(t);
                    k += 1;
                }
                proof {
                    let all = package_tuples(package_view(*package));
                    assert(all.take(k as int) =~= all);
                }
            },
            None => {
                proof {
                    assert(before + package_tuples(package_view(*package)) =~= before);
                }
            },
        }
        i += 1;
    }
    proof {
        assert(package_views(packages@).take(packages.len() as int) =~= package_views(packages@));
    }
    tuples
}

/// Indexes the classes of a source tree, given as the packages that a crawl
/// of it found. The tuples carry no origin.
pub fn reindex_project_path(index: &mut Index, packages: &Vec<DeclaredPackage>) -> (r: Result<
    (),
    IndexError,
>)
    ensures
        final(index).index_name == old(index).index_name,
        *final(final(index).db) == *final(old(index).db),
        kept_or_sorted(old(index).spaces(), final(index).spaces()),
        partly_listed(old(index).listed(), final(index).listed(), old(index).index_name@),
        r is Ok ==> final(index).listed() == listed_with_index(
            old(index).listed(),
            old(index).index_name@,
        ),
        r is Ok ==> db_durable(*final(index).db) == final(index).spaces(),
        r is Ok ==> final(index).spaces() == with_tuples(
            with_index(old(index).spaces(), old(index).index_name@),
            old(index).index_name@,
            stored_pairs(project_tuples(package_views(packages@))),
        ),
        r is Err ==> r->Err_0 is Storage,
{
    let tuples = tuples_of_packages(packages);
    proof {
        assert(pairs(tuples@) =~= stored_pairs(triples(tuples@)));
    }
    index.index_class_tuples(tuples.as_slice())
}

} // verus!
