//! The index store: for each named index a keyspace from class names to the
//! packages that declare them and a keyspace from package names to the
//! classes they hold.

use crate::error::IndexError;
use crate::json::{decode_list, encode_list, json_list_of, json_of_list};
use crate::lists::{sort_dedup, sorted_unique, strictly_sorted};
use crate::results::QueryResults;
use crate::patterns::{capture, captured};
use crate::store::{
    at_most_listed, at_most_opened, bytes_lt, bytes_of, db_durable, db_keyspaces, db_listed,
    drop_keyspace, dropped, fetch, flush_keyspace, keyspace_keys, keyspace_names, merge_into,
    open_keyspace, opened, value_at, with_merged, Keyspace, Keyspaces,
};
use crate::text::{lossy_text, utf8_lossy, utf8_text, views};
use vstd::prelude::*;
use vstd::string::StringExecFns;

verus! {

/// What follows an index name in the name of its class keyspace.
pub open spec fn class_packages_suffix() -> Seq<char> {
    "-class_pkgs"@
}

/// What follows an index name in the name of its package keyspace.
pub open spec fn package_contents_suffix() -> Seq<char> {
    "-pkg_classes"@
}

/// The name of a keyspace: the index name, then the suffix of its role.
pub fn tree_name(index_name: &str, suffix: &str) -> (name: String)
    ensures
        name@ == index_name@ + suffix@,
{
    let mut name = String::from_str(index_name);
    name.append(suffix);
    name
}

/// The list that a stored value stands for. A value that is absent, or that
/// is no list of names, stands for the empty list.
pub open spec fn stored_list(value: Option<Seq<u8>>) -> Seq<Seq<char>> {
    match value {
        Some(bytes) => match json_list_of(bytes) {
            Some(list) => list,
            None => Seq::empty(),
        },
        None => Seq::empty(),
    }
}

/// The list under a key after `entry` was merged into it: the names that
/// were there and `entry`, in ascending order, each once.
pub open spec fn merged_list(entry: Seq<char>, value: Option<Seq<u8>>) -> Seq<Seq<char>> {
    sort_dedup(stored_list(value).push(entry))
}

/// The value under a key after `entry` was merged into it.
pub open spec fn merged_value(entry: Seq<char>, value: Option<Seq<u8>>) -> Seq<u8> {
    json_of_list(merged_list(entry, value))
}

/// The views of an optional byte slice.
pub open spec fn slice_view(bytes: Option<&[u8]>) -> Option<Seq<u8>> {
    match bytes {
        Some(b) => Some(b@),
        None => None,
    }
}

/// The new value for a key whose list gets `new_entry`: the old list is read
/// (an unreadable one counts as empty), the entry is added, and the list is
/// written back sorted and without repetition.
pub fn merge_string_into_list(new_entry: &str, old_bytes: Option<&[u8]>) -> (r: Option<Vec<u8>>)
    ensures
        r is Some,
        r->0@ == merged_value(new_entry@, slice_view(old_bytes)),
        json_list_of(r->0@) == Some(merged_list(new_entry@, slice_view(old_bytes))),
{
    let mut list: Vec<String> = match old_bytes {
        Some(bytes) => match decode_list(bytes) {
            Ok(list) => list,
            Err(_) => Vec::new(),
        },
        None => Vec::new(),
    };
    proof {
        assert(views(list@) =~= stored_list(slice_view(old_bytes)));
    }
    let ghost before = views(list@);
    let entry = String::from_str(new_entry);
    list.push(entry);
    proof {
        assert(views(list@) =~= before.push(new_entry@));
    }
    let sorted = sorted_unique(list);
    encode_list(&sorted)
}

/// One ingested fact: a class name, the package that declares it, and where
/// it was found. The last is for diagnostics and is not stored.
pub type ClassTuple = (String, String, String);

/// The class and package of each tuple.
pub open spec fn pairs(tuples: Seq<ClassTuple>) -> Seq<(Seq<char>, Seq<char>)> {
    tuples.map_values(|t: ClassTuple| (t.0@, t.1@))
}

/// The name of the class keyspace of an index, as the store knows it.
pub open spec fn class_space_of(index_name: Seq<char>) -> Seq<u8> {
    bytes_of(index_name + class_packages_suffix())
}

/// The name of the package keyspace of an index, as the store knows it.
pub open spec fn package_space_of(index_name: Seq<char>) -> Seq<u8> {
    bytes_of(index_name + package_contents_suffix())
}

/// The store with both keyspaces of an index opened.
pub open spec fn with_index(spaces: Keyspaces, index_name: Seq<char>) -> Keyspaces {
    opened(opened(spaces, class_space_of(index_name)), package_space_of(index_name))
}

/// The store after one tuple was applied to an index: the package is merged
/// into the list of the class, then the class into the list of the package.
pub open spec fn with_tuple(
    spaces: Keyspaces,
    index_name: Seq<char>,
    class_name: Seq<char>,
    package_name: Seq<char>,
) -> Keyspaces {
    with_merged(
        with_merged(spaces, class_space_of(index_name), bytes_of(class_name), package_name),
        package_space_of(index_name),
        bytes_of(package_name),
        class_name,
    )
}

/// The store after a batch of tuples was applied to an index, one after the
/// other.
pub open spec fn with_tuples(
    spaces: Keyspaces,
    index_name: Seq<char>,
    batch: Seq<(Seq<char>, Seq<char>)>,
) -> Keyspaces
    decreases batch.len(),
{
    if batch.len() == 0 {
        spaces
    } else {
        with_tuple(
            with_tuples(spaces, index_name, batch.drop_last()),
            index_name,
            batch.last().0,
            batch.last().1,
        )
    }
}

/// What a query for `key` finds in a keyspace: the stored list, the empty
/// list where nothing is stored, and `None` where what is stored is no list.
pub open spec fn found_list(spaces: Keyspaces, space: Seq<u8>, key: Seq<char>) -> Option<
    Seq<Seq<char>>,
> {
    match value_at(spaces[space], bytes_of(key)) {
        Some(bytes) => json_list_of(bytes),
        None => Some(Seq::empty()),
    }
}

/// A keyspace that a store holds is still there after a tuple was applied.
pub proof fn lemma_with_tuples_keeps(
    spaces: Keyspaces,
    index_name: Seq<char>,
    batch: Seq<(Seq<char>, Seq<char>)>,
)
    ensures
        forall|name: Seq<u8>|
            spaces.dom().contains(name) ==> #[trigger] with_tuples(
                spaces,
                index_name,
                batch,
            ).dom().contains(name),
    decreases batch.len(),
{
    if batch.len() != 0 {
        let earlier = with_tuples(spaces, index_name, batch.drop_last());
        lemma_with_tuples_keeps(spaces, index_name, batch.drop_last());
        assert forall|name: Seq<u8>| spaces.dom().contains(name) implies #[trigger] with_tuples(
            spaces,
            index_name,
            batch,
        ).dom().contains(name) by {
            assert(earlier.dom().contains(name));
            let half = with_merged(
                earlier,
                class_space_of(index_name),
                bytes_of(batch.last().0),
                batch.last().1,
            );
            assert(half.dom().contains(name));
        }
    }
}

/// The written form of `list` reads back as `list`. The encoder promises
/// this of every list that it writes.
pub open spec fn reads_back(list: Seq<Seq<char>>) -> bool {
    json_list_of(json_of_list(list)) == Some(list)
}

/// A list with one more name holds that name and those it held.
pub proof fn lemma_push_contains(list: Seq<Seq<char>>, entry: Seq<char>)
    ensures
        forall|y: Seq<char>|
            #![trigger list.push(entry).contains(y)]
            list.push(entry).contains(y) <==> (list.contains(y) || y == entry),
{
    assert forall|y: Seq<char>| #![trigger list.push(entry).contains(y)]
        list.push(entry).contains(y) <==> (list.contains(y) || y == entry) by {
        let longer = list.push(entry);
        if longer.contains(y) {
            let i = choose|i: int| 0 <= i < longer.len() && longer[i] == y;
            if i < list.len() {
                assert(list[i] == y);
            }
        }
        if list.contains(y) {
            let i = choose|i: int| 0 <= i < list.len() && list[i] == y;
            assert(longer[i] == y);
        }
        if y == entry {
            assert(longer[list.len() as int] == y);
        }
    }
}

/// Merging a name into a list gives the sorted list of the names that were
/// there and that name.
pub proof fn lemma_merged(list: Seq<Seq<char>>, entry: Seq<char>)
    ensures
        strictly_sorted(sort_dedup(list.push(entry))),
        forall|y: Seq<char>|
            #![trigger sort_dedup(list.push(entry)).contains(y)]
            sort_dedup(list.push(entry)).contains(y) <==> (list.contains(y) || y == entry),
{
    crate::lists::lemma_sort_dedup(list.push(entry));
    lemma_push_contains(list, entry);
    assert forall|y: Seq<char>| #![trigger sort_dedup(list.push(entry)).contains(y)]
        sort_dedup(list.push(entry)).contains(y) <==> (list.contains(y) || y == entry) by {
        assert(list.push(entry).contains(y) <==> (list.contains(y) || y == entry));
    }
}

/// Idempotent merge: a name merged twice into a list gives the list that
/// merging it once gives.
pub proof fn law_merge_idempotent(list: Seq<Seq<char>>, entry: Seq<char>)
    ensures
        sort_dedup(sort_dedup(list.push(entry)).push(entry)) == sort_dedup(list.push(entry)),
{
    let once = sort_dedup(list.push(entry));
    let twice = sort_dedup(once.push(entry));
    lemma_merged(list, entry);
    lemma_merged(once, entry);
    assert forall|y: Seq<char>| twice.contains(y) <==> once.contains(y) by {}
    crate::lists::lemma_sorted_lists_equal(twice, once);
}

/// Merge commutativity: two names merged into a list give the same list in
/// either order, sorted ascending.
pub proof fn law_merge_commutes(list: Seq<Seq<char>>, a: Seq<char>, b: Seq<char>)
    ensures
        sort_dedup(sort_dedup(list.push(a)).push(b)) == sort_dedup(sort_dedup(list.push(b)).push(a)),
        strictly_sorted(sort_dedup(sort_dedup(list.push(a)).push(b))),
{
    let ab = sort_dedup(sort_dedup(list.push(a)).push(b));
    let ba = sort_dedup(sort_dedup(list.push(b)).push(a));
    lemma_merged(list, a);
    lemma_merged(list, b);
    lemma_merged(sort_dedup(list.push(a)), b);
    lemma_merged(sort_dedup(list.push(b)), a);
    assert forall|y: Seq<char>| ab.contains(y) <==> ba.contains(y) by {}
    crate::lists::lemma_sorted_lists_equal(ab, ba);
}

/// The two keyspaces of an index have different names.
pub proof fn lemma_spaces_differ(index_name: Seq<char>)
    ensures
        class_space_of(index_name) != package_space_of(index_name),
{
    reveal_strlit("-class_pkgs");
    reveal_strlit("-pkg_classes");
    let c = index_name + class_packages_suffix();
    let p = index_name + package_contents_suffix();
    assert(c.len() != p.len());
    vstd::utf8::encode_utf8_decode_utf8(c);
    vstd::utf8::encode_utf8_decode_utf8(p);
}

/// Idempotent merge, in the store: an entry merged twice under a key leaves
/// the store as merging it once does, where the merged list reads back.
pub proof fn law_merged_twice(spaces: Keyspaces, space: Seq<u8>, key: Seq<u8>, entry: Seq<char>)
    ensures
        reads_back(merged_list(entry, value_at(opened(spaces, space)[space], key))) ==> with_merged(
            with_merged(spaces, space, key, entry),
            space,
            key,
            entry,
        ) == with_merged(spaces, space, key, entry),
{
    let before = opened(spaces, space);
    let list = merged_list(entry, value_at(before[space], key));
    if reads_back(list) {
        let once = with_merged(spaces, space, key, entry);
        let twice = with_merged(once, space, key, entry);
        assert(opened(once, space) == once);
        assert(value_at(once[space], key) == Some(json_of_list(list)));
        assert(stored_list(Some(json_of_list(list))) == list);
        law_merge_idempotent(stored_list(value_at(before[space], key)), entry);
        assert(once[space].insert(key, json_of_list(list)) =~= once[space]);
        assert(twice =~= once);
    }
}

/// Merge commutativity, in the store: two entries merged under one key
/// leave the same store in either order, where the lists in between read
/// back.
pub proof fn law_merged_either_order(
    spaces: Keyspaces,
    space: Seq<u8>,
    key: Seq<u8>,
    a: Seq<char>,
    b: Seq<char>,
)
    ensures
        reads_back(merged_list(a, value_at(opened(spaces, space)[space], key))) && reads_back(
            merged_list(b, value_at(opened(spaces, space)[space], key)),
        ) ==> with_merged(with_merged(spaces, space, key, a), space, key, b) == with_merged(
            with_merged(spaces, space, key, b),
            space,
            key,
            a,
        ),
{
    let before = opened(spaces, space);
    let old = stored_list(value_at(before[space], key));
    let la = merged_list(a, value_at(before[space], key));
    let lb = merged_list(b, value_at(before[space], key));
    if reads_back(la) && reads_back(lb) {
        let sa = with_merged(spaces, space, key, a);
        let sb = with_merged(spaces, space, key, b);
        assert(opened(sa, space) == sa);
        assert(opened(sb, space) == sb);
        assert(stored_list(value_at(sa[space], key)) == la);
        assert(stored_list(value_at(sb[space], key)) == lb);
        law_merge_commutes(old, a, b);
        let sab = with_merged(sa, space, key, b);
        let sba = with_merged(sb, space, key, a);
        assert(sab[space] =~= sba[space]);
        assert(sab =~= sba);
    }
}

/// Merges under different keys, or in different keyspaces, do not disturb
/// each other: they leave the same store in either order.
pub proof fn lemma_merges_apart(
    spaces: Keyspaces,
    space1: Seq<u8>,
    key1: Seq<u8>,
    entry1: Seq<char>,
    space2: Seq<u8>,
    key2: Seq<u8>,
    entry2: Seq<char>,
)
    requires
        space1 != space2 || key1 != key2,
    ensures
        with_merged(with_merged(spaces, space1, key1, entry1), space2, key2, entry2) == with_merged(
            with_merged(spaces, space2, key2, entry2),
            space1,
            key1,
            entry1,
        ),
{
    let s1 = with_merged(spaces, space1, key1, entry1);
    let s2 = with_merged(spaces, space2, key2, entry2);
    let s12 = with_merged(s1, space2, key2, entry2);
    let s21 = with_merged(s2, space1, key1, entry1);
    assert(opened(s1, space2)[space2].dom().contains(key2) == opened(spaces, space2)[space2].dom().contains(
        key2,
    ));
    assert(opened(s2, space1)[space1].dom().contains(key1) == opened(spaces, space1)[space1].dom().contains(
        key1,
    ));
    assert forall|name: Seq<u8>| s12.dom().contains(name) implies s12[name] =~= s21[name] by {}
    assert(s12 =~= s21);
}

/// Idempotent merge, for a tuple: applying the same tuple twice leaves the
/// store as applying it once does, where the two merged lists read back.
pub proof fn law_tuple_twice(
    spaces: Keyspaces,
    index_name: Seq<char>,
    class_name: Seq<char>,
    package_name: Seq<char>,
)
    ensures
        ({
            let classes = class_space_of(index_name);
            let packages = package_space_of(index_name);
            reads_back(
                merged_list(package_name, value_at(opened(spaces, classes)[classes], bytes_of(class_name))),
            ) && reads_back(
                merged_list(class_name, value_at(opened(spaces, packages)[packages], bytes_of(package_name))),
            )
        }) ==> with_tuple(
            with_tuple(spaces, index_name, class_name, package_name),
            index_name,
            class_name,
            package_name,
        ) == with_tuple(spaces, index_name, class_name, package_name),
{
    let classes = class_space_of(index_name);
    let packages = package_space_of(index_name);
    let ck = bytes_of(class_name);
    let pk = bytes_of(package_name);
    if reads_back(merged_list(package_name, value_at(opened(spaces, classes)[classes], ck)))
        && reads_back(merged_list(class_name, value_at(opened(spaces, packages)[packages], pk))) {
        lemma_spaces_differ(index_name);
        let s1 = with_merged(spaces, classes, ck, package_name);
        let s2 = with_merged(s1, packages, pk, class_name);
        // the second round, with its first merge moved in front of the package merge
        lemma_merges_apart(s1, packages, pk, class_name, classes, ck, package_name);
        law_merged_twice(spaces, classes, ck, package_name);
        assert(with_merged(s2, classes, ck, package_name) == s2);
        assert(value_at(opened(s1, packages)[packages], pk) == value_at(
            opened(spaces, packages)[packages],
            pk,
        ));
        law_merged_twice(s1, packages, pk, class_name);
    }
}

/// Round trip: after a tuple was applied to an index, a query for its
/// class finds exactly the packages that were stored under the class and the
/// package of the tuple, in ascending order, each once; and a query for its
/// package finds the classes in the same way. The lists that were written
/// must read back.
pub proof fn law_round_trip(
    spaces: Keyspaces,
    index_name: Seq<char>,
    class_name: Seq<char>,
    package_name: Seq<char>,
)
    ensures
        ({
            let classes = class_space_of(index_name);
            let packages = package_space_of(index_name);
            let start = with_index(spaces, index_name);
            let after = with_tuple(start, index_name, class_name, package_name);
            let was_by_class = stored_list(value_at(start[classes], bytes_of(class_name)));
            let was_by_package = stored_list(value_at(start[packages], bytes_of(package_name)));
            let by_class = sort_dedup(was_by_class.push(package_name));
            let by_package = sort_dedup(was_by_package.push(class_name));
            &&& strictly_sorted(by_class)
            &&& strictly_sorted(by_package)
            &&& forall|y: Seq<char>|
                #![trigger by_class.contains(y)]
                by_class.contains(y) <==> (was_by_class.contains(y) || y == package_name)
            &&& forall|y: Seq<char>|
                #![trigger by_package.contains(y)]
                by_package.contains(y) <==> (was_by_package.contains(y) || y == class_name)
            &&& reads_back(by_class) ==> found_list(opened(after, classes), classes, class_name)
                == Some(by_class)
            &&& reads_back(by_package) ==> found_list(
                opened(after, packages),
                packages,
                package_name,
            ) == Some(by_package)
        }),
{
    let classes = class_space_of(index_name);
    let packages = package_space_of(index_name);
    let start = with_index(spaces, index_name);
    let was_by_class = stored_list(value_at(start[classes], bytes_of(class_name)));
    let was_by_package = stored_list(value_at(start[packages], bytes_of(package_name)));
    lemma_spaces_differ(index_name);
    lemma_merged(was_by_class, package_name);
    lemma_merged(was_by_package, class_name);
    let half = with_merged(start, classes, bytes_of(class_name), package_name);
    assert(opened(start, classes) == start);
    assert(opened(half, packages) == half);
    assert(half[packages] == start[packages]);
}

/// Merge commutativity, for tuples: two tuples applied to an index leave the
/// same store in either order, where the lists read back that either tuple
/// writes when it is applied first.
pub proof fn law_tuples_either_order(
    spaces: Keyspaces,
    index_name: Seq<char>,
    first: (Seq<char>, Seq<char>),
    second: (Seq<char>, Seq<char>),
)
    ensures
        ({
            let classes = class_space_of(index_name);
            let packages = package_space_of(index_name);
            let by_classes = opened(spaces, classes)[classes];
            let by_packages = opened(spaces, packages)[packages];
            &&& reads_back(merged_list(first.1, value_at(by_classes, bytes_of(first.0))))
            &&& reads_back(merged_list(second.1, value_at(by_classes, bytes_of(second.0))))
            &&& reads_back(merged_list(first.0, value_at(by_packages, bytes_of(first.1))))
            &&& reads_back(merged_list(second.0, value_at(by_packages, bytes_of(second.1))))
        }) ==> with_tuple(
            with_tuple(spaces, index_name, first.0, first.1),
            index_name,
            second.0,
            second.1,
        ) == with_tuple(
            with_tuple(spaces, index_name, second.0, second.1),
            index_name,
            first.0,
            first.1,
        ),
{
    let classes = class_space_of(index_name);
    let packages = package_space_of(index_name);
    let by_classes = opened(spaces, classes)[classes];
    let by_packages = opened(spaces, packages)[packages];
    let c1 = bytes_of(first.0);
    let p1 = bytes_of(first.1);
    let c2 = bytes_of(second.0);
    let p2 = bytes_of(second.1);
    if reads_back(merged_list(first.1, value_at(by_classes, c1))) && reads_back(
        merged_list(second.1, value_at(by_classes, c2)),
    ) && reads_back(merged_list(first.0, value_at(by_packages, p1))) && reads_back(
        merged_list(second.0, value_at(by_packages, p2)),
    ) {
        lemma_spaces_differ(index_name);
        // first tuple, then second: a, b, c, d
        let a = with_merged(spaces, classes, c1, first.1);
        let ab = with_merged(a, packages, p1, first.0);
        let abc = with_merged(ab, classes, c2, second.1);
        // b and c change places
        let ac = with_merged(a, classes, c2, second.1);
        lemma_merges_apart(a, packages, p1, first.0, classes, c2, second.1);
        assert(abc == with_merged(ac, packages, p1, first.0));
        // second tuple, then first: c, d, a, b
        let c = with_merged(spaces, classes, c2, second.1);
        let cd = with_merged(c, packages, p2, second.0);
        let cda = with_merged(cd, classes, c1, first.1);
        let ca = with_merged(c, classes, c1, first.1);
        lemma_merges_apart(c, packages, p2, second.0, classes, c1, first.1);
        assert(cda == with_merged(ca, packages, p2, second.0));
        // the two class merges in either order
        if c1 == c2 {
            law_merged_either_order(spaces, classes, c1, first.1, second.1);
        } else {
            lemma_merges_apart(spaces, classes, c1, first.1, classes, c2, second.1);
        }
        assert(ac == ca);
        // the two package merges in either order
        assert(opened(ac, packages)[packages] == by_packages);
        if p1 == p2 {
            law_merged_either_order(ac, packages, p1, first.0, second.0);
        } else {
            lemma_merges_apart(ac, packages, p1, first.0, packages, p2, second.0);
        }
    }
}

/// One merge: the keyspace, the key, and the entry that is merged into the
/// list under the key.
pub type Merge = (Seq<u8>, Seq<u8>, Seq<char>);

/// The merges that a batch of tuples asks for, two for each tuple: the
/// package into the list of the class, then the class into the list of the
/// package.
pub open spec fn merges_of(index_name: Seq<char>, batch: Seq<(Seq<char>, Seq<char>)>) -> Seq<Merge>
    decreases batch.len(),
{
    if batch.len() == 0 {
        Seq::empty()
    } else {
        merges_of(index_name, batch.drop_last()).push(
            (class_space_of(index_name), bytes_of(batch.last().0), batch.last().1),
        ).push((package_space_of(index_name), bytes_of(batch.last().1), batch.last().0))
    }
}

/// The store after a row of merges.
pub open spec fn with_merges(spaces: Keyspaces, merges: Seq<Merge>) -> Keyspaces
    decreases merges.len(),
{
    if merges.len() == 0 {
        spaces
    } else {
        with_merged(
            with_merges(spaces, merges.drop_last()),
            merges.last().0,
            merges.last().1,
            merges.last().2,
        )
    }
}

/// The entries that a row of merges puts under one key of one keyspace, in
/// their order.
pub open spec fn merged_under(merges: Seq<Merge>, space: Seq<u8>, key: Seq<u8>) -> Seq<Seq<char>>
    decreases merges.len(),
{
    if merges.len() == 0 {
        Seq::empty()
    } else {
        let before = merged_under(merges.drop_last(), space, key);
        if merges.last().0 == space && merges.last().1 == key {
            before.push(merges.last().2)
        } else {
            before
        }
    }
}

/// Every list that a row of merges wrote reads back from its written form.
/// A batch that was applied to a store has written lists of which this
/// holds.
pub open spec fn writes_read_back(spaces: Keyspaces, merges: Seq<Merge>) -> bool
    decreases merges.len(),
{
    merges.len() == 0 || {
        let before = with_merges(spaces, merges.drop_last());
        let last = merges.last();
        &&& writes_read_back(spaces, merges.drop_last())
        &&& reads_back(merged_list(last.2, value_at(opened(before, last.0)[last.0], last.1)))
    }
}

/// Applying a batch of tuples is making its merges, one after the other.
pub proof fn lemma_tuples_are_merges(
    spaces: Keyspaces,
    index_name: Seq<char>,
    batch: Seq<(Seq<char>, Seq<char>)>,
)
    ensures
        with_tuples(spaces, index_name, batch) == with_merges(spaces, merges_of(index_name, batch)),
    decreases batch.len(),
{
    if batch.len() != 0 {
        lemma_tuples_are_merges(spaces, index_name, batch.drop_last());
        let merges = merges_of(index_name, batch);
        let earlier = merges_of(index_name, batch.drop_last());
        let by_class = (class_space_of(index_name), bytes_of(batch.last().0), batch.last().1);
        let by_package = (package_space_of(index_name), bytes_of(batch.last().1), batch.last().0);
        let most = merges.drop_last();
        assert(most =~= earlier.push(by_class));
        assert(most.drop_last() =~= earlier);
        assert(with_merges(spaces, most) == with_merged(
            with_merges(spaces, earlier),
            by_class.0,
            by_class.1,
            by_class.2,
        ));
        assert(merges.last() == by_package);
        assert(with_merges(spaces, merges) == with_merged(
            with_merges(spaces, most),
            by_package.0,
            by_package.1,
            by_package.2,
        ));
    }
}

/// A sorted list stays as it is when it is sorted.
pub proof fn lemma_sort_dedup_of_sorted(list: Seq<Seq<char>>)
    requires
        strictly_sorted(list),
    ensures
        sort_dedup(list) == list,
{
    crate::lists::lemma_sort_dedup(list);
    crate::lists::lemma_sorted_lists_equal(sort_dedup(list), list);
}

/// Merging a name into a list that was sorted gives what sorting the list
/// with that name gives.
pub proof fn lemma_merge_after_sort(list: Seq<Seq<char>>, entry: Seq<char>)
    ensures
        sort_dedup(sort_dedup(list).push(entry)) == sort_dedup(list.push(entry)),
{
    crate::lists::lemma_sort_dedup(list);
    lemma_sort_dedup_of_sorted(sort_dedup(list));
    assert(sort_dedup(list).push(entry).drop_last() =~= sort_dedup(list));
    assert(list.push(entry).drop_last() =~= list);
}

/// What a row of merges leaves under a key: the value that was there where
/// no merge was for the key, and else the list that was there with the
/// merged entries, sorted and without repetition, in its written form, from
/// which it reads back. The lists that the merges wrote must read back.
pub proof fn law_merges_sort_what_was_stored(
    spaces: Keyspaces,
    merges: Seq<Merge>,
    space: Seq<u8>,
    key: Seq<u8>,
)
    requires
        writes_read_back(spaces, merges),
    ensures
        ({
            let after = with_merges(spaces, merges);
            let was = value_at(opened(spaces, space)[space], key);
            let now = value_at(opened(after, space)[space], key);
            let added = merged_under(merges, space, key);
            if added.len() == 0 {
                now == was
            } else {
                &&& now == Some(json_of_list(sort_dedup(stored_list(was) + added)))
                &&& reads_back(sort_dedup(stored_list(was) + added))
            }
        }),
    decreases merges.len(),
{
    let was = value_at(opened(spaces, space)[space], key);
    if merges.len() != 0 {
        let earlier = merges.drop_last();
        let last = merges.last();
        law_merges_sort_what_was_stored(spaces, earlier, space, key);
        let before = with_merges(spaces, earlier);
        let after = with_merges(spaces, merges);
        let then = value_at(opened(before, space)[space], key);
        let added_before = merged_under(earlier, space, key);
        if last.0 == space && last.1 == key {
            let added = added_before.push(last.2);
            assert(value_at(opened(after, space)[space], key) == Some(
                json_of_list(sort_dedup(stored_list(then).push(last.2))),
            ));
            assert(reads_back(merged_list(last.2, then)));
            if added_before.len() == 0 {
                assert(stored_list(was) + added =~= stored_list(was).push(last.2));
            } else {
                let sorted = sort_dedup(stored_list(was) + added_before);
                assert(stored_list(then) == sorted);
                lemma_merge_after_sort(stored_list(was) + added_before, last.2);
                assert((stored_list(was) + added_before).push(last.2) =~= stored_list(was)
                    + added);
            }
        } else if last.0 == space {
            assert(opened(before, space) == opened(before, last.0));
        } else {
            assert(opened(after, space)[space] == opened(before, space)[space]);
        }
    } else {
        assert(stored_list(was) + Seq::<Seq<char>>::empty() =~= stored_list(was));
    }
}

/// Round trip, for a batch: after a batch of tuples was applied to an index,
/// a query for a class of the batch finds exactly the packages that were
/// stored under the class and those that the batch gives it, in ascending
/// order, each once; and so for a package of the batch. The lists that the
/// batch wrote must read back, as those of an applied batch do.
pub proof fn law_batch_round_trip(
    spaces: Keyspaces,
    index_name: Seq<char>,
    batch: Seq<(Seq<char>, Seq<char>)>,
    space: Seq<u8>,
    key: Seq<char>,
)
    requires
        space == class_space_of(index_name) || space == package_space_of(index_name),
        merged_under(merges_of(index_name, batch), space, bytes_of(key)).len() > 0,
        writes_read_back(with_index(spaces, index_name), merges_of(index_name, batch)),
    ensures
        ({
            let start = with_index(spaces, index_name);
            let after = with_tuples(start, index_name, batch);
            let added = merged_under(merges_of(index_name, batch), space, bytes_of(key));
            found_list(opened(after, space), space, key) == Some(
                sort_dedup(stored_list(value_at(start[space], bytes_of(key))) + added),
            )
        }),
{
    let start = with_index(spaces, index_name);
    lemma_tuples_are_merges(start, index_name, batch);
    law_merges_sort_what_was_stored(start, merges_of(index_name, batch), space, bytes_of(key));
    assert(opened(start, space) == start);
}

/// Opening an index is idempotent: an index that was opened is not changed
/// by opening it again, and opening changes nothing that the store held.
pub proof fn law_open_idempotent(spaces: Keyspaces, index_name: Seq<char>)
    ensures
        with_index(with_index(spaces, index_name), index_name) == with_index(spaces, index_name),
        with_index(spaces, index_name).dom().contains(class_space_of(index_name)),
        with_index(spaces, index_name).dom().contains(package_space_of(index_name)),
        forall|space: Seq<u8>|
            spaces.dom().contains(space) ==> #[trigger] with_index(spaces, index_name)[space]
                == spaces[space],
{
}

/// Unknown key: a key under which nothing is stored is found with the empty
/// list.
pub proof fn law_unknown_key(spaces: Keyspaces, space: Seq<u8>, key: Seq<char>)
    requires
        !spaces[space].dom().contains(bytes_of(key)),
    ensures
        found_list(spaces, space, key) == Some(Seq::<Seq<char>>::empty()),
{
}

/// Drop removes: with both keyspaces of an index dropped through a handle
/// that lists them, neither is in the store. A later query opens the index
/// again, which creates both keyspaces empty, and every key is then found
/// with the empty list.
pub proof fn law_drop_removes(
    spaces: Keyspaces,
    listed: Set<Seq<u8>>,
    index_name: Seq<char>,
    key: Seq<char>,
)
    requires
        listed.contains(class_space_of(index_name)),
        listed.contains(package_space_of(index_name)),
    ensures
        ({
            let classes = class_space_of(index_name);
            let packages = package_space_of(index_name);
            let gone = dropped(dropped(spaces, listed, classes), listed, packages);
            let again = with_index(gone, index_name);
            &&& gone == spaces.remove(classes).remove(packages)
            &&& !gone.dom().contains(classes)
            &&& !gone.dom().contains(packages)
            &&& again.dom().contains(classes)
            &&& again.dom().contains(packages)
            &&& again[classes] == Map::<Seq<u8>, Seq<u8>>::empty()
            &&& again[packages] == Map::<Seq<u8>, Seq<u8>>::empty()
            &&& found_list(again, classes, key) == Some(Seq::<Seq<char>>::empty())
            &&& found_list(again, packages, key) == Some(Seq::<Seq<char>>::empty())
        }),
{
    lemma_spaces_differ(index_name);
}

/// A query for `key` in the keyspace `space` finds a sorted list that holds
/// `entry`.
pub open spec fn listed(spaces: Keyspaces, space: Seq<u8>, key: Seq<char>, entry: Seq<char>) -> bool {
    found_list(spaces, space, key) matches Some(list) && list.contains(entry) && strictly_sorted(
        list,
    )
}

/// After a merge the merged entry is listed under its key, and whatever was
/// listed before still is.
proof fn lemma_listed_after_merge(
    spaces: Keyspaces,
    after: Keyspaces,
    space: Seq<u8>,
    key: Seq<char>,
    entry: Seq<char>,
)
    requires
        spaces.dom().contains(space),
        after == with_merged(spaces, space, bytes_of(key), entry),
        json_list_of(after[space][bytes_of(key)]) == Some(
            merged_list(entry, value_at(spaces[space], bytes_of(key))),
        ),
    ensures
        listed(after, space, key, entry),
        forall|sp: Seq<u8>, k: Seq<char>, e: Seq<char>| #[trigger]
            listed(spaces, sp, k, e) ==> listed(after, sp, k, e),
{
    let old_list = stored_list(value_at(spaces[space], bytes_of(key)));
    lemma_merged(old_list, entry);
    assert forall|sp: Seq<u8>, k: Seq<char>, e: Seq<char>| #[trigger]
        listed(spaces, sp, k, e) implies listed(after, sp, k, e) by {
        if sp == space && bytes_of(k) == bytes_of(key) {
            let list = found_list(spaces, sp, k)->0;
            assert(list.contains(e));
            assert(value_at(spaces[space], bytes_of(key)) is Some);
            assert(old_list == list);
        } else if sp == space {
            assert(value_at(after[sp], bytes_of(k)) == value_at(spaces[sp], bytes_of(k)));
        } else {
            assert(after[sp] == spaces[sp]);
        }
    }
}

/// `now` is what a row of merges has made of `start`: under a key that no
/// merge was for, the value is the one that was there; under any other key
/// the value reads as the list that was there with the merged entries,
/// sorted and without repetition.
pub open spec fn merged_exactly(start: Keyspaces, now: Keyspaces, merges: Seq<Merge>) -> bool {
    forall|space: Seq<u8>, key: Seq<u8>|
        #![trigger merged_under(merges, space, key)]
        if merged_under(merges, space, key).len() == 0 {
            value_at(now[space], key) == value_at(start[space], key)
        } else {
            &&& now[space].dom().contains(key)
            &&& json_list_of(now[space][key]) == Some(
                sort_dedup(stored_list(value_at(start[space], key)) + merged_under(merges, space, key)),
            )
        }
}

/// One more merge keeps a store what its merges have made of the start.
proof fn lemma_merged_exactly_step(
    start: Keyspaces,
    now: Keyspaces,
    after: Keyspaces,
    merges: Seq<Merge>,
    next: Merge,
)
    requires
        now.dom().contains(next.0),
        merged_exactly(start, now, merges),
        after == with_merged(now, next.0, next.1, next.2),
        json_list_of(after[next.0][next.1]) == Some(
            merged_list(next.2, value_at(now[next.0], next.1)),
        ),
    ensures
        merged_exactly(start, after, merges.push(next)),
{
    let longer = merges.push(next);
    assert(longer.drop_last() =~= merges);
    assert forall|space: Seq<u8>, key: Seq<u8>| #![trigger merged_under(longer, space, key)]
        if merged_under(longer, space, key).len() == 0 {
            value_at(after[space], key) == value_at(start[space], key)
        } else {
            &&& after[space].dom().contains(key)
            &&& json_list_of(after[space][key]) == Some(
                sort_dedup(stored_list(value_at(start[space], key)) + merged_under(longer, space, key)),
            )
        } by {
        let was = stored_list(value_at(start[space], key));
        let added = merged_under(merges, space, key);
        if next.0 == space && next.1 == key {
            if added.len() == 0 {
                assert(was + added.push(next.2) =~= was.push(next.2));
            } else {
                assert(stored_list(value_at(now[space], key)) == sort_dedup(was + added));
                lemma_merge_after_sort(was + added, next.2);
                assert((was + added).push(next.2) =~= was + added.push(next.2));
            }
        } else if next.0 == space {
            assert(value_at(after[space], key) == value_at(now[space], key));
        } else {
            assert(after[space] == now[space]);
        }
    }
}

/// The store after a call on an index that failed on the way: its class
/// keyspace may have been opened, or both its keyspaces, and nothing else is
/// different.
pub open spec fn partly_opened(before: Keyspaces, after: Keyspaces, index_name: Seq<char>) -> bool {
    ||| after == before
    ||| after == opened(before, class_space_of(index_name))
    ||| after == with_index(before, index_name)
}

/// The store after a drop of an index, whether it succeeded or failed on
/// the way: each of the two keyspaces of the index is gone or as it was,
/// and every other keyspace is as it was.
pub open spec fn partly_dropped(before: Keyspaces, after: Keyspaces, index_name: Seq<char>) -> bool {
    let classes = class_space_of(index_name);
    let packages = package_space_of(index_name);
    ||| after == before
    ||| after == before.remove(classes)
    ||| after == before.remove(packages)
    ||| after == before.remove(classes).remove(packages)
}

/// The table of a handle with both keyspaces of an index put in.
pub open spec fn listed_with_index(listed: Set<Seq<u8>>, index_name: Seq<char>) -> Set<Seq<u8>> {
    listed.insert(class_space_of(index_name)).insert(package_space_of(index_name))
}

/// The table of a handle after a call on an index, whether it succeeded or
/// failed on the way: the class keyspace of the index may have been put in,
/// or both its keyspaces, and nothing else is different.
pub open spec fn partly_listed(
    before: Set<Seq<u8>>,
    after: Set<Seq<u8>>,
    index_name: Seq<char>,
) -> bool {
    ||| after == before
    ||| after == before.insert(class_space_of(index_name))
    ||| after == listed_with_index(before, index_name)
}

/// The table of a handle after a drop of an index, whether it succeeded or
/// failed on the way: each of the two keyspaces of the index is off the
/// table or as it was, and nothing else is different.
pub open spec fn partly_unlisted(
    before: Set<Seq<u8>>,
    after: Set<Seq<u8>>,
    index_name: Seq<char>,
) -> bool {
    let classes = class_space_of(index_name);
    let packages = package_space_of(index_name);
    ||| after == before
    ||| after == before.remove(classes)
    ||| after == before.remove(classes).remove(packages)
}

/// The value reads as a list of names in ascending order, each once.
pub open spec fn reads_sorted(value: Seq<u8>) -> bool {
    json_list_of(value) matches Some(list) && strictly_sorted(list)
}

/// Every value of `after` is the value that `before` held at its place, or
/// reads as a sorted list. So a store whose lists were all sorted holds
/// sorted lists still.
pub open spec fn kept_or_sorted(before: Keyspaces, after: Keyspaces) -> bool {
    forall|space: Seq<u8>, key: Seq<u8>|
        #![trigger after[space][key]]
        after.dom().contains(space) && after[space].dom().contains(key) ==> {
            ||| before.dom().contains(space) && before[space].dom().contains(key)
                && before[space][key] == after[space][key]
            ||| reads_sorted(after[space][key])
        }
}

/// Opening a keyspace keeps what a store holds.
proof fn lemma_kept_opened(origin: Keyspaces, before: Keyspaces, after: Keyspaces, name: Seq<u8>)
    requires
        kept_or_sorted(origin, before),
        at_most_opened(before, after, name),
    ensures
        kept_or_sorted(origin, after),
{
    assert forall|space: Seq<u8>, key: Seq<u8>|
        #![trigger after[space][key]]
        after.dom().contains(space) && after[space].dom().contains(key) implies {
        ||| origin.dom().contains(space) && origin[space].dom().contains(key)
            && origin[space][key] == after[space][key]
        ||| reads_sorted(after[space][key])
    } by {
        assert(before.dom().contains(space) && before[space].dom().contains(key));
        assert(before[space][key] == after[space][key]);
    }
}

/// A merge, whether it succeeded or failed on the way, leaves under its key
/// the value that was there or a sorted list, and keeps all else.
proof fn lemma_kept_merged(
    origin: Keyspaces,
    before: Keyspaces,
    after: Keyspaces,
    name: Seq<u8>,
    key: Seq<u8>,
    entry: Seq<char>,
)
    requires
        kept_or_sorted(origin, before),
        at_most_opened(before, after, name) || after == with_merged(before, name, key, entry),
        after == with_merged(before, name, key, entry) ==> json_list_of(after[name][key]) == Some(
            merged_list(entry, value_at(opened(before, name)[name], key)),
        ),
    ensures
        kept_or_sorted(origin, after),
{
    if at_most_opened(before, after, name) {
        lemma_kept_opened(origin, before, after, name);
    } else {
        crate::lists::lemma_sort_dedup(
            stored_list(value_at(opened(before, name)[name], key)).push(entry),
        );
        assert forall|space: Seq<u8>, k: Seq<u8>|
            #![trigger after[space][k]]
            after.dom().contains(space) && after[space].dom().contains(k) implies {
            ||| origin.dom().contains(space) && origin[space].dom().contains(k)
                && origin[space][k] == after[space][k]
            ||| reads_sorted(after[space][k])
        } by {
            if space == name && k == key {
                assert(reads_sorted(after[space][k]));
            } else {
                assert(before.dom().contains(space) && before[space].dom().contains(k));
                assert(before[space][k] == after[space][k]);
            }
        }
    }
}

/// A named index in a store.
pub struct Index<'a> {
    pub db: &'a mut sled::Db,
    pub index_name: &'a str,
}

impl<'a> Index<'a> {
    /// What the store holds.
    pub open spec fn spaces(&self) -> Keyspaces {
        db_keyspaces(*self.db)
    }

    /// The keyspaces that the handle of the store has in its table.
    pub open spec fn listed(&self) -> Set<Seq<u8>> {
        db_listed(*self.db)
    }

    /// The index `index_name` of the store behind `db`. Nothing is opened or
    /// created yet.
    pub fn new(db: &'a mut sled::Db, index_name: &'a str) -> (index: Self)
        ensures
            index.index_name == index_name,
            index.spaces() == db_keyspaces(*old(db)),
            index.listed() == db_listed(*old(db)),
            *final(index.db) == *final(db),
    {
        Index { db, index_name }
    }

    /// The name of the index.
    pub fn name(&self) -> (name: &'a str)
        ensures
            name == self.index_name,
    {
        self.index_name
    }

    /// Opens the keyspace from class names to packages, creating it where it
    /// is absent.
    pub fn open_class_packages_tree(&mut self) -> (r: Result<sled::Tree, IndexError>)
        ensures
            final(self).index_name == old(self).index_name,
            *final(final(self).db) == *final(old(self).db),
            r is Ok ==> final(self).spaces() == opened(
                old(self).spaces(),
                class_space_of(old(self).index_name@),
            ),
            r is Err ==> r->Err_0 is Storage,
            at_most_opened(
                old(self).spaces(),
                final(self).spaces(),
                class_space_of(old(self).index_name@),
            ),
            r is Ok ==> final(self).listed() == old(self).listed().insert(
                class_space_of(old(self).index_name@),
            ),
            r is Err ==> final(self).listed() == old(self).listed(),
    {
        let name = tree_name(self.index_name, "-class_pkgs");
        match open_keyspace(self.db, name.as_str()) {
            Ok(tree) => Ok(tree),
            Err(e) => Err(IndexError::Storage(e)),
        }
    }

    /// Opens the keyspace from package names to classes, creating it where
    /// it is absent.
    pub fn open_package_contents_tree(&mut self) -> (r: Result<sled::Tree, IndexError>)
        ensures
            final(self).index_name == old(self).index_name,
            *final(final(self).db) == *final(old(self).db),
            r is Ok ==> final(self).spaces() == opened(
                old(self).spaces(),
                package_space_of(old(self).index_name@),
            ),
            r is Err ==> r->Err_0 is Storage,
            at_most_opened(
                old(self).spaces(),
                final(self).spaces(),
                package_space_of(old(self).index_name@),
            ),
            r is Ok ==> final(self).listed() == old(self).listed().insert(
                package_space_of(old(self).index_name@),
            ),
            r is Err ==> final(self).listed() == old(self).listed(),
    {
        let name = tree_name(self.index_name, "-pkg_classes");
        match open_keyspace(self.db, name.as_str()) {
            Ok(tree) => Ok(tree),
            Err(e) => Err(IndexError::Storage(e)),
        }
    }

    /// Opens both keyspaces of the index, creating each where it is absent.
    /// What the keyspaces hold is left as it is.
    pub fn open_or_create(&mut self) -> (r: Result<(), IndexError>)
        ensures
            final(self).index_name == old(self).index_name,
            *final(final(self).db) == *final(old(self).db),
            r is Ok ==> final(self).spaces() == with_index(
                old(self).spaces(),
                old(self).index_name@,
            ),
            r is Err ==> r->Err_0 is Storage,
            partly_opened(old(self).spaces(), final(self).spaces(), old(self).index_name@),
            r is Ok ==> final(self).listed() == listed_with_index(
                old(self).listed(),
                old(self).index_name@,
            ),
            partly_listed(old(self).listed(), final(self).listed(), old(self).index_name@),
    {
        match self.open_class_packages_tree() {
            Ok(_) => {},
            Err(e) => {
                return Err(e);
            },
        }
        match self.open_package_contents_tree() {
            Ok(_) => Ok(()),
            Err(e) => Err(e),
        }
    }

    /// Deletes both keyspaces of the index, with all they hold, as far as the
    /// handle of the store lists them: a keyspace that an earlier drop took
    /// off the table before it failed is left in the store, and is dropped
    /// once it was opened again.
    pub fn drop_trees(&mut self) -> (r: Result<(), IndexError>)
        ensures
            final(self).index_name == old(self).index_name,
            *final(final(self).db) == *final(old(self).db),
            r is Ok ==> final(self).spaces() == dropped(
                dropped(
                    old(self).spaces(),
                    old(self).listed(),
                    class_space_of(old(self).index_name@),
                ),
                old(self).listed(),
                package_space_of(old(self).index_name@),
            ),
            r is Ok ==> final(self).listed() == old(self).listed().remove(
                class_space_of(old(self).index_name@),
            ).remove(package_space_of(old(self).index_name@)),
            r is Err ==> r->Err_0 is Storage,
            partly_dropped(old(self).spaces(), final(self).spaces(), old(self).index_name@),
            partly_unlisted(old(self).listed(), final(self).listed(), old(self).index_name@),
    {
        proof {
            lemma_spaces_differ(self.index_name@);
        }
        let class_space = tree_name(self.index_name, "-class_pkgs");
        match drop_keyspace(self.db, class_space.as_str()) {
            Ok(_) => {},
            Err(e) => {
                return Err(IndexError::Storage(e));
            },
        }
        let package_space = tree_name(self.index_name, "-pkg_classes");
        match drop_keyspace(self.db, package_space.as_str()) {
            Ok(_) => Ok(()),
            Err(e) => Err(IndexError::Storage(e)),
        }
    }

    /// Applies a batch of tuples: for each, the package is merged into the
    /// list of the class and the class into the list of the package. Both
    /// keyspaces are created where they are absent, and made durable at the
    /// end. A batch that fails on the way is applied in part: whatever it
    /// wrote is a sorted list.
    pub fn index_class_tuples(&mut self, tuples: &[ClassTuple]) -> (r: Result<(), IndexError>)
        ensures
            final(self).index_name == old(self).index_name,
            *final(final(self).db) == *final(old(self).db),
            kept_or_sorted(old(self).spaces(), final(self).spaces()),
            r is Ok ==> final(self).listed() == listed_with_index(
                old(self).listed(),
                old(self).index_name@,
            ),
            partly_listed(old(self).listed(), final(self).listed(), old(self).index_name@),
            r is Ok ==> db_durable(*final(self).db) == final(self).spaces(),
            r is Ok ==> writes_read_back(
                with_index(old(self).spaces(), old(self).index_name@),
                merges_of(old(self).index_name@, pairs(tuples@)),
            ),
            r is Ok ==> final(self).spaces() == with_tuples(
                with_index(old(self).spaces(), old(self).index_name@),
                old(self).index_name@,
                pairs(tuples@),
            ),
            r is Ok ==> merged_exactly(
                with_index(old(self).spaces(), old(self).index_name@),
                final(self).spaces(),
                merges_of(old(self).index_name@, pairs(tuples@)),
            ),
            r is Ok ==> forall|i: int|
                #![trigger tuples@[i]]
                0 <= i < tuples.len() ==> {
                    &&& listed(
                        final(self).spaces(),
                        class_space_of(old(self).index_name@),
                        tuples@[i].0@,
                        tuples@[i].1@,
                    )
                    &&& listed(
                        final(self).spaces(),
                        package_space_of(old(self).index_name@),
                        tuples@[i].1@,
                        tuples@[i].0@,
                    )
                },
            r is Ok ==> forall|space: Seq<u8>, key: Seq<char>, entry: Seq<char>|
                #![trigger listed(final(self).spaces(), space, key, entry)]
                listed(with_index(old(self).spaces(), old(self).index_name@), space, key, entry)
                    ==> listed(final(self).spaces(), space, key, entry),
            r is Err ==> r->Err_0 is Storage,
    {
        let ghost index_name = self.index_name@;
        let ghost origin = self.spaces();
        let ghost full = listed_with_index(self.listed(), index_name);
        let ghost start = with_index(self.spaces(), index_name);
        let class_space = tree_name(self.index_name, "-class_pkgs");
        let package_space = tree_name(self.index_name, "-pkg_classes");
        let opened_classes = open_keyspace(self.db, class_space.as_str());
        let ghost half = self.spaces();
        proof {
            lemma_kept_opened(origin, origin, half, class_space_of(index_name));
        }
        match opened_classes {
            Ok(_) => {},
            Err(e) => {
                return Err(IndexError::Storage(e));
            },
        }
        let opened_packages = open_keyspace(self.db, package_space.as_str());
        proof {
            lemma_kept_opened(origin, half, self.spaces(), package_space_of(index_name));
        }
        match opened_packages {
            Ok(_) => {},
            Err(e) => {
                return Err(IndexError::Storage(e));
            },
        }
        let mut i: usize = 0;
        proof {
            assert(pairs(tuples@).take(0) =~= Seq::<(Seq<char>, Seq<char>)>::empty());
        }
        while i < tuples.len()
            invariant
                i <= tuples.len(),
                origin == old(self).spaces(),
                full == listed_with_index(old(self).listed(), index_name),
                self.listed() == full,
                kept_or_sorted(origin, self.spaces()),
                writes_read_back(start, merges_of(index_name, pairs(tuples@).take(i as int))),
                merged_exactly(
                    start,
                    self.spaces(),
                    merges_of(index_name, pairs(tuples@).take(i as int)),
                ),
                self.index_name == old(self).index_name,
                *final(self.db) == *final(old(self).db),
                index_name == self.index_name@,
                class_space@ == index_name + class_packages_suffix(),
                package_space@ == index_name + package_contents_suffix(),
                self.spaces() == with_tuples(start, index_name, pairs(tuples@).take(i as int)),
                self.spaces().dom().contains(class_space_of(index_name)),
                self.spaces().dom().contains(package_space_of(index_name)),
                forall|space: Seq<u8>, key: Seq<char>, entry: Seq<char>|
                    #![trigger listed(start, space, key, entry)]
                    listed(start, space, key, entry) ==> listed(self.spaces(), space, key, entry),
                forall|j: int|
                    #![trigger tuples@[j]]
                    0 <= j < i ==> {
                        &&& listed(
                            self.spaces(),
                            class_space_of(index_name),
                            tuples@[j].0@,
                            tuples@[j].1@,
                        )
                        &&& listed(
                            self.spaces(),
                            package_space_of(index_name),
                            tuples@[j].1@,
                            tuples@[j].0@,
                        )
                    },
            decreases tuples.len() - i,
        {
            let class_name = tuples[i].0.as_str();
            let package_name = tuples[i].1.as_str();
            proof {
                let upto = pairs(tuples@).take(i + 1);
                assert(upto.drop_last() =~= pairs(tuples@).take(i as int));
                assert(upto.last() == (class_name@, package_name@));
            }
            let ghost s0 = self.spaces();
            let by_class_done = merge_into(
                self.db,
                class_space.as_str(),
                class_name,
                package_name,
            );
            let ghost s1 = self.spaces();
            proof {
                assert(full.insert(class_space_of(index_name)) =~= full);
                assert(self.listed() == full);
                lemma_kept_merged(
                    origin,
                    s0,
                    s1,
                    class_space_of(index_name),
                    bytes_of(class_name@),
                    package_name@,
                );
            }
            match by_class_done {
                Ok(_) => {},
                Err(e) => {
                    return Err(IndexError::Storage(e));
                },
            }
            let by_package_done = merge_into(
                self.db,
                package_space.as_str(),
                package_name,
                class_name,
            );
            proof {
                assert(full.insert(package_space_of(index_name)) =~= full);
                assert(self.listed() == full);
                lemma_kept_merged(
                    origin,
                    s1,
                    self.spaces(),
                    package_space_of(index_name),
                    bytes_of(package_name@),
                    class_name@,
                );
            }
            match by_package_done {
                Ok(_) => {},
                Err(e) => {
                    return Err(IndexError::Storage(e));
                },
            }
            proof {
                let s2 = self.spaces();
                let done = merges_of(index_name, pairs(tuples@).take(i as int));
                let by_class = (class_space_of(index_name), bytes_of(class_name@), package_name@);
                let by_package = (
                    package_space_of(index_name),
                    bytes_of(package_name@),
                    class_name@,
                );
                lemma_tuples_are_merges(start, index_name, pairs(tuples@).take(i as int));
                assert(done.push(by_class).drop_last() =~= done);
                assert(with_merges(start, done.push(by_class)) == s1);
                assert(done.push(by_class).push(by_package).drop_last() =~= done.push(by_class));
                assert(writes_read_back(start, done.push(by_class)));
                assert(writes_read_back(start, done.push(by_class).push(by_package)));
                lemma_merged_exactly_step(start, s0, s1, done, by_class);
                lemma_merged_exactly_step(start, s1, s2, done.push(by_class), by_package);
                assert(merges_of(index_name, pairs(tuples@).take(i + 1)) == done.push(
                    by_class,
                ).push(by_package));
                lemma_listed_after_merge(
                    s0,
                    s1,
                    class_space_of(index_name),
                    class_name@,
                    package_name@,
                );
                lemma_listed_after_merge(
                    s1,
                    s2,
                    package_space_of(index_name),
                    package_name@,
                    class_name@,
                );
                assert forall|space: Seq<u8>, key: Seq<char>, entry: Seq<char>|
                    #![trigger listed(start, space, key, entry)]
                    listed(start, space, key, entry) implies listed(s2, space, key, entry) by {
                    assert(listed(s0, space, key, entry));
                    assert(listed(s1, space, key, entry));
                }
                assert forall|j: int| #![trigger tuples@[j]] 0 <= j < i + 1 implies {
                    &&& listed(s2, class_space_of(index_name), tuples@[j].0@, tuples@[j].1@)
                    &&& listed(s2, package_space_of(index_name), tuples@[j].1@, tuples@[j].0@)
                } by {
                    if j < i {
                        assert(listed(s0, class_space_of(index_name), tuples@[j].0@, tuples@[j].1@));
                        assert(listed(s1, class_space_of(index_name), tuples@[j].0@, tuples@[j].1@));
                        assert(listed(
                            s0,
                            package_space_of(index_name),
                            tuples@[j].1@,
                            tuples@[j].0@,
                        ));
                        assert(listed(
                            s1,
                            package_space_of(index_name),
                            tuples@[j].1@,
                            tuples@[j].0@,
                        ));
                    } else {
                        assert(listed(s1, class_space_of(index_name), class_name@, package_name@));
                    }
                }
            }
            i += 1;
        }
        proof {
            assert(pairs(tuples@).take(tuples.len() as int) =~= pairs(tuples@));
            lemma_with_tuples_keeps(start, index_name, pairs(tuples@));
            assert(start.dom().contains(class_space_of(index_name)));
            assert(start.dom().contains(package_space_of(index_name)));
        }
        let ghost filled = self.spaces();
        let classes_flushed = flush_keyspace(self.db, class_space.as_str());
        proof {
            assert(full.insert(class_space_of(index_name)) =~= full);
            assert(self.listed() == full);
            lemma_kept_opened(origin, filled, self.spaces(), class_space_of(index_name));
        }
        match classes_flushed {
            Ok(_) => {},
            Err(e) => {
                return Err(IndexError::Storage(e));
            },
        }
        let packages_flushed = flush_keyspace(self.db, package_space.as_str());
        proof {
            assert(full.insert(package_space_of(index_name)) =~= full);
            assert(self.listed() == full);
            lemma_kept_opened(origin, filled, self.spaces(), package_space_of(index_name));
        }
        match packages_flushed {
            Ok(_) => Ok(()),
            Err(e) => Err(IndexError::Storage(e)),
        }
    }

    /// Looks `key` up in the keyspace `space` of the index, after opening
    /// both keyspaces of the index.
    fn query(&mut self, space: &str, key: &str) -> (r: Result<QueryResults, IndexError>)
        requires
            bytes_of(space@) == class_space_of(old(self).index_name@) || bytes_of(space@)
                == package_space_of(old(self).index_name@),
        ensures
            final(self).index_name == old(self).index_name,
            *final(final(self).db) == *final(old(self).db),
            partly_opened(old(self).spaces(), final(self).spaces(), old(self).index_name@),
            partly_listed(old(self).listed(), final(self).listed(), old(self).index_name@),
            r is Ok || r->Err_0 is Decode ==> final(self).listed() == listed_with_index(
                old(self).listed(),
                old(self).index_name@,
            ),
            match r {
                Ok(results) => {
                    &&& final(self).spaces() == with_index(
                        old(self).spaces(),
                        old(self).index_name@,
                    )
                    &&& found_list(final(self).spaces(), bytes_of(space@), key@) is Some
                    &&& results@ == Map::<Seq<char>, Seq<Seq<char>>>::empty().insert(
                        key@,
                        found_list(final(self).spaces(), bytes_of(space@), key@)->0,
                    )
                },
                Err(IndexError::Decode(_)) => {
                    &&& final(self).spaces() == with_index(
                        old(self).spaces(),
                        old(self).index_name@,
                    )
                    &&& found_list(final(self).spaces(), bytes_of(space@), key@) is None
                },
                Err(IndexError::Storage(_)) => true,
                Err(IndexError::Archive(_)) => false,
            },
    {
        match self.open_or_create() {
            Ok(_) => {},
            Err(e) => {
                return Err(e);
            },
        }
        let ghost full = self.listed();
        let fetched = fetch(self.db, space, key);
        proof {
            assert(full.insert(bytes_of(space@)) =~= full);
            assert(self.listed() == full);
        }
        let found = match fetched {
            Ok(found) => found,
            Err(e) => {
                return Err(IndexError::Storage(e));
            },
        };
        let list: Vec<String> = match found {
            None => Vec::new(),
            Some(bytes) => match decode_list(bytes.as_slice()) {
                Ok(list) => list,
                Err(e) => {
                    return Err(IndexError::Decode(e));
                },
            },
        };
        proof {
            assert(views(list@) =~= found_list(self.spaces(), bytes_of(space@), key@)->0);
        }
        let mut results = QueryResults::new();
        results.insert(String::from_str(key), list);
        Ok(results)
    }

    /// The packages that declare `class_name`, under that name. A class that
    /// was never indexed has the empty list. Both keyspaces of the index are
    /// created where they are absent.
    pub fn query_class_index(&mut self, class_name: &str) -> (r: Result<QueryResults, IndexError>)
        ensures
            final(self).index_name == old(self).index_name,
            *final(final(self).db) == *final(old(self).db),
            partly_opened(old(self).spaces(), final(self).spaces(), old(self).index_name@),
            partly_listed(old(self).listed(), final(self).listed(), old(self).index_name@),
            r is Ok || r->Err_0 is Decode ==> final(self).listed() == listed_with_index(
                old(self).listed(),
                old(self).index_name@,
            ),
            match r {
                Ok(results) => {
                    let space = class_space_of(old(self).index_name@);
                    &&& final(self).spaces() == with_index(
                        old(self).spaces(),
                        old(self).index_name@,
                    )
                    &&& found_list(final(self).spaces(), space, class_name@) is Some
                    &&& results@ == Map::<Seq<char>, Seq<Seq<char>>>::empty().insert(
                        class_name@,
                        found_list(final(self).spaces(), space, class_name@)->0,
                    )
                },
                Err(IndexError::Decode(_)) => {
                    let space = class_space_of(old(self).index_name@);
                    &&& final(self).spaces() == with_index(
                        old(self).spaces(),
                        old(self).index_name@,
                    )
                    &&& found_list(final(self).spaces(), space, class_name@) is None
                },
                Err(IndexError::Storage(_)) => true,
                Err(IndexError::Archive(_)) => false,
            },
    {
        let space = tree_name(self.index_name, "-class_pkgs");
        self.query(space.as_str(), class_name)
    }

    /// The classes that `package_name` holds, under that name. A package
    /// that was never indexed has the empty list. Both keyspaces of the
    /// index are created where they are absent.
    pub fn query_package_index(&mut self, package_name: &str) -> (r: Result<
        QueryResults,
        IndexError,
    >)
        ensures
            final(self).index_name == old(self).index_name,
            *final(final(self).db) == *final(old(self).db),
            partly_opened(old(self).spaces(), final(self).spaces(), old(self).index_name@),
            partly_listed(old(self).listed(), final(self).listed(), old(self).index_name@),
            r is Ok || r->Err_0 is Decode ==> final(self).listed() == listed_with_index(
                old(self).listed(),
                old(self).index_name@,
            ),
            match r {
                Ok(results) => {
                    let space = package_space_of(old(self).index_name@);
                    &&& final(self).spaces() == with_index(
                        old(self).spaces(),
                        old(self).index_name@,
                    )
                    &&& found_list(final(self).spaces(), space, package_name@) is Some
                    &&& results@ == Map::<Seq<char>, Seq<Seq<char>>>::empty().insert(
                        package_name@,
                        found_list(final(self).spaces(), space, package_name@)->0,
                    )
                },
                Err(IndexError::Decode(_)) => {
                    let space = package_space_of(old(self).index_name@);
                    &&& final(self).spaces() == with_index(
                        old(self).spaces(),
                        old(self).index_name@,
                    )
                    &&& found_list(final(self).spaces(), space, package_name@) is None
                },
                Err(IndexError::Storage(_)) => true,
                Err(IndexError::Archive(_)) => false,
            },
    {
        let space = tree_name(self.index_name, "-pkg_classes");
        self.query(space.as_str(), package_name)
    }
}

/// One key of a keyspace, as a listing shows it.
#[derive(Debug)]
pub enum ListedKey {
    /// A key that is text.
    Name(String),
    /// A key that is no UTF-8 text, as it is stored. A listing reports it
    /// and goes on.
    Undecodable(Vec<u8>),
}

impl ListedKey {
    /// The key as the store holds it.
    pub open spec fn stored(&self) -> Seq<u8> {
        match self {
            ListedKey::Name(name) => bytes_of(name@),
            ListedKey::Undecodable(bytes) => bytes@,
        }
    }
}

/// The keys of the two keyspaces of an index.
#[derive(Debug)]
pub struct IndexListing {
    /// The keys of the class keyspace, in ascending order.
    pub classes: Vec<ListedKey>,
    /// The keys of the package keyspace, in ascending order.
    pub packages: Vec<ListedKey>,
}

/// `keys` shows every key of `space` once, in ascending order of the stored
/// bytes, and as a name whenever the key is text.
pub open spec fn lists_keys(keys: Seq<ListedKey>, space: Keyspace) -> bool {
    &&& forall|key: Seq<u8>|
        #![trigger space.dom().contains(key)]
        space.dom().contains(key) <==> exists|i: int|
            0 <= i < keys.len() && #[trigger] keys[i].stored() == key
    &&& forall|i: int, j: int|
        0 <= i < j < keys.len() ==> bytes_lt(#[trigger] keys[i].stored(), #[trigger] keys[j].stored())
    &&& forall|i: int|
        0 <= i < keys.len() ==> (#[trigger] keys[i] is Name <==> vstd::utf8::valid_utf8(
            keys[i].stored(),
        ))
}

/// Shows each stored key as a name where it is text.
fn listed_keys(keys: Vec<Vec<u8>>) -> (out: Vec<ListedKey>)
    ensures
        out.len() == keys.len(),
        forall|i: int| 0 <= i < out.len() ==> (#[trigger] out[i]).stored() == keys[i]@,
        forall|i: int|
            0 <= i < out.len() ==> (#[trigger] out[i] is Name <==> vstd::utf8::valid_utf8(keys[i]@)),
{
    let mut out: Vec<ListedKey> = Vec::new();
    let mut i: usize = 0;
    while i < keys.len()
        invariant
            i <= keys.len(),
            out.len() == i,
            forall|j: int| 0 <= j < i ==> (#[trigger] out[j]).stored() == keys[j]@,
            forall|j: int|
                0 <= j < i ==> (#[trigger] out[j] is Name <==> vstd::utf8::valid_utf8(keys[j]@)),
        decreases keys.len() - i,
    {
        let bytes = keys[i].clone();
        let entry = match utf8_text(bytes) {
            Some(name) => {
                proof {
                    vstd::utf8::decode_utf8_encode_utf8(keys[i as int]@);
                }
                ListedKey::Name(name)
            },
            None => ListedKey::Undecodable(keys[i].clone()),
        };
        out.push(entry);
        i += 1;
    }
    out
}

/// Lists every key of both keyspaces of an index, creating a keyspace where
/// it is absent. A key that is no text is shown as it is stored.
pub fn enumerate_indexes(index: &mut Index) -> (r: Result<IndexListing, IndexError>)
    ensures
        final(index).index_name == old(index).index_name,
        *final(final(index).db) == *final(old(index).db),
        r matches Ok(listing) ==> {
            let classes = class_space_of(old(index).index_name@);
            let packages = package_space_of(old(index).index_name@);
            &&& final(index).spaces() == with_index(old(index).spaces(), old(index).index_name@)
            &&& lists_keys(listing.classes@, final(index).spaces()[classes])
            &&& lists_keys(listing.packages@, final(index).spaces()[packages])
        },
        r is Err ==> r->Err_0 is Storage,
        partly_opened(old(index).spaces(), final(index).spaces(), old(index).index_name@),
        r is Ok ==> final(index).listed() == listed_with_index(
            old(index).listed(),
            old(index).index_name@,
        ),
        partly_listed(old(index).listed(), final(index).listed(), old(index).index_name@),
{
    let class_space = tree_name(index.index_name, "-class_pkgs");
    let class_keys = match keyspace_keys(index.db, class_space.as_str()) {
        Ok(keys) => keys,
        Err(e) => {
            return Err(IndexError::Storage(e));
        },
    };
    let classes = listed_keys(class_keys);
    let package_space = tree_name(index.index_name, "-pkg_classes");
    let ghost between = index.spaces();
    let package_keys = match keyspace_keys(index.db, package_space.as_str()) {
        Ok(keys) => keys,
        Err(e) => {
            return Err(IndexError::Storage(e));
        },
    };
    let packages = listed_keys(package_keys);
    proof {
        let space = index.spaces()[class_space_of(index.index_name@)];
        assert(space == between[class_space_of(index.index_name@)]);
        assert forall|key: Seq<u8>| #![trigger space.dom().contains(key)]
            space.dom().contains(key) <==> exists|i: int|
                0 <= i < classes.len() && #[trigger] classes@[i].stored() == key by {
            if space.dom().contains(key) {
                let i = choose|i: int| 0 <= i < class_keys.len() && #[trigger] class_keys[i]@ == key;
                assert(classes@[i].stored() == key);
            }
            if exists|i: int| 0 <= i < classes.len() && #[trigger] classes@[i].stored() == key {
                let i = choose|i: int| 0 <= i < classes.len() && #[trigger] classes@[i].stored() == key;
                assert(class_keys[i]@ == key);
            }
        }
        let other = index.spaces()[package_space_of(index.index_name@)];
        assert forall|key: Seq<u8>| #![trigger other.dom().contains(key)]
            other.dom().contains(key) <==> exists|i: int|
                0 <= i < packages.len() && #[trigger] packages@[i].stored() == key by {
            if other.dom().contains(key) {
                let i = choose|i: int|
                    0 <= i < package_keys.len() && #[trigger] package_keys[i]@ == key;
                assert(packages@[i].stored() == key);
            }
            if exists|i: int| 0 <= i < packages.len() && #[trigger] packages@[i].stored() == key {
                let i = choose|i: int|
                    0 <= i < packages.len() && #[trigger] packages@[i].stored() == key;
                assert(package_keys[i]@ == key);
            }
        }
    }
    Ok(IndexListing { classes, packages })
}

/// The pattern by which the name of a class keyspace gives away its index.
pub open spec fn index_name_pattern() -> Seq<char> {
    "(.+)-class_pkgs"@
}

/// The index that a keyspace name belongs to as a class keyspace: what
/// stands before the suffix in the name, read as text.
pub open spec fn index_of_space(space: Seq<u8>) -> Option<Seq<char>> {
    captured(index_name_pattern(), lossy_text(space), 1)
}

/// The index whose class keyspace has the name `space`, if it is the name
/// of one.
pub fn index_name_of(space: &[u8]) -> (r: Option<String>)
    ensures
        match r {
            Some(name) => index_of_space(space@) == Some(name@),
            None => index_of_space(space@) is None,
        },
{
    let text = utf8_lossy(space);
    capture("(.+)-class_pkgs", text.as_str(), 1)
}

/// `name` is the name of an index among the keyspaces `listed`: one of them
/// is its class keyspace.
pub open spec fn is_index_of(listed: Set<Seq<u8>>, name: Seq<char>) -> bool {
    exists|space: Seq<u8>| listed.contains(space) && #[trigger] index_of_space(space) == Some(name)
}

/// The names of the indexes that the handle of a store lists, recovered
/// from the names of the class keyspaces in its table, in no particular
/// order. These are the indexes of the store, but for a keyspace that a
/// failed drop left in the store and took off the table.
pub fn list_indexes(db: &sled::Db) -> (names: Vec<String>)
    ensures
        forall|i: int| 0 <= i < names.len() ==> is_index_of(db_listed(*db), #[trigger] names[i]@),
        forall|name: Seq<char>|
            is_index_of(db_listed(*db), name) ==> exists|i: int|
                0 <= i < names.len() && #[trigger] names[i]@ == name,
{
    let spaces = keyspace_names(db);
    let mut names: Vec<String> = Vec::new();
    let mut k: usize = 0;
    while k < spaces.len()
        invariant
            k <= spaces.len(),
            forall|i: int|
                #![trigger names[i]]
                0 <= i < names.len() ==> exists|j: int|
                    0 <= j < k && index_of_space(#[trigger] spaces[j]@) == Some(names[i]@),
            forall|j: int|
                0 <= j < k && index_of_space(#[trigger] spaces[j]@) is Some ==> exists|i: int|
                    0 <= i < names.len() && index_of_space(spaces[j]@) == Some(#[trigger] names[i]@),
        decreases spaces.len() - k,
    {
        match index_name_of(spaces[k].as_slice()) {
            Some(name) => {
                let ghost before = names@;
                names.push(name);
                proof {
                    assert forall|i: int| #![trigger names[i]] 0 <= i < names.len() implies exists|j: int|
                        0 <= j < k + 1 && index_of_space(#[trigger] spaces[j]@) == Some(
                            names[i]@,
                        ) by {
                        if i < before.len() {
                            assert(names[i] == before[i]);
                            let j = choose|j: int|
                                0 <= j < k && index_of_space(#[trigger] spaces[j]@) == Some(
                                    before[i]@,
                                );
                            assert(index_of_space(spaces[j]@) == Some(names[i]@));
                        } else {
                            assert(index_of_space(spaces[k as int]@) == Some(names[i]@));
                        }
                    }
                    assert forall|j: int|
                        0 <= j < k + 1 && index_of_space(
                            #[trigger] spaces[j]@,
                        ) is Some implies exists|i: int|
                        0 <= i < names.len() && index_of_space(spaces[j]@) == Some(
                            #[trigger] names[i]@,
                        ) by {
                        if j < k {
                            let i = choose|i: int|
                                0 <= i < before.len() && index_of_space(spaces[j]@) == Some(
                                    #[trigger] before[i]@,
                                );
                            assert(names[i] == before[i]);
                            assert(index_of_space(spaces[j]@) == Some(names[i]@));
                        } else {
                            assert(index_of_space(spaces[j]@) == Some(names[before.len() as int]@));
                        }
                    }
                }
            },
            None => {},
        }
        k += 1;
    }
    proof {
        assert forall|i: int| 0 <= i < names.len() implies is_index_of(
            db_listed(*db),
            #[trigger] names[i]@,
        ) by {
            let j = choose|j: int|
                0 <= j < k && index_of_space(#[trigger] spaces[j]@) == Some(names[i]@);
            assert(db_listed(*db).contains(spaces[j]@));
        }
        assert forall|name: Seq<char>| is_index_of(db_listed(*db), name) implies exists|i: int|
            0 <= i < names.len() && #[trigger] names[i]@ == name by {
            let space = choose|space: Seq<u8>|
                db_listed(*db).contains(space) && #[trigger] index_of_space(space) == Some(
                    name,
                );
            let j = choose|j: int| 0 <= j < spaces.len() && #[trigger] spaces[j]@ == space;
            assert(index_of_space(spaces[j]@) is Some);
            let i = choose|i: int|
                0 <= i < names.len() && index_of_space(spaces[j]@) == Some(#[trigger] names[i]@);
            assert(names[i]@ == name);
        }
    }
    names
}

} // verus!
