//! The storage primitive: one `sled::Db` that holds any number of named
//! keyspaces, each a map from byte-string keys to byte-string values.
//!
//! The contracts speak of what the store holds through [`db_keyspaces`],
//! and of the keyspaces that the handle has in its table through
//! [`db_listed`]. The two go together as long as no call fails: a drop that
//! failed may leave a keyspace in the store that the handle no longer lists,
//! and the handle then neither lists nor drops it until it is opened again.
//! Every call goes through `&mut sled::Db`, so that what the store held
//! before a call and what it holds after it are told apart. They describe a
//! store that is written through this one handle: `sled` lets a handle be
//! cloned and shared among threads, and what other handles write in between
//! is outside of what is said here. Each call may fail with an error of the
//! store; a call that failed may have done a part of its work, and its
//! contract says which.

use crate::indexes::{merge_string_into_list, merged_list, merged_value};
use crate::json::json_list_of;
use vstd::prelude::*;

verus! {

/// The handle of a `sled` store. What it holds is spoken of through
/// [`db_keyspaces`].
#[verifier::external_type_specification]
#[verifier::external_body]
pub struct ExDb(sled::Db);

/// The handle of one keyspace of a `sled` store, carried along as it is.
#[verifier::external_type_specification]
#[verifier::external_body]
pub struct ExTree(sled::Tree);

/// One keyspace: its keys with their values.
pub type Keyspace = Map<Seq<u8>, Seq<u8>>;

/// The keyspaces of a store, by name.
pub type Keyspaces = Map<Seq<u8>, Map<Seq<u8>, Seq<u8>>>;

/// The keyspaces that the store behind `db` holds, with their contents.
pub uninterp spec fn db_keyspaces(db: sled::Db) -> Map<Seq<u8>, Map<Seq<u8>, Seq<u8>>>;

/// The bytes under which a name is stored: its UTF-8 encoding.
pub open spec fn bytes_of(name: Seq<char>) -> Seq<u8> {
    vstd::utf8::encode_utf8(name)
}

/// `a` comes before `b` when the two are compared byte by byte; a proper
/// prefix comes first.
pub open spec fn bytes_lt(a: Seq<u8>, b: Seq<u8>) -> bool
    decreases a.len(),
{
    if b.len() == 0 {
        false
    } else if a.len() == 0 {
        true
    } else if a[0] != b[0] {
        a[0] < b[0]
    } else {
        bytes_lt(a.drop_first(), b.drop_first())
    }
}

/// The store after the keyspace `name` was opened: it is created empty where
/// it was absent.
pub open spec fn opened(spaces: Keyspaces, name: Seq<u8>) -> Keyspaces {
    if spaces.dom().contains(name) {
        spaces
    } else {
        spaces.insert(name, Map::empty())
    }
}

/// The value under `key`, if there is one.
pub open spec fn value_at(space: Keyspace, key: Seq<u8>) -> Option<Seq<u8>> {
    if space.dom().contains(key) {
        Some(space[key])
    } else {
        None
    }
}

/// The store after `entry` was merged into the list under `key` of the
/// keyspace `name`.
pub open spec fn with_merged(
    spaces: Keyspaces,
    name: Seq<u8>,
    key: Seq<u8>,
    entry: Seq<char>,
) -> Keyspaces {
    let before = opened(spaces, name);
    before.insert(name, before[name].insert(key, merged_value(entry, value_at(before[name], key))))
}

/// The names of the keyspaces that the handle `db` has in its table: those
/// that were in the store when it was opened and those that were opened
/// since, without those that were dropped. The handle lists these, and drops
/// no other.
pub uninterp spec fn db_listed(db: sled::Db) -> Set<Seq<u8>>;

/// The table of a handle after a call that opens the keyspace `name`,
/// whether the call succeeded or failed on the way: the name may have been
/// put in, and nothing else is different.
pub open spec fn at_most_listed(before: Set<Seq<u8>>, after: Set<Seq<u8>>, name: Seq<u8>) -> bool {
    after == before || after == before.insert(name)
}

/// What of a store has been made durable: the keyspaces, with their
/// contents, that are there again after a crash. `sled` also writes to disk
/// on its own, so that this is known only right after a flush.
pub uninterp spec fn db_durable(db: sled::Db) -> Map<Seq<u8>, Map<Seq<u8>, Seq<u8>>>;

/// The store after a call that opens the keyspace `name` and changes
/// nothing else, whether the call succeeded or failed on the way: the
/// keyspace may have been created, and nothing else is different.
pub open spec fn at_most_opened(before: Keyspaces, after: Keyspaces, name: Seq<u8>) -> bool {
    after == before || after == opened(before, name)
}

/// Opens a keyspace with `Db::open_tree`, which creates it where the store
/// does not hold it, leaves every other keyspace as it was, and puts the
/// name into the table of the handle.
#[verifier::external_body]
pub(crate) fn open_keyspace(db: &mut sled::Db, name: &str) -> (r: Result<sled::Tree, sled::Error>)
    ensures
        r is Ok ==> db_keyspaces(*final(db)) == opened(db_keyspaces(*old(db)), bytes_of(name@)),
        r is Ok ==> db_listed(*final(db)) == db_listed(*old(db)).insert(bytes_of(name@)),
        r is Err ==> db_listed(*final(db)) == db_listed(*old(db)),
        at_most_opened(db_keyspaces(*old(db)), db_keyspaces(*final(db)), bytes_of(name@)),
{
    db.open_tree(name)
}

/// Reads the value under `key` with `Tree::get`, on the keyspace that
/// `Db::open_tree` hands out for `name`.
#[verifier::external_body]
pub(crate) fn fetch(db: &mut sled::Db, name: &str, key: &str) -> (r: Result<
    Option<Vec<u8>>,
    sled::Error,
>)
    ensures
        r matches Ok(found) ==> {
            &&& db_keyspaces(*final(db)) == opened(db_keyspaces(*old(db)), bytes_of(name@))
            &&& match found {
                Some(value) => Some(value@),
                None => None,
            } == value_at(db_keyspaces(*final(db))[bytes_of(name@)], bytes_of(key@))
        },
        at_most_opened(db_keyspaces(*old(db)), db_keyspaces(*final(db)), bytes_of(name@)),
        r is Ok ==> db_listed(*final(db)) == db_listed(*old(db)).insert(bytes_of(name@)),
        at_most_listed(db_listed(*old(db)), db_listed(*final(db)), bytes_of(name@)),
{
    Ok(db.open_tree(name)?.get(key)?.map(|value| value.to_vec()))
}

/// Merges `entry` into the list under `key` with `Tree::update_and_fetch`, on
/// the keyspace that `Db::open_tree` hands out for `name`. The new value is
/// what [`merge_string_into_list`] makes of the value that was there, and so
/// reads back as the merged list. A call that fails may have opened the
/// keyspace, and may have written the new value: `sled` reports a failure of
/// its log after the value is in place.
#[verifier::external_body]
pub(crate) fn merge_into(db: &mut sled::Db, name: &str, key: &str, entry: &str) -> (r: Result<
    (),
    sled::Error,
>)
    ensures
        r is Ok ==> db_listed(*final(db)) == db_listed(*old(db)).insert(bytes_of(name@)),
        at_most_listed(db_listed(*old(db)), db_listed(*final(db)), bytes_of(name@)),
        r is Ok ==> db_keyspaces(*final(db)) == with_merged(
            db_keyspaces(*old(db)),
            bytes_of(name@),
            bytes_of(key@),
            entry@,
        ),
        r is Err ==> at_most_opened(
            db_keyspaces(*old(db)),
            db_keyspaces(*final(db)),
            bytes_of(name@),
        ) || db_keyspaces(*final(db)) == with_merged(
            db_keyspaces(*old(db)),
            bytes_of(name@),
            bytes_of(key@),
            entry@,
        ),
        db_keyspaces(*final(db)) == with_merged(
            db_keyspaces(*old(db)),
            bytes_of(name@),
            bytes_of(key@),
            entry@,
        ) ==> json_list_of(db_keyspaces(*final(db))[bytes_of(name@)][bytes_of(key@)]) == Some(
            merged_list(
                entry@,
                value_at(opened(db_keyspaces(*old(db)), bytes_of(name@))[bytes_of(name@)], bytes_of(key@)),
            ),
        ),
{
    let tree = db.open_tree(name)?;
    tree.update_and_fetch(key, |old: Option<&[u8]>| merge_string_into_list(entry, old))?;
    Ok(())
}

/// Makes what was written durable with `Tree::flush`, on the keyspace that
/// `Db::open_tree` hands out for `name`. Nothing that is stored changes, and
/// after a flush that succeeded all that the store holds is durable: `sled`
/// flushes the writes of all keyspaces together.
#[verifier::external_body]
pub(crate) fn flush_keyspace(db: &mut sled::Db, name: &str) -> (r: Result<(), sled::Error>)
    ensures
        r is Ok ==> db_keyspaces(*final(db)) == opened(db_keyspaces(*old(db)), bytes_of(name@)),
        r is Ok ==> db_durable(*final(db)) == db_keyspaces(*final(db)),
        at_most_opened(db_keyspaces(*old(db)), db_keyspaces(*final(db)), bytes_of(name@)),
        r is Ok ==> db_listed(*final(db)) == db_listed(*old(db)).insert(bytes_of(name@)),
        at_most_listed(db_listed(*old(db)), db_listed(*final(db)), bytes_of(name@)),
{
    db.open_tree(name)?.flush()?;
    Ok(())
}

/// The store after the keyspace `name` was dropped through a handle with
/// the table `listed`: the keyspace is gone where the handle listed it, and
/// the store is as it was where it did not.
pub open spec fn dropped(spaces: Keyspaces, listed: Set<Seq<u8>>, name: Seq<u8>) -> Keyspaces {
    if listed.contains(name) {
        spaces.remove(name)
    } else {
        spaces
    }
}

/// Removes a keyspace with `Db::drop_tree`, which says whether the handle
/// listed it. A keyspace that the handle does not list is left in the
/// store. A call that fails has taken the name off the table or not, and
/// has removed the keyspace from the store or not: `sled` takes the name
/// off its table before the first step that can fail.
#[verifier::external_body]
pub(crate) fn drop_keyspace(db: &mut sled::Db, name: &str) -> (r: Result<bool, sled::Error>)
    ensures
        r matches Ok(was_listed) ==> {
            &&& was_listed == db_listed(*old(db)).contains(bytes_of(name@))
            &&& db_listed(*final(db)) == db_listed(*old(db)).remove(bytes_of(name@))
            &&& db_keyspaces(*final(db)) == dropped(
                db_keyspaces(*old(db)),
                db_listed(*old(db)),
                bytes_of(name@),
            )
        },
        r is Err ==> {
            &&& db_listed(*final(db)) == db_listed(*old(db)) || db_listed(*final(db)) == db_listed(
                *old(db),
            ).remove(bytes_of(name@))
            &&& db_keyspaces(*final(db)) == db_keyspaces(*old(db)) || db_keyspaces(*final(db))
                == db_keyspaces(*old(db)).remove(bytes_of(name@))
        },
{
    db.drop_tree(name)
}

/// The names in the table of the handle, from `Db::tree_names`: each once,
/// in no particular order.
#[verifier::external_body]
pub(crate) fn keyspace_names(db: &sled::Db) -> (names: Vec<Vec<u8>>)
    ensures
        forall|name: Seq<u8>|
            #![trigger db_listed(*db).contains(name)]
            db_listed(*db).contains(name) <==> exists|i: int|
                0 <= i < names.len() && #[trigger] names[i]@ == name,
        forall|i: int, j: int| 0 <= i < j < names.len() ==> names[i]@ != names[j]@,
{
    db.tree_names().iter().map(|name| name.to_vec()).collect()
}

/// The keys of a keyspace, from `Tree::iter`, which walks them in ascending
/// order, on the keyspace that `Db::open_tree` hands out for `name`.
#[verifier::external_body]
pub(crate) fn keyspace_keys(db: &mut sled::Db, name: &str) -> (r: Result<
    Vec<Vec<u8>>,
    sled::Error,
>)
    ensures
        at_most_opened(db_keyspaces(*old(db)), db_keyspaces(*final(db)), bytes_of(name@)),
        r is Ok ==> db_listed(*final(db)) == db_listed(*old(db)).insert(bytes_of(name@)),
        at_most_listed(db_listed(*old(db)), db_listed(*final(db)), bytes_of(name@)),
        r matches Ok(keys) ==> {
            &&& db_keyspaces(*final(db)) == opened(db_keyspaces(*old(db)), bytes_of(name@))
            &&& forall|key: Seq<u8>|
                #![trigger db_keyspaces(*final(db))[bytes_of(name@)].dom().contains(key)]
                db_keyspaces(*final(db))[bytes_of(name@)].dom().contains(key) <==> exists|i: int|
                    0 <= i < keys.len() && #[trigger] keys[i]@ == key
            &&& forall|i: int, j: int| 0 <= i < j < keys.len() ==> bytes_lt(keys[i]@, keys[j]@)
        },
{
    db.open_tree(name)?.iter().keys().map(|key| key.map(|bytes| bytes.to_vec())).collect()
}

} // verus!
