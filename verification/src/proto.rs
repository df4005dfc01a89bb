//! The wire protocol: the commands a client sends, the results it gets
//! back, and how a query command is answered from the store.

use crate::error::IndexError;
use crate::indexes::{
    class_space_of, found_list, listed_with_index, package_space_of, partly_listed, partly_opened,
    with_index, Index,
};
use crate::lists::{sort_dedup, sorted_unique};
use crate::results::QueryResults;
use crate::store::{db_keyspaces, db_listed, Keyspaces};
use crate::text::views;
use vstd::prelude::*;
use vstd::string::StringExecFns;

verus! {

/// Asks for the packages of a class in one index.
#[derive(Debug, PartialEq)]
pub struct ClassQueryArgs {
    pub index_name: String,
    pub class_name: String,
}

/// Asks for the packages of a class in several indexes.
#[derive(Debug, PartialEq)]
pub struct ClassMultiQueryArgs {
    pub index_names: Vec<String>,
    pub class_name: String,
}

/// Asks for an index to be filled from a source.
#[derive(Debug, PartialEq)]
pub struct ReindexArgs {
    pub index_name: String,
    pub archive_source: String,
}

/// Asks for the classes of a package in one index.
#[derive(Debug, PartialEq)]
pub struct PackageEnumerateArgs {
    pub index_name: String,
    pub package_name: String,
}

/// Asks for the classes of a package in several indexes.
#[derive(Debug, PartialEq)]
pub struct PackageMultiEnumerateArgs {
    pub index_names: Vec<String>,
    pub package_name: String,
}

/// A command of a client.
#[derive(Debug, PartialEq)]
pub enum ClientMsg {
    ClassQuery(ClassQueryArgs),
    ClassMultiQuery(ClassMultiQueryArgs),
    PackageEnumerateQuery(PackageEnumerateArgs),
    PackageMultiEnumerateQuery(PackageMultiEnumerateArgs),
    ReindexPathCmd(ReindexArgs),
    ReindexClasspathCmd(ReindexArgs),
    ReindexProjectCmd(ReindexArgs),
    ShutdownCmd,
}

/// The answer to a class query.
#[derive(Debug)]
pub struct ClassQueryResponseArgs {
    pub results: QueryResults,
}

impl ClassQueryResponseArgs {
    /// An answer that holds `results`.
    pub fn new(results: QueryResults) -> (r: Self)
        ensures
            r.results == results,
    {
        Self { results }
    }
}

/// The answer to a package query.
#[derive(Debug)]
pub struct PackageEnumerateQueryResponseArgs {
    pub results: QueryResults,
}

impl PackageEnumerateQueryResponseArgs {
    /// An answer that holds `results`.
    pub fn new(results: QueryResults) -> (r: Self)
        ensures
            r.results == results,
    {
        Self { results }
    }
}

/// The answer to a command that failed.
#[derive(Debug)]
pub struct ErrorResponseArgs {
    pub message: String,
}

/// The result of a command.
#[derive(Debug)]
pub enum ResponseMsg {
    ClassQueryResponse(ClassQueryResponseArgs),
    PackageEnumerateQueryResponse(PackageEnumerateQueryResponseArgs),
    NullResponse,
    /// The command failed; the connection stays open.
    ErrorResponse(ErrorResponseArgs),
}

/// A request: the correlation id that the client chose, and its command.
#[derive(Debug, PartialEq)]
pub struct ChannelMsg(pub u32, pub ClientMsg);

/// A reply: the correlation id of the request, and the result.
#[derive(Debug)]
pub struct ChannelResponse(pub u32, pub ResponseMsg);

/// The keyspace of an index in which a query looks: that of its classes
/// or that of its packages.
pub open spec fn space_of(index_name: Seq<char>, classes: bool) -> Seq<u8> {
    if classes {
        class_space_of(index_name)
    } else {
        package_space_of(index_name)
    }
}

/// The store after the indexes `names` were queried one after the other:
/// both keyspaces of each are created where they were absent.
pub open spec fn queried(spaces: Keyspaces, names: Seq<Seq<char>>) -> Keyspaces
    decreases names.len(),
{
    if names.len() == 0 {
        spaces
    } else {
        with_index(queried(spaces, names.drop_last()), names.last())
    }
}

/// The table of a handle after the indexes `names` were queried one after
/// the other: both keyspaces of each are put in.
pub open spec fn queried_listed(listed: Set<Seq<u8>>, names: Seq<Seq<char>>) -> Set<Seq<u8>>
    decreases names.len(),
{
    if names.len() == 0 {
        listed
    } else {
        listed_with_index(queried_listed(listed, names.drop_last()), names.last())
    }
}

/// What a query for `key` finds in one index of a store: the stored list,
/// or `None` where what is stored is no list.
pub open spec fn found_alone(
    spaces: Keyspaces,
    index_name: Seq<char>,
    classes: bool,
    key: Seq<char>,
) -> Option<Seq<Seq<char>>> {
    found_list(with_index(spaces, index_name), space_of(index_name, classes), key)
}

/// What a query of index `names[at]` finds, after the indexes before it
/// were queried.
pub open spec fn found_in(
    spaces: Keyspaces,
    names: Seq<Seq<char>>,
    classes: bool,
    at: int,
    key: Seq<char>,
) -> Option<Seq<Seq<char>>> {
    found_alone(queried(spaces, names.take(at)), names[at], classes, key)
}

/// Is every list that a query over several indexes comes by a list of
/// names?
pub open spec fn all_found(
    spaces: Keyspaces,
    names: Seq<Seq<char>>,
    classes: bool,
    key: Seq<char>,
) -> bool {
    forall|i: int| 0 <= i < names.len() ==> #[trigger] found_in(spaces, names, classes, i, key) is Some
}

/// The lists found in the indexes `names`, one after the other.
pub open spec fn gathered(
    spaces: Keyspaces,
    names: Seq<Seq<char>>,
    classes: bool,
    key: Seq<char>,
) -> Seq<Seq<char>>
    decreases names.len(),
{
    if names.len() == 0 {
        Seq::empty()
    } else {
        gathered(spaces, names.drop_last(), classes, key) + match found_in(
            spaces,
            names,
            classes,
            names.len() - 1,
            key,
        ) {
            Some(list) => list,
            None => Seq::empty(),
        }
    }
}

/// What a query over several indexes answers: nothing where no index is
/// named, and else, under the name that was asked for, the union of the
/// lists found in the indexes: their names in ascending order, each once.
pub open spec fn multi_results(
    spaces: Keyspaces,
    names: Seq<Seq<char>>,
    classes: bool,
    key: Seq<char>,
) -> Map<Seq<char>, Seq<Seq<char>>> {
    if names.len() == 0 {
        Map::empty()
    } else {
        Map::empty().insert(key, sort_dedup(gathered(spaces, names, classes, key)))
    }
}

/// The store after a query over the indexes `names` that failed in the
/// store: some of the indexes were queried, and the next was opened as far
/// as the query came.
pub open spec fn partly_queried(before: Keyspaces, after: Keyspaces, names: Seq<Seq<char>>) -> bool {
    exists|k: int|
        0 <= k < names.len() && #[trigger] partly_opened(
            queried(before, names.take(k)),
            after,
            names[k],
        )
}

/// Looks `key` up in one index.
fn query_one(db: &mut sled::Db, index_name: &str, classes: bool, key: &str) -> (r: Result<
    QueryResults,
    IndexError,
>)
    ensures
        partly_opened(db_keyspaces(*old(db)), db_keyspaces(*final(db)), index_name@),
        partly_listed(db_listed(*old(db)), db_listed(*final(db)), index_name@),
        r is Ok ==> db_listed(*final(db)) == listed_with_index(db_listed(*old(db)), index_name@),
        match r {
            Ok(results) => {
                &&& db_keyspaces(*final(db)) == with_index(db_keyspaces(*old(db)), index_name@)
                &&& found_alone(db_keyspaces(*old(db)), index_name@, classes, key@) matches Some(
                    list,
                )
                &&& results@ == Map::<Seq<char>, Seq<Seq<char>>>::empty().insert(key@, list)
            },
            Err(IndexError::Decode(_)) => {
                &&& db_keyspaces(*final(db)) == with_index(db_keyspaces(*old(db)), index_name@)
                &&& found_alone(db_keyspaces(*old(db)), index_name@, classes, key@) is None
            },
            Err(IndexError::Storage(_)) => true,
            Err(IndexError::Archive(_)) => false,
        },
{
    let mut index = Index::new(db, index_name);
    if classes {
        index.query_class_index(key)
    } else {
        index.query_package_index(key)
    }
}

/// Looks `key` up in several indexes and gathers what is found under it.
fn query_many(db: &mut sled::Db, index_names: &Vec<String>, classes: bool, key: &str) -> (r: Result<
    QueryResults,
    IndexError,
>)
    ensures
        index_names.len() == 0 ==> r is Ok,
        r is Ok ==> db_listed(*final(db)) == queried_listed(
            db_listed(*old(db)),
            views(index_names@),
        ),
        r is Err ==> partly_queried(
            db_keyspaces(*old(db)),
            db_keyspaces(*final(db)),
            views(index_names@),
        ),
        match r {
            Ok(results) => {
                &&& db_keyspaces(*final(db)) == queried(db_keyspaces(*old(db)), views(index_names@))
                &&& all_found(db_keyspaces(*old(db)), views(index_names@), classes, key@)
                &&& results@ == multi_results(
                    db_keyspaces(*old(db)),
                    views(index_names@),
                    classes,
                    key@,
                )
            },
            Err(IndexError::Decode(_)) => exists|i: int|
                0 <= i < index_names.len() && #[trigger] found_in(
                    db_keyspaces(*old(db)),
                    views(index_names@),
                    classes,
                    i,
                    key@,
                ) is None && db_keyspaces(*final(db)) == queried(
                    db_keyspaces(*old(db)),
                    views(index_names@).take(i + 1),
                ),
            Err(IndexError::Storage(_)) => true,
            Err(IndexError::Archive(_)) => false,
        },
{
    let ghost start = db_keyspaces(*db);
    let ghost table = db_listed(*db);
    let ghost names = views(index_names@);
    let mut results = QueryResults::new();
    let mut all: Vec<String> = Vec::new();
    let mut i: usize = 0;
    proof {
        assert(names.take(0) =~= Seq::<Seq<char>>::empty());
        assert(views(all@) =~= Seq::<Seq<char>>::empty());
    }
    while i < index_names.len()
        invariant
            i <= index_names.len(),
            names == views(index_names@),
            start == db_keyspaces(*old(db)),
            table == db_listed(*old(db)),
            db_listed(*db) == queried_listed(table, names.take(i as int)),
            *final(db) == *final(old(db)),
            db_keyspaces(*db) == queried(start, names.take(i as int)),
            forall|j: int| 0 <= j < i ==> #[trigger] found_in(start, names, classes, j, key@) is Some,
            views(all@) == gathered(start, names.take(i as int), classes, key@),
        decreases index_names.len() - i,
    {
        proof {
            let upto = names.take(i + 1);
            assert(upto.drop_last() =~= names.take(i as int));
            assert(upto.last() == index_names@[i as int]@);
            assert(upto.take(i as int) =~= names.take(i as int));
            assert(upto[i as int] == names[i as int]);
        }
        let one = match query_one(db, index_names[i].as_str(), classes, key) {
            Ok(one) => one,
            Err(e) => {
                proof {
                    if e is Decode {
                        assert(found_in(start, names, classes, i as int, key@) is None);
                    }
                    assert(partly_opened(
                        queried(start, names.take(i as int)),
                        db_keyspaces(*db),
                        names[i as int],
                    ));
                }
                return Err(e);
            },
        };
        proof {
            assert(found_in(start, names, classes, i as int, key@) is Some);
        }
        match one.get(key) {
            Some(list) => {
                let mut k: usize = 0;
                let ghost before = views(all@);
                proof {
                    assert(views(list@).take(0) =~= Seq::<Seq<char>>::empty());
                    assert(before + Seq::<Seq<char>>::empty() =~= before);
                }
                while k < list.len()
                    invariant
                        k <= list.len(),
                        views(all@) == before + views(list@).take(k as int),
                    decreases list.len() - k,
                {
                    let name = list[k].clone();
                    proof {
                        assert(name@ == list@[k as int]@);
                        assert(views(all@.push(name)) =~= views(all@).push(name@));
                        assert(views(list@).take(k + 1) =~= views(list@).take(k as int).push(
                            list@[k as int]@,
                        ));
                    }
                    all.push(name);
                    k += 1;
                }
                proof {
                    assert(views(list@).take(list.len() as int) =~= views(list@));
                }
            },
            None => {},
        }
        i += 1;
    }
    proof {
        assert(names.take(index_names.len() as int) =~= names);
    }
    if index_names.len() > 0 {
        results.insert(String::from_str(key), sorted_unique(all));
    }
    Ok(results)
}

/// Answers a class query from one index.
pub fn exec_class_query(db: &mut sled::Db, msg: &ClassQueryArgs) -> (r: Result<
    ResponseMsg,
    IndexError,
>)
    ensures
        partly_opened(db_keyspaces(*old(db)), db_keyspaces(*final(db)), msg.index_name@),
        partly_listed(db_listed(*old(db)), db_listed(*final(db)), msg.index_name@),
        r is Ok ==> db_listed(*final(db)) == listed_with_index(
            db_listed(*old(db)),
            msg.index_name@,
        ),
        match r {
            Ok(response) => {
                &&& db_keyspaces(*final(db)) == with_index(db_keyspaces(*old(db)), msg.index_name@)
                &&& found_alone(
                    db_keyspaces(*old(db)),
                    msg.index_name@,
                    true,
                    msg.class_name@,
                ) matches Some(list)
                &&& response matches ResponseMsg::ClassQueryResponse(args)
                &&& args.results@ == Map::<Seq<char>, Seq<Seq<char>>>::empty().insert(
                    msg.class_name@,
                    list,
                )
            },
            Err(IndexError::Decode(_)) => {
                &&& db_keyspaces(*final(db)) == with_index(db_keyspaces(*old(db)), msg.index_name@)
                &&& found_alone(
                    db_keyspaces(*old(db)),
                    msg.index_name@,
                    true,
                    msg.class_name@,
                ) is None
            },
            Err(IndexError::Storage(_)) => true,
            Err(IndexError::Archive(_)) => false,
        },
{
    match query_one(db, msg.index_name.as_str(), true, msg.class_name.as_str()) {
        Ok(results) => Ok(ResponseMsg::ClassQueryResponse(ClassQueryResponseArgs::new(results))),
        Err(e) => Err(e),
    }
}

/// Answers a package query from one index.
pub fn exec_package_enumerate_query(db: &mut sled::Db, msg: &PackageEnumerateArgs) -> (r: Result<
    ResponseMsg,
    IndexError,
>)
    ensures
        partly_opened(db_keyspaces(*old(db)), db_keyspaces(*final(db)), msg.index_name@),
        partly_listed(db_listed(*old(db)), db_listed(*final(db)), msg.index_name@),
        r is Ok ==> db_listed(*final(db)) == listed_with_index(
            db_listed(*old(db)),
            msg.index_name@,
        ),
        match r {
            Ok(response) => {
                &&& db_keyspaces(*final(db)) == with_index(db_keyspaces(*old(db)), msg.index_name@)
                &&& found_alone(
                    db_keyspaces(*old(db)),
                    msg.index_name@,
                    false,
                    msg.package_name@,
                ) matches Some(list)
                &&& response matches ResponseMsg::PackageEnumerateQueryResponse(args)
                &&& args.results@ == Map::<Seq<char>, Seq<Seq<char>>>::empty().insert(
                    msg.package_name@,
                    list,
                )
            },
            Err(IndexError::Decode(_)) => {
                &&& db_keyspaces(*final(db)) == with_index(db_keyspaces(*old(db)), msg.index_name@)
                &&& found_alone(
                    db_keyspaces(*old(db)),
                    msg.index_name@,
                    false,
                    msg.package_name@,
                ) is None
            },
            Err(IndexError::Storage(_)) => true,
            Err(IndexError::Archive(_)) => false,
        },
{
    match query_one(db, msg.index_name.as_str(), false, msg.package_name.as_str()) {
        Ok(results) => Ok(
            ResponseMsg::PackageEnumerateQueryResponse(
                PackageEnumerateQueryResponseArgs::new(results),
            ),
        ),
        Err(e) => Err(e),
    }
}

/// Answers a class query from several indexes with the union of what each
/// holds under the class. A query that names no index succeeds and answers
/// nothing.
pub fn exec_class_multi_query(db: &mut sled::Db, msg: &ClassMultiQueryArgs) -> (r: Result<
    ResponseMsg,
    IndexError,
>)
    ensures
        msg.index_names.len() == 0 ==> r is Ok,
        r is Ok ==> db_listed(*final(db)) == queried_listed(
            db_listed(*old(db)),
            views(msg.index_names@),
        ),
        r is Err ==> partly_queried(
            db_keyspaces(*old(db)),
            db_keyspaces(*final(db)),
            views(msg.index_names@),
        ),
        match r {
            Ok(response) => {
                &&& db_keyspaces(*final(db)) == queried(
                    db_keyspaces(*old(db)),
                    views(msg.index_names@),
                )
                &&& all_found(db_keyspaces(*old(db)), views(msg.index_names@), true, msg.class_name@)
                &&& response matches ResponseMsg::ClassQueryResponse(args)
                &&& args.results@ == multi_results(
                    db_keyspaces(*old(db)),
                    views(msg.index_names@),
                    true,
                    msg.class_name@,
                )
            },
            Err(IndexError::Decode(_)) => exists|i: int|
                0 <= i < msg.index_names.len() && #[trigger] found_in(
                    db_keyspaces(*old(db)),
                    views(msg.index_names@),
                    true,
                    i,
                    msg.class_name@,
                ) is None && db_keyspaces(*final(db)) == queried(
                    db_keyspaces(*old(db)),
                    views(msg.index_names@).take(i + 1),
                ),
            Err(IndexError::Storage(_)) => true,
            Err(IndexError::Archive(_)) => false,
        },
{
    match query_many(db, &msg.index_names, true, msg.class_name.as_str()) {
        Ok(results) => Ok(ResponseMsg::ClassQueryResponse(ClassQueryResponseArgs::new(results))),
        Err(e) => Err(e),
    }
}

/// Answers a package query from several indexes with the union of what each
/// holds under the package. A query that names no index succeeds and
/// answers nothing.
pub fn exec_package_multi_enumerate_query(
    db: &mut sled::Db,
    msg: &PackageMultiEnumerateArgs,
) -> (r: Result<ResponseMsg, IndexError>)
    ensures
        msg.index_names.len() == 0 ==> r is Ok,
        r is Ok ==> db_listed(*final(db)) == queried_listed(
            db_listed(*old(db)),
            views(msg.index_names@),
        ),
        r is Err ==> partly_queried(
            db_keyspaces(*old(db)),
            db_keyspaces(*final(db)),
            views(msg.index_names@),
        ),
        match r {
            Ok(response) => {
                &&& db_keyspaces(*final(db)) == queried(
                    db_keyspaces(*old(db)),
                    views(msg.index_names@),
                )
                &&& all_found(
                    db_keyspaces(*old(db)),
                    views(msg.index_names@),
                    false,
                    msg.package_name@,
                )
                &&& response matches ResponseMsg::PackageEnumerateQueryResponse(args)
                &&& args.results@ == multi_results(
                    db_keyspaces(*old(db)),
                    views(msg.index_names@),
                    false,
                    msg.package_name@,
                )
            },
            Err(IndexError::Decode(_)) => exists|i: int|
                0 <= i < msg.index_names.len() && #[trigger] found_in(
                    db_keyspaces(*old(db)),
                    views(msg.index_names@),
                    false,
                    i,
                    msg.package_name@,
                ) is None && db_keyspaces(*final(db)) == queried(
                    db_keyspaces(*old(db)),
                    views(msg.index_names@).take(i + 1),
                ),
            Err(IndexError::Storage(_)) => true,
            Err(IndexError::Archive(_)) => false,
        },
{
    match query_many(db, &msg.index_names, false, msg.package_name.as_str()) {
        Ok(results) => Ok(
            ResponseMsg::PackageEnumerateQueryResponse(
                PackageEnumerateQueryResponseArgs::new(results),
            ),
        ),
        Err(e) => Err(e),
    }
}

/// `response` answers the query `command` on a store that held `before`
/// and holds `after`: it carries what the store holds under the name that
/// was asked for, or it is an error, and then the store is opened as far as
/// the query came. A query over several indexes that names none is not
/// answered with an error, since a failed query has come to one index at
/// least. Nothing answers a command that is no query.
pub open spec fn answered(
    before: Keyspaces,
    after: Keyspaces,
    command: ClientMsg,
    response: ResponseMsg,
) -> bool {
    match command {
        ClientMsg::ClassQuery(args) => (response is ErrorResponse && partly_opened(
            before,
            after,
            args.index_name@,
        )) || {
            &&& response matches ResponseMsg::ClassQueryResponse(found)
            &&& after == with_index(before, args.index_name@)
            &&& found_alone(before, args.index_name@, true, args.class_name@) matches Some(list)
            &&& found.results@ == Map::<Seq<char>, Seq<Seq<char>>>::empty().insert(
                args.class_name@,
                list,
            )
        },
        ClientMsg::ClassMultiQuery(args) => (response is ErrorResponse && partly_queried(
            before,
            after,
            views(args.index_names@),
        )) || {
            &&& response matches ResponseMsg::ClassQueryResponse(found)
            &&& after == queried(before, views(args.index_names@))
            &&& all_found(before, views(args.index_names@), true, args.class_name@)
            &&& found.results@ == multi_results(
                before,
                views(args.index_names@),
                true,
                args.class_name@,
            )
        },
        ClientMsg::PackageEnumerateQuery(args) => (response is ErrorResponse && partly_opened(
            before,
            after,
            args.index_name@,
        )) || {
            &&& response matches ResponseMsg::PackageEnumerateQueryResponse(found)
            &&& after == with_index(before, args.index_name@)
            &&& found_alone(before, args.index_name@, false, args.package_name@) matches Some(list)
            &&& found.results@ == Map::<Seq<char>, Seq<Seq<char>>>::empty().insert(
                args.package_name@,
                list,
            )
        },
        ClientMsg::PackageMultiEnumerateQuery(args) => (response is ErrorResponse
            && partly_queried(before, after, views(args.index_names@))) || {
            &&& response matches ResponseMsg::PackageEnumerateQueryResponse(found)
            &&& after == queried(before, views(args.index_names@))
            &&& all_found(before, views(args.index_names@), false, args.package_name@)
            &&& found.results@ == multi_results(
                before,
                views(args.index_names@),
                false,
                args.package_name@,
            )
        },
        _ => false,
    }
}

} // verus!
