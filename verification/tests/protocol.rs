use cpid::cli::{transport, Transport};
use cpid::indexes::Index;
use cpid::proto::{
    exec_class_multi_query, exec_class_query, exec_package_enumerate_query,
    exec_package_multi_enumerate_query, ChannelMsg, ChannelResponse, ClassMultiQueryArgs,
    ClassQueryArgs, ClassQueryResponseArgs, ClientMsg, PackageEnumerateArgs,
    PackageEnumerateQueryResponseArgs, PackageMultiEnumerateArgs, ReindexArgs, ResponseMsg,
};
use cpid::results::QueryResults;
use cpid::serve::{scan_kind, step, ConnAction, ConnEvent, ConnState, ReindexJob, ScanKind};

fn temp_db() -> sled::Db {
    sled::Config::new().temporary(true).open().expect("a temporary store")
}

fn tuple(class: &str, package: &str) -> (String, String, String) {
    (class.to_string(), package.to_string(), String::new())
}

fn names(list: &[&str]) -> Vec<String> {
    list.iter().map(|s| s.to_string()).collect()
}

fn class_query(id: u32, index: &str, class: &str) -> ConnEvent {
    ConnEvent::Frame(ChannelMsg(
        id,
        ClientMsg::ClassQuery(ClassQueryArgs {
            index_name: index.to_string(),
            class_name: class.to_string(),
        }),
    ))
}

fn reindex_args(index: &str, source: &str) -> ReindexArgs {
    ReindexArgs { index_name: index.to_string(), archive_source: source.to_string() }
}

fn class_reply(action: ConnAction) -> (u32, Vec<(String, Vec<String>)>) {
    match action {
        ConnAction::Write(ChannelResponse(id, ResponseMsg::ClassQueryResponse(args))) => {
            (id, args.results.into_entries())
        }
        other => panic!("no class query reply: {:?}", other),
    }
}

#[test]
fn responses_hold_their_results() {
    let mut results = QueryResults::new();
    results.insert("Timeout".to_string(), names(&["org.junit.rules"]));
    let response = ClassQueryResponseArgs::new(results);
    assert_eq!(response.results.get("Timeout"), Some(&names(&["org.junit.rules"])));
    let mut results = QueryResults::new();
    results.insert("p".to_string(), names(&["A", "B"]));
    let response = PackageEnumerateQueryResponseArgs::new(results);
    assert_eq!(response.results.get("p"), Some(&names(&["A", "B"])));
    assert_eq!(response.results.get("q"), None);
}

#[test]
fn results_replace_what_was_under_a_key() {
    let mut results = QueryResults::new();
    assert_eq!(results.get("a"), None);
    results.insert("a".to_string(), names(&["1"]));
    results.insert("b".to_string(), names(&["2"]));
    results.insert("a".to_string(), names(&["3"]));
    assert_eq!(results.get("a"), Some(&names(&["3"])));
    assert_eq!(results.get("b"), Some(&names(&["2"])));
    let map: std::collections::HashMap<String, Vec<String>> =
        results.into_entries().into_iter().collect();
    assert_eq!(map.len(), 2);
    assert_eq!(map["a"], names(&["3"]));
}

#[test]
fn class_query_answers_from_the_index() {
    let mut db = temp_db();
    Index::new(&mut db, "myidx")
        .index_class_tuples(&[
            tuple("Timeout", "org.openjdk.jmh.annotations"),
            tuple("Timeout", "org.junit.rules"),
        ])
        .expect("a batch");
    let msg =
        ClassQueryArgs { index_name: "myidx".to_string(), class_name: "Timeout".to_string() };
    match exec_class_query(&mut db, &msg).expect("an answer") {
        ResponseMsg::ClassQueryResponse(args) => assert_eq!(
            args.results.into_entries(),
            vec![(
                "Timeout".to_string(),
                names(&["org.junit.rules", "org.openjdk.jmh.annotations"])
            )]
        ),
        other => panic!("no class query response: {:?}", other),
    }
}

#[test]
fn package_query_answers_from_the_index() {
    let mut db = temp_db();
    Index::new(&mut db, "t").index_class_tuples(&[tuple("B", "p"), tuple("A", "p")]).expect("a batch");
    let msg = PackageEnumerateArgs { index_name: "t".to_string(), package_name: "p".to_string() };
    match exec_package_enumerate_query(&mut db, &msg).expect("an answer") {
        ResponseMsg::PackageEnumerateQueryResponse(args) => {
            assert_eq!(args.results.into_entries(), vec![("p".to_string(), names(&["A", "B"]))])
        }
        other => panic!("no package query response: {:?}", other),
    }
}

#[test]
fn multi_query_is_the_union_over_the_indexes() {
    let mut db = temp_db();
    Index::new(&mut db, "i1").index_class_tuples(&[tuple("X", "a"), tuple("X", "b")]).expect("a batch");
    Index::new(&mut db, "i2").index_class_tuples(&[tuple("X", "b"), tuple("X", "c")]).expect("a batch");
    let msg =
        ClassMultiQueryArgs { index_names: names(&["i1", "i2"]), class_name: "X".to_string() };
    match exec_class_multi_query(&mut db, &msg).expect("an answer") {
        ResponseMsg::ClassQueryResponse(args) => {
            assert_eq!(args.results.into_entries(), vec![("X".to_string(), names(&["a", "b", "c"]))]);
        }
        other => panic!("no class query response: {:?}", other),
    }
    let msg =
        ClassMultiQueryArgs { index_names: names(&["i2", "i1"]), class_name: "X".to_string() };
    match exec_class_multi_query(&mut db, &msg).expect("an answer") {
        ResponseMsg::ClassQueryResponse(args) => {
            assert_eq!(args.results.get("X"), Some(&names(&["a", "b", "c"])));
        }
        other => panic!("no class query response: {:?}", other),
    }
}

#[test]
fn multi_query_over_several_indexes() {
    let mut db = temp_db();
    Index::new(&mut db, "one").index_class_tuples(&[tuple("A", "x"), tuple("A", "b")]).expect("a batch");
    Index::new(&mut db, "two").index_class_tuples(&[tuple("A", "a"), tuple("A", "b")]).expect("a batch");
    let msg = ClassMultiQueryArgs {
        index_names: names(&["two", "absent", "one"]),
        class_name: "A".to_string(),
    };
    match exec_class_multi_query(&mut db, &msg).expect("an answer") {
        ResponseMsg::ClassQueryResponse(args) => {
            assert_eq!(args.results.get("A"), Some(&names(&["a", "b", "x"])));
        }
        other => panic!("no class query response: {:?}", other),
    }
    let msg = PackageMultiEnumerateArgs {
        index_names: names(&["one", "two"]),
        package_name: "b".to_string(),
    };
    match exec_package_multi_enumerate_query(&mut db, &msg).expect("an answer") {
        ResponseMsg::PackageEnumerateQueryResponse(args) => {
            assert_eq!(args.results.into_entries(), vec![("b".to_string(), names(&["A"]))]);
        }
        other => panic!("no package query response: {:?}", other),
    }
}

#[test]
fn multi_query_over_no_index_answers_nothing() {
    let mut db = temp_db();
    let msg = ClassMultiQueryArgs { index_names: Vec::new(), class_name: "A".to_string() };
    match exec_class_multi_query(&mut db, &msg).expect("an answer") {
        ResponseMsg::ClassQueryResponse(args) => assert!(args.results.into_entries().is_empty()),
        other => panic!("no class query response: {:?}", other),
    }
}

#[test]
fn protocol_round_trip() {
    let mut db = temp_db();
    let reindex = ConnEvent::Frame(ChannelMsg(
        1,
        ClientMsg::ReindexClasspathCmd(reindex_args("t", "/lib/junit.jar")),
    ));
    let (state, action) = step(ConnState::Reading, reindex, &mut db);
    assert!(matches!(state, ConnState::Reindexing { id: 1 }));
    match action {
        ConnAction::Reindex(ReindexJob::Classpath(args)) => {
            assert_eq!(args, reindex_args("t", "/lib/junit.jar"));
            Index::new(&mut db, &args.index_name)
                .index_class_tuples(&[tuple("Timeout", "org.junit.rules")])
                .expect("a batch");
        }
        other => panic!("no reindex job: {:?}", other),
    }
    let (state, action) = step(state, ConnEvent::Reindexed(Ok(())), &mut db);
    assert!(matches!(state, ConnState::Writing));
    assert!(matches!(action, ConnAction::Write(ChannelResponse(1, ResponseMsg::NullResponse))));
    let (state, action) = step(state, ConnEvent::Written, &mut db);
    assert!(matches!(state, ConnState::Reading));
    assert!(matches!(action, ConnAction::Read));

    let (state, action) = step(state, class_query(2, "t", "Timeout"), &mut db);
    assert!(matches!(state, ConnState::Writing));
    assert_eq!(class_reply(action), (2, vec![("Timeout".to_string(), names(&["org.junit.rules"]))]));
    let (state, _) = step(state, ConnEvent::Written, &mut db);

    let (state, action) = step(state, ConnEvent::Frame(ChannelMsg(3, ClientMsg::ShutdownCmd)), &mut db);
    assert!(matches!(state, ConnState::Closed));
    assert!(matches!(action, ConnAction::Shutdown));
    let (state, action) = step(state, class_query(4, "t", "Timeout"), &mut db);
    assert!(matches!(state, ConnState::Closed));
    assert!(matches!(action, ConnAction::Close));
}

#[test]
fn correlation_multiplexing() {
    let mut db = temp_db();
    Index::new(&mut db, "t").index_class_tuples(&[tuple("A", "p"), tuple("B", "q")]).expect("a batch");
    let (state, first) = step(ConnState::Reading, class_query(5, "t", "A"), &mut db);
    let (state, _) = step(state, ConnEvent::Written, &mut db);
    let (_, second) = step(state, class_query(6, "t", "B"), &mut db);
    assert_eq!(class_reply(first), (5, vec![("A".to_string(), names(&["p"]))]));
    assert_eq!(class_reply(second), (6, vec![("B".to_string(), names(&["q"]))]));
}

#[test]
fn reply_carries_the_id_of_any_request() {
    let mut db = temp_db();
    for id in [0u32, 1, 7, u32::MAX] {
        let (_, action) = step(ConnState::Reading, class_query(id, "t", "A"), &mut db);
        assert_eq!(class_reply(action).0, id);
        let job = ConnEvent::Frame(ChannelMsg(id, ClientMsg::ReindexProjectCmd(reindex_args("t", "/src"))));
        let (state, action) = step(ConnState::Reading, job, &mut db);
        assert!(matches!(action, ConnAction::Reindex(ReindexJob::Project(_))));
        let (_, action) = step(state, ConnEvent::Reindexed(Ok(())), &mut db);
        match action {
            ConnAction::Write(ChannelResponse(echoed, ResponseMsg::NullResponse)) => assert_eq!(echoed, id),
            other => panic!("no reply: {:?}", other),
        }
    }
}

#[test]
fn failed_command_is_answered_with_an_error() {
    let mut db = temp_db();
    let job = ConnEvent::Frame(ChannelMsg(9, ClientMsg::ReindexPathCmd(reindex_args("t", "/nowhere"))));
    let (state, action) = step(ConnState::Reading, job, &mut db);
    assert!(matches!(action, ConnAction::Reindex(ReindexJob::Path(_))));
    let (state, action) = step(state, ConnEvent::Reindexed(Err("no such file".to_string())), &mut db);
    assert!(matches!(state, ConnState::Writing));
    match action {
        ConnAction::Write(ChannelResponse(9, ResponseMsg::ErrorResponse(args))) => {
            assert_eq!(args.message, "no such file")
        }
        other => panic!("no error reply: {:?}", other),
    }
    db.open_tree("t-class_pkgs").unwrap().insert("A", "no list").unwrap();
    let (state, action) = step(ConnState::Reading, class_query(10, "t", "A"), &mut db);
    assert!(matches!(state, ConnState::Writing));
    match action {
        ConnAction::Write(ChannelResponse(10, ResponseMsg::ErrorResponse(args))) => {
            assert!(!args.message.is_empty())
        }
        other => panic!("no error reply: {:?}", other),
    }
}

#[test]
fn connection_closes_on_end_of_stream_and_bad_frames() {
    let mut db = temp_db();
    let (state, action) = step(ConnState::Reading, ConnEvent::EndOfStream, &mut db);
    assert!(matches!((state, action), (ConnState::Closed, ConnAction::Close)));
    let (state, action) = step(ConnState::Reading, ConnEvent::BadFrame, &mut db);
    assert!(matches!((state, action), (ConnState::Closed, ConnAction::Close)));
    let (state, action) = step(ConnState::Writing, ConnEvent::WriteFailed, &mut db);
    assert!(matches!((state, action), (ConnState::Closed, ConnAction::Close)));
    let (state, action) = step(ConnState::Writing, ConnEvent::EndOfStream, &mut db);
    assert!(matches!((state, action), (ConnState::Closed, ConnAction::Close)));
    let (state, action) = step(ConnState::Reindexing { id: 1 }, ConnEvent::Written, &mut db);
    assert!(matches!((state, action), (ConnState::Closed, ConnAction::Close)));
    let (state, action) = step(ConnState::Reading, ConnEvent::Written, &mut db);
    assert!(matches!((state, action), (ConnState::Closed, ConnAction::Close)));
    let (state, action) = step(ConnState::Closed, ConnEvent::Written, &mut db);
    assert!(matches!((state, action), (ConnState::Closed, ConnAction::Close)));
}

#[test]
fn source_path_is_scanned_by_its_kind() {
    let magic = [0xda, 0xda, 0xfe, 0xca, 0, 0];
    assert_eq!(scan_kind(true, false, &[]), ScanKind::JarDirectory);
    assert_eq!(scan_kind(true, false, &magic), ScanKind::JarDirectory);
    assert_eq!(scan_kind(false, true, &magic), ScanKind::ModuleImage);
    assert_eq!(scan_kind(false, true, b"PK\x03\x04"), ScanKind::Classpath);
    assert_eq!(scan_kind(false, true, &[]), ScanKind::Classpath);
    assert_eq!(scan_kind(false, false, &[]), ScanKind::Classpath);
    assert_eq!(scan_kind(false, false, &magic), ScanKind::Classpath);
}

#[test]
fn serve_command_selects_the_transport() {
    assert!(matches!(
        transport(Some("-".to_string()), "/run/cpid/sock".to_string()),
        Transport::StandardStreams
    ));
    match transport(Some("/tmp/s".to_string()), "/run/cpid/sock".to_string()) {
        Transport::Socket(path) => assert_eq!(path, "/tmp/s"),
        other => panic!("no socket: {:?}", other),
    }
    match transport(None, "/run/cpid/sock".to_string()) {
        Transport::Socket(path) => assert_eq!(path, "/run/cpid/sock"),
        other => panic!("no socket: {:?}", other),
    }
    assert!(matches!(transport(None, "-".to_string()), Transport::StandardStreams));
}

#[test]
fn multi_query_over_no_index_is_answered_without_an_error() {
    let mut db = temp_db();
    let frame = ConnEvent::Frame(ChannelMsg(
        4,
        ClientMsg::PackageMultiEnumerateQuery(PackageMultiEnumerateArgs {
            index_names: Vec::new(),
            package_name: "p".to_string(),
        }),
    ));
    let (state, action) = step(ConnState::Reading, frame, &mut db);
    assert!(matches!(state, ConnState::Writing));
    match action {
        ConnAction::Write(ChannelResponse(4, ResponseMsg::PackageEnumerateQueryResponse(args))) => {
            assert!(args.results.into_entries().is_empty())
        }
        other => panic!("no package query reply: {:?}", other),
    }
}
