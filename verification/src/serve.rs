//! One client connection: what is done with each frame that arrives, and
//! when the connection ends.
//!
//! A connection reads one request, has it carried out, writes the reply and
//! reads again. Reading, writing and the filling of an index from files are
//! done by the caller, which reports back what happened.

use crate::error::IndexError;
use crate::jdk::{is_jimage_file, jimage_magic};
use crate::proto::{
    answered, exec_class_multi_query, exec_class_query, exec_package_enumerate_query,
    exec_package_multi_enumerate_query, ChannelMsg, ChannelResponse, ClientMsg, ErrorResponseArgs,
    ReindexArgs, ResponseMsg,
};
use crate::store::db_keyspaces;
use vstd::prelude::*;

verus! {

/// From what an index is to be filled.
#[derive(Debug)]
pub enum ReindexJob {
    /// From a directory of archives, a module image, or a class path,
    /// whichever the source turns out to be.
    Path(ReindexArgs),
    /// From a class path.
    Classpath(ReindexArgs),
    /// From a tree of source files.
    Project(ReindexArgs),
}

/// Where a connection stands.
#[derive(Debug)]
pub enum ConnState {
    /// Waiting for the next request.
    Reading,
    /// An index is being filled for the request with this correlation id.
    Reindexing { id: u32 },
    /// A reply is being written.
    Writing,
    /// The connection is over.
    Closed,
}

/// What happened on a connection.
#[derive(Debug)]
pub enum ConnEvent {
    /// A request arrived.
    Frame(ChannelMsg),
    /// What arrived is no request: the frame is malformed or its tag is
    /// unknown.
    BadFrame,
    /// The client sent all it had.
    EndOfStream,
    /// The index was filled, or could not be, for the reason given.
    Reindexed(Result<(), String>),
    /// The reply went out.
    Written,
    /// The reply could not be written.
    WriteFailed,
}

/// What is to be done next on a connection.
#[derive(Debug)]
pub enum ConnAction {
    /// Read the next request.
    Read,
    /// Write this reply.
    Write(ChannelResponse),
    /// Fill an index, and report how it went.
    Reindex(ReindexJob),
    /// Tell the server to stop accepting, and end the connection without a
    /// reply.
    Shutdown,
    /// End the connection.
    Close,
}

/// How a source path is scanned.
#[derive(Debug, PartialEq, Eq, Clone, Copy, Structural)]
pub enum ScanKind {
    JarDirectory,
    ModuleImage,
    Classpath,
}

/// How the source of a reindex-from-path command is scanned: a directory
/// for its archives, a file that begins as module images do as a module
/// image, and anything else as a class path. `header` holds the first bytes
/// of the file, and nothing where the source is no file.
pub fn scan_kind(is_directory: bool, is_file: bool, header: &[u8]) -> (kind: ScanKind)
    ensures
        kind == if is_directory {
            ScanKind::JarDirectory
        } else if is_file && header@.len() >= 4 && header@.take(4) == jimage_magic() {
            ScanKind::ModuleImage
        } else {
            ScanKind::Classpath
        },
{
    if is_directory {
        ScanKind::JarDirectory
    } else if is_file && is_jimage_file(header) {
        ScanKind::ModuleImage
    } else {
        ScanKind::Classpath
    }
}

/// Is this command answered from the store alone?
pub open spec fn is_query(command: ClientMsg) -> bool {
    command is ClassQuery || command is ClassMultiQuery || command is PackageEnumerateQuery
        || command is PackageMultiEnumerateQuery
}

/// The job that a reindex command asks for.
pub open spec fn job_of(command: ClientMsg) -> Option<ReindexJob> {
    match command {
        ClientMsg::ReindexPathCmd(args) => Some(ReindexJob::Path(args)),
        ClientMsg::ReindexClasspathCmd(args) => Some(ReindexJob::Classpath(args)),
        ClientMsg::ReindexProjectCmd(args) => Some(ReindexJob::Project(args)),
        _ => None,
    }
}

/// Where a connection stands after an event. An event that cannot happen
/// in a state ends the connection.
pub open spec fn next_state(state: ConnState, event: ConnEvent) -> ConnState {
    match (state, event) {
        (ConnState::Reading, ConnEvent::Frame(ChannelMsg(id, command))) => {
            if command is ShutdownCmd {
                ConnState::Closed
            } else if is_query(command) {
                ConnState::Writing
            } else {
                ConnState::Reindexing { id }
            }
        },
        (ConnState::Reindexing { id }, ConnEvent::Reindexed(_)) => ConnState::Writing,
        (ConnState::Writing, ConnEvent::Written) => ConnState::Reading,
        _ => ConnState::Closed,
    }
}

/// Does a query arrive, which is answered from the store?
pub open spec fn reads_store(state: ConnState, event: ConnEvent) -> bool {
    state is Reading && match event {
        ConnEvent::Frame(ChannelMsg(_, command)) => is_query(command),
        _ => false,
    }
}

/// Does a request arrive that asks the server to stop?
pub open spec fn asks_shutdown(state: ConnState, event: ConnEvent) -> bool {
    state is Reading && match event {
        ConnEvent::Frame(ChannelMsg(_, command)) => command is ShutdownCmd,
        _ => false,
    }
}

/// The reply to a request whose command was carried out with this outcome.
fn reply_to(id: u32, outcome: Result<ResponseMsg, IndexError>) -> (reply: ChannelResponse)
    ensures
        reply.0 == id,
        match outcome {
            Ok(response) => reply.1 == response,
            Err(_) => reply.1 is ErrorResponse,
        },
{
    match outcome {
        Ok(response) => ChannelResponse(id, response),
        Err(e) => ChannelResponse(
            id,
            ResponseMsg::ErrorResponse(ErrorResponseArgs { message: e.message() }),
        ),
    }
}

/// Takes a connection one step further: given where it stands and what
/// happened, says where it stands now and what is to be done. A query is
/// answered from the store on the way; its reply, like that of a reindex
/// command, carries the correlation id of its request.
pub fn step(state: ConnState, event: ConnEvent, db: &mut sled::Db) -> (next: (ConnState, ConnAction))
    ensures
        next.0 == next_state(state, event),
        reads_store(state, event) || *final(db) == *old(db),
        match next.0 {
            ConnState::Reading => next.1 is Read,
            ConnState::Reindexing { id } => {
                &&& event matches ConnEvent::Frame(ChannelMsg(from, command))
                &&& id == from
                &&& next.1 matches ConnAction::Reindex(job)
                &&& Some(job) == job_of(command)
            },
            ConnState::Writing => {
                &&& next.1 matches ConnAction::Write(reply)
                &&& match (state, event) {
                    (ConnState::Reading, ConnEvent::Frame(ChannelMsg(id, command))) => reply.0
                        == id && answered(
                        db_keyspaces(*old(db)),
                        db_keyspaces(*final(db)),
                        command,
                        reply.1,
                    ),
                    (ConnState::Reindexing { id }, ConnEvent::Reindexed(outcome)) => {
                        &&& reply.0 == id
                        &&& match outcome {
                            Ok(_) => reply.1 is NullResponse,
                            Err(reason) => reply.1 matches ResponseMsg::ErrorResponse(args)
                                && args.message == reason,
                        }
                    },
                    _ => false,
                }
            },
            ConnState::Closed => if asks_shutdown(state, event) {
                next.1 is Shutdown
            } else {
                next.1 is Close
            },
        },
{
    match state {
        ConnState::Reading => match event {
            ConnEvent::Frame(ChannelMsg(id, command)) => match command {
                ClientMsg::ShutdownCmd => (ConnState::Closed, ConnAction::Shutdown),
                ClientMsg::ClassQuery(args) => {
                    let reply = reply_to(id, exec_class_query(db, &args));
                    (ConnState::Writing, ConnAction::Write(reply))
                },
                ClientMsg::ClassMultiQuery(args) => {
                    let reply = reply_to(id, exec_class_multi_query(db, &args));
                    (ConnState::Writing, ConnAction::Write(reply))
                },
                ClientMsg::PackageEnumerateQuery(args) => {
                    let reply = reply_to(id, exec_package_enumerate_query(db, &args));
                    (ConnState::Writing, ConnAction::Write(reply))
                },
                ClientMsg::PackageMultiEnumerateQuery(args) => {
                    let reply = reply_to(id, exec_package_multi_enumerate_query(db, &args));
                    (ConnState::Writing, ConnAction::Write(reply))
                },
                ClientMsg::ReindexPathCmd(args) => (
                    ConnState::Reindexing { id },
                    ConnAction::Reindex(ReindexJob::Path(args)),
                ),
                ClientMsg::ReindexClasspathCmd(args) => (
                    ConnState::Reindexing { id },
                    ConnAction::Reindex(ReindexJob::Classpath(args)),
                ),
                ClientMsg::ReindexProjectCmd(args) => (
                    ConnState::Reindexing { id },
                    ConnAction::Reindex(ReindexJob::Project(args)),
                ),
            },
            _ => (ConnState::Closed, ConnAction::Close),
        },
        ConnState::Reindexing { id } => match event {
            ConnEvent::Reindexed(outcome) => {
                let response = match outcome {
                    Ok(_) => ResponseMsg::NullResponse,
                    Err(reason) => ResponseMsg::ErrorResponse(ErrorResponseArgs { message: reason }),
                };
                (ConnState::Writing, ConnAction::Write(ChannelResponse(id, response)))
            },
            _ => (ConnState::Closed, ConnAction::Close),
        },
        ConnState::Writing => match event {
            ConnEvent::Written => (ConnState::Reading, ConnAction::Read),
            _ => (ConnState::Closed, ConnAction::Close),
        },
        ConnState::Closed => (ConnState::Closed, ConnAction::Close),
    }
}

} // verus!
