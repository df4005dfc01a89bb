//! The commands of the command line, as plain values.

use crate::text::same_text;
use vstd::prelude::*;

verus! {

/// What the command line asks for.
#[derive(Clone, Debug)]
pub struct CmdLineArgs {
    pub command: Commands,
}

/// The commands.
#[derive(Clone, Debug)]
pub enum Commands {
    /// The packages of a class.
    ClsQuery { index_name: String, class_name: String },
    /// The classes of a package.
    PkgEnum { index_name: String, package_name: String },
    /// Delete an index.
    DropIndex { index_name: String },
    /// Fill an index.
    Reindex { reindex_command: ReindexCommands },
    /// List the indexes.
    Indexes,
    /// List the keys of an index.
    Enumerate { index_name: String },
    /// Serve clients, on a socket or on the standard streams.
    Serve { socket_path: Option<String> },
}

/// From what an index is filled.
#[derive(Clone, Debug)]
pub enum ReindexCommands {
    Classpath { index_name: String, classpath_expr: String },
    JarDir { index_name: String, jar_dir: String },
    JImage { index_name: String, image_file: String },
    Project { index_name: String, src_dir: String },
}

/// Over what clients are served.
#[derive(Debug)]
pub enum Transport {
    /// One client, on standard input and standard output.
    StandardStreams,
    /// Any number of clients, on the socket at this path.
    Socket(String),
}

/// The transport that a serve command selects: the socket at the path
/// given, or at the default path where none is given; the path `-` selects
/// the standard streams.
pub fn transport(socket_path: Option<String>, default_path: String) -> (t: Transport)
    ensures
        ({
            let path = match socket_path {
                Some(path) => path,
                None => default_path,
            };
            if path@ == "-"@ {
                t is StandardStreams
            } else {
                t == Transport::Socket(path)
            }
        }),
{
    let path = match socket_path {
        Some(path) => path,
        None => default_path,
    };
    if same_text(path.as_str(), "-") {
        Transport::StandardStreams
    } else {
        Transport::Socket(path)
    }
}

} // verus!
