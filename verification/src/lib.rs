//! An index of Java class paths: which packages declare a class, and which
//! classes a package holds.
//!
//! The index lives in a `sled` store ([`indexes`], over [`store`]). It is
//! filled from the entry names of archives, from the listing of a module
//! image and from the syntax trees of source files ([`ingest`],
//! [`project`]), and it is asked over a line protocol ([`proto`],
//! [`serve`]). Reading files, sockets and the command line is left to the
//! program around this library.

pub mod cli;
pub mod error;
pub mod indexes;
pub mod ingest;
pub mod jdk;
pub mod json;
pub mod lists;
pub mod patterns;
pub mod project;
pub mod proto;
pub mod results;
pub mod serve;
pub mod store;
pub mod text;
