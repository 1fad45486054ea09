//! Errors produced by the engine.
//!
//! Errors that come from outside crates carry their message.

use vstd::prelude::*;
use crate::text::{owned, push_str};

verus! {

/// All errors produced by the engine.
#[derive(Debug, Clone, PartialEq, Eq)]
pub enum Error {
    Config(String),
    Io(String),
    ObjectStore(String),
    ObjectStorePath(String),
    Journal(String),
    JournalTx(String),
    JournalCommit(String),
    JournalTable(String),
    JournalStorage(String),
    Keyring(String),
    NonUtf8Path,
    Walkdir(String),
    Notify(String),
    Tantivy(String),
    Serde(String),
    Paused,
    Other(String),
}

/// The message that an error displays.
pub open spec fn error_message(e: Error) -> Seq<char> {
    match e {
        Error::Config(m) => "config error: "@ + m@,
        Error::Io(m) => "io error: "@ + m@,
        Error::ObjectStore(m) => "object store error: "@ + m@,
        Error::ObjectStorePath(m) => "object store path error: "@ + m@,
        Error::Journal(m) => "journal (redb) error: "@ + m@,
        Error::JournalTx(m) => "journal transaction error: "@ + m@,
        Error::JournalCommit(m) => "journal commit error: "@ + m@,
        Error::JournalTable(m) => "journal table error: "@ + m@,
        Error::JournalStorage(m) => "journal storage error: "@ + m@,
        Error::Keyring(m) => "keyring error: "@ + m@,
        Error::NonUtf8Path => "invalid path: not valid UTF-8"@,
        Error::Walkdir(m) => "walkdir error: "@ + m@,
        Error::Notify(m) => "notify (watch) error: "@ + m@,
        Error::Tantivy(m) => "search index (tantivy) error: "@ + m@,
        Error::Serde(m) => "serialization error: "@ + m@,
        Error::Paused => "sync is paused"@,
        Error::Other(m) => m@,
    }
}

fn prefixed(prefix: &str, m: &String) -> (r: String)
    ensures
        r@ == prefix@ + m@,
{
    let mut s = owned(prefix);
    push_str(&mut s, m.as_str());
    s
}

impl Error {
    /// An error with a free-form message.
    pub fn other(msg: &str) -> (e: Error)
        ensures
            e matches Error::Other(m) && m@ == msg@,
    {
        Error::Other(owned(msg))
    }

    /// The message this error displays.
    pub fn message(&self) -> (s: String)
        ensures
            s@ == error_message(*self),
    {
        match self {
            Error::Config(m) => prefixed("config error: ", m),
            Error::Io(m) => prefixed("io error: ", m),
            Error::ObjectStore(m) => prefixed("object store error: ", m),
            Error::ObjectStorePath(m) => prefixed("object store path error: ", m),
            Error::Journal(m) => prefixed("journal (redb) error: ", m),
            Error::JournalTx(m) => prefixed("journal transaction error: ", m),
            Error::JournalCommit(m) => prefixed("journal commit error: ", m),
            Error::JournalTable(m) => prefixed("journal table error: ", m),
            Error::JournalStorage(m) => prefixed("journal storage error: ", m),
            Error::Keyring(m) => prefixed("keyring error: ", m),
            Error::NonUtf8Path => owned("invalid path: not valid UTF-8"),
            Error::Walkdir(m) => prefixed("walkdir error: ", m),
            Error::Notify(m) => prefixed("notify (watch) error: ", m),
            Error::Tantivy(m) => prefixed("search index (tantivy) error: ", m),
            Error::Serde(m) => prefixed("serialization error: ", m),
            Error::Paused => owned("sync is paused"),
            Error::Other(m) => m.clone(),
        }
    }
}

} // verus!
